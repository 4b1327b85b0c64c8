//! Loading the plugins that a workspace depends on, step by step.

use steel::steel_vm::engine::Engine;
use vstd::prelude::*;

use super::activation::{can_be_present, finished, load_begun, load_outcome, message_of, module_source, require_text, WorkView};
use super::forms::plain_forms;
use super::loading::{
    after_initializer, after_modules, dependency_begun, next_initializer, Activation, ActivationView, Initializing, Running,
};
use super::local_dependencies::{
    commands_noted, dependencies_of, introduced, parse_local_dependencies, plan_of, plan_refusal, LocalMaterialization,
    PlanView,
};
use super::reader::plain_if_readable;
use super::registration::{loaded, materialized};
use super::state::{LazyError, LogicalStrategy, Registry, RegistryView, StateView};
use crate::text::{quoted, string_views};

verus! {

broadcast use vstd::string::group_string_axioms;

/// A dependency and what is left to do for it.
pub struct Planned {
    pub dependency: String,
    pub plan: LocalMaterialization,
}

/// The dependencies that are left, and the commands that were bound before any
/// of them was loaded.
pub struct Materialization {
    pub rest: Vec<Planned>,
    pub before: Vec<String>,
}

/// The contents of a [`Materialization`].
pub struct MaterializationView {
    pub rest: Seq<(Seq<char>, PlanView)>,
    pub before: Seq<Seq<char>>,
}

pub open spec fn planned_views(rest: Seq<Planned>) -> Seq<(Seq<char>, PlanView)> {
    Seq::new(rest.len(), |i: int| (rest[i].dependency@, rest[i].plan@))
}

impl View for Materialization {
    type V = MaterializationView;

    open spec fn view(&self) -> MaterializationView {
        MaterializationView { rest: planned_views(self.rest@), before: string_views(self.before@) }
    }
}

impl MaterializationView {
    /// Without the first dependency.
    pub open spec fn without_first(self) -> MaterializationView {
        MaterializationView { rest: self.rest.drop_first(), ..self }
    }

    /// With other manifests left for the first dependency.
    pub open spec fn with_manifests(self, manifests: Seq<Seq<char>>) -> MaterializationView {
        MaterializationView { rest: self.rest.update(0, (self.rest[0].0, PlanView::Lazy(manifests))), ..self }
    }

    /// How many manifests are left for the first dependency.
    pub open spec fn manifests_left(self) -> nat {
        if self.rest.len() == 0 {
            0
        } else {
            match self.rest[0].1 {
                PlanView::Lazy(manifests) => manifests.len(),
                _ => 0,
            }
        }
    }
}

/// What is being waited for.
pub enum Wait {
    /// The eager modules of a dependency.
    Modules(String),
    /// The modules of a plugin.
    Plugin(Running),
    /// An initializer of a plugin.
    Initializer(Initializing),
}

/// The contents of a [`Wait`].
pub enum WaitView {
    Modules(Seq<char>),
    Plugin(Seq<char>),
    Initializer { plugin: Seq<char>, rest: Seq<Seq<char>> },
}

impl View for Wait {
    type V = WaitView;

    open spec fn view(&self) -> WaitView {
        match self {
            Wait::Modules(dependency) => WaitView::Modules(dependency@),
            Wait::Plugin(next) => WaitView::Plugin(next.plugin@),
            Wait::Initializer(next) => WaitView::Initializer { plugin: next.plugin@, rest: string_views(next.rest@) },
        }
    }
}

/// What is being waited for, and what is left after it.
pub struct Pending {
    pub wait: Wait,
    pub left: Materialization,
}

/// What has to be done next so that the dependencies get loaded.
pub enum Materialize {
    /// A program has to be compiled and run. [`Registry::materialize_step`] goes
    /// on.
    Run { program: String, next: Pending },
    /// The global of this name has to be called without arguments.
    /// [`Registry::materialize_step`] goes on.
    Initialize { function: String, next: Pending },
    /// All dependencies are loaded. [`Registry::finish_materialization`] takes
    /// the commands that were bound before.
    Done { before: Vec<String> },
    /// There are no dependencies.
    Nothing,
    Failed(LazyError),
}

/// The contents of a [`Materialize`].
pub enum MaterializeView {
    Run { program: Seq<char>, wait: WaitView, left: MaterializationView },
    Initialize { function: Seq<char>, wait: WaitView, left: MaterializationView },
    Done { before: Seq<Seq<char>> },
    Nothing,
    Failed(Seq<char>),
}

impl View for Materialize {
    type V = MaterializeView;

    open spec fn view(&self) -> MaterializeView {
        match self {
            Materialize::Run { program, next } => MaterializeView::Run {
                program: program@,
                wait: next.wait@,
                left: next.left@,
            },
            Materialize::Initialize { function, next } => MaterializeView::Initialize {
                function: function@,
                wait: next.wait@,
                left: next.left@,
            },
            Materialize::Done { before } => MaterializeView::Done { before: string_views(before@) },
            Materialize::Nothing => MaterializeView::Nothing,
            Materialize::Failed(error) => MaterializeView::Failed(error.message@),
        }
    }
}

/// What follows for the dependencies that are left: those that are loaded
/// already are passed over, and the first one that is not is begun with.
pub open spec fn materialize_on(registry: RegistryView, left: MaterializationView) -> (RegistryView, MaterializeView)
    decreases left.rest.len(), left.manifests_left(),
{
    if left.rest.len() == 0 {
        (registry, MaterializeView::Done { before: left.before })
    } else {
        match left.rest[0].1 {
            PlanView::AlreadyLoaded => materialize_on(registry, left.without_first()),
            PlanView::Eager(modules) => (
                registry,
                MaterializeView::Run {
                    program: require_text(modules),
                    wait: WaitView::Modules(left.rest[0].0),
                    left: left.without_first(),
                },
            ),
            PlanView::Lazy(manifests) => if manifests.len() == 0 {
                materialize_on(registry, left.without_first())
            } else {
                let next = left.with_manifests(manifests.drop_first());
                match dependency_begun(registry, manifests[0]) {
                    (after, ActivationView::Ready) => materialize_on(after, next),
                    (after, step) => waiting_for(after, next, step),
                }
            },
        }
    }
}

/// What is waited for while a plugin is being loaded. A plugin that is depended
/// on is loaded from its modules, never from a compiled program.
pub open spec fn waiting_for(registry: RegistryView, left: MaterializationView, step: ActivationView) -> (
    RegistryView,
    MaterializeView,
) {
    match step {
        ActivationView::Run { program, plugin } => (
            registry,
            MaterializeView::Run { program, wait: WaitView::Plugin(plugin), left },
        ),
        ActivationView::Initialize { function, plugin, rest } => (
            registry,
            MaterializeView::Initialize { function, wait: WaitView::Initializer { plugin, rest }, left },
        ),
        ActivationView::Failed(message) => (registry, MaterializeView::Failed(message)),
        _ => (registry, MaterializeView::Nothing),
    }
}

/// What follows a step in loading one plugin.
pub open spec fn follow(step: (RegistryView, ActivationView), left: MaterializationView) -> (RegistryView, MaterializeView) {
    match step.1 {
        ActivationView::Ready => materialize_on(step.0, left),
        other => waiting_for(step.0, left, other),
    }
}

/// The dependency is gone from the registry.
pub open spec fn dependency_gone(dependency: Seq<char>) -> Seq<char> {
    "local plugin dependency "@ + quoted(dependency) + " disappeared during engine reload"@
}

/// What follows once what was waited for has ended with this error, or without
/// one.
pub open spec fn materialize_next(
    registry: RegistryView,
    wait: WaitView,
    left: MaterializationView,
    error: Option<Seq<char>>,
) -> (RegistryView, MaterializeView) {
    match wait {
        WaitView::Modules(dependency) => match error {
            Some(message) => (registry, MaterializeView::Failed(message)),
            None => match registry.logical_at(dependency) {
                Some(_) => materialize_on(introduced(registry, dependency), left),
                None => (registry, MaterializeView::Failed(dependency_gone(dependency))),
            },
        },
        WaitView::Plugin(plugin) => follow(after_modules(registry, plugin, error), left),
        WaitView::Initializer { plugin, rest } => follow(after_initializer(registry, plugin, rest, error), left),
    }
}

/// The dependencies, each with its plan.
pub open spec fn planned(registry: RegistryView, ids: Seq<Seq<char>>) -> Seq<(Seq<char>, PlanView)> {
    Seq::new(ids.len(), |i: int| (ids[i], plan_of(registry, ids[i])->Ok_0))
}

/// What loading the dependencies begins with: all of them are looked up before
/// any of them is loaded.
pub open spec fn materialize_begun(registry: RegistryView, ids: Seq<Seq<char>>, before: Seq<Seq<char>>) -> (
    RegistryView,
    MaterializeView,
) {
    if ids.len() == 0 {
        (registry, MaterializeView::Nothing)
    } else {
        match plan_refusal(registry, ids, 0) {
            Some(message) => (registry, MaterializeView::Failed(message)),
            None => materialize_on(registry, MaterializationView { rest: planned(registry, ids), before }),
        }
    }
}

impl Registry {
    /// Begins with the dependencies that are left.
    fn materialize_left(&mut self, left: Materialization) -> (out: Materialize)
        requires
            old(self).wf(),
        ensures
            final(self).wf(),
            (final(self)@, out@) == materialize_on(old(self)@, left@),
        decreases left@.rest.len(), left@.manifests_left(),
    {
        let ghost view = left@;
        let mut left = left;
        if left.rest.len() == 0 {
            return Materialize::Done { before: left.before };
        }
        let first = left.rest.remove(0);
        proof {
            assert(planned_views(left.rest@) =~= view.rest.drop_first());
            assert(view.rest[0] == (first.dependency@, first.plan@));
            assert(left@ == view.without_first());
        }
        match first.plan {
            LocalMaterialization::AlreadyLoaded => self.materialize_left(left),
            LocalMaterialization::Eager(modules) => Materialize::Run {
                program: module_source(&modules),
                next: Pending { wait: Wait::Modules(first.dependency), left },
            },
            LocalMaterialization::Lazy(manifests) => {
                let ghost all = string_views(manifests@);
                let mut manifests = manifests;
                if manifests.len() == 0 {
                    return self.materialize_left(left);
                }
                let manifest = manifests.remove(0);
                proof {
                    assert(string_views(manifests@) =~= all.drop_first());
                    assert(all[0] == manifest@);
                }
                left.rest.insert(0, Planned { dependency: first.dependency, plan: LocalMaterialization::Lazy(manifests) });
                proof {
                    assert(left@.rest =~= view.with_manifests(all.drop_first()).rest);
                    assert(left@ == view.with_manifests(all.drop_first()));
                    assert(left@.manifests_left() == all.len() - 1);
                    assert(view.manifests_left() == all.len());
                }
                let step = self.activate_plugin(manifest.as_str());
                match step {
                    Activation::Ready => self.materialize_left(left),
                    other => wait_for(left, other),
                }
            },
        }
    }

    /// Goes on once what was waited for has ended.
    pub fn materialize_step(&mut self, pending: Pending, result: Result<(), LazyError>) -> (out: Materialize)
        requires
            old(self).wf(),
        ensures
            final(self).wf(),
            (final(self)@, out@) == materialize_next(old(self)@, pending.wait@, pending.left@, message_of(result)),
    {
        let left = pending.left;
        let step = match pending.wait {
            Wait::Modules(dependency) => {
                if let Err(error) = result {
                    return Materialize::Failed(error);
                }
                return match self.introduce(dependency.as_str()) {
                    Ok(()) => self.materialize_left(left),
                    Err(error) => Materialize::Failed(error),
                };
            },
            Wait::Plugin(next) => self.modules_ran(next, result),
            Wait::Initializer(next) => self.initializer_called(next, result),
        };
        match step {
            Activation::Ready => self.materialize_left(left),
            other => wait_for(left, other),
        }
    }

    /// Begins to load the dependencies. `before` are the commands that are bound
    /// already.
    pub fn materialize_dependencies(&mut self, ids: Vec<String>, before: Vec<String>) -> (out: Materialize)
        requires
            old(self).wf(),
        ensures
            final(self).wf(),
            (final(self)@, out@) == materialize_begun(old(self)@, string_views(ids@), string_views(before@)),
    {
        let ghost all = string_views(ids@);
        if ids.len() == 0 {
            return Materialize::Nothing;
        }
        let mut plans = match self.plan_dependencies(&ids) {
            Ok(plans) => plans,
            Err(error) => {
                return Materialize::Failed(error);
            },
        };
        let ghost every = plans@;
        let mut rest: Vec<Planned> = Vec::new();
        let mut i: usize = 0;
        proof {
            assert(every.subrange(0, every.len() as int) =~= every);
        }
        while i < ids.len()
            invariant
                i <= ids@.len(),
                all == string_views(ids@),
                every.len() == ids@.len(),
                plans@ == every.subrange(i as int, every.len() as int),
                forall|k: int|
                    0 <= k < ids@.len() ==> Ok::<PlanView, Seq<char>>((#[trigger] every[k])@) == plan_of(self@, ids@[k]@),
                rest@.len() == i,
                forall|k: int|
                    0 <= k < i ==> (#[trigger] rest@[k]).dependency@ == all[k] && rest@[k].plan@ == plan_of(self@, all[k])->Ok_0,
            decreases ids.len() - i,
        {
            let plan = plans.remove(0);
            proof {
                assert(plan == every[i as int]);
                assert(all[i as int] == ids@[i as int]@);
                assert(plans@ =~= every.subrange(i + 1, every.len() as int));
            }
            rest.push(Planned { dependency: ids[i].clone(), plan });
            i += 1;
        }
        let left = Materialization { rest, before };
        proof {
            assert(left@.rest =~= planned(self@, all));
        }
        self.materialize_left(left)
    }

    /// Begins to load the plugins that a workspace depends on.
    pub fn materialize_local_dependencies(&mut self, engine: &Engine, source: &str, path: &str) -> (out: Materialize)
        requires
            old(self).wf(),
        ensures
            final(self).wf(),
            match dependencies_of(path@, plain_if_readable(source@, plain_forms(source@))) {
                Err(message) => final(self)@ == old(self)@ && out@ == MaterializeView::Failed(message),
                Ok(ids) => exists|before: Seq<Seq<char>>| #[trigger]
                    can_be_present(*engine, old(self)@.command_names(), old(self)@.command_names().len() as int, before) && (
                    final(self)@,
                    out@,
                ) == materialize_begun(old(self)@, ids, before),
            },
    {
        let ids = match parse_local_dependencies(source, path) {
            Ok(ids) => ids,
            Err(error) => {
                return Materialize::Failed(error);
            },
        };
        let before = self.bound_commands(engine);
        self.materialize_dependencies(ids, before)
    }

    /// Remembers the commands that are bound now and were not before.
    pub fn finish_materialization(&mut self, engine: &Engine, before: &Vec<String>)
        requires
            old(self).wf(),
        ensures
            final(self).wf(),
            exists|now: Seq<Seq<char>>| #[trigger]
                can_be_present(*engine, old(self)@.command_names(), old(self)@.command_names().len() as int, now)
                    && final(self)@ == commands_noted(old(self)@, string_views(before@), now),
    {
        let ghost first = self@;
        let now = self.bound_commands(engine);
        self.note_local_commands(before, &now);
        proof {
            assert(self@.plugin_names() =~= first.plugin_names());
            assert(self@.logical_names() =~= first.logical_names());
            assert(self@.command_names() =~= first.command_names());
            super::registration::lemma_logical_wf(first, self@);
        }
    }
}

/// Waits for a step in loading a plugin.
fn wait_for(left: Materialization, step: Activation) -> (out: Materialize)
    ensures
        forall|registry: RegistryView| (registry, out@) == #[trigger] waiting_for(registry, left@, step@),
{
    match step {
        Activation::Run { program, running } => Materialize::Run {
            program,
            next: Pending { wait: Wait::Plugin(running), left },
        },
        Activation::Initialize { function, initializing } => Materialize::Initialize {
            function,
            next: Pending { wait: Wait::Initializer(initializing), left },
        },
        Activation::Failed(error) => Materialize::Failed(error),
        _ => Materialize::Nothing,
    }
}

/// Whether one registry is another one with more in it: plugins were registered
/// or loaded, or marked to be eager, and nothing was taken away.
pub open spec fn grows(before: RegistryView, after: RegistryView) -> bool {
    &&& before.plugins.len() <= after.plugins.len()
    &&& forall|i: int|
        0 <= i < before.plugins.len() ==> (#[trigger] after.plugins[i]).name == before.plugins[i].name && (
        before.plugins[i].state is Loaded ==> after.plugins[i].state is Loaded) && (before.plugins[i].state is Activating
            ==> after.plugins[i].state is Activating)
    &&& before.logical_plugins.len() <= after.logical_plugins.len()
    &&& forall|i: int|
        0 <= i < before.logical_plugins.len() ==> (#[trigger] after.logical_plugins[i]).name == before.logical_plugins[i].name
            && after.logical_plugins[i].manifests == before.logical_plugins[i].manifests && (after.logical_plugins[i].strategy
            == before.logical_plugins[i].strategy || after.logical_plugins[i].strategy == Some(LogicalStrategy::Eager))
}

proof fn lemma_same_place(before: Seq<Seq<char>>, after: Seq<Seq<char>>, name: Seq<char>)
    requires
        before.len() <= after.len(),
        forall|i: int| 0 <= i < before.len() ==> #[trigger] after[i] == before[i],
        crate::text::find_name(before, name, 0) is Some,
    ensures
        crate::text::find_name(after, name, 0) == crate::text::find_name(before, name, 0),
{
    crate::text::lemma_find_name(before, name, 0);
    crate::text::lemma_find_name(after, name, 0);
    let i = crate::text::find_name(before, name, 0)->0;
    assert(after[i] == name);
    let k = crate::text::find_name(after, name, 0)->0;
    if k < i {
        assert(before[k] == after[k]);
    }
}

/// What is in a registry stays where it is.
proof fn lemma_grown(before: RegistryView, after: RegistryView, name: Seq<char>)
    requires
        grows(before, after),
    ensures
        before.plugin_at(name) is Some ==> after.plugin_at(name) == before.plugin_at(name) && 0 <= before.plugin_at(name)->0
            < before.plugins.len(),
        before.logical_at(name) is Some ==> after.logical_at(name) == before.logical_at(name) && 0 <= before.logical_at(name)->0
            < before.logical_plugins.len(),
        loaded(before, name) ==> loaded(after, name),
{
    if before.plugin_at(name) is Some {
        crate::text::lemma_find_name(before.plugin_names(), name, 0);
        assert forall|i: int| 0 <= i < before.plugin_names().len() implies #[trigger] after.plugin_names()[i]
            == before.plugin_names()[i] by {
            assert(after.plugins[i].name == before.plugins[i].name);
        }
        lemma_same_place(before.plugin_names(), after.plugin_names(), name);
        assert(after.plugins[before.plugin_at(name)->0].name == name);
    }
    if before.logical_at(name) is Some {
        crate::text::lemma_find_name(before.logical_names(), name, 0);
        assert forall|i: int| 0 <= i < before.logical_names().len() implies #[trigger] after.logical_names()[i]
            == before.logical_names()[i] by {
            assert(after.logical_plugins[i].name == before.logical_plugins[i].name);
        }
        lemma_same_place(before.logical_names(), after.logical_names(), name);
    }
}

/// What was materialized stays so while the registry grows.
pub proof fn law_materialized_plugins_stay(before: RegistryView, after: RegistryView, name: Seq<char>)
    requires
        grows(before, after),
        materialized(before, name),
    ensures
        materialized(after, name),
{
    lemma_grown(before, after, name);
    let at = before.logical_at(name)->0;
    assert(after.logical_plugins[at].manifests == before.logical_plugins[at].manifests);
    let manifests = before.logical_plugins[at].manifests;
    if after.logical_plugins[at].strategy != Some(LogicalStrategy::Eager) {
        assert forall|i: int| 0 <= i < manifests.len() implies loaded(after, #[trigger] manifests[i]) by {
            assert(loaded(before, manifests[i]));
            lemma_grown(before, after, manifests[i]);
        }
    }
}

/// Registration makes the registry grow, unless it adds a manifest to a logical
/// plugin that is there.
pub proof fn law_registration_grows(registry: RegistryView, request: super::registration::Request)
    requires
        registry.logical_at(request.logical_name) is None,
    ensures
        grows(registry, super::registration::after_registration(registry, request)),
{
}

/// The plugin that is being loaded.
pub open spec fn busy(wait: WaitView) -> Option<Seq<char>> {
    match wait {
        WaitView::Modules(_) => None,
        WaitView::Plugin(plugin) => Some(plugin),
        WaitView::Initializer { plugin, .. } => Some(plugin),
    }
}

/// Whether doing what is left by the plan materializes a dependency, once the
/// busy plugin is loaded.
pub open spec fn plan_stands(registry: RegistryView, dependency: Seq<char>, plan: PlanView, busy: Option<Seq<char>>) -> bool {
    match plan {
        PlanView::AlreadyLoaded => materialized(registry, dependency),
        PlanView::Eager(_) => true,
        PlanView::Lazy(left) => {
            let manifests = registry.logical_plugins[registry.logical_at(dependency)->0].manifests;
            &&& registry.logical_at(dependency) is Some
            &&& registry.logical_plugins[registry.logical_at(dependency)->0].strategy is Some
            &&& manifests.len() > 0
            &&& forall|i: int|
                0 <= i < manifests.len() ==> loaded(registry, #[trigger] manifests[i]) || left.contains(manifests[i]) || busy == Some(
                    manifests[i],
                )
        },
    }
}

/// Whether a dependency is loaded or will be.
pub open spec fn provided_for(registry: RegistryView, id: Seq<char>, left: MaterializationView, busy: Option<Seq<char>>) -> bool {
    materialized(registry, id) || exists|k: int|
        0 <= k < left.rest.len() && (#[trigger] left.rest[k]).0 == id && plan_stands(registry, id, left.rest[k].1, busy)
}

/// Whether all dependencies are loaded, or will be once what is waited for has
/// ended and what is left is done.
pub open spec fn all_provided(registry: RegistryView, ids: Seq<Seq<char>>, wait: WaitView, left: MaterializationView) -> bool {
    &&& busy(wait) matches Some(plugin) ==> registry.plugin_at(plugin) is Some && registry.plugins[registry.plugin_at(
        plugin,
    )->0].state is Activating
    &&& forall|i: int|
        0 <= i < ids.len() ==> provided_for(registry, #[trigger] ids[i], left, busy(wait)) || wait == WaitView::Modules(ids[i])
}

/// Whether a step keeps the promise to load all dependencies.
pub open spec fn on_track(registry: RegistryView, ids: Seq<Seq<char>>, step: MaterializeView) -> bool {
    match step {
        MaterializeView::Run { wait, left, .. } => all_provided(registry, ids, wait, left),
        MaterializeView::Initialize { wait, left, .. } => all_provided(registry, ids, wait, left),
        MaterializeView::Done { .. } => forall|i: int| 0 <= i < ids.len() ==> materialized(registry, #[trigger] ids[i]),
        MaterializeView::Nothing => ids.len() == 0,
        MaterializeView::Failed(_) => true,
    }
}

proof fn lemma_stands_grown(
    before: RegistryView,
    after: RegistryView,
    dependency: Seq<char>,
    plan: PlanView,
    busy: Option<Seq<char>>,
    now: Option<Seq<char>>,
)
    requires
        grows(before, after),
        plan_stands(before, dependency, plan, busy),
        busy == now || busy is None || now is None && loaded(after, busy->0),
    ensures
        plan_stands(after, dependency, plan, now),
{
    lemma_grown(before, after, dependency);
    match plan {
        PlanView::AlreadyLoaded => {
            law_materialized_plugins_stay(before, after, dependency);
        },
        PlanView::Eager(_) => {},
        PlanView::Lazy(left) => {
            let at = before.logical_at(dependency)->0;
            assert(after.logical_plugins[at].manifests == before.logical_plugins[at].manifests);
            let manifests = before.logical_plugins[at].manifests;
            assert forall|i: int| 0 <= i < manifests.len() implies loaded(after, #[trigger] manifests[i]) || left.contains(
                manifests[i],
            ) || now == Some(manifests[i]) by {
                lemma_grown(before, after, manifests[i]);
            }
        },
    }
}

proof fn lemma_provided_grown(
    before: RegistryView,
    after: RegistryView,
    id: Seq<char>,
    left: MaterializationView,
    busy: Option<Seq<char>>,
    now: Option<Seq<char>>,
)
    requires
        grows(before, after),
        provided_for(before, id, left, busy),
        busy == now || busy is None || now is None && loaded(after, busy->0),
    ensures
        provided_for(after, id, left, now),
{
    if materialized(before, id) {
        law_materialized_plugins_stay(before, after, id);
    } else {
        let k = choose|k: int|
            0 <= k < left.rest.len() && (#[trigger] left.rest[k]).0 == id && plan_stands(before, id, left.rest[k].1, busy);
        lemma_stands_grown(before, after, id, left.rest[k].1, busy, now);
        assert(left.rest[k].0 == id);
    }
}

/// The promise is kept while the registry grows between two steps.
pub proof fn law_growth_keeps_the_track(before: RegistryView, after: RegistryView, ids: Seq<Seq<char>>, step: MaterializeView)
    requires
        grows(before, after),
        on_track(before, ids, step),
    ensures
        on_track(after, ids, step),
{
    match step {
        MaterializeView::Run { wait, left, .. } => {
            lemma_all_provided_grown(before, after, ids, wait, left);
        },
        MaterializeView::Initialize { wait, left, .. } => {
            lemma_all_provided_grown(before, after, ids, wait, left);
        },
        MaterializeView::Done { .. } => {
            assert forall|i: int| 0 <= i < ids.len() implies materialized(after, #[trigger] ids[i]) by {
                law_materialized_plugins_stay(before, after, ids[i]);
            }
        },
        _ => {},
    }
}

proof fn lemma_all_provided_grown(
    before: RegistryView,
    after: RegistryView,
    ids: Seq<Seq<char>>,
    wait: WaitView,
    left: MaterializationView,
)
    requires
        grows(before, after),
        all_provided(before, ids, wait, left),
    ensures
        all_provided(after, ids, wait, left),
{
    if let Some(plugin) = busy(wait) {
        lemma_grown(before, after, plugin);
        assert(after.plugins[before.plugin_at(plugin)->0].state is Activating);
    }
    assert forall|i: int| 0 <= i < ids.len() implies provided_for(after, #[trigger] ids[i], left, busy(wait)) || wait
        == WaitView::Modules(ids[i]) by {
        if provided_for(before, ids[i], left, busy(wait)) {
            lemma_provided_grown(before, after, ids[i], left, busy(wait), busy(wait));
        }
    }
}

/// A plugin that ends its activation is no longer busy. All else stays.
proof fn lemma_finished_provides(
    registry: RegistryView,
    plugin: Seq<char>,
    ids: Seq<Seq<char>>,
    left: MaterializationView,
)
    requires
        registry.wf(),
        registry.plugin_at(plugin) is Some,
        registry.plugins[registry.plugin_at(plugin)->0].state is Activating,
        forall|i: int| 0 <= i < ids.len() ==> provided_for(registry, #[trigger] ids[i], left, Some(plugin)),
    ensures
        finished(registry, plugin, StateView::Loaded).wf(),
        forall|i: int|
            0 <= i < ids.len() ==> provided_for(finished(registry, plugin, StateView::Loaded), #[trigger] ids[i], left, None),
{
    let at = registry.plugin_at(plugin)->0;
    crate::text::lemma_find_name(registry.plugin_names(), plugin, 0);
    let after = registry.with_state(at, StateView::Loaded);
    super::state::lemma_with_state(registry, at, StateView::Loaded);
    assert(loaded(after, plugin));
    assert forall|name: Seq<char>| #[trigger] loaded(registry, name) implies loaded(after, name) by {
        crate::text::lemma_find_name(registry.plugin_names(), name, 0);
    }
    assert forall|i: int| 0 <= i < ids.len() implies provided_for(after, #[trigger] ids[i], left, None) by {
        lemma_more_loaded(registry, after, ids[i], left, Some(plugin));
    }
}

/// With the same logical plugins and more plugins loaded, what was provided for
/// still is.
proof fn lemma_more_loaded(
    before: RegistryView,
    after: RegistryView,
    id: Seq<char>,
    left: MaterializationView,
    busy: Option<Seq<char>>,
)
    requires
        after.logical_plugins == before.logical_plugins,
        forall|name: Seq<char>| #[trigger] loaded(before, name) ==> loaded(after, name),
        busy matches Some(plugin) ==> loaded(after, plugin),
        provided_for(before, id, left, busy),
    ensures
        provided_for(after, id, left, None),
{
    assert(after.logical_names() =~= before.logical_names());
    let manifests = before.logical_plugins[before.logical_at(id)->0].manifests;
    if materialized(before, id) {
        lemma_more_materialized(before, after, id);
    } else {
        let k = choose|k: int|
            0 <= k < left.rest.len() && (#[trigger] left.rest[k]).0 == id && plan_stands(before, id, left.rest[k].1, busy);
        if left.rest[k].1 is Lazy {
            assert forall|i: int| 0 <= i < manifests.len() implies loaded(after, #[trigger] manifests[i])
                || left.rest[k].1->Lazy_0.contains(manifests[i]) by {
                assert(loaded(before, manifests[i]) || left.rest[k].1->Lazy_0.contains(manifests[i]) || busy == Some(manifests[i]));
            }
        }
        assert(plan_stands(after, id, left.rest[k].1, None));
    }
}

proof fn lemma_more_materialized(before: RegistryView, after: RegistryView, id: Seq<char>)
    requires
        after.logical_plugins == before.logical_plugins,
        forall|name: Seq<char>| #[trigger] loaded(before, name) ==> loaded(after, name),
        materialized(before, id),
    ensures
        materialized(after, id),
{
    assert(after.logical_names() =~= before.logical_names());
    let manifests = before.logical_plugins[before.logical_at(id)->0].manifests;
    assert forall|i: int| 0 <= i < manifests.len() && loaded(before, manifests[i]) implies loaded(after, #[trigger] manifests[i]) by {}
}

proof fn lemma_materialize_on(registry: RegistryView, left: MaterializationView, ids: Seq<Seq<char>>)
    requires
        registry.wf(),
        forall|i: int| 0 <= i < ids.len() ==> provided_for(registry, #[trigger] ids[i], left, None),
    ensures
        on_track(materialize_on(registry, left).0, ids, materialize_on(registry, left).1) || ids.len() == 0,
    decreases left.rest.len(), left.manifests_left(),
{
    if left.rest.len() > 0 {
        let first = left.rest[0];
        match first.1 {
            PlanView::AlreadyLoaded => {
                lemma_first_done(registry, left, ids);
                lemma_materialize_on(registry, left.without_first(), ids);
            },
            PlanView::Eager(_) => {
                let next = left.without_first();
                assert forall|i: int| 0 <= i < ids.len() implies provided_for(registry, #[trigger] ids[i], next, None)
                    || ids[i] == first.0 by {
                    if ids[i] != first.0 {
                        lemma_rest_provides(registry, left, ids[i]);
                    }
                }
            },
            PlanView::Lazy(manifests) => {
                if manifests.len() == 0 {
                    lemma_first_done(registry, left, ids);
                    lemma_materialize_on(registry, left.without_first(), ids);
                } else {
                    lemma_manifest_begun(registry, left, ids, manifests);
                }
            },
        }
    }
}

/// What the other dependencies provide for.
proof fn lemma_rest_provides(registry: RegistryView, left: MaterializationView, id: Seq<char>)
    requires
        left.rest.len() > 0,
        provided_for(registry, id, left, None),
        id != left.rest[0].0,
    ensures
        provided_for(registry, id, left.without_first(), None),
{
    if !materialized(registry, id) {
        let k = choose|k: int|
            0 <= k < left.rest.len() && (#[trigger] left.rest[k]).0 == id && plan_stands(registry, id, left.rest[k].1, None);
        assert(left.without_first().rest[k - 1] == left.rest[k]);
    }
}

/// A dependency for which nothing is left to do is materialized.
proof fn lemma_first_done(registry: RegistryView, left: MaterializationView, ids: Seq<Seq<char>>)
    requires
        left.rest.len() > 0,
        left.rest[0].1 is AlreadyLoaded || left.rest[0].1 == PlanView::Lazy(Seq::empty()) || (left.rest[0].1 is Lazy
            && left.manifests_left() == 0),
        forall|i: int| 0 <= i < ids.len() ==> provided_for(registry, #[trigger] ids[i], left, None),
    ensures
        forall|i: int| 0 <= i < ids.len() ==> provided_for(registry, #[trigger] ids[i], left.without_first(), None),
{
    assert forall|i: int| 0 <= i < ids.len() implies provided_for(registry, #[trigger] ids[i], left.without_first(), None) by {
        let id = ids[i];
        if !materialized(registry, id) {
            let k = choose|k: int|
                0 <= k < left.rest.len() && (#[trigger] left.rest[k]).0 == id && plan_stands(registry, id, left.rest[k].1, None);
            if k > 0 {
                assert(left.without_first().rest[k - 1] == left.rest[k]);
            } else {
                let manifests = registry.logical_plugins[registry.logical_at(id)->0].manifests;
                assert forall|j: int| 0 <= j < manifests.len() implies loaded(registry, #[trigger] manifests[j]) by {
                    assert(!left.rest[0].1->Lazy_0.contains(manifests[j]));
                }
                assert(false);
            }
        }
    }
}

proof fn lemma_manifest_begun(registry: RegistryView, left: MaterializationView, ids: Seq<Seq<char>>, manifests: Seq<Seq<char>>)
    requires
        registry.wf(),
        left.rest.len() > 0,
        left.rest[0].1 == PlanView::Lazy(manifests),
        manifests.len() > 0,
        forall|i: int| 0 <= i < ids.len() ==> provided_for(registry, #[trigger] ids[i], left, None),
    ensures
        on_track(materialize_on(registry, left).0, ids, materialize_on(registry, left).1) || ids.len() == 0,
    decreases left.rest.len(), left.manifests_left(), 0int,
{
    let next = left.with_manifests(manifests.drop_first());
    let manifest = manifests[0];
    let after = load_begun(registry, manifest);
    crate::text::lemma_find_name(registry.plugin_names(), manifest, 0);
    // What is left provides for the same, once this manifest is loaded.
    assert forall|i: int| 0 <= i < ids.len() implies provided_for(registry, #[trigger] ids[i], next, Some(manifest)) by {
        lemma_manifest_taken(registry, left, ids[i], manifests);
    }
    match load_outcome(registry, manifest) {
        Err(_) => {},
        Ok(WorkView::Compile(modules)) => {
            let at = registry.plugin_at(manifest)->0;
            super::state::lemma_with_state(registry, at, StateView::Activating);
            assert(after == registry.with_state(at, StateView::Activating));
            assert forall|name: Seq<char>| #[trigger] loaded(registry, name) implies loaded(after, name) by {
                crate::text::lemma_find_name(registry.plugin_names(), name, 0);
            }
            assert(after.logical_names() =~= registry.logical_names());
            assert forall|i: int| 0 <= i < ids.len() implies provided_for(after, #[trigger] ids[i], next, Some(manifest)) by {
                lemma_same_logical(registry, after, ids[i], next, Some(manifest));
            }
        },
        Ok(_) => {
            assert(loaded(registry, manifest));
            assert forall|i: int| 0 <= i < ids.len() implies provided_for(registry, #[trigger] ids[i], next, None) by {
                lemma_more_loaded(registry, registry, ids[i], next, Some(manifest));
            }
            lemma_materialize_on(registry, next, ids);
        },
    }
}

proof fn lemma_same_logical(
    before: RegistryView,
    after: RegistryView,
    id: Seq<char>,
    left: MaterializationView,
    busy: Option<Seq<char>>,
)
    requires
        after.logical_plugins == before.logical_plugins,
        forall|name: Seq<char>| #[trigger] loaded(before, name) ==> loaded(after, name),
        provided_for(before, id, left, busy),
    ensures
        provided_for(after, id, left, busy),
{
    assert(after.logical_names() =~= before.logical_names());
    if materialized(before, id) {
        lemma_more_materialized(before, after, id);
    } else {
        let manifests = before.logical_plugins[before.logical_at(id)->0].manifests;
        let k = choose|k: int|
            0 <= k < left.rest.len() && (#[trigger] left.rest[k]).0 == id && plan_stands(before, id, left.rest[k].1, busy);
        if left.rest[k].1 is Lazy {
            assert forall|i: int| 0 <= i < manifests.len() implies loaded(after, #[trigger] manifests[i])
                || left.rest[k].1->Lazy_0.contains(manifests[i]) || busy == Some(manifests[i]) by {
                assert(loaded(before, manifests[i]) || left.rest[k].1->Lazy_0.contains(manifests[i]) || busy == Some(manifests[i]));
            }
        }
        assert(plan_stands(after, id, left.rest[k].1, busy));
    }
}

proof fn lemma_manifest_taken(registry: RegistryView, left: MaterializationView, id: Seq<char>, manifests: Seq<Seq<char>>)
    requires
        left.rest.len() > 0,
        left.rest[0].1 == PlanView::Lazy(manifests),
        manifests.len() > 0,
        provided_for(registry, id, left, None),
    ensures
        provided_for(registry, id, left.with_manifests(manifests.drop_first()), Some(manifests[0])),
{
    let next = left.with_manifests(manifests.drop_first());
    if !materialized(registry, id) {
        let k = choose|k: int|
            0 <= k < left.rest.len() && (#[trigger] left.rest[k]).0 == id && plan_stands(registry, id, left.rest[k].1, None);
        let all = registry.logical_plugins[registry.logical_at(id)->0].manifests;
        assert(next.rest[k].0 == id);
        if k == 0 {
            assert forall|i: int| 0 <= i < all.len() implies loaded(registry, #[trigger] all[i])
                || manifests.drop_first().contains(all[i]) || Some(manifests[0]) == Some(all[i]) by {
                if manifests.contains(all[i]) && manifests[0] != all[i] {
                    let j = choose|j: int| 0 <= j < manifests.len() && manifests[j] == all[i];
                    assert(manifests.drop_first()[j - 1] == all[i]);
                }
            }
        } else if left.rest[k].1 is Lazy {
            assert forall|i: int| 0 <= i < all.len() implies loaded(registry, #[trigger] all[i])
                || left.rest[k].1->Lazy_0.contains(all[i]) || Some(manifests[0]) == Some(all[i]) by {}
        }
        assert(plan_stands(registry, id, next.rest[k].1, Some(manifests[0])));
    }
}

/// All dependencies are looked up before any of them is loaded: where one of
/// them cannot be, nothing is run and nothing changes.
pub proof fn law_refused_dependencies_run_nothing(registry: RegistryView, ids: Seq<Seq<char>>, before: Seq<Seq<char>>, i: int)
    requires
        0 <= i < ids.len(),
        plan_of(registry, ids[i]) is Err,
    ensures
        materialize_begun(registry, ids, before).0 == registry,
        materialize_begun(registry, ids, before).1 is Failed,
{
    lemma_refused(registry, ids, 0, i);
}

proof fn lemma_refused(registry: RegistryView, ids: Seq<Seq<char>>, from: int, i: int)
    requires
        0 <= from <= i < ids.len(),
        plan_of(registry, ids[i]) is Err,
    ensures
        plan_refusal(registry, ids, from) is Some,
    decreases i - from,
{
    if from < i {
        lemma_refused(registry, ids, from + 1, i);
    }
}

proof fn lemma_not_refused(registry: RegistryView, ids: Seq<Seq<char>>, i: int)
    requires
        plan_refusal(registry, ids, 0) is None,
        0 <= i < ids.len(),
    ensures
        plan_of(registry, ids[i]) is Ok,
{
    if plan_of(registry, ids[i]) is Err {
        lemma_refused(registry, ids, 0, i);
    }
}

/// The first step promises to load all dependencies.
pub proof fn law_materialization_begins_on_track(registry: RegistryView, ids: Seq<Seq<char>>, before: Seq<Seq<char>>)
    requires
        registry.wf(),
    ensures
        on_track(materialize_begun(registry, ids, before).0, ids, materialize_begun(registry, ids, before).1),
{
    if ids.len() > 0 && plan_refusal(registry, ids, 0) is None {
        let left = MaterializationView { rest: planned(registry, ids), before };
        assert forall|i: int| 0 <= i < ids.len() implies provided_for(registry, #[trigger] ids[i], left, None) by {
            lemma_not_refused(registry, ids, i);
            assert(left.rest[i] == (ids[i], plan_of(registry, ids[i])->Ok_0));
            let at = registry.logical_at(ids[i])->0;
            let manifests = registry.logical_plugins[at].manifests;
            if left.rest[i].1 is Lazy {
                assert forall|j: int| 0 <= j < manifests.len() implies left.rest[i].1->Lazy_0.contains(#[trigger] manifests[j]) by {}
            }
            assert(plan_stands(registry, ids[i], left.rest[i].1, None));
        }
        lemma_materialize_on(registry, left, ids);
    }
}

/// Every step keeps the promise, whatever came of what was waited for. So once
/// the last one is done, every dependency is materialized.
pub proof fn law_materialization_stays_on_track(
    registry: RegistryView,
    ids: Seq<Seq<char>>,
    wait: WaitView,
    left: MaterializationView,
    error: Option<Seq<char>>,
)
    requires
        registry.wf(),
        ids.len() > 0,
        all_provided(registry, ids, wait, left),
    ensures
        on_track(materialize_next(registry, wait, left, error).0, ids, materialize_next(registry, wait, left, error).1),
{
    match wait {
        WaitView::Modules(dependency) => {
            if error is None && registry.logical_at(dependency) is Some {
                lemma_introduced(registry, dependency, ids, left);
                lemma_materialize_on(introduced(registry, dependency), left, ids);
            }
        },
        WaitView::Plugin(plugin) => {
            if error is None {
                let at = registry.plugin_at(plugin)->0;
                assert forall|i: int| 0 <= i < ids.len() implies provided_for(registry, #[trigger] ids[i], left, Some(plugin)) by {}
                lemma_next_initializer(registry, plugin, registry.plugins[at].initializers, ids, left);
            }
        },
        WaitView::Initializer { plugin, rest } => {
            if error is None {
                assert forall|i: int| 0 <= i < ids.len() implies provided_for(registry, #[trigger] ids[i], left, Some(plugin)) by {}
                lemma_next_initializer(registry, plugin, rest, ids, left);
            }
        },
    }
}

proof fn lemma_next_initializer(
    registry: RegistryView,
    plugin: Seq<char>,
    rest: Seq<Seq<char>>,
    ids: Seq<Seq<char>>,
    left: MaterializationView,
)
    requires
        registry.wf(),
        ids.len() > 0,
        registry.plugin_at(plugin) is Some,
        registry.plugins[registry.plugin_at(plugin)->0].state is Activating,
        forall|i: int| 0 <= i < ids.len() ==> provided_for(registry, #[trigger] ids[i], left, Some(plugin)),
    ensures
        on_track(
            follow(next_initializer(registry, plugin, rest), left).0,
            ids,
            follow(next_initializer(registry, plugin, rest), left).1,
        ),
{
    if rest.len() == 0 {
        lemma_finished_provides(registry, plugin, ids, left);
        lemma_materialize_on(finished(registry, plugin, StateView::Loaded), left, ids);
    }
}

proof fn lemma_introduced(registry: RegistryView, dependency: Seq<char>, ids: Seq<Seq<char>>, left: MaterializationView)
    requires
        registry.wf(),
        registry.logical_at(dependency) is Some,
        all_provided(registry, ids, WaitView::Modules(dependency), left),
    ensures
        introduced(registry, dependency).wf(),
        forall|i: int| 0 <= i < ids.len() ==> provided_for(introduced(registry, dependency), #[trigger] ids[i], left, None),
{
    let after = introduced(registry, dependency);
    crate::text::lemma_find_name(registry.logical_names(), dependency, 0);
    assert(after.logical_names() =~= registry.logical_names());
    assert(after.plugin_names() =~= registry.plugin_names());
    super::registration::lemma_logical_wf(registry, after);
    assert(grows(registry, after));
    assert(materialized(after, dependency));
    assert forall|i: int| 0 <= i < ids.len() implies provided_for(after, #[trigger] ids[i], left, None) by {
        if ids[i] != dependency {
            lemma_provided_grown(registry, after, ids[i], left, None, None);
        }
    }
}

/// Dependencies that are loaded already are not run again: asking for them is
/// done at once and leaves the registry as it is.
pub proof fn law_loaded_dependencies_run_nothing(registry: RegistryView, ids: Seq<Seq<char>>, before: Seq<Seq<char>>)
    requires
        ids.len() > 0,
        forall|i: int| 0 <= i < ids.len() ==> materialized(registry, #[trigger] ids[i]),
    ensures
        materialize_begun(registry, ids, before) == (registry, MaterializeView::Done { before }),
{
    if plan_refusal(registry, ids, 0) is Some {
        lemma_some_refused(registry, ids, 0);
        let i = choose|i: int| 0 <= i < ids.len() && plan_of(registry, #[trigger] ids[i]) is Err;
        assert(materialized(registry, ids[i]));
    }
    let left = MaterializationView { rest: planned(registry, ids), before };
    assert forall|i: int| 0 <= i < left.rest.len() implies nothing_left(registry, (#[trigger] left.rest[i]).1) by {
        assert(materialized(registry, ids[i]));
    }
    lemma_nothing_left(registry, left);
}

proof fn lemma_some_refused(registry: RegistryView, ids: Seq<Seq<char>>, from: int)
    requires
        0 <= from,
        plan_refusal(registry, ids, from) is Some,
    ensures
        exists|i: int| 0 <= i < ids.len() && plan_of(registry, #[trigger] ids[i]) is Err,
    decreases ids.len() - from,
{
    if plan_of(registry, ids[from]) is Ok {
        lemma_some_refused(registry, ids, from + 1);
    }
}

/// Whether nothing has to be run for a plan.
spec fn nothing_left(registry: RegistryView, plan: PlanView) -> bool {
    match plan {
        PlanView::AlreadyLoaded => true,
        PlanView::Eager(_) => false,
        PlanView::Lazy(manifests) => forall|i: int| 0 <= i < manifests.len() ==> loaded(registry, #[trigger] manifests[i]),
    }
}

proof fn lemma_nothing_left(registry: RegistryView, left: MaterializationView)
    requires
        forall|i: int| 0 <= i < left.rest.len() ==> nothing_left(registry, (#[trigger] left.rest[i]).1),
    ensures
        materialize_on(registry, left) == (registry, MaterializeView::Done { before: left.before }),
    decreases left.rest.len(), left.manifests_left(),
{
    if left.rest.len() > 0 {
        let rest = left.without_first();
        assert forall|i: int| 0 <= i < rest.rest.len() implies nothing_left(registry, (#[trigger] rest.rest[i]).1) by {
            assert(rest.rest[i] == left.rest[i + 1]);
        }
        assert(nothing_left(registry, left.rest[0].1));
        match left.rest[0].1 {
            PlanView::Lazy(manifests) => if manifests.len() > 0 {
                let next = left.with_manifests(manifests.drop_first());
                assert(loaded(registry, manifests[0]));
                assert forall|i: int| 0 <= i < next.rest.len() implies nothing_left(registry, (#[trigger] next.rest[i]).1) by {
                    if i == 0 {
                        assert forall|j: int| 0 <= j < manifests.drop_first().len() implies loaded(
                            registry,
                            #[trigger] manifests.drop_first()[j],
                        ) by {
                            assert(manifests.drop_first()[j] == manifests[j + 1]);
                        }
                    } else {
                        assert(nothing_left(registry, left.rest[i].1));
                    }
                }
                lemma_nothing_left(registry, next);
            } else {
                lemma_nothing_left(registry, rest);
            },
            _ => {
                lemma_nothing_left(registry, rest);
            },
        }
    }
}

} // verus!
