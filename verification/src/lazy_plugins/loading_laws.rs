//! How loading plugins and dependencies goes on from step to step.

use vstd::prelude::*;

use super::activation::{begin_outcome, require_text, ArtifactLoadError, WorkView};
use super::activation_laws::{law_calls_begin_by_the_state_of_their_plugin, provides};
use super::loading::{after_initializer, after_modules, after_program, call_begun, dependency_begun, ActivationView};
use super::local_dependencies::PlanView;
use super::materialization::{materialize_next, materialize_on, MaterializationView, MaterializeView, WaitView};
use super::state::{LogicalStrategy, RegistryView, StateView};
use crate::text::lemma_find_name;

verus! {

broadcast use vstd::string::group_string_axioms;

/// A call of a command loads its plugin from its modules or from its program,
/// where it is not loaded, and else is ready or fails.
pub proof fn law_calls_run_what_their_plugin_needs(registry: RegistryView, command: Seq<char>, c: int, i: int)
    requires
        provides(registry, command, c, i),
    ensures
        ({
            let plugin = registry.plugins[i];
            match plugin.state {
                StateView::Unloaded | StateView::FallbackPending => call_begun(registry, command).1 == (ActivationView::Run {
                    program: require_text(plugin.modules),
                    plugin: plugin.name,
                }),
                StateView::Ready(object) => call_begun(registry, command).1 == (ActivationView::Load {
                    object,
                    plugin: plugin.name,
                    command,
                }),
                StateView::Loaded => call_begun(registry, command).1 is Ready,
                StateView::Failed(message) => call_begun(registry, command).1 == ActivationView::Failed(message),
                _ => call_begun(registry, command).1 is Failed,
            }
        }),
{
    law_calls_begin_by_the_state_of_their_plugin(registry, command, c, i);
}

/// A plugin that is depended on is loaded from its modules, unless it is loaded,
/// being loaded or failed.
pub proof fn law_dependencies_run_their_modules(registry: RegistryView, i: int)
    requires
        registry.wf(),
        0 <= i < registry.plugins.len(),
    ensures
        ({
            let plugin = registry.plugins[i];
            let (after, step) = dependency_begun(registry, plugin.name);
            match plugin.state {
                StateView::Loaded => step is Ready && after.plugins[i].state is Loaded,
                StateView::Failed(message) => step == ActivationView::Failed(message) && after.plugins[i].state == plugin.state,
                StateView::Activating => step is Failed && after.plugins[i].state is Activating,
                _ => step == (ActivationView::Run { program: require_text(plugin.modules), plugin: plugin.name })
                    && after.plugins[i].state is Activating,
            }
        }),
{
    super::activation_laws::law_dependencies_load_at_once(registry, i);
}

/// Once the modules of a plugin were run, its first initializer is called, or it
/// is loaded where it has none; an error fails it.
pub proof fn law_initializers_follow_the_modules(registry: RegistryView, i: int, message: Seq<char>)
    requires
        registry.wf(),
        0 <= i < registry.plugins.len(),
        registry.plugins[i].state is Activating,
    ensures
        ({
            let plugin = registry.plugins[i];
            let (after, step) = after_modules(registry, plugin.name, None);
            let (broken, failed) = after_modules(registry, plugin.name, Some(message));
            &&& plugin.initializers.len() == 0 ==> step is Ready && after.plugins[i].state is Loaded
            &&& plugin.initializers.len() > 0 ==> step == (ActivationView::Initialize {
                function: plugin.initializers[0],
                plugin: plugin.name,
                rest: plugin.initializers.drop_first(),
            }) && after == registry
            &&& failed == ActivationView::Failed(message)
            &&& broken.plugins[i].state == StateView::Failed(message)
        }),
{
    let name = registry.plugins[i].name;
    lemma_find_name(registry.plugin_names(), name, 0);
    assert(registry.plugin_names()[i] == name);
}

/// Once an initializer was called, the next one is, or the plugin is loaded; an
/// error fails it.
pub proof fn law_initializers_follow_each_other(registry: RegistryView, i: int, rest: Seq<Seq<char>>, message: Seq<char>)
    requires
        registry.wf(),
        0 <= i < registry.plugins.len(),
        registry.plugins[i].state is Activating,
    ensures
        ({
            let name = registry.plugins[i].name;
            let (after, step) = after_initializer(registry, name, rest, None);
            let (broken, failed) = after_initializer(registry, name, rest, Some(message));
            &&& rest.len() == 0 ==> step is Ready && after.plugins[i].state is Loaded
            &&& rest.len() > 0 ==> step == (ActivationView::Initialize { function: rest[0], plugin: name, rest: rest.drop_first() })
                && after == registry
            &&& failed == ActivationView::Failed(message)
            &&& broken.plugins[i].state == StateView::Failed(message)
        }),
{
    let name = registry.plugins[i].name;
    lemma_find_name(registry.plugin_names(), name, 0);
    assert(registry.plugin_names()[i] == name);
}

/// A compiled program that cannot be loaded leaves its plugin to be compiled by
/// the next call; one that failed while it ran leaves it failed.
pub proof fn law_unusable_programs_are_compiled_again(
    registry: RegistryView,
    command: Seq<char>,
    c: int,
    i: int,
    loaded: Result<(), ArtifactLoadError>,
)
    requires
        provides(registry, command, c, i),
        registry.plugins[i].state is Activating,
    ensures
        ({
            let plugin = registry.plugins[i];
            let (after, step) = after_program(registry, plugin.name, command, loaded);
            match loaded {
                Ok(()) => (after, step) == after_modules(registry, plugin.name, None),
                Err(ArtifactLoadError::Execution(error)) => step == ActivationView::Failed(error.message@) && after.plugins[i].state
                    == StateView::Failed(error.message@),
                Err(ArtifactLoadError::Safe(_)) => step is Failed && after.plugins[i].state is FallbackPending && begin_outcome(
                    after,
                    command,
                ) == Ok::<(Seq<char>, WorkView), Seq<char>>((plugin.name, WorkView::Compile(plugin.modules))),
            }
        }),
{
    let name = registry.plugins[i].name;
    lemma_find_name(registry.plugin_names(), name, 0);
    assert(registry.plugin_names()[i] == name);
    let after = after_program(registry, name, command, loaded).0;
    if loaded is Err && loaded->Err_0 is Safe {
        assert(after.plugin_names() =~= registry.plugin_names());
        assert(after.command_names() =~= registry.command_names());
        assert(after.plugins[i].name == name);
        lemma_find_name(after.plugin_names(), name, 0);
        lemma_find_name(after.command_names(), command, 0);
        assert(after.command_names()[c] == command);
        assert(after.plugin_names()[i] == name);
    }
}

/// Whether a step still knows which names were bound before all of them.
pub open spec fn remembers(step: MaterializeView, before: Seq<Seq<char>>) -> bool {
    match step {
        MaterializeView::Run { left, .. } => left.before == before,
        MaterializeView::Initialize { left, .. } => left.before == before,
        MaterializeView::Done { before: known } => known == before,
        _ => true,
    }
}

/// The names that were bound before the dependencies were loaded are known at the
/// end.
pub proof fn law_the_names_from_before_are_kept(registry: RegistryView, left: MaterializationView)
    ensures
        remembers(materialize_on(registry, left).1, left.before),
    decreases left.rest.len(), left.manifests_left(),
{
    if left.rest.len() > 0 {
        match left.rest[0].1 {
            PlanView::AlreadyLoaded => law_the_names_from_before_are_kept(registry, left.without_first()),
            PlanView::Eager(_) => {},
            PlanView::Lazy(manifests) => {
                if manifests.len() == 0 {
                    law_the_names_from_before_are_kept(registry, left.without_first());
                } else {
                    let next = left.with_manifests(manifests.drop_first());
                    law_the_names_from_before_are_kept(dependency_begun(registry, manifests[0]).0, next);
                }
            },
        }
    }
}

/// The names from before are kept from step to step, and an error in a step ends
/// the loading with that error.
pub proof fn law_errors_end_the_loading(
    registry: RegistryView,
    wait: WaitView,
    left: MaterializationView,
    error: Option<Seq<char>>,
)
    ensures
        remembers(materialize_next(registry, wait, left, error).1, left.before),
        error matches Some(message) ==> materialize_next(registry, wait, left, error).1 == MaterializeView::Failed(message),
{
    match wait {
        WaitView::Modules(dependency) => {
            law_the_names_from_before_are_kept(super::local_dependencies::introduced(registry, dependency), left);
        },
        WaitView::Plugin(plugin) => {
            law_the_names_from_before_are_kept(after_modules(registry, plugin, error).0, left);
        },
        WaitView::Initializer { plugin, rest } => {
            law_the_names_from_before_are_kept(after_initializer(registry, plugin, rest, error).0, left);
        },
    }
}

/// An eager dependency is loaded by a program that requires its modules, and is
/// eager once that was run; the rest follows.
pub proof fn law_eager_dependencies_run_their_modules(
    registry: RegistryView,
    left: MaterializationView,
    modules: Seq<Seq<char>>,
    at: int,
)
    requires
        left.rest.len() > 0,
        left.rest[0].1 == PlanView::Eager(modules),
        registry.logical_at(left.rest[0].0) == Some(at),
    ensures
        ({
            let (after, step) = materialize_on(registry, left);
            &&& after == registry
            &&& step matches MaterializeView::Run { program, wait, left: rest } && program == require_text(modules) && wait
                == WaitView::Modules(left.rest[0].0) && rest.rest == left.rest.drop_first()
        }),
        left.rest.len() == 1 ==> {
            let next = MaterializationView { rest: Seq::empty(), before: left.before };
            let (after, step) = materialize_next(registry, WaitView::Modules(left.rest[0].0), next, None);
            &&& step == (MaterializeView::Done { before: left.before })
            &&& after.logical_plugins[at].strategy == Some(LogicalStrategy::Eager)
        },
{
    lemma_find_name(registry.logical_names(), left.rest[0].0, 0);
}

/// A dependency that is loaded already is passed over.
pub proof fn law_loaded_dependencies_are_passed_over(registry: RegistryView, left: MaterializationView)
    requires
        left.rest.len() > 0,
        left.rest[0].1 is AlreadyLoaded,
    ensures
        materialize_on(registry, left) == materialize_on(
            registry,
            MaterializationView { rest: left.rest.drop_first(), before: left.before },
        ),
{
}

/// The first plugin of a lazy dependency that is not loaded is begun with.
pub proof fn law_lazy_dependencies_begin_with_their_first_plugin(
    registry: RegistryView,
    left: MaterializationView,
    manifests: Seq<Seq<char>>,
    i: int,
)
    requires
        registry.wf(),
        left.rest.len() > 0,
        left.rest[0].1 == PlanView::Lazy(manifests),
        manifests.len() > 0,
        0 <= i < registry.plugins.len(),
        registry.plugins[i].name == manifests[0],
        registry.plugins[i].state is Unloaded,
    ensures
        ({
            let (after, step) = materialize_on(registry, left);
            &&& after.plugins[i].state is Activating
            &&& step matches MaterializeView::Run { program, wait, left: rest } && program == require_text(registry.plugins[i].modules)
                && wait == WaitView::Plugin(manifests[0]) && rest.rest.len() == left.rest.len() && rest.rest[0] == (
            left.rest[0].0,
            PlanView::Lazy(manifests.drop_first()),
            )
        }),
{
    law_dependencies_run_their_modules(registry, i);
}

} // verus!
