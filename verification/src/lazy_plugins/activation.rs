//! Loading of plugins when one of their commands is called.

use steel::compiler::program::RawProgramWithSymbols;
use steel::steel_vm::engine::Engine;
use steel::{SteelErr, SteelVal};
use vstd::prelude::*;

use super::state::{ActivationState, LazyError, PluginView, Registry, RegistryView, StateView};
use crate::text::{copy_texts, quote, string_views};

verus! {

broadcast use vstd::string::group_string_axioms;

#[verifier::external_type_specification]
#[verifier::external_body]
pub struct ExEngine(Engine);

#[verifier::external_type_specification]
#[verifier::external_body]
pub struct ExSteelErr(SteelErr);

/// What a Steel error says.
pub uninterp spec fn steel_message(error: SteelErr) -> Seq<char>;

/// The `Display` form of a Steel error. What it says is named, not described.
#[verifier::external_body]
fn error_text(error: SteelErr) -> (out: String)
    ensures
        out@ == steel_message(error),
{
    error.to_string()
}

/// Whether looking a global of the engine up can come to this. Threads of the
/// engine can bind globals, so the engine does not fix it.
pub uninterp spec fn can_find(engine: Engine, name: Seq<char>, out: Result<SteelVal, SteelErr>) -> bool;

/// Whether a value was read out of an engine that has run nothing since, so
/// that the heap cells behind it are still there.
pub uninterp spec fn held_by(engine: Engine, value: SteelVal) -> bool;

/// `Engine::extract_value` looks a global up in the engine. All that is claimed
/// is that what it finds is one of the things that it can find, and that a
/// value comes out of the engine.
#[verifier::external_body]
fn global_value(engine: &Engine, name: &str) -> (out: Result<SteelVal, SteelErr>)
    ensures
        can_find(*engine, name@, out),
        out is Ok ==> held_by(*engine, out->Ok_0),
{
    engine.extract_value(name)
}

/// Whether the engine can answer so when it is asked whether a global is bound.
/// Threads of the engine can bind globals, so the engine does not fix it.
pub uninterp spec fn can_answer_bound(engine: Engine, name: Seq<char>, out: bool) -> bool;

/// `Engine::global_exists` tells whether a global is bound. All that is claimed
/// is that the answer is one that the engine can give.
#[verifier::external_body]
fn global_exists(engine: &Engine, name: &str) -> (out: bool)
    ensures
        can_answer_bound(*engine, name@, out),
{
    engine.global_exists(name)
}

/// Whether a reference into the heap can refer to a value. What it refers to
/// may change while the value that is the reference stays the same.
pub uninterp spec fn can_refer(reference: SteelVal, target: Result<SteelVal, SteelVal>) -> bool;

/// `HeapRef::get` gives what a reference into the engine's heap refers to. A
/// value that is no such reference comes back as it is. The target depends on
/// the heap: all that is claimed is that it is one that the reference can have,
/// and that it comes out of the engine too. `HeapRef::get` wants the cell to be
/// there: what is handed in has just been read out of the engine, whose globals
/// and cells keep it. That no other thread of the engine frees it in between is
/// left to the engine.
#[verifier::external_body]
fn heap_target(engine: &Engine, value: SteelVal) -> (out: Result<SteelVal, SteelVal>)
    requires
        held_by(*engine, value),
    ensures
        can_refer(value, out),
        out is Ok ==> held_by(*engine, out->Ok_0),
        out is Err ==> out->Err_0 == value,
{
    match value {
        SteelVal::HeapAllocated(reference) => Ok(reference.get()),
        other => Err(other),
    }
}

fn steel_failure(error: SteelErr) -> (out: LazyError)
    ensures
        out.message@ == steel_message(error),
{
    LazyError { message: error_text(error) }
}

/// The program that requires the modules, one after the other.
pub open spec fn require_text(modules: Seq<Seq<char>>) -> Seq<char>
    decreases modules.len(),
{
    if modules.len() == 0 {
        Seq::empty()
    } else {
        require_text(modules.drop_last()) + "(require "@ + crate::text::quoted(modules.last()) + ")\n"@
    }
}

/// The program that requires the modules, one after the other.
pub fn module_source(modules: &Vec<String>) -> (out: String)
    ensures
        out@ == require_text(string_views(modules@)),
{
    let ghost all = string_views(modules@);
    let mut out = String::new();
    let mut i: usize = 0;
    proof {
        assert(all.subrange(0, 0) =~= Seq::<Seq<char>>::empty());
    }
    while i < modules.len()
        invariant
            i <= modules@.len(),
            all == string_views(modules@),
            out@ == require_text(all.subrange(0, i as int)),
        decreases modules.len() - i,
    {
        out = out.concat("(require ").concat(quote(modules[i].as_str()).as_str()).concat(")\n");
        i += 1;
        proof {
            assert(all.subrange(0, i as int).drop_last() =~= all.subrange(0, i - 1));
        }
    }
    proof {
        assert(all.subrange(0, all.len() as int) =~= all);
    }
    out
}

/// Why a compiled program could not be loaded.
#[derive(Debug)]
pub enum ArtifactLoadError {
    /// Nothing was run yet.
    Safe(String),
    Execution(LazyError),
}

/// Whether a value is at the end of at most so many references from another.
pub open spec fn leads_to(value: SteelVal, references: nat, end: SteelVal) -> bool
    decreases references,
{
    if references == 0 {
        end == value
    } else {
        ||| can_refer(value, Err(value)) && end == value
        ||| exists|target: SteelVal| #[trigger]
            can_refer(value, Ok(target)) && leads_to(target, (references - 1) as nat, end)
    }
}

/// Whether what was found under a name can be resolved to this: a value by
/// following references into the heap, an error to its message.
pub open spec fn resolves(found: Result<SteelVal, SteelErr>, out: Result<SteelVal, Seq<char>>) -> bool {
    match found {
        Ok(value) => out is Ok && leads_to(value, 64, out->Ok_0),
        Err(error) => out == Err::<SteelVal, Seq<char>>(steel_message(error)),
    }
}

/// Whether a global can be resolved to this.
pub open spec fn can_resolve(engine: Engine, name: Seq<char>, out: Result<SteelVal, Seq<char>>) -> bool {
    exists|found: Result<SteelVal, SteelErr>| #[trigger] can_find(engine, name, found) && resolves(found, out)
}

/// The value of a global, with references into the heap resolved.
pub fn callable_value(engine: &Engine, function: &str) -> (out: Result<SteelVal, LazyError>)
    ensures
        can_resolve(*engine, function@, found_view(out)),
{
    let mut value = match global_value(engine, function) {
        Ok(value) => value,
        Err(error) => {
            let failure = steel_failure(error);
            proof {
                assert(resolves(Err(error), Err(failure.message@)));
            }
            return Err(failure);
        },
    };
    let ghost first = value;
    let ghost found = Ok::<SteelVal, SteelErr>(first);
    let mut i: usize = 0;
    while i < 64
        invariant
            i <= 64,
            found == Ok::<SteelVal, SteelErr>(first),
            can_find(*engine, function@, found),
            held_by(*engine, value),
            forall|end: SteelVal| #[trigger] leads_to(value, (64 - i) as nat, end) ==> leads_to(first, 64, end),
        decreases 64 - i,
    {
        let ghost reference = value;
        match heap_target(engine, value) {
            Ok(target) => {
                value = target;
                proof {
                    assert forall|end: SteelVal| #[trigger] leads_to(value, (64 - i - 1) as nat, end) implies leads_to(
                        first,
                        64,
                        end,
                    ) by {
                        assert(can_refer(reference, Ok(target)));
                        assert(leads_to(reference, (64 - i) as nat, end));
                    }
                }
            },
            Err(end) => {
                proof {
                    assert(leads_to(reference, (64 - i) as nat, end));
                    assert(resolves(found, Ok(end)));
                }
                return Ok(end);
            },
        }
        i += 1;
    }
    proof {
        assert(leads_to(value, (64 - i) as nat, value));
        assert(resolves(found, Ok(value)));
    }
    Ok(value)
}

/// The value that was found, or the message of the error.
pub open spec fn found_view(out: Result<SteelVal, LazyError>) -> Result<SteelVal, Seq<char>> {
    match out {
        Ok(value) => Ok(value),
        Err(error) => Err(error.message@),
    }
}

/// The state of a plugin whose loading ended with this error, or without one.
pub open spec fn state_after_load(error: Option<Seq<char>>) -> StateView {
    match error {
        None => StateView::Loaded,
        Some(message) => StateView::Failed(message),
    }
}

/// What has to be done before a command can be called.
pub enum ActivationWork {
    Compile(Vec<String>),
    Precompiled(RawProgramWithSymbols),
    Call,
}

/// The contents of an [`ActivationWork`].
pub enum WorkView {
    Compile(Seq<Seq<char>>),
    Precompiled(RawProgramWithSymbols),
    Call,
}

impl View for ActivationWork {
    type V = WorkView;

    open spec fn view(&self) -> WorkView {
        match self {
            ActivationWork::Compile(modules) => WorkView::Compile(string_views(modules@)),
            ActivationWork::Precompiled(program) => WorkView::Precompiled(*program),
            ActivationWork::Call => WorkView::Call,
        }
    }
}

/// How an activation ended.
pub enum ActivationCompletion {
    Loaded,
    FallbackPending,
    Failed(String),
}

/// The state that a completed activation leaves behind.
pub open spec fn completed(completion: ActivationCompletion) -> StateView {
    match completion {
        ActivationCompletion::Loaded => StateView::Loaded,
        ActivationCompletion::FallbackPending => StateView::FallbackPending,
        ActivationCompletion::Failed(message) => StateView::Failed(message@),
    }
}

/// What has to be done for a command of the plugin, or why nothing can be.
pub open spec fn work_for(plugin: PluginView, command: Seq<char>) -> Result<WorkView, Seq<char>> {
    match plugin.state {
        StateView::Unloaded => Ok(WorkView::Compile(plugin.modules)),
        StateView::FallbackPending => Ok(WorkView::Compile(plugin.modules)),
        StateView::Ready(program) => Ok(WorkView::Precompiled(program)),
        StateView::Loaded => Ok(WorkView::Call),
        StateView::Failed(message) => Err(message),
        StateView::Activating => Err("recursive activation of lazy plugin "@ + crate::text::quoted(plugin.name)),
        StateView::Queued { .. } => Err(still_precompiling(plugin.name, command)),
        StateView::Precompiling { .. } => Err(still_precompiling(plugin.name, command)),
    }
}

pub open spec fn still_precompiling(plugin: Seq<char>, command: Seq<char>) -> Seq<char> {
    "lazy plugin "@ + crate::text::quoted(plugin) + " is still precompiling; invoke "@ + crate::text::quoted(command)
        + " again to load it normally"@
}

/// The state of a plugin once a command of it has been called.
pub open spec fn state_after_begin(state: StateView) -> StateView {
    match state {
        StateView::Unloaded => StateView::Activating,
        StateView::FallbackPending => StateView::Activating,
        StateView::Ready(_) => StateView::Activating,
        StateView::Queued { .. } => StateView::FallbackPending,
        StateView::Precompiling { .. } => StateView::FallbackPending,
        _ => state,
    }
}

/// The plugin that provides a command.
pub open spec fn provider(registry: RegistryView, command: Seq<char>) -> Option<int> {
    match registry.command_at(command) {
        Some(i) => registry.plugin_at(registry.commands[i].plugin),
        None => None,
    }
}

/// What begins when a command is called.
pub open spec fn begin_outcome(registry: RegistryView, command: Seq<char>) -> Result<(Seq<char>, WorkView), Seq<char>> {
    match provider(registry, command) {
        Some(i) => match work_for(registry.plugins[i], command) {
            Ok(work) => Ok((registry.plugins[i].name, work)),
            Err(message) => Err(message),
        },
        None => Err("lazy command "@ + crate::text::quoted(command) + " disappeared during engine reload"@),
    }
}

/// The registry once a command has been called.
pub open spec fn begun(registry: RegistryView, command: Seq<char>) -> RegistryView {
    match provider(registry, command) {
        Some(i) => registry.with_state(i, state_after_begin(registry.plugins[i].state)),
        None => registry,
    }
}

/// The registry once an activation of a plugin has ended.
pub open spec fn finished(registry: RegistryView, plugin: Seq<char>, state: StateView) -> RegistryView {
    match registry.plugin_at(plugin) {
        Some(i) => if registry.plugins[i].state is Activating {
            registry.with_state(i, state)
        } else {
            registry
        },
        None => registry,
    }
}

/// What has to be done to load a plugin that is depended on, or why nothing can be.
pub open spec fn load_work(plugin: PluginView) -> Result<WorkView, Seq<char>> {
    match plugin.state {
        StateView::Queued { .. } => Ok(WorkView::Compile(plugin.modules)),
        StateView::Precompiling { .. } => Ok(WorkView::Compile(plugin.modules)),
        StateView::Ready(_) => Ok(WorkView::Compile(plugin.modules)),
        _ => work_for(plugin, plugin.name),
    }
}

/// What begins when a plugin is depended on.
pub open spec fn load_outcome(registry: RegistryView, name: Seq<char>) -> Result<WorkView, Seq<char>> {
    match registry.plugin_at(name) {
        Some(i) => load_work(registry.plugins[i]),
        None => Err("lazy plugin "@ + crate::text::quoted(name) + " disappeared during engine reload"@),
    }
}

/// The registry once a plugin has begun to load because it is depended on.
pub open spec fn load_begun(registry: RegistryView, name: Seq<char>) -> RegistryView {
    match registry.plugin_at(name) {
        Some(i) => match load_work(registry.plugins[i]) {
            Ok(WorkView::Call) => registry,
            Ok(_) => registry.with_state(i, StateView::Activating),
            Err(_) => registry,
        },
        None => registry,
    }
}

/// What the user is told where a compiled program cannot be loaded and nothing
/// of it was run.
pub open spec fn unusable_text(plugin: Seq<char>, message: Seq<char>, command: Seq<char>) -> Seq<char> {
    "unable to load precompiled lazy plugin "@ + crate::text::quoted(plugin) + ": "@ + message + "; invoke "@
        + crate::text::quoted(command) + " again to load it normally"@
}

pub open spec fn message_of<T>(out: Result<T, LazyError>) -> Option<Seq<char>> {
    match out {
        Ok(_) => None,
        Err(error) => Some(error.message@),
    }
}

impl Registry {
    /// The plugin at `i` is put into `state`; its state before is returned.
    fn exchange_state(&mut self, i: usize, state: ActivationState) -> (out: ActivationState)
        requires
            i < old(self).plugins@.len(),
        ensures
            out == old(self).plugins@[i as int].state,
            final(self)@ == old(self)@.with_state(i as int, state@),
            old(self).wf() ==> final(self).wf(),
    {
        let ghost before = self@;
        let ghost plugins = self.plugins@;
        let ghost view = state@;
        let mut state = state;
        core::mem::swap(&mut state, &mut self.plugins[i].state);
        proof {
            assert(super::state::views(self.plugins@) =~= super::state::views(plugins).update(
                i as int,
                PluginView { state: view, ..super::state::views(plugins)[i as int] },
            ));
            assert(self@ =~= before.with_state(i as int, view));
            super::state::lemma_with_state(before, i as int, view);
        }
        state
    }

    fn work_of(&mut self, i: usize) -> (out: Option<ActivationWork>)
        requires
            i < old(self).plugins@.len(),
        ensures
            old(self).wf() ==> final(self).wf(),
            match old(self)@.plugins[i as int].state {
                StateView::Unloaded => out is Some && out->0@ == WorkView::Compile(old(self)@.plugins[i as int].modules)
                    && final(self)@ == old(self)@.with_state(i as int, StateView::Activating),
                StateView::FallbackPending => out is Some && out->0@ == WorkView::Compile(
                    old(self)@.plugins[i as int].modules,
                ) && final(self)@ == old(self)@.with_state(i as int, StateView::Activating),
                StateView::Ready(program) => out is Some && out->0@ == WorkView::Precompiled(program) && final(self)@ == old(
                    self,
                )@.with_state(i as int, StateView::Activating),
                StateView::Loaded => out is Some && out->0@ == WorkView::Call && final(self)@ == old(self)@,
                _ => out is None && final(self)@ == old(self)@,
            },
    {
        proof {
            assert(self@.plugins[i as int] == self.plugins@[i as int]@);
        }
        match &self.plugins[i].state {
            ActivationState::Unloaded | ActivationState::FallbackPending => {
                let modules = copy_texts(&self.plugins[i].modules);
                self.set_state(i, ActivationState::Activating);
                Some(ActivationWork::Compile(modules))
            },
            ActivationState::Ready(_) => {
                let state = self.exchange_state(i, ActivationState::Activating);
                match state {
                    ActivationState::Ready(program) => Some(ActivationWork::Precompiled(program)),
                    _ => None,
                }
            },
            ActivationState::Loaded => Some(ActivationWork::Call),
            _ => None,
        }
    }

    /// Begins the activation of the plugin that provides a command.
    pub fn begin_activation(&mut self, command: &str) -> (out: Result<(String, ActivationWork), LazyError>)
        requires
            old(self).wf(),
        ensures
            final(self).wf(),
            final(self)@ == begun(old(self)@, command@),
            match begin_outcome(old(self)@, command@) {
                Ok((plugin, work)) => out is Ok && out->Ok_0.0@ == plugin && out->Ok_0.1@ == work,
                Err(message) => out is Err && out->Err_0.message@ == message,
            },
    {
        let ghost before = self@;
        let at: usize = match self.command_index(command) {
            Some(at) => at,
            None => {
                return Err(
                    LazyError {
                        message: "lazy command ".to_owned().concat(quote(command).as_str()).concat(
                            " disappeared during engine reload",
                        ),
                    },
                );
            },
        };
        proof {
            assert(before.commands[at as int] == self.commands@[at as int]@);
            assert(before.plugin_at(before.commands[at as int].plugin) is Some);
        }
        let i: usize = match self.plugin_index(self.commands[at].plugin.as_str()) {
            Some(i) => i,
            None => {
                proof {
                    assert(false);
                }
                0
            },
        };
        proof {
            assert(before.plugins[i as int] == self.plugins@[i as int]@);
            assert(before.with_state(i as int, before.plugins[i as int].state) =~= before);
        }
        let name = self.plugins[i].name.clone();
        match &self.plugins[i].state {
            ActivationState::Failed(message) => {
                return Err(LazyError { message: message.clone() });
            },
            ActivationState::Activating => {
                return Err(
                    LazyError {
                        message: "recursive activation of lazy plugin ".to_owned().concat(quote(name.as_str()).as_str()),
                    },
                );
            },
            ActivationState::Queued { .. } | ActivationState::Precompiling { .. } => {
                let message = "lazy plugin ".to_owned().concat(quote(name.as_str()).as_str()).concat(
                    " is still precompiling; invoke ",
                ).concat(quote(command).as_str()).concat(" again to load it normally");
                self.set_state(i, ActivationState::FallbackPending);
                return Err(LazyError { message });
            },
            _ => {},
        }
        match self.work_of(i) {
            Some(work) => Ok((name, work)),
            None => {
                proof {
                    assert(false);
                }
                Ok((name, ActivationWork::Call))
            },
        }
    }

    /// Begins to load a plugin that is depended on. Background work on it, and
    /// what came of it, is superseded.
    pub fn begin_load(&mut self, name: &str) -> (out: Result<ActivationWork, LazyError>)
        requires
            old(self).wf(),
        ensures
            final(self).wf(),
            final(self)@ == load_begun(old(self)@, name@),
            match load_outcome(old(self)@, name@) {
                Ok(work) => out is Ok && out->Ok_0@ == work,
                Err(message) => out is Err && out->Err_0.message@ == message,
            },
    {
        let ghost before = self@;
        let i: usize = match self.plugin_index(name) {
            Some(i) => i,
            None => {
                return Err(
                    LazyError {
                        message: "lazy plugin ".to_owned().concat(quote(name).as_str()).concat(
                            " disappeared during engine reload",
                        ),
                    },
                );
            },
        };
        proof {
            assert(before.plugins[i as int] == self.plugins@[i as int]@);
        }
        match &self.plugins[i].state {
            ActivationState::Failed(message) => {
                return Err(LazyError { message: message.clone() });
            },
            ActivationState::Activating => {
                return Err(
                    LazyError { message: "recursive activation of lazy plugin ".to_owned().concat(quote(name).as_str()) },
                );
            },
            ActivationState::Queued { .. } | ActivationState::Precompiling { .. } | ActivationState::Ready(_) => {
                let modules = copy_texts(&self.plugins[i].modules);
                self.set_state(i, ActivationState::Activating);
                return Ok(ActivationWork::Compile(modules));
            },
            _ => {},
        }
        match self.work_of(i) {
            Some(work) => Ok(work),
            None => {
                proof {
                    assert(false);
                }
                Ok(ActivationWork::Call)
            },
        }
    }

    /// Ends the activation of a plugin, if it is being activated.
    pub fn finish_activation(&mut self, plugin_name: &str, completion: ActivationCompletion)
        requires
            old(self).wf(),
        ensures
            final(self).wf(),
            final(self)@ == finished(old(self)@, plugin_name@, completed(completion)),
    {
        if let Some(i) = self.plugin_index(plugin_name) {
            proof {
                assert(self@.plugins[i as int] == self.plugins@[i as int]@);
            }
            let activating = match &self.plugins[i].state {
                ActivationState::Activating => true,
                _ => false,
            };
            if activating {
                let state = match completion {
                    ActivationCompletion::Loaded => ActivationState::Loaded,
                    ActivationCompletion::FallbackPending => ActivationState::FallbackPending,
                    ActivationCompletion::Failed(message) => ActivationState::Failed(message),
                };
                self.set_state(i, state);
            }
        }
    }

    /// The initializers of a plugin.
    pub fn initializers_of(&self, plugin_name: &str) -> (out: Result<Vec<String>, LazyError>)
        ensures
            match self@.plugin_at(plugin_name@) {
                Some(i) => out is Ok && string_views(out->Ok_0@) == self@.plugins[i].initializers,
                None => out is Err && out->Err_0.message@ == "lazy plugin "@ + crate::text::quoted(plugin_name@)
                    + " disappeared during engine reload"@,
            },
    {
        match self.plugin_index(plugin_name) {
            Some(i) => {
                proof {
                    assert(self@.plugins[i as int] == self.plugins@[i as int]@);
                }
                Ok(copy_texts(&self.plugins[i].initializers))
            },
            None => Err(
                LazyError {
                    message: "lazy plugin ".to_owned().concat(quote(plugin_name).as_str()).concat(
                        " disappeared during engine reload",
                    ),
                },
            ),
        }
    }

    /// Goes on once the modules of a plugin were run: gives its initializers, or
    /// ends its activation where the modules failed.
    pub fn modules_done(&mut self, plugin_name: &str, modules: Result<(), LazyError>) -> (out: Result<Vec<String>, LazyError>)
        requires
            old(self).wf(),
        ensures
            final(self).wf(),
            match modules {
                Err(error) => {
                    &&& message_of(out) == Some(error.message@)
                    &&& final(self)@ == finished(old(self)@, plugin_name@, StateView::Failed(error.message@))
                },
                Ok(()) => {
                    &&& final(self)@ == old(self)@
                    &&& match old(self)@.plugin_at(plugin_name@) {
                        Some(i) => out is Ok && string_views(out->Ok_0@) == old(self)@.plugins[i].initializers,
                        None => message_of(out) == Some(
                            "lazy plugin "@ + crate::text::quoted(plugin_name@) + " disappeared during engine reload"@,
                        ),
                    }
                },
            },
    {
        if let Err(error) = modules {
            self.finish_activation(plugin_name, ActivationCompletion::Failed(error.message.clone()));
            return Err(error);
        }
        self.initializers_of(plugin_name)
    }

    /// Ends the activation of a plugin once its initializers were run.
    pub fn initializers_done(&mut self, plugin_name: &str, initializers: Result<(), LazyError>) -> (out: Result<
        (),
        LazyError,
    >)
        requires
            old(self).wf(),
        ensures
            final(self).wf(),
            message_of(out) == message_of(initializers),
            final(self)@ == finished(old(self)@, plugin_name@, state_after_load(message_of(initializers))),
    {
        match initializers {
            Ok(()) => {
                self.finish_activation(plugin_name, ActivationCompletion::Loaded);
                Ok(())
            },
            Err(error) => {
                self.finish_activation(plugin_name, ActivationCompletion::Failed(error.message.clone()));
                Err(error)
            },
        }
    }

    /// Goes on once the compiled program of a plugin was loaded, or could not
    /// be: one of which nothing was run is compiled again at the next call.
    pub fn load_done(&mut self, plugin_name: &str, command: &str, loaded: Result<(), ArtifactLoadError>) -> (out: Result<
        Vec<String>,
        LazyError,
    >)
        requires
            old(self).wf(),
        ensures
            final(self).wf(),
            match loaded {
                Err(ArtifactLoadError::Safe(message)) => {
                    &&& message_of(out) == Some(unusable_text(plugin_name@, message@, command@))
                    &&& final(self)@ == finished(old(self)@, plugin_name@, StateView::FallbackPending)
                },
                Err(ArtifactLoadError::Execution(error)) => {
                    &&& message_of(out) == Some(error.message@)
                    &&& final(self)@ == finished(old(self)@, plugin_name@, StateView::Failed(error.message@))
                },
                Ok(()) => {
                    &&& final(self)@ == old(self)@
                    &&& match old(self)@.plugin_at(plugin_name@) {
                        Some(i) => out is Ok && string_views(out->Ok_0@) == old(self)@.plugins[i].initializers,
                        None => message_of(out) == Some(
                            "lazy plugin "@ + crate::text::quoted(plugin_name@) + " disappeared during engine reload"@,
                        ),
                    }
                },
            },
    {
        match loaded {
            Ok(()) => self.modules_done(plugin_name, Ok(())),
            Err(ArtifactLoadError::Execution(error)) => self.modules_done(plugin_name, Err(error)),
            Err(ArtifactLoadError::Safe(message)) => {
                self.finish_activation(plugin_name, ActivationCompletion::FallbackPending);
                Err(
                    LazyError {
                        message: "unable to load precompiled lazy plugin ".to_owned().concat(
                            quote(plugin_name).as_str(),
                        ).concat(": ").concat(message.as_str()).concat("; invoke ").concat(quote(command).as_str()).concat(
                            " again to load it normally",
                        ),
                    },
                )
            },
        }
    }

}

/// Whether these can be the ones among the first `n` names that the engine says
/// to be bound.
pub open spec fn can_be_present(engine: Engine, names: Seq<Seq<char>>, n: int, present: Seq<Seq<char>>) -> bool
    decreases n,
{
    if n <= 0 {
        present.len() == 0
    } else {
        ||| can_answer_bound(engine, names[n - 1], true) && present.len() > 0 && present.last() == names[n - 1]
            && can_be_present(engine, names, n - 1, present.drop_last())
        ||| can_answer_bound(engine, names[n - 1], false) && can_be_present(engine, names, n - 1, present)
    }
}

/// The registry once the plugins of the first `n` commands have failed whose
/// names are bound already.
pub open spec fn collided(registry: RegistryView, present: Seq<Seq<char>>, n: int) -> RegistryView
    decreases n,
{
    if n <= 0 {
        registry
    } else {
        let before = collided(registry, present, n - 1);
        let command = registry.commands[n - 1];
        if present.contains(command.name) && !registry.locally_loaded_commands.contains(command.name) {
            match registry.plugin_at(command.plugin) {
                Some(i) => before.with_state(
                    i,
                    StateView::Failed(
                        "lazy command "@ + crate::text::quoted(command.name) + " collides with an existing global"@,
                    ),
                ),
                None => before,
            }
        } else {
            before
        }
    }
}

/// The registry once the unloaded ones among its first `n` asynchronous
/// plugins are queued.
pub open spec fn queued_up_to(registry: RegistryView, n: int) -> RegistryView
    decreases n,
{
    if n <= 0 {
        registry
    } else {
        let before = queued_up_to(registry, n - 1);
        if waiting(registry, n - 1) {
            RegistryView {
                next_job_id: (before.next_job_id + 1) as u64,
                ..before.with_state(n - 1, StateView::Queued { job_id: before.next_job_id })
            }
        } else {
            before
        }
    }
}

/// The jobs for the first `n` plugins.
pub open spec fn jobs_up_to(registry: RegistryView, n: int) -> Seq<(Seq<char>, u64)>
    decreases n,
{
    if n <= 0 {
        Seq::empty()
    } else if waiting(registry, n - 1) {
        jobs_up_to(registry, n - 1).push((registry.plugins[n - 1].name, queued_up_to(registry, n - 1).next_job_id))
    } else {
        jobs_up_to(registry, n - 1)
    }
}

/// Whether a plugin waits for the end of the initialization.
pub open spec fn waiting(registry: RegistryView, i: int) -> bool {
    registry.plugins[i].kind is Async && registry.plugins[i].state is Unloaded
}

pub open spec fn job_views(jobs: Seq<(String, u64)>) -> Seq<(Seq<char>, u64)> {
    Seq::new(jobs.len(), |i: int| (jobs[i].0@, jobs[i].1))
}

/// What the end of the initialization makes of a registry, and the jobs that it
/// starts, where these of the commands' names are bound. Of a registry of
/// another generation only the collisions are noted.
pub open spec fn initialization_ended(
    before: RegistryView,
    present: Seq<Seq<char>>,
    generation: usize,
    after: RegistryView,
    jobs: Seq<(Seq<char>, u64)>,
) -> bool {
    let checked = collided(before, present, before.commands.len() as int);
    if before.generation == generation {
        let started = RegistryView { initialization_finished: true, ..checked };
        after == queued_up_to(started, started.plugins.len() as int) && jobs == jobs_up_to(started, started.plugins.len() as int)
    } else {
        after == checked && jobs.len() == 0
    }
}

/// Whether a plugin waits for a background job.
pub open spec fn job_queued(registry: RegistryView, generation: usize, name: Seq<char>, job_id: u64) -> bool {
    registry.generation == generation && registry.plugin_at(name) is Some && registry.plugins[registry.plugin_at(
        name,
    )->0].state == (StateView::Queued { job_id })
}

/// The registry once the background compilation of a plugin has begun.
pub open spec fn precompile_begun(registry: RegistryView, generation: usize, name: Seq<char>, job_id: u64) -> RegistryView {
    match registry.plugin_at(name) {
        Some(i) => if registry.generation == generation && registry.plugins[i].state == (StateView::Queued { job_id }) {
            registry.with_state(i, StateView::Precompiling { job_id })
        } else {
            registry
        },
        None => registry,
    }
}

/// The registry once the background compilation of a plugin has ended.
pub open spec fn precompile_ended(
    registry: RegistryView,
    generation: usize,
    name: Seq<char>,
    job_id: u64,
    object: Option<RawProgramWithSymbols>,
) -> RegistryView {
    match registry.plugin_at(name) {
        Some(i) => if registry.generation == generation && registry.plugins[i].state == (StateView::Precompiling {
            job_id,
        }) {
            registry.with_state(
                i,
                match object {
                    Some(program) => StateView::Ready(program),
                    None => StateView::FallbackPending,
                },
            )
        } else {
            registry
        },
        None => registry,
    }
}

/// The registry once a background job has failed.
pub open spec fn job_failed(registry: RegistryView, generation: usize, name: Seq<char>, job_id: u64) -> RegistryView {
    match registry.plugin_at(name) {
        Some(i) => if registry.generation == generation && (registry.plugins[i].state == (StateView::Queued { job_id })
            || registry.plugins[i].state == (StateView::Precompiling { job_id })) {
            registry.with_state(i, StateView::FallbackPending)
        } else {
            registry
        },
        None => registry,
    }
}

proof fn lemma_collided(registry: RegistryView, present: Seq<Seq<char>>, n: int)
    requires
        registry.wf(),
        0 <= n <= registry.commands.len(),
    ensures
        collided(registry, present, n).wf(),
        collided(registry, present, n) == (RegistryView {
            plugins: collided(registry, present, n).plugins,
            ..registry
        }),
        collided(registry, present, n).plugins.len() == registry.plugins.len(),
        collided(registry, present, n).plugin_names() == registry.plugin_names(),
    decreases n,
{
    if n > 0 {
        lemma_collided(registry, present, n - 1);
        let before = collided(registry, present, n - 1);
        let plugin = registry.commands[n - 1].plugin;
        crate::text::lemma_find_name(registry.plugin_names(), plugin, 0);
        assert(registry.plugin_at(registry.commands[n - 1].plugin) is Some);
        super::state::lemma_with_state(
            before,
            registry.plugin_at(plugin)->0,
            StateView::Failed(
                "lazy command "@ + crate::text::quoted(registry.commands[n - 1].name) + " collides with an existing global"@,
            ),
        );
    }
}

impl Registry {
    /// Puts a plugin into the failed state.
    pub fn mark_plugin_failed(&mut self, plugin_name: &str, message: String)
        requires
            old(self).wf(),
        ensures
            final(self).wf(),
            final(self)@ == (match old(self)@.plugin_at(plugin_name@) {
                Some(i) => old(self)@.with_state(i, StateView::Failed(message@)),
                None => old(self)@,
            }),
    {
        if let Some(i) = self.plugin_index(plugin_name) {
            self.set_state(i, ActivationState::Failed(message));
        }
    }

    /// Fails the plugins of the commands whose names are bound already, other
    /// than those that a workspace has loaded itself.
    pub fn fail_collisions(&mut self, present: &Vec<String>)
        requires
            old(self).wf(),
        ensures
            final(self).wf(),
            final(self)@ == collided(old(self)@, string_views(present@), old(self)@.commands.len() as int),
    {
        let ghost before = self@;
        let ghost names = string_views(present@);
        let mut i: usize = 0;
        while i < self.commands.len()
            invariant
                before.wf(),
                names == string_views(present@),
                self.wf(),
                i <= self.commands@.len(),
                self@ == collided(before, names, i as int),
                self.commands@.len() == before.commands.len(),
            decreases self.commands.len() - i,
        {
            proof {
                lemma_collided(before, names, i as int);
                assert(before.commands[i as int] == self@.commands[i as int]);
                assert(self@.commands[i as int] == self.commands@[i as int]@);
            }
            let name = self.commands[i].name.clone();
            if crate::text::holds_text(present, name.as_str()) && !crate::text::holds_text(
                &self.locally_loaded_commands,
                name.as_str(),
            ) {
                let plugin = self.commands[i].plugin.clone();
                self.mark_plugin_failed(
                    plugin.as_str(),
                    "lazy command ".to_owned().concat(quote(name.as_str()).as_str()).concat(
                        " collides with an existing global",
                    ),
                );
            }
            i += 1;
            proof {
                lemma_collided(before, names, i as int);
                assert(self@.commands.len() == before.commands.len());
            }
        }
    }

    /// The names of the commands that are bound in the engine.
    pub fn bound_commands(&self, engine: &Engine) -> (out: Vec<String>)
        ensures
            can_be_present(*engine, self@.command_names(), self@.command_names().len() as int, string_views(out@)),
    {
        let ghost names = self@.command_names();
        let mut out: Vec<String> = Vec::new();
        let mut i: usize = 0;
        proof {
            assert(string_views(out@) =~= Seq::<Seq<char>>::empty());
        }
        while i < self.commands.len()
            invariant
                i <= self.commands@.len(),
                names == self@.command_names(),
                can_be_present(*engine, names, i as int, string_views(out@)),
            decreases self.commands.len() - i,
        {
            let name = self.commands[i].name.clone();
            let ghost before = out@;
            proof {
                assert(names[i as int] == name@);
                crate::text::lemma_string_views_push(before, name);
            }
            if global_exists(engine, name.as_str()) {
                out.push(name);
                proof {
                    assert(string_views(out@).drop_last() =~= string_views(before));
                }
            }
            i += 1;
        }
        out
    }

    /// Fails the plugins of the commands whose names the engine binds already.
    pub fn validate_global_collisions(&mut self, engine: &Engine)
        requires
            old(self).wf(),
        ensures
            final(self).wf(),
            exists|present: Seq<Seq<char>>| #[trigger]
                can_be_present(*engine, old(self)@.command_names(), old(self)@.command_names().len() as int, present)
                    && final(self)@ == collided(old(self)@, present, old(self)@.commands.len() as int),
    {
        let present = self.bound_commands(engine);
        self.fail_collisions(&present);
    }

    /// Queues the asynchronous plugins that nobody has loaded yet.
    pub fn queue_initialized_async_plugins(&mut self) -> (out: Vec<(String, u64)>)
        requires
            old(self).wf(),
            old(self).next_job_id + old(self).plugins@.len() <= u64::MAX,
        ensures
            final(self).wf(),
            final(self)@ == queued_up_to(old(self)@, old(self)@.plugins.len() as int),
            job_views(out@) == jobs_up_to(old(self)@, old(self)@.plugins.len() as int),
    {
        let ghost before = self@;
        let mut queued: Vec<(String, u64)> = Vec::new();
        let mut i: usize = 0;
        proof {
            assert(job_views(queued@) =~= Seq::<(Seq<char>, u64)>::empty());
        }
        while i < self.plugins.len()
            invariant
                self.wf(),
                i <= self.plugins@.len(),
                self.plugins@.len() == before.plugins.len(),
                before.next_job_id + before.plugins.len() <= u64::MAX,
                self.next_job_id <= before.next_job_id + i,
                self@ == queued_up_to(before, i as int),
                job_views(queued@) == jobs_up_to(before, i as int),
                forall|k: int| i <= k < before.plugins.len() ==> self@.plugins[k] == before.plugins[k],
                forall|k: int| 0 <= k < before.plugins.len() ==> (#[trigger] self@.plugins[k]).name == before.plugins[k].name,
            decreases self.plugins.len() - i,
        {
            let ghost middle = self@;
            let ghost jobs = queued@;
            proof {
                assert(self@.plugins[i as int] == self.plugins@[i as int]@);
                assert(middle.plugins[i as int] == before.plugins[i as int]);
            }
            let unloaded = match &self.plugins[i].state {
                ActivationState::Unloaded => true,
                _ => false,
            };
            let asynchronous = match self.plugins[i].kind {
                super::state::RegistrationKind::Async => true,
                super::state::RegistrationKind::Lazy => false,
            };
            if unloaded && asynchronous {
                let name = self.plugins[i].name.clone();
                let job_id: u64 = self.allocate_job();
                self.set_state(i, ActivationState::Queued { job_id });
                let job = (name, job_id);
                queued.push(job);
                proof {
                    assert(job_views(queued@) =~= job_views(jobs).push((name@, job_id)));
                    assert(self@ =~= queued_up_to(before, i + 1));
                    assert(middle.wf());
                    super::state::lemma_with_state(middle, i as int, StateView::Queued { job_id });
                }
            }
            i += 1;
            proof {
                assert(self.plugins@.len() == self@.plugins.len());
            }
        }
        queued
    }

    /// Ends the initialization of an engine in which these of the commands'
    /// names are bound: the result are the jobs that have to compile plugins in
    /// the background.
    pub fn end_initialization(&mut self, present: &Vec<String>, generation: usize) -> (out: Vec<(String, u64)>)
        requires
            old(self).wf(),
            old(self).next_job_id + old(self).plugins@.len() <= u64::MAX,
        ensures
            final(self).wf(),
            initialization_ended(old(self)@, string_views(present@), generation, final(self)@, job_views(out@)),
    {
        let ghost before = self@;
        self.fail_collisions(present);
        proof {
            lemma_collided(before, string_views(present@), before.commands.len() as int);
            assert(self.plugins@.len() == self@.plugins.len());
            assert(before.plugins.len() == old(self).plugins@.len());
        }
        if self.generation != generation {
            return Vec::new();
        }
        let ghost checked = self@;
        self.initialization_finished = true;
        proof {
            assert(self@.plugin_names() =~= checked.plugin_names());
            assert(self@.command_names() =~= checked.command_names());
            assert(self@.logical_names() =~= checked.logical_names());
            assert forall|i: int| 0 <= i < self@.commands.len() implies self@.plugin_at((#[trigger] self@.commands[i]).plugin) is Some by {
                assert(checked.plugin_at(checked.commands[i].plugin) is Some);
            }
        }
        self.queue_initialized_async_plugins()
    }

    /// Ends the initialization of an engine: the result are the jobs that have
    /// to compile plugins in the background.
    pub fn finish_initialization(&mut self, engine: &Engine, generation: usize) -> (out: Vec<(String, u64)>)
        requires
            old(self).wf(),
            old(self).next_job_id + old(self).plugins@.len() <= u64::MAX,
        ensures
            final(self).wf(),
            exists|present: Seq<Seq<char>>| #[trigger]
                can_be_present(*engine, old(self)@.command_names(), old(self)@.command_names().len() as int, present)
                    && initialization_ended(old(self)@, present, generation, final(self)@, job_views(out@)),
    {
        let present = self.bound_commands(engine);
        self.end_initialization(&present, generation)
    }

    /// Begins the background compilation of a plugin, unless the job is stale.
    pub fn begin_precompile(&mut self, generation: usize, plugin_name: &str, job_id: u64) -> (out: Option<Vec<String>>)
        requires
            old(self).wf(),
        ensures
            final(self).wf(),
            final(self)@ == precompile_begun(old(self)@, generation, plugin_name@, job_id),
            match out {
                Some(modules) => job_queued(old(self)@, generation, plugin_name@, job_id) && string_views(modules@) == old(
                    self,
                )@.plugins[old(self)@.plugin_at(plugin_name@)->0].modules,
                None => !job_queued(old(self)@, generation, plugin_name@, job_id),
            },
    {
        let ghost before = self@;
        if self.generation != generation {
            return None;
        }
        let i: usize = match self.plugin_index(plugin_name) {
            Some(i) => i,
            None => {
                return None;
            },
        };
        let ghost plugins = self.plugins@;
        proof {
            assert(before.plugins[i as int] == plugins[i as int]@);
        }
        let out = self.plugins[i].begin_precompile(job_id);
        proof {
            self.lemma_one_plugin(before, plugins, i as int);
        }
        out
    }

    /// Ends the background compilation of a plugin, unless the job is stale.
    pub fn finish_precompile(
        &mut self,
        generation: usize,
        plugin_name: &str,
        job_id: u64,
        object: Option<RawProgramWithSymbols>,
    ) -> (out: bool)
        requires
            old(self).wf(),
        ensures
            final(self).wf(),
            final(self)@ == precompile_ended(old(self)@, generation, plugin_name@, job_id, object),
            out == (old(self).generation == generation && old(self)@.plugin_at(plugin_name@) is Some && old(self)@.plugins[old(
                self,
            )@.plugin_at(plugin_name@)->0].state == (StateView::Precompiling { job_id })),
    {
        let ghost before = self@;
        if self.generation != generation {
            return false;
        }
        let i: usize = match self.plugin_index(plugin_name) {
            Some(i) => i,
            None => {
                return false;
            },
        };
        let ghost plugins = self.plugins@;
        proof {
            assert(before.plugins[i as int] == plugins[i as int]@);
        }
        let out = self.plugins[i].finish_precompile(job_id, object);
        proof {
            self.lemma_one_plugin(before, plugins, i as int);
        }
        out
    }

    /// Gives a failed background job up, unless it is stale.
    pub fn publish_precompile_failure(&mut self, generation: usize, plugin_name: &str, job_id: u64) -> (out: bool)
        requires
            old(self).wf(),
        ensures
            final(self).wf(),
            final(self)@ == job_failed(old(self)@, generation, plugin_name@, job_id),
            out == (old(self).generation == generation && old(self)@.plugin_at(plugin_name@) is Some && ({
                let state = old(self)@.plugins[old(self)@.plugin_at(plugin_name@)->0].state;
                state == (StateView::Queued { job_id }) || state == (StateView::Precompiling { job_id })
            })),
    {
        let ghost before = self@;
        if self.generation != generation {
            return false;
        }
        let i: usize = match self.plugin_index(plugin_name) {
            Some(i) => i,
            None => {
                return false;
            },
        };
        let ghost plugins = self.plugins@;
        proof {
            assert(before.plugins[i as int] == plugins[i as int]@);
        }
        let out = self.plugins[i].fallback_if_job_matches(job_id);
        proof {
            self.lemma_one_plugin(before, plugins, i as int);
        }
        out
    }

    /// A registry in which only the plugin at `i` has changed, and of it at most the state.
    proof fn lemma_one_plugin(&self, before: RegistryView, plugins: Seq<super::state::Plugin>, i: int)
        requires
            before.wf(),
            0 <= i < plugins.len(),
            before.plugins == super::state::views(plugins),
            self.plugins@ == plugins.update(i, self.plugins@[i]),
            self.plugins@[i]@ == (PluginView { state: self.plugins@[i].state@, ..plugins[i]@ }),
            self@ == (RegistryView { plugins: self@.plugins, ..before }),
        ensures
            self@ == before.with_state(i, self.plugins@[i].state@),
            self.plugins@[i].state@ == before.plugins[i].state ==> self@ == before,
            self.wf(),
    {
        super::state::lemma_views_update(plugins, i, self.plugins@[i]);
        assert(self@ =~= before.with_state(i, self.plugins@[i].state@));
        super::state::lemma_with_state(before, i, self.plugins@[i].state@);
        assert(before.with_state(i, before.plugins[i].state) =~= before);
    }

}

/// A failure is remembered: every later call of a command of the plugin gives
/// the same error and changes nothing.
pub proof fn law_failures_are_retained(registry: RegistryView, command: Seq<char>, message: Seq<char>)
    requires
        registry.wf(),
        provider(registry, command) is Some,
        registry.plugins[provider(registry, command)->0].state == StateView::Failed(message),
    ensures
        begin_outcome(registry, command) == Err::<(Seq<char>, WorkView), Seq<char>>(message),
        begun(registry, command) == registry,
{
    let i = provider(registry, command)->0;
    crate::text::lemma_find_name(registry.plugin_names(), registry.commands[registry.command_at(command)->0].plugin, 0);
    assert(registry.with_state(i, registry.plugins[i].state) =~= registry);
}

/// A plugin that failed stays failed, whatever background jobs and activations end.
pub proof fn law_failed_plugins_stay_failed(
    registry: RegistryView,
    name: Seq<char>,
    other: Seq<char>,
    state: StateView,
    generation: usize,
    job_id: u64,
    object: Option<RawProgramWithSymbols>,
)
    requires
        registry.wf(),
        registry.plugin_at(name) is Some,
        registry.plugins[registry.plugin_at(name)->0].state is Failed,
    ensures
        ({
            let i = registry.plugin_at(name)->0;
            let kept = registry.plugins[i];
            &&& finished(registry, other, state).plugins[i] == kept
            &&& precompile_begun(registry, generation, other, job_id).plugins[i] == kept
            &&& precompile_ended(registry, generation, other, job_id, object).plugins[i] == kept
            &&& job_failed(registry, generation, other, job_id).plugins[i] == kept
        }),
{
    crate::text::lemma_find_name(registry.plugin_names(), name, 0);
    crate::text::lemma_find_name(registry.plugin_names(), other, 0);
}

/// A job that is not the current one of its plugin changes nothing.
pub proof fn law_stale_jobs_change_nothing(
    registry: RegistryView,
    generation: usize,
    name: Seq<char>,
    job_id: u64,
    object: Option<RawProgramWithSymbols>,
)
    requires
        registry.generation != generation || registry.plugin_at(name) is None || (registry.plugins[registry.plugin_at(
            name,
        )->0].state != (StateView::Queued { job_id }) && registry.plugins[registry.plugin_at(name)->0].state != (
        StateView::Precompiling { job_id })),
    ensures
        precompile_begun(registry, generation, name, job_id) == registry,
        precompile_ended(registry, generation, name, job_id, object) == registry,
        job_failed(registry, generation, name, job_id) == registry,
{
}

/// A command that is called while its plugin is being loaded is refused.
pub proof fn law_activation_is_not_recursive(registry: RegistryView, command: Seq<char>)
    requires
        registry.wf(),
        begin_outcome(registry, command) is Ok,
        !(begin_outcome(registry, command)->Ok_0.1 is Call),
    ensures
        begin_outcome(begun(registry, command), command) is Err,
        begun(begun(registry, command), command) == begun(registry, command),
{
    let i = provider(registry, command)->0;
    let name = registry.commands[registry.command_at(command)->0].plugin;
    crate::text::lemma_find_name(registry.plugin_names(), name, 0);
    let next = begun(registry, command);
    super::state::lemma_with_state(registry, i, state_after_begin(registry.plugins[i].state));
    assert(next.command_names() =~= registry.command_names());
    assert(next.with_state(i, next.plugins[i].state) =~= next);
}

/// Once a plugin is loaded, its commands are called without more ado.
pub proof fn law_plugins_load_once(registry: RegistryView, command: Seq<char>)
    requires
        registry.wf(),
        begin_outcome(registry, command) is Ok,
        !(begin_outcome(registry, command)->Ok_0.1 is Call),
    ensures
        ({
            let after = finished(begun(registry, command), begin_outcome(registry, command)->Ok_0.0, StateView::Loaded);
            &&& begin_outcome(after, command) == Ok::<(Seq<char>, WorkView), Seq<char>>(
                (begin_outcome(registry, command)->Ok_0.0, WorkView::Call),
            )
            &&& begun(after, command) == after
        }),
{
    let i = provider(registry, command)->0;
    let name = registry.commands[registry.command_at(command)->0].plugin;
    crate::text::lemma_find_name(registry.plugin_names(), name, 0);
    assert(registry.plugin_names()[i] == name);
    let next = begun(registry, command);
    super::state::lemma_with_state(registry, i, state_after_begin(registry.plugins[i].state));
    let after = finished(next, name, StateView::Loaded);
    super::state::lemma_with_state(next, i, StateView::Loaded);
    assert(after.command_names() =~= registry.command_names());
    assert(after.with_state(i, after.plugins[i].state) =~= after);
}

} // verus!
