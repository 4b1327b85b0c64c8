//! Loading a plugin, step by step.
//!
//! Programs run outside of the library: they read files, have effects and need
//! not end. Each step says what has to be run next, and the one after it takes
//! what came of that. Between two steps scripts may have changed the registry.

use steel::compiler::program::RawProgramWithSymbols;
use vstd::prelude::*;

use super::activation::{
    begin_outcome, begun, finished, load_begun, load_outcome, message_of, module_source, require_text, unusable_text,
    ActivationWork, ArtifactLoadError, WorkView,
};
use super::state::{LazyError, Registry, RegistryView, StateView};
use crate::text::string_views;

verus! {

/// The modules of a plugin are being run.
#[derive(Debug)]
pub struct Running {
    pub plugin: String,
}

/// The compiled program of a plugin is being loaded, for a command.
#[derive(Debug)]
pub struct Loading {
    pub plugin: String,
    pub command: String,
}

/// An initializer of a plugin is being called, with these to follow.
#[derive(Debug)]
pub struct Initializing {
    pub plugin: String,
    pub rest: Vec<String>,
}

/// What has to be done next so that a plugin gets loaded.
pub enum Activation {
    /// A program has to be compiled and run. [`Registry::modules_ran`] goes on.
    Run { program: String, running: Running },
    /// A compiled program has to be loaded and run.
    /// [`Registry::program_loaded`] goes on.
    Load { object: RawProgramWithSymbols, loading: Loading },
    /// The global of this name has to be called without arguments.
    /// [`Registry::initializer_called`] goes on.
    Initialize { function: String, initializing: Initializing },
    /// The plugin is loaded.
    Ready,
    Failed(LazyError),
}

/// The contents of an [`Activation`].
pub enum ActivationView {
    Run { program: Seq<char>, plugin: Seq<char> },
    Load { object: RawProgramWithSymbols, plugin: Seq<char>, command: Seq<char> },
    Initialize { function: Seq<char>, plugin: Seq<char>, rest: Seq<Seq<char>> },
    Ready,
    Failed(Seq<char>),
}

impl View for Activation {
    type V = ActivationView;

    open spec fn view(&self) -> ActivationView {
        match self {
            Activation::Run { program, running } => ActivationView::Run { program: program@, plugin: running.plugin@ },
            Activation::Load { object, loading } => ActivationView::Load {
                object: *object,
                plugin: loading.plugin@,
                command: loading.command@,
            },
            Activation::Initialize { function, initializing } => ActivationView::Initialize {
                function: function@,
                plugin: initializing.plugin@,
                rest: string_views(initializing.rest@),
            },
            Activation::Ready => ActivationView::Ready,
            Activation::Failed(error) => ActivationView::Failed(error.message@),
        }
    }
}

/// The plugin is gone from the registry.
pub open spec fn gone_text(plugin: Seq<char>) -> Seq<char> {
    "lazy plugin "@ + crate::text::quoted(plugin) + " disappeared during engine reload"@
}

/// A plugin whose loading failed stays failed.
pub open spec fn failed_load(registry: RegistryView, plugin: Seq<char>, message: Seq<char>) -> (RegistryView, ActivationView) {
    (finished(registry, plugin, StateView::Failed(message)), ActivationView::Failed(message))
}

/// The next of the initializers is called, or the plugin is loaded.
pub open spec fn next_initializer(registry: RegistryView, plugin: Seq<char>, rest: Seq<Seq<char>>) -> (
    RegistryView,
    ActivationView,
) {
    if rest.len() == 0 {
        (finished(registry, plugin, StateView::Loaded), ActivationView::Ready)
    } else {
        (registry, ActivationView::Initialize { function: rest[0], plugin, rest: rest.drop_first() })
    }
}

/// What follows once the modules of a plugin were run.
pub open spec fn after_modules(registry: RegistryView, plugin: Seq<char>, error: Option<Seq<char>>) -> (
    RegistryView,
    ActivationView,
) {
    match error {
        Some(message) => failed_load(registry, plugin, message),
        None => match registry.plugin_at(plugin) {
            Some(i) => next_initializer(registry, plugin, registry.plugins[i].initializers),
            None => (registry, ActivationView::Failed(gone_text(plugin))),
        },
    }
}

/// What follows once the compiled program of a plugin was loaded. One of which
/// nothing was run is compiled again at the next call.
pub open spec fn after_program(
    registry: RegistryView,
    plugin: Seq<char>,
    command: Seq<char>,
    loaded: Result<(), ArtifactLoadError>,
) -> (RegistryView, ActivationView) {
    match loaded {
        Ok(()) => after_modules(registry, plugin, None),
        Err(ArtifactLoadError::Execution(error)) => after_modules(registry, plugin, Some(error.message@)),
        Err(ArtifactLoadError::Safe(message)) => (
            finished(registry, plugin, StateView::FallbackPending),
            ActivationView::Failed(unusable_text(plugin, message@, command)),
        ),
    }
}

/// What follows once an initializer of a plugin was called.
pub open spec fn after_initializer(
    registry: RegistryView,
    plugin: Seq<char>,
    rest: Seq<Seq<char>>,
    error: Option<Seq<char>>,
) -> (RegistryView, ActivationView) {
    match error {
        Some(message) => failed_load(registry, plugin, message),
        None => next_initializer(registry, plugin, rest),
    }
}

/// What a call of a command begins with.
pub open spec fn call_begun(registry: RegistryView, command: Seq<char>) -> (RegistryView, ActivationView) {
    (
        begun(registry, command),
        match begin_outcome(registry, command) {
            Err(message) => ActivationView::Failed(message),
            Ok((plugin, WorkView::Call)) => ActivationView::Ready,
            Ok((plugin, WorkView::Compile(modules))) => ActivationView::Run { program: require_text(modules), plugin },
            Ok((plugin, WorkView::Precompiled(object))) => ActivationView::Load { object, plugin, command },
        },
    )
}

/// What loading a plugin begins with that is depended on.
pub open spec fn dependency_begun(registry: RegistryView, name: Seq<char>) -> (RegistryView, ActivationView) {
    (
        load_begun(registry, name),
        match load_outcome(registry, name) {
            Err(message) => ActivationView::Failed(message),
            Ok(WorkView::Compile(modules)) => ActivationView::Run { program: require_text(modules), plugin: name },
            Ok(_) => ActivationView::Ready,
        },
    )
}

impl Registry {
    /// Begins the call of a command: its plugin is loaded first, where it is
    /// not loaded yet. Once the plugin is ready the command can be called.
    pub fn activate_and_call(&mut self, command: &str) -> (out: Activation)
        requires
            old(self).wf(),
        ensures
            final(self).wf(),
            (final(self)@, out@) == call_begun(old(self)@, command@),
    {
        match self.begin_activation(command) {
            Err(error) => Activation::Failed(error),
            Ok((_, ActivationWork::Call)) => Activation::Ready,
            Ok((plugin, ActivationWork::Compile(modules))) => Activation::Run {
                program: module_source(&modules),
                running: Running { plugin },
            },
            Ok((plugin, ActivationWork::Precompiled(object))) => Activation::Load {
                object,
                loading: Loading { plugin, command: command.to_owned() },
            },
        }
    }

    /// Begins to load a plugin that is depended on, where it is not loaded yet.
    pub fn activate_plugin(&mut self, name: &str) -> (out: Activation)
        requires
            old(self).wf(),
        ensures
            final(self).wf(),
            (final(self)@, out@) == dependency_begun(old(self)@, name@),
    {
        match self.begin_load(name) {
            Err(error) => Activation::Failed(error),
            Ok(ActivationWork::Compile(modules)) => Activation::Run {
                program: module_source(&modules),
                running: Running { plugin: name.to_owned() },
            },
            Ok(_) => Activation::Ready,
        }
    }

    /// Calls the next of the initializers, or ends the activation.
    fn go_on(&mut self, plugin: String, initializers: Vec<String>) -> (out: Activation)
        requires
            old(self).wf(),
        ensures
            final(self).wf(),
            (final(self)@, out@) == next_initializer(old(self)@, plugin@, string_views(initializers@)),
    {
        let ghost all = string_views(initializers@);
        let mut rest = initializers;
        if rest.len() == 0 {
            let _ = self.initializers_done(plugin.as_str(), Ok(()));
            return Activation::Ready;
        }
        let function = rest.remove(0);
        proof {
            assert(string_views(rest@) =~= all.drop_first());
        }
        Activation::Initialize { function, initializing: Initializing { plugin, rest } }
    }

    /// Goes on once the modules of a plugin were run.
    pub fn modules_ran(&mut self, running: Running, result: Result<(), LazyError>) -> (out: Activation)
        requires
            old(self).wf(),
        ensures
            final(self).wf(),
            (final(self)@, out@) == after_modules(old(self)@, running.plugin@, message_of(result)),
    {
        match self.modules_done(running.plugin.as_str(), result) {
            Ok(initializers) => self.go_on(running.plugin, initializers),
            Err(error) => Activation::Failed(error),
        }
    }

    /// Goes on once the compiled program of a plugin was loaded, or could not
    /// be.
    pub fn program_loaded(&mut self, loading: Loading, result: Result<(), ArtifactLoadError>) -> (out: Activation)
        requires
            old(self).wf(),
        ensures
            final(self).wf(),
            (final(self)@, out@) == after_program(old(self)@, loading.plugin@, loading.command@, result),
    {
        match self.load_done(loading.plugin.as_str(), loading.command.as_str(), result) {
            Ok(initializers) => self.go_on(loading.plugin, initializers),
            Err(error) => Activation::Failed(error),
        }
    }

    /// Goes on once an initializer of a plugin was called.
    pub fn initializer_called(&mut self, initializing: Initializing, result: Result<(), LazyError>) -> (out: Activation)
        requires
            old(self).wf(),
        ensures
            final(self).wf(),
            (final(self)@, out@) == after_initializer(
                old(self)@,
                initializing.plugin@,
                string_views(initializing.rest@),
                message_of(result),
            ),
    {
        match result {
            Ok(()) => self.go_on(initializing.plugin, initializing.rest),
            Err(error) => match self.initializers_done(initializing.plugin.as_str(), Err(error)) {
                Err(error) => Activation::Failed(error),
                Ok(()) => Activation::Ready,
            },
        }
    }
}

/// What has to be done after `n` more initializers were called and returned.
pub open spec fn after_initializers(step: (RegistryView, ActivationView), n: int) -> (RegistryView, ActivationView)
    decreases n,
{
    if n <= 0 {
        step
    } else {
        let before = after_initializers(step, n - 1);
        match before.1 {
            ActivationView::Initialize { plugin, rest, .. } => after_initializer(before.0, plugin, rest, None),
            _ => before,
        }
    }
}

/// Once its modules were run, the initializers of a plugin are called one after
/// the other, in their order. Only after the last of them is the plugin loaded.
pub proof fn law_initializers_are_called_in_order(registry: RegistryView, plugin: Seq<char>, n: int)
    requires
        registry.wf(),
        registry.plugin_at(plugin) is Some,
        0 <= n <= registry.plugins[registry.plugin_at(plugin)->0].initializers.len(),
    ensures
        ({
            let all = registry.plugins[registry.plugin_at(plugin)->0].initializers;
            let step = after_initializers(after_modules(registry, plugin, None), n);
            if n < all.len() {
                step == (
                    registry,
                    ActivationView::Initialize { function: all[n], plugin, rest: all.subrange(n + 1, all.len() as int) },
                )
            } else {
                step == (finished(registry, plugin, StateView::Loaded), ActivationView::Ready)
            }
        }),
    decreases n,
{
    let all = registry.plugins[registry.plugin_at(plugin)->0].initializers;
    if n <= 0 {
        if all.len() > 0 {
            assert(all.drop_first() =~= all.subrange(1, all.len() as int));
        }
    } else {
        law_initializers_are_called_in_order(registry, plugin, n - 1);
        let rest = all.subrange(n, all.len() as int);
        if n < all.len() {
            assert(rest[0] == all[n]);
            assert(rest.drop_first() =~= all.subrange(n + 1, all.len() as int));
        }
    }
}

/// A step that fails ends the activation: the plugin stays failed with the
/// message of the step, and every later call of a command of it gives the same
/// message.
pub proof fn law_a_failed_step_is_retained(registry: RegistryView, command: Seq<char>, rest: Seq<Seq<char>>, message: Seq<char>)
    requires
        registry.wf(),
        super::activation::provider(registry, command) is Some,
        registry.plugins[super::activation::provider(registry, command)->0].state is Activating,
    ensures
        ({
            let plugin = registry.plugins[super::activation::provider(registry, command)->0].name;
            let modules = after_modules(registry, plugin, Some(message));
            let initializer = after_initializer(registry, plugin, rest, Some(message));
            &&& modules == initializer
            &&& modules.1 == ActivationView::Failed(message)
            &&& call_begun(modules.0, command) == (modules.0, ActivationView::Failed(message))
        }),
{
    let i = super::activation::provider(registry, command)->0;
    let name = registry.commands[registry.command_at(command)->0].plugin;
    crate::text::lemma_find_name(registry.plugin_names(), name, 0);
    assert(registry.plugin_names()[i] == registry.plugins[i].name);
    let after = registry.with_state(i, StateView::Failed(message));
    super::state::lemma_with_state(registry, i, StateView::Failed(message));
    assert(after.command_names() =~= registry.command_names());
    assert(after.with_state(i, after.plugins[i].state) =~= after);
}

} // verus!
