//! What is known of the lazy plugins.

use steel::compiler::program::RawProgramWithSymbols;
use vstd::prelude::*;

use crate::text::{find_name, same_text, string_views};

verus! {

#[verifier::external_type_specification]
#[verifier::external_body]
pub struct ExRawProgram(RawProgramWithSymbols);

/// What a command that is typed at the prompt comes to.
#[derive(Clone, Copy, Debug, PartialEq, Eq, Structural)]
pub enum TypedCommand {
    /// No plugin provides it.
    Unknown,
    /// It is one of a plugin, and the user is still typing.
    Pending,
    Invoke,
}

/// Why an operation on the plugins failed, as the user is told.
#[derive(Debug)]
pub struct LazyError {
    pub message: String,
}

#[derive(Clone, Copy, Debug, PartialEq, Eq, Structural)]
pub enum RegistrationKind {
    Lazy,
    Async,
}

#[derive(Clone, Copy, Debug, PartialEq, Eq, Structural)]
pub enum LogicalStrategy {
    Lazy,
    Eager,
}

/// Lifecycle for one lazy plugin.
///
/// Job ids distinguish a current background attempt from stale workers. A
/// failure before anything was executed becomes `FallbackPending`; failures
/// after execution began are retained in `Failed` and are not retried.
pub enum ActivationState {
    Unloaded,
    Queued { job_id: u64 },
    Precompiling { job_id: u64 },
    Ready(RawProgramWithSymbols),
    FallbackPending,
    Activating,
    Loaded,
    Failed(String),
}

/// The contents of an [`ActivationState`].
pub enum StateView {
    Unloaded,
    Queued { job_id: u64 },
    Precompiling { job_id: u64 },
    Ready(RawProgramWithSymbols),
    FallbackPending,
    Activating,
    Loaded,
    Failed(Seq<char>),
}

impl View for ActivationState {
    type V = StateView;

    open spec fn view(&self) -> StateView {
        match self {
            ActivationState::Unloaded => StateView::Unloaded,
            ActivationState::Queued { job_id } => StateView::Queued { job_id: *job_id },
            ActivationState::Precompiling { job_id } => StateView::Precompiling { job_id: *job_id },
            ActivationState::Ready(program) => StateView::Ready(*program),
            ActivationState::FallbackPending => StateView::FallbackPending,
            ActivationState::Activating => StateView::Activating,
            ActivationState::Loaded => StateView::Loaded,
            ActivationState::Failed(message) => StateView::Failed(message@),
        }
    }
}

pub struct Plugin {
    pub name: String,
    pub modules: Vec<String>,
    pub initializers: Vec<String>,
    pub kind: RegistrationKind,
    pub state: ActivationState,
}

/// The contents of a [`Plugin`].
pub struct PluginView {
    pub name: Seq<char>,
    pub modules: Seq<Seq<char>>,
    pub initializers: Seq<Seq<char>>,
    pub kind: RegistrationKind,
    pub state: StateView,
}

impl View for Plugin {
    type V = PluginView;

    open spec fn view(&self) -> PluginView {
        PluginView {
            name: self.name@,
            modules: string_views(self.modules@),
            initializers: string_views(self.initializers@),
            kind: self.kind,
            state: self.state@,
        }
    }
}

/// A command, the plugin that provides it and what it does.
#[derive(Debug)]
pub struct Command {
    pub name: String,
    pub plugin: String,
    pub doc: String,
}

/// The contents of a [`Command`].
pub struct CommandView {
    pub name: Seq<char>,
    pub plugin: Seq<char>,
    pub doc: Seq<char>,
}

impl View for Command {
    type V = CommandView;

    open spec fn view(&self) -> CommandView {
        CommandView { name: self.name@, plugin: self.plugin@, doc: self.doc@ }
    }
}

/// What the user knows as one plugin: modules to load eagerly, or manifests
/// of lazy plugins.
#[derive(Debug)]
pub struct LogicalPlugin {
    pub name: String,
    pub eager_modules: Vec<String>,
    pub manifests: Vec<String>,
    pub builtin: bool,
    pub strategy: Option<LogicalStrategy>,
}

/// The contents of a [`LogicalPlugin`].
pub struct LogicalView {
    pub name: Seq<char>,
    pub eager_modules: Seq<Seq<char>>,
    pub manifests: Seq<Seq<char>>,
    pub builtin: bool,
    pub strategy: Option<LogicalStrategy>,
}

impl View for LogicalPlugin {
    type V = LogicalView;

    open spec fn view(&self) -> LogicalView {
        LogicalView {
            name: self.name@,
            eager_modules: string_views(self.eager_modules@),
            manifests: string_views(self.manifests@),
            builtin: self.builtin,
            strategy: self.strategy,
        }
    }
}

/// The plugins, in the order of their registration, and their commands.
pub struct Registry {
    pub generation: usize,
    /// The names of the commands and globals that exist from the start.
    pub builtins: Vec<String>,
    pub plugins: Vec<Plugin>,
    pub commands: Vec<Command>,
    pub logical_plugins: Vec<LogicalPlugin>,
    pub logical_registration_order: Vec<String>,
    pub locally_loaded_commands: Vec<String>,
    pub initialization_finished: bool,
    pub next_job_id: u64,
}

/// The contents of a [`Registry`].
#[verifier::ext_equal]
pub struct RegistryView {
    pub generation: usize,
    pub builtins: Seq<Seq<char>>,
    pub plugins: Seq<PluginView>,
    pub commands: Seq<CommandView>,
    pub logical_plugins: Seq<LogicalView>,
    pub logical_registration_order: Seq<Seq<char>>,
    pub locally_loaded_commands: Seq<Seq<char>>,
    pub initialization_finished: bool,
    pub next_job_id: u64,
}

/// The views of the elements.
pub open spec fn views<T: View>(items: Seq<T>) -> Seq<T::V> {
    Seq::new(items.len(), |i: int| items[i]@)
}

pub proof fn lemma_views_push<T: View>(items: Seq<T>, item: T)
    ensures
        views(items.push(item)) == views(items).push(item@),
{
    assert(views(items.push(item)) =~= views(items).push(item@));
}

pub proof fn lemma_views_update<T: View>(items: Seq<T>, i: int, item: T)
    requires
        0 <= i < items.len(),
    ensures
        views(items.update(i, item)) == views(items).update(i, item@),
{
    assert(views(items.update(i, item)) =~= views(items).update(i, item@));
}

impl View for Registry {
    type V = RegistryView;

    open spec fn view(&self) -> RegistryView {
        RegistryView {
            generation: self.generation,
            builtins: string_views(self.builtins@),
            plugins: views(self.plugins@),
            commands: views(self.commands@),
            logical_plugins: views(self.logical_plugins@),
            logical_registration_order: string_views(self.logical_registration_order@),
            locally_loaded_commands: string_views(self.locally_loaded_commands@),
            initialization_finished: self.initialization_finished,
            next_job_id: self.next_job_id,
        }
    }
}

impl RegistryView {
    pub open spec fn plugin_names(self) -> Seq<Seq<char>> {
        Seq::new(self.plugins.len(), |i: int| self.plugins[i].name)
    }

    pub open spec fn command_names(self) -> Seq<Seq<char>> {
        Seq::new(self.commands.len(), |i: int| self.commands[i].name)
    }

    pub open spec fn logical_names(self) -> Seq<Seq<char>> {
        Seq::new(self.logical_plugins.len(), |i: int| self.logical_plugins[i].name)
    }

    /// Where the plugin of this name stands.
    pub open spec fn plugin_at(self, name: Seq<char>) -> Option<int> {
        find_name(self.plugin_names(), name, 0)
    }

    /// Where the command of this name stands.
    pub open spec fn command_at(self, name: Seq<char>) -> Option<int> {
        find_name(self.command_names(), name, 0)
    }

    /// Where the logical plugin of this name stands.
    pub open spec fn logical_at(self, name: Seq<char>) -> Option<int> {
        find_name(self.logical_names(), name, 0)
    }

    /// Names are used once, and every command belongs to a plugin.
    pub open spec fn wf(self) -> bool {
        &&& self.plugin_names().no_duplicates()
        &&& self.command_names().no_duplicates()
        &&& self.logical_names().no_duplicates()
        &&& forall|i: int| 0 <= i < self.commands.len() ==> self.plugin_at((#[trigger] self.commands[i]).plugin) is Some
    }

    /// The registry with the plugin at `i` in another state.
    pub open spec fn with_state(self, i: int, state: StateView) -> RegistryView {
        RegistryView { plugins: self.plugins.update(i, PluginView { state, ..self.plugins[i] }), ..self }
    }

    /// The registry of another generation: nothing but the built-in names.
    pub open spec fn emptied(self, generation: usize) -> RegistryView {
        RegistryView {
            generation,
            builtins: self.builtins,
            plugins: Seq::empty(),
            commands: Seq::empty(),
            logical_plugins: Seq::empty(),
            logical_registration_order: Seq::empty(),
            locally_loaded_commands: Seq::empty(),
            initialization_finished: false,
            next_job_id: 0,
        }
    }
}

/// A change of state keeps the names.
pub proof fn lemma_with_state(registry: RegistryView, i: int, state: StateView)
    requires
        0 <= i < registry.plugins.len(),
    ensures
        registry.with_state(i, state).plugin_names() == registry.plugin_names(),
        registry.wf() ==> registry.with_state(i, state).wf(),
{
    assert(registry.with_state(i, state).plugin_names() =~= registry.plugin_names());
    assert(registry.with_state(i, state).command_names() =~= registry.command_names());
    assert(registry.with_state(i, state).logical_names() =~= registry.logical_names());
}

impl Registry {
    pub open spec fn wf(&self) -> bool {
        self@.wf()
    }

    /// A registry without plugins.
    pub fn new(generation: usize, builtins: Vec<String>) -> (out: Registry)
        ensures
            out.wf(),
            out@ == (RegistryView { builtins: string_views(builtins@), ..out@ }).emptied(generation),
    {
        let out = Registry {
            generation,
            builtins,
            plugins: Vec::new(),
            commands: Vec::new(),
            logical_plugins: Vec::new(),
            logical_registration_order: Vec::new(),
            locally_loaded_commands: Vec::new(),
            initialization_finished: false,
            next_job_id: 0,
        };
        proof {
            assert(out@ =~= (RegistryView { builtins: string_views(builtins@), ..out@ }).emptied(generation));
        }
        out
    }

    /// Forgets all plugins and begins another generation.
    pub fn reset(&mut self, generation: usize)
        ensures
            final(self).wf(),
            final(self)@ == old(self)@.emptied(generation),
    {
        self.generation = generation;
        self.plugins.clear();
        self.commands.clear();
        self.logical_plugins.clear();
        self.logical_registration_order.clear();
        self.locally_loaded_commands.clear();
        self.initialization_finished = false;
        self.next_job_id = 0;
        proof {
            assert(self@ =~= old(self)@.emptied(generation));
        }
    }

    /// Where the plugin of this name stands.
    pub fn plugin_index(&self, name: &str) -> (out: Option<usize>)
        ensures
            match out {
                Some(i) => i < self.plugins@.len() && self.plugins@[i as int].name@ == name@ && self@.plugin_at(name@) == Some(
                    i as int,
                ),
                None => self@.plugin_at(name@) is None,
            },
    {
        let ghost names = self@.plugin_names();
        let mut i: usize = 0;
        while i < self.plugins.len()
            invariant
                i <= self.plugins@.len(),
                names == self@.plugin_names(),
                find_name(names, name@, 0) == find_name(names, name@, i as int),
            decreases self.plugins.len() - i,
        {
            proof {
                assert(names[i as int] == self.plugins@[i as int].name@);
            }
            if same_text(self.plugins[i].name.as_str(), name) {
                return Some(i);
            }
            i += 1;
        }
        None
    }

    /// Where the command of this name stands.
    pub fn command_index(&self, name: &str) -> (out: Option<usize>)
        ensures
            match out {
                Some(i) => i < self.commands@.len() && self.commands@[i as int].name@ == name@ && self@.command_at(name@)
                    == Some(i as int),
                None => self@.command_at(name@) is None,
            },
    {
        let ghost names = self@.command_names();
        let mut i: usize = 0;
        while i < self.commands.len()
            invariant
                i <= self.commands@.len(),
                names == self@.command_names(),
                find_name(names, name@, 0) == find_name(names, name@, i as int),
            decreases self.commands.len() - i,
        {
            proof {
                assert(names[i as int] == self.commands@[i as int].name@);
            }
            if same_text(self.commands[i].name.as_str(), name) {
                return Some(i);
            }
            i += 1;
        }
        None
    }

    /// Where the logical plugin of this name stands.
    pub fn logical_index(&self, name: &str) -> (out: Option<usize>)
        ensures
            match out {
                Some(i) => i < self.logical_plugins@.len() && self.logical_plugins@[i as int].name@ == name@
                    && self@.logical_at(name@) == Some(i as int),
                None => self@.logical_at(name@) is None,
            },
    {
        let ghost names = self@.logical_names();
        let mut i: usize = 0;
        while i < self.logical_plugins.len()
            invariant
                i <= self.logical_plugins@.len(),
                names == self@.logical_names(),
                find_name(names, name@, 0) == find_name(names, name@, i as int),
            decreases self.logical_plugins.len() - i,
        {
            proof {
                assert(names[i as int] == self.logical_plugins@[i as int].name@);
            }
            if same_text(self.logical_plugins[i].name.as_str(), name) {
                return Some(i);
            }
            i += 1;
        }
        None
    }

    /// Puts the plugin at `i` into another state.
    pub fn set_state(&mut self, i: usize, state: ActivationState)
        requires
            i < old(self).plugins@.len(),
        ensures
            final(self)@ == old(self)@.with_state(i as int, state@),
            old(self).wf() ==> final(self).wf(),
    {
        let ghost before = self@;
        let ghost view = state@;
        let ghost plugins = self.plugins@;
        self.plugins[i].state = state;
        proof {
            assert(views(self.plugins@) =~= views(plugins).update(
                i as int,
                PluginView { state: view, ..views(plugins)[i as int] },
            ));
            assert(self@ =~= before.with_state(i as int, view));
            lemma_with_state(before, i as int, view);
        }
    }

    /// A job id that was not used before.
    pub fn allocate_job(&mut self) -> (out: u64)
        requires
            old(self).next_job_id < u64::MAX,
        ensures
            out == old(self).next_job_id,
            final(self)@ == (RegistryView { next_job_id: (out + 1) as u64, ..old(self)@ }),
            final(self).plugins == old(self).plugins,
    {
        let job_id: u64 = self.next_job_id;
        self.next_job_id = job_id + 1;
        job_id
    }
    /// What a command that is typed comes to: it is called once the user has
    /// validated it.
    pub fn call_typed_command(&self, command: &str, validated: bool) -> (out: TypedCommand)
        ensures
            out == (if self@.command_at(command@) is None {
                TypedCommand::Unknown
            } else if validated {
                TypedCommand::Invoke
            } else {
                TypedCommand::Pending
            }),
    {
        if !self.recognizes(command) {
            TypedCommand::Unknown
        } else if validated {
            TypedCommand::Invoke
        } else {
            TypedCommand::Pending
        }
    }


    pub fn recognizes(&self, command: &str) -> (out: bool)
        ensures
            out == (self@.command_at(command@) is Some),
    {
        self.command_index(command).is_some()
    }

    pub fn documentation(&self, command: &str) -> (out: Option<String>)
        ensures
            crate::text::optional_text(out) == (match self@.command_at(command@) {
                Some(i) => Some(self@.commands[i].doc),
                None => None,
            }),
    {
        match self.command_index(command) {
            Some(i) => {
                proof {
                    assert(self@.commands[i as int] == self.commands@[i as int]@);
                }
                Some(self.commands[i].doc.clone())
            },
            None => None,
        }
    }

    /// The names of all commands, in order.
    pub fn available_commands(&self) -> (out: Vec<String>)
        ensures
            string_views(out@) == crate::text::sorted_texts(self@.command_names()),
    {
        let mut names: Vec<String> = Vec::new();
        let mut i: usize = 0;
        while i < self.commands.len()
            invariant
                i <= self.commands@.len(),
                names@.len() == i,
                forall|k: int| 0 <= k < i ==> (#[trigger] names@[k])@ == self.commands@[k].name@,
            decreases self.commands.len() - i,
        {
            names.push(self.commands[i].name.clone());
            i += 1;
        }
        proof {
            assert(string_views(names@) =~= self@.command_names());
        }
        crate::text::sort_texts(&names)
    }
}

impl Plugin {
    /// Begins the background compilation of a queued plugin, unless the job is stale.
    pub fn begin_precompile(&mut self, job_id: u64) -> (out: Option<Vec<String>>)
        ensures
            old(self)@.state == (StateView::Queued { job_id }) ==> out is Some && string_views(out->0@) == old(self)@.modules
                && final(self)@ == (PluginView { state: StateView::Precompiling { job_id }, ..old(self)@ }),
            old(self)@.state != (StateView::Queued { job_id }) ==> out is None && final(self)@ == old(self)@,
    {
        match self.state {
            ActivationState::Queued { job_id: current } => {
                if current != job_id {
                    return None;
                }
            },
            _ => {
                return None;
            },
        }
        self.state = ActivationState::Precompiling { job_id };
        Some(crate::text::copy_texts(&self.modules))
    }

    /// Ends the background compilation of a plugin, unless the job is stale.
    pub fn finish_precompile(&mut self, job_id: u64, object: Option<RawProgramWithSymbols>) -> (out: bool)
        ensures
            out == (old(self)@.state == (StateView::Precompiling { job_id })),
            final(self)@ == (if out {
                PluginView {
                    state: match object {
                        Some(program) => StateView::Ready(program),
                        None => StateView::FallbackPending,
                    },
                    ..old(self)@
                }
            } else {
                old(self)@
            }),
    {
        match self.state {
            ActivationState::Precompiling { job_id: current } => {
                if current != job_id {
                    return false;
                }
            },
            _ => {
                return false;
            },
        }
        self.state = match object {
            Some(program) => ActivationState::Ready(program),
            None => ActivationState::FallbackPending,
        };
        true
    }

    /// Gives a background compilation up, unless the job is stale.
    pub fn fallback_if_job_matches(&mut self, job_id: u64) -> (out: bool)
        ensures
            out == (old(self)@.state == (StateView::Queued { job_id }) || old(self)@.state == (StateView::Precompiling {
                job_id,
            })),
            final(self)@ == (if out {
                PluginView { state: StateView::FallbackPending, ..old(self)@ }
            } else {
                old(self)@
            }),
    {
        match self.state {
            ActivationState::Queued { job_id: current } => {
                if current != job_id {
                    return false;
                }
            },
            ActivationState::Precompiling { job_id: current } => {
                if current != job_id {
                    return false;
                }
            },
            _ => {
                return false;
            },
        }
        self.state = ActivationState::FallbackPending;
        true
    }
}

} // verus!
