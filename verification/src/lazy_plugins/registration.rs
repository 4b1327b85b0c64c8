//! Registration of lazy plugins and of logical ones.

use vstd::prelude::*;

use super::state::{
    ActivationState, Command, CommandView, LazyError, LogicalPlugin, LogicalStrategy, LogicalView, Plugin, PluginView,
    RegistrationKind, Registry, RegistryView, StateView,
};
use crate::text::{chars_of, copy_texts, holds_text, optional_text, quote, same_text, sort_texts, string_views};

verus! {

broadcast use vstd::string::group_string_axioms;

/// Whether a text holds a line break or a null character.
pub open spec fn holds_break(text: Seq<char>) -> bool {
    exists|i: int| 0 <= i < text.len() && breaking(#[trigger] text[i])
}

pub open spec fn breaking(c: char) -> bool {
    c == '\n' || c == '\r' || c == '\0'
}

/// Whether a text holds a line break or a null character.
pub fn has_break(text: &str) -> (out: bool)
    ensures
        out == holds_break(text@),
{
    let chars = chars_of(text);
    let mut i: usize = 0;
    while i < chars.len()
        invariant
            i <= chars@.len(),
            chars@ == text@,
            forall|k: int| 0 <= k < i ==> !breaking(#[trigger] chars@[k]),
        decreases chars.len() - i,
    {
        let c = chars[i];
        if c == '\n' || c == '\r' || c == '\0' {
            proof {
                assert(breaking(text@[i as int]));
            }
            return true;
        }
        i += 1;
    }
    false
}

/// Why a name is refused, if it is.
pub open spec fn name_refusal(kind: Seq<char>, name: Seq<char>) -> Option<Seq<char>> {
    if name.len() == 0 {
        Some("lazy plugin "@ + kind + " cannot be empty"@)
    } else if holds_break(name) {
        Some("lazy plugin "@ + kind + " contains an invalid character: "@ + crate::text::quoted(name))
    } else {
        None
    }
}

/// Why the first refused one of the names is refused.
pub open spec fn names_refusal(kind: Seq<char>, names: Seq<Seq<char>>) -> Option<Seq<char>>
    decreases names.len(),
{
    if names.len() == 0 {
        None
    } else {
        match names_refusal(kind, names.drop_last()) {
            Some(message) => Some(message),
            None => name_refusal(kind, names.last()),
        }
    }
}

pub open spec fn command_refusal(builtins: Seq<Seq<char>>, name: Seq<char>) -> Option<Seq<char>> {
    match name_refusal("command"@, name) {
        Some(message) => Some(message),
        None => if name[0] == ':' {
            Some("lazy command names must not start with ':': "@ + crate::text::quoted(name))
        } else if builtins.contains(name) {
            Some("lazy command "@ + crate::text::quoted(name) + " collides with a built-in/global command"@)
        } else {
            None
        },
    }
}

/// Why the first refused one of the commands is refused.
pub open spec fn commands_refusal(builtins: Seq<Seq<char>>, names: Seq<Seq<char>>) -> Option<Seq<char>>
    decreases names.len(),
{
    if names.len() == 0 {
        None
    } else {
        match commands_refusal(builtins, names.drop_last()) {
            Some(message) => Some(message),
            None => command_refusal(builtins, names.last()),
        }
    }
}

/// The first one of the names that is a registered command.
pub open spec fn first_registered(registry: RegistryView, names: Seq<Seq<char>>) -> Option<Seq<char>>
    decreases names.len(),
{
    if names.len() == 0 {
        None
    } else {
        match first_registered(registry, names.drop_last()) {
            Some(name) => Some(name),
            None => if registry.command_at(names.last()) is Some {
                Some(names.last())
            } else {
                None
            },
        }
    }
}

pub open spec fn doc_views(docs: Seq<(String, String)>) -> Seq<(Seq<char>, Seq<char>)> {
    Seq::new(docs.len(), |i: int| (docs[i].0@, docs[i].1@))
}

pub open spec fn doc_names(docs: Seq<(Seq<char>, Seq<char>)>) -> Seq<Seq<char>> {
    Seq::new(docs.len(), |i: int| docs[i].0)
}

/// A request to register a lazy plugin.
pub struct Request {
    pub logical_name: Seq<char>,
    pub name: Seq<char>,
    pub modules: Seq<Seq<char>>,
    pub initializers: Seq<Seq<char>>,
    pub docs: Seq<(Seq<char>, Seq<char>)>,
    pub kind: RegistrationKind,
}

/// What is wrong with a request, whatever is registered already.
pub open spec fn request_refusal(builtins: Seq<Seq<char>>, request: Request) -> Option<Seq<char>> {
    if name_refusal("logical name"@, request.logical_name) is Some {
        name_refusal("logical name"@, request.logical_name)
    } else if name_refusal("name"@, request.name) is Some {
        name_refusal("name"@, request.name)
    } else if request.modules.len() == 0 {
        Some("lazy plugin "@ + crate::text::quoted(request.name) + " must register at least one module"@)
    } else if request.docs.len() == 0 {
        Some("lazy plugin "@ + crate::text::quoted(request.name) + " must register at least one command"@)
    } else if names_refusal("module"@, request.modules) is Some {
        names_refusal("module"@, request.modules)
    } else if names_refusal("initializer"@, request.initializers) is Some {
        names_refusal("initializer"@, request.initializers)
    } else {
        commands_refusal(builtins, crate::text::sorted_texts(doc_names(request.docs)))
    }
}

/// Why a registration is refused, if it is.
pub open spec fn registration_refusal(registry: RegistryView, request: Request) -> Option<Seq<char>> {
    let commands = crate::text::sorted_texts(doc_names(request.docs));
    if request_refusal(registry.builtins, request) is Some {
        request_refusal(registry.builtins, request)
    } else if registry.plugin_at(request.name) is Some {
        Some("lazy plugin "@ + crate::text::quoted(request.name) + " is already registered"@)
    } else if first_registered(registry, commands) is Some {
        Some("lazy command "@ + crate::text::quoted(first_registered(registry, commands)->0) + " is already registered"@)
    } else {
        match registry.logical_at(request.logical_name) {
            Some(i) => if registry.logical_plugins[i].strategy == Some(LogicalStrategy::Eager) {
                Some("logical plugin "@ + crate::text::quoted(request.logical_name) + " is already registered eagerly"@)
            } else {
                None
            },
            None => None,
        }
    }
}

/// The logical plugins once a manifest has been added to one of them.
pub open spec fn with_manifest(registry: RegistryView, logical: Seq<char>, manifest: Seq<char>, modules: Seq<Seq<char>>) -> Seq<
    LogicalView,
> {
    match registry.logical_at(logical) {
        Some(i) => {
            let old = registry.logical_plugins[i];
            registry.logical_plugins.update(
                i,
                LogicalView { strategy: Some(LogicalStrategy::Lazy), manifests: old.manifests.push(manifest), ..old },
            )
        },
        None => registry.logical_plugins.push(
            LogicalView {
                name: logical,
                eager_modules: modules,
                manifests: seq![manifest],
                builtin: false,
                strategy: Some(LogicalStrategy::Lazy),
            },
        ),
    }
}

/// The logical plugins in the order in which they got their strategies, once
/// one more has got its own.
pub open spec fn order_with(registry: RegistryView, logical: Seq<char>) -> Seq<Seq<char>> {
    match registry.logical_at(logical) {
        Some(i) => if registry.logical_plugins[i].strategy is None {
            registry.logical_registration_order.push(logical)
        } else {
            registry.logical_registration_order
        },
        None => registry.logical_registration_order.push(logical),
    }
}

/// Whether a plugin is queued for background compilation right away.
pub open spec fn queued_at_once(registry: RegistryView, kind: RegistrationKind) -> bool {
    kind == RegistrationKind::Async && registry.initialization_finished
}

pub open spec fn command_views(docs: Seq<(Seq<char>, Seq<char>)>, plugin: Seq<char>) -> Seq<CommandView> {
    Seq::new(docs.len(), |i: int| CommandView { name: docs[i].0, plugin, doc: docs[i].1 })
}

/// The registry with the plugin of a request.
pub open spec fn registered(registry: RegistryView, request: Request) -> RegistryView {
    let queued = queued_at_once(registry, request.kind);
    RegistryView {
        logical_plugins: with_manifest(registry, request.logical_name, request.name, request.modules),
        logical_registration_order: order_with(registry, request.logical_name),
        next_job_id: if queued {
            (registry.next_job_id + 1) as u64
        } else {
            registry.next_job_id
        },
        commands: registry.commands + command_views(request.docs, request.name),
        plugins: registry.plugins.push(
            PluginView {
                name: request.name,
                modules: request.modules,
                initializers: request.initializers,
                kind: request.kind,
                state: if queued {
                    StateView::Queued { job_id: registry.next_job_id }
                } else {
                    StateView::Unloaded
                },
            },
        ),
        ..registry
    }
}

fn failure(message: String) -> (out: LazyError)
    ensures
        out.message@ == message@,
{
    LazyError { message }
}

fn validate_name(kind: &str, name: &str) -> (out: Result<(), LazyError>)
    ensures
        (match out {
            Ok(()) => None,
            Err(error) => Some(error.message@),
        }) == name_refusal(kind@, name@),
{
    let chars = chars_of(name);
    if chars.len() == 0 {
        return Err(failure("lazy plugin ".to_owned().concat(kind).concat(" cannot be empty")));
    }
    if has_break(name) {
        return Err(
            failure(
                "lazy plugin ".to_owned().concat(kind).concat(" contains an invalid character: ").concat(
                    quote(name).as_str(),
                ),
            ),
        );
    }
    Ok(())
}

fn validate_names(kind: &str, names: &Vec<String>) -> (out: Result<(), LazyError>)
    ensures
        (match out {
            Ok(()) => None,
            Err(error) => Some(error.message@),
        }) == names_refusal(kind@, string_views(names@)),
{
    let ghost all = string_views(names@);
    let mut i: usize = 0;
    proof {
        assert(all.subrange(0, 0) =~= Seq::<Seq<char>>::empty());
    }
    while i < names.len()
        invariant
            i <= names@.len(),
            all == string_views(names@),
            names_refusal(kind@, all.subrange(0, i as int)) is None,
        decreases names.len() - i,
    {
        proof {
            assert(all.subrange(0, i + 1).drop_last() =~= all.subrange(0, i as int));
            assert(all.subrange(0, i + 1).last() == names@[i as int]@);
        }
        if let Err(error) = validate_name(kind, names[i].as_str()) {
            proof {
                lemma_names_refusal_stays(kind@, all, i + 1);
            }
            return Err(error);
        }
        i += 1;
    }
    proof {
        assert(all.subrange(0, all.len() as int) =~= all);
    }
    Ok(())
}

proof fn lemma_names_refusal_stays(kind: Seq<char>, names: Seq<Seq<char>>, n: int)
    requires
        0 <= n <= names.len(),
        names_refusal(kind, names.subrange(0, n)) is Some,
    ensures
        names_refusal(kind, names) == names_refusal(kind, names.subrange(0, n)),
    decreases names.len(),
{
    if n == names.len() {
        assert(names.subrange(0, n) =~= names);
    } else {
        assert(names.drop_last().subrange(0, n) =~= names.subrange(0, n));
        lemma_names_refusal_stays(kind, names.drop_last(), n);
    }
}

proof fn lemma_commands_refusal_stays(builtins: Seq<Seq<char>>, names: Seq<Seq<char>>, n: int)
    requires
        0 <= n <= names.len(),
        commands_refusal(builtins, names.subrange(0, n)) is Some,
    ensures
        commands_refusal(builtins, names) == commands_refusal(builtins, names.subrange(0, n)),
    decreases names.len(),
{
    if n == names.len() {
        assert(names.subrange(0, n) =~= names);
    } else {
        assert(names.drop_last().subrange(0, n) =~= names.subrange(0, n));
        lemma_commands_refusal_stays(builtins, names.drop_last(), n);
    }
}

proof fn lemma_first_registered_stays(registry: RegistryView, names: Seq<Seq<char>>, n: int)
    requires
        0 <= n <= names.len(),
        first_registered(registry, names.subrange(0, n)) is Some,
    ensures
        first_registered(registry, names) == first_registered(registry, names.subrange(0, n)),
    decreases names.len(),
{
    if n == names.len() {
        assert(names.subrange(0, n) =~= names);
    } else {
        assert(names.drop_last().subrange(0, n) =~= names.subrange(0, n));
        lemma_first_registered_stays(registry, names.drop_last(), n);
    }
}

/// None of the names is registered where there is no first registered one.
proof fn lemma_none_registered(registry: RegistryView, names: Seq<Seq<char>>)
    requires
        first_registered(registry, names) is None,
    ensures
        forall|i: int| 0 <= i < names.len() ==> registry.command_at(#[trigger] names[i]) is None,
    decreases names.len(),
{
    if names.len() > 0 {
        lemma_none_registered(registry, names.drop_last());
        assert forall|i: int| 0 <= i < names.len() implies registry.command_at(#[trigger] names[i]) is None by {
            if i < names.len() - 1 {
                assert(names.drop_last()[i] == names[i]);
            }
        }
    }
}

fn validate_command(builtins: &Vec<String>, name: &str) -> (out: Result<(), LazyError>)
    ensures
        (match out {
            Ok(()) => None,
            Err(error) => Some(error.message@),
        }) == command_refusal(string_views(builtins@), name@),
{
    if let Err(error) = validate_name("command", name) {
        return Err(error);
    }
    let chars = chars_of(name);
    if chars[0] == ':' {
        return Err(failure("lazy command names must not start with ':': ".to_owned().concat(quote(name).as_str())));
    }
    if holds_text(builtins, name) {
        return Err(
            failure(
                "lazy command ".to_owned().concat(quote(name).as_str()).concat(" collides with a built-in/global command"),
            ),
        );
    }
    Ok(())
}

fn validate_commands(builtins: &Vec<String>, names: &Vec<String>) -> (out: Result<(), LazyError>)
    ensures
        (match out {
            Ok(()) => None,
            Err(error) => Some(error.message@),
        }) == commands_refusal(string_views(builtins@), string_views(names@)),
{
    let ghost all = string_views(names@);
    let ghost known = string_views(builtins@);
    let mut i: usize = 0;
    proof {
        assert(all.subrange(0, 0) =~= Seq::<Seq<char>>::empty());
    }
    while i < names.len()
        invariant
            i <= names@.len(),
            all == string_views(names@),
            known == string_views(builtins@),
            commands_refusal(known, all.subrange(0, i as int)) is None,
        decreases names.len() - i,
    {
        proof {
            assert(all.subrange(0, i + 1).drop_last() =~= all.subrange(0, i as int));
            assert(all.subrange(0, i + 1).last() == names@[i as int]@);
        }
        if let Err(error) = validate_command(builtins, names[i].as_str()) {
            proof {
                lemma_commands_refusal_stays(known, all, i + 1);
            }
            return Err(error);
        }
        i += 1;
    }
    proof {
        assert(all.subrange(0, all.len() as int) =~= all);
    }
    Ok(())
}

fn names_of(docs: &Vec<(String, String)>) -> (out: Vec<String>)
    ensures
        string_views(out@) == doc_names(doc_views(docs@)),
{
    let mut out: Vec<String> = Vec::new();
    let mut i: usize = 0;
    while i < docs.len()
        invariant
            i <= docs@.len(),
            out@.len() == i,
            forall|k: int| 0 <= k < i ==> (#[trigger] out@[k])@ == docs@[k].0@,
        decreases docs.len() - i,
    {
        out.push(docs[i].0.clone());
        i += 1;
    }
    proof {
        assert(string_views(out@) =~= doc_names(doc_views(docs@)));
    }
    out
}

impl Registry {
    fn first_registered(&self, names: &Vec<String>) -> (out: Option<usize>)
        ensures
            match out {
                Some(i) => i < names@.len() && first_registered(self@, string_views(names@)) == Some(names@[i as int]@),
                None => first_registered(self@, string_views(names@)) is None,
            },
    {
        let ghost all = string_views(names@);
        let mut i: usize = 0;
        proof {
            assert(all.subrange(0, 0) =~= Seq::<Seq<char>>::empty());
        }
        while i < names.len()
            invariant
                i <= names@.len(),
                all == string_views(names@),
                first_registered(self@, all.subrange(0, i as int)) is None,
            decreases names.len() - i,
        {
            proof {
                assert(all.subrange(0, i + 1).drop_last() =~= all.subrange(0, i as int));
                assert(all.subrange(0, i + 1).last() == names@[i as int]@);
            }
            if self.recognizes(names[i].as_str()) {
                proof {
                    lemma_first_registered_stays(self@, all, i + 1);
                }
                return Some(i);
            }
            i += 1;
        }
        proof {
            assert(all.subrange(0, all.len() as int) =~= all);
        }
        None
    }

    fn append_commands(&mut self, docs: &Vec<(String, String)>, plugin: &str)
        ensures
            final(self)@ == (RegistryView {
                commands: old(self)@.commands + command_views(doc_views(docs@), plugin@),
                ..old(self)@
            }),
    {
        let ghost before = self@;
        let ghost added = command_views(doc_views(docs@), plugin@);
        let mut i: usize = 0;
        proof {
            assert(self@.commands =~= before.commands + added.subrange(0, 0));
        }
        while i < docs.len()
            invariant
                i <= docs@.len(),
                added == command_views(doc_views(docs@), plugin@),
                self@ == (RegistryView { commands: before.commands + added.subrange(0, i as int), ..before }),
            decreases docs.len() - i,
        {
            let ghost commands = self.commands@;
            let command = Command { name: docs[i].0.clone(), plugin: plugin.to_owned(), doc: docs[i].1.clone() };
            let ghost pushed = command;
            self.commands.push(command);
            i += 1;
            proof {
                super::state::lemma_views_push(commands, pushed);
                assert(added.subrange(0, i as int) =~= added.subrange(0, i - 1).push(added[i - 1]));
                assert(pushed@ == added[i - 1]);
                assert((before.commands + added.subrange(0, i - 1)).push(added[i - 1]) =~= before.commands
                    + added.subrange(0, i as int));
            }
        }
        proof {
            assert(added.subrange(0, added.len() as int) =~= added);
        }
    }

    /// Notes a manifest in a logical plugin that is not eager.
    fn add_manifest(&mut self, logical_name: &str, name: &str, modules: &Vec<String>)
        ensures
            final(self)@ == (RegistryView {
                logical_plugins: with_manifest(old(self)@, logical_name@, name@, string_views(modules@)),
                logical_registration_order: order_with(old(self)@, logical_name@),
                ..old(self)@
            }),
    {
        let ghost before = self@;
        let ghost plugins = self.logical_plugins@;
        let ghost order = self.logical_registration_order@;
        match self.logical_index(logical_name) {
            Some(i) => {
                proof {
                    assert(before.logical_plugins[i as int] == plugins[i as int]@);
                }
                let newly = self.logical_plugins[i].strategy.is_none();
                let ghost manifests = self.logical_plugins@[i as int].manifests@;
                let manifest = name.to_owned();
                self.logical_plugins[i].strategy = Some(LogicalStrategy::Lazy);
                self.logical_plugins[i].manifests.push(manifest);
                proof {
                    crate::text::lemma_string_views_push(manifests, manifest);
                    super::state::lemma_views_update(plugins, i as int, self.logical_plugins@[i as int]);
                    assert(self.logical_plugins@ =~= plugins.update(i as int, self.logical_plugins@[i as int]));
                }
                if newly {
                    let entry = logical_name.to_owned();
                    self.logical_registration_order.push(entry);
                    proof {
                        crate::text::lemma_string_views_push(order, entry);
                    }
                }
            },
            None => {
                let mut manifests: Vec<String> = Vec::new();
                manifests.push(name.to_owned());
                proof {
                    assert(string_views(manifests@) =~= seq![name@]);
                }
                let plugin = LogicalPlugin {
                    name: logical_name.to_owned(),
                    eager_modules: copy_texts(modules),
                    manifests,
                    builtin: false,
                    strategy: Some(LogicalStrategy::Lazy),
                };
                let ghost pushed = plugin;
                self.logical_plugins.push(plugin);
                let entry = logical_name.to_owned();
                self.logical_registration_order.push(entry);
                proof {
                    super::state::lemma_views_push(plugins, pushed);
                    crate::text::lemma_string_views_push(order, entry);
                }
            },
        }
    }

    /// Registers a plugin and its commands. The result is the job that has to
    /// compile the plugin in the background, if there is one.
    pub fn register_plugin(
        &mut self,
        logical_name: String,
        name: String,
        modules: Vec<String>,
        initializers: Vec<String>,
        command_docs: Vec<(String, String)>,
        kind: RegistrationKind,
    ) -> (out: Result<Option<u64>, LazyError>)
        requires
            old(self).wf(),
            doc_names(doc_views(command_docs@)).no_duplicates(),
            queued_at_once(old(self)@, kind) ==> old(self).next_job_id < u64::MAX,
        ensures
            final(self).wf(),
            ({
                let request = Request {
                    logical_name: logical_name@,
                    name: name@,
                    modules: string_views(modules@),
                    initializers: string_views(initializers@),
                    docs: doc_views(command_docs@),
                    kind,
                };
                match registration_refusal(old(self)@, request) {
                    Some(message) => out is Err && out->Err_0.message@ == message && final(self)@ == old(self)@,
                    None => final(self)@ == registered(old(self)@, request) && out == Ok::<Option<u64>, LazyError>(
                        if queued_at_once(old(self)@, kind) {
                            Some(old(self).next_job_id)
                        } else {
                            None
                        },
                    ),
                }
            }),
    {
        let ghost request = Request {
            logical_name: logical_name@,
            name: name@,
            modules: string_views(modules@),
            initializers: string_views(initializers@),
            docs: doc_views(command_docs@),
            kind,
        };
        let ghost before = self@;
        if let Err(error) = validate_name("logical name", logical_name.as_str()) {
            return Err(error);
        }
        if let Err(error) = validate_name("name", name.as_str()) {
            return Err(error);
        }
        if modules.len() == 0 {
            return Err(
                failure(
                    "lazy plugin ".to_owned().concat(quote(name.as_str()).as_str()).concat(
                        " must register at least one module",
                    ),
                ),
            );
        }
        if command_docs.len() == 0 {
            return Err(
                failure(
                    "lazy plugin ".to_owned().concat(quote(name.as_str()).as_str()).concat(
                        " must register at least one command",
                    ),
                ),
            );
        }
        if let Err(error) = validate_names("module", &modules) {
            return Err(error);
        }
        if let Err(error) = validate_names("initializer", &initializers) {
            return Err(error);
        }
        let commands = sort_texts(&names_of(&command_docs));
        if let Err(error) = validate_commands(&self.builtins, &commands) {
            return Err(error);
        }
        if self.plugin_index(name.as_str()).is_some() {
            return Err(
                failure(
                    "lazy plugin ".to_owned().concat(quote(name.as_str()).as_str()).concat(" is already registered"),
                ),
            );
        }
        if let Some(i) = self.first_registered(&commands) {
            return Err(
                failure(
                    "lazy command ".to_owned().concat(quote(commands[i].as_str()).as_str()).concat(
                        " is already registered",
                    ),
                ),
            );
        }
        if let Some(i) = self.logical_index(logical_name.as_str()) {
            proof {
                assert(before.logical_plugins[i as int] == self.logical_plugins@[i as int]@);
            }
            let eager = match self.logical_plugins[i].strategy {
                Some(LogicalStrategy::Eager) => true,
                _ => false,
            };
            if eager {
                return Err(
                    failure(
                        "logical plugin ".to_owned().concat(quote(logical_name.as_str()).as_str()).concat(
                            " is already registered eagerly",
                        ),
                    ),
                );
            }
        }
        self.add_manifest(logical_name.as_str(), name.as_str(), &modules);
        let queued = match kind {
            RegistrationKind::Async => self.initialization_finished,
            RegistrationKind::Lazy => false,
        };
        let job = if queued {
            Some(self.allocate_job())
        } else {
            None
        };
        let state = match job {
            Some(job_id) => ActivationState::Queued { job_id },
            None => ActivationState::Unloaded,
        };
        self.append_commands(&command_docs, name.as_str());
        let ghost plugins = self.plugins@;
        let plugin = Plugin { name, modules, initializers, kind, state };
        let ghost pushed = plugin;
        self.plugins.push(plugin);
        proof {
            super::state::lemma_views_push(plugins, pushed);
            assert(self@ =~= registered(before, request));
            lemma_none_registered(before, crate::text::sorted_texts(doc_names(request.docs)));
            lemma_registered_wf(before, request);
        }
        Ok(job)
    }
}

proof fn lemma_registered_wf(registry: RegistryView, request: Request)
    requires
        registry.wf(),
        doc_names(request.docs).no_duplicates(),
        registry.plugin_at(request.name) is None,
        first_registered(registry, crate::text::sorted_texts(doc_names(request.docs))) is None,
    ensures
        registered(registry, request).wf(),
{
    let after = registered(registry, request);
    let names = doc_names(request.docs);
    let sorted = crate::text::sorted_texts(names);
    crate::text::law_sorted_texts(names);
    lemma_none_registered(registry, sorted);
    crate::text::lemma_find_name(registry.plugin_names(), request.name, 0);
    assert(after.plugin_names() =~= registry.plugin_names().push(request.name));
    assert(after.command_names() =~= registry.command_names() + names);
    assert forall|i: int, j: int| 0 <= i < j < after.command_names().len() implies after.command_names()[i]
        != after.command_names()[j] by {
        let old_len = registry.commands.len();
        if i < old_len && j >= old_len {
            let name = names[j - old_len];
            assert(names.contains(name));
            assert(sorted.contains(name));
            let at = choose|k: int| 0 <= k < sorted.len() && sorted[k] == name;
            assert(registry.command_at(sorted[at]) is None);
            crate::text::lemma_find_name(registry.command_names(), name, 0);
            assert(registry.command_names()[i] != name);
        } else if j < old_len {
            assert(registry.command_names()[i] != registry.command_names()[j]);
        } else {
            assert(names[i - old_len] != names[j - old_len]);
        }
    }
    crate::text::lemma_find_name(registry.logical_names(), request.logical_name, 0);
    match registry.logical_at(request.logical_name) {
        Some(i) => {
            assert(after.logical_names() =~= registry.logical_names());
        },
        None => {
            assert(after.logical_names() =~= registry.logical_names().push(request.logical_name));
        },
    }
    assert forall|i: int| 0 <= i < after.commands.len() implies after.plugin_at((#[trigger] after.commands[i]).plugin) is Some by {
        let plugin = after.commands[i].plugin;
        crate::text::lemma_find_name(after.plugin_names(), plugin, 0);
        if i < registry.commands.len() {
            assert(after.commands[i] == registry.commands[i]);
            crate::text::lemma_find_name(registry.plugin_names(), plugin, 0);
            let at = registry.plugin_at(plugin)->0;
            assert(after.plugin_names()[at] == plugin);
        } else {
            assert(after.plugin_names()[registry.plugins.len() as int] == plugin);
        }
    }
}

/// Why a logical plugin cannot be cataloged, if it cannot.
pub open spec fn catalog_refusal(registry: RegistryView, name: Seq<char>, modules: Seq<Seq<char>>) -> Option<Seq<char>> {
    if name_refusal("logical name"@, name) is Some {
        name_refusal("logical name"@, name)
    } else if modules.len() == 0 {
        Some("logical plugin "@ + crate::text::quoted(name) + " must register at least one eager module"@)
    } else if names_refusal("module"@, modules) is Some {
        names_refusal("module"@, modules)
    } else {
        match registry.logical_at(name) {
            Some(i) => if registry.logical_plugins[i].builtin && registry.logical_plugins[i].eager_modules == modules {
                None
            } else {
                Some("logical plugin "@ + crate::text::quoted(name) + " is already cataloged"@)
            },
            None => None,
        }
    }
}

/// The registry with a logical plugin in its catalog.
pub open spec fn cataloged(registry: RegistryView, name: Seq<char>, modules: Seq<Seq<char>>) -> RegistryView {
    if registry.logical_at(name) is Some {
        registry
    } else {
        RegistryView {
            logical_plugins: registry.logical_plugins.push(
                LogicalView { name, eager_modules: modules, manifests: Seq::empty(), builtin: true, strategy: None },
            ),
            ..registry
        }
    }
}

/// The strategy of a logical plugin, if it has one.
pub open spec fn strategy_of(registry: RegistryView, name: Seq<char>) -> Option<LogicalStrategy> {
    match registry.logical_at(name) {
        Some(i) => registry.logical_plugins[i].strategy,
        None => None,
    }
}

/// Why a logical plugin cannot be made eager, if it cannot.
pub open spec fn eager_refusal(registry: RegistryView, name: Seq<char>) -> Option<Seq<char>> {
    if registry.logical_at(name) is None {
        Some("unknown logical plugin "@ + crate::text::quoted(name))
    } else if strategy_of(registry, name) == Some(LogicalStrategy::Lazy) {
        Some("logical plugin "@ + crate::text::quoted(name) + " is already registered lazily"@)
    } else {
        None
    }
}

/// The registry with a logical plugin made eager.
pub open spec fn made_eager(registry: RegistryView, name: Seq<char>) -> RegistryView {
    match registry.logical_at(name) {
        Some(i) => RegistryView {
            logical_plugins: registry.logical_plugins.update(
                i,
                LogicalView { strategy: Some(LogicalStrategy::Eager), ..registry.logical_plugins[i] },
            ),
            logical_registration_order: order_with(registry, name),
            ..registry
        },
        None => registry,
    }
}

/// The names among these whose logical plugins have a strategy.
pub open spec fn with_strategy(registry: RegistryView, names: Seq<Seq<char>>) -> Seq<Seq<char>>
    decreases names.len(),
{
    if names.len() == 0 {
        Seq::empty()
    } else if strategy_of(registry, names.last()) is Some {
        with_strategy(registry, names.drop_last()).push(names.last())
    } else {
        with_strategy(registry, names.drop_last())
    }
}

pub open spec fn loaded(registry: RegistryView, plugin: Seq<char>) -> bool {
    registry.plugin_at(plugin) is Some && registry.plugins[registry.plugin_at(plugin)->0].state is Loaded
}

/// Whether all of a logical plugin has been loaded.
pub open spec fn materialized(registry: RegistryView, name: Seq<char>) -> bool {
    match strategy_of(registry, name) {
        Some(LogicalStrategy::Eager) => true,
        Some(LogicalStrategy::Lazy) => {
            let manifests = registry.logical_plugins[registry.logical_at(name)->0].manifests;
            manifests.len() > 0 && forall|i: int| 0 <= i < manifests.len() ==> loaded(registry, #[trigger] manifests[i])
        },
        None => false,
    }
}

fn same_texts(left: &Vec<String>, right: &Vec<String>) -> (out: bool)
    ensures
        out == (string_views(left@) == string_views(right@)),
{
    let ghost a = string_views(left@);
    let ghost b = string_views(right@);
    if left.len() != right.len() {
        proof {
            assert(a.len() != b.len());
        }
        return false;
    }
    let mut i: usize = 0;
    while i < left.len()
        invariant
            i <= left@.len(),
            left@.len() == right@.len(),
            a == string_views(left@),
            b == string_views(right@),
            forall|k: int| 0 <= k < i ==> a[k] == b[k],
        decreases left.len() - i,
    {
        if !same_text(left[i].as_str(), right[i].as_str()) {
            proof {
                assert(a[i as int] != b[i as int]);
            }
            return false;
        }
        i += 1;
    }
    proof {
        assert(a =~= b);
    }
    true
}

pub proof fn lemma_logical_wf(before: RegistryView, after: RegistryView)
    requires
        before.wf(),
        after.plugins == before.plugins,
        after.commands == before.commands,
        after.logical_names().no_duplicates(),
    ensures
        after.wf(),
{
    assert(after.plugin_names() =~= before.plugin_names());
    assert(after.command_names() =~= before.command_names());
    assert forall|i: int| 0 <= i < after.commands.len() implies after.plugin_at((#[trigger] after.commands[i]).plugin) is Some by {
        assert(before.plugin_at(before.commands[i].plugin) is Some);
    }
}

impl Registry {
    /// Registers a plugin under its own name.
    pub fn register_lazy_plugin(
        &mut self,
        name: String,
        modules: Vec<String>,
        initializers: Vec<String>,
        command_docs: Vec<(String, String)>,
    ) -> (out: Result<Option<u64>, LazyError>)
        requires
            old(self).wf(),
            doc_names(doc_views(command_docs@)).no_duplicates(),
        ensures
            final(self).wf(),
            ({
                let request = Request {
                    logical_name: name@,
                    name: name@,
                    modules: string_views(modules@),
                    initializers: string_views(initializers@),
                    docs: doc_views(command_docs@),
                    kind: RegistrationKind::Lazy,
                };
                match registration_refusal(old(self)@, request) {
                    Some(message) => out is Err && out->Err_0.message@ == message && final(self)@ == old(self)@,
                    None => final(self)@ == registered(old(self)@, request) && out == Ok::<Option<u64>, LazyError>(None),
                }
            }),
    {
        let logical_name = name.clone();
        self.register_plugin(logical_name, name, modules, initializers, command_docs, RegistrationKind::Lazy)
    }

    /// Registers a plugin under its own name, to be compiled in the background.
    pub fn register_async_lazy_plugin(
        &mut self,
        name: String,
        modules: Vec<String>,
        initializers: Vec<String>,
        command_docs: Vec<(String, String)>,
    ) -> (out: Result<Option<u64>, LazyError>)
        requires
            old(self).wf(),
            doc_names(doc_views(command_docs@)).no_duplicates(),
            old(self).initialization_finished ==> old(self).next_job_id < u64::MAX,
        ensures
            final(self).wf(),
            ({
                let request = Request {
                    logical_name: name@,
                    name: name@,
                    modules: string_views(modules@),
                    initializers: string_views(initializers@),
                    docs: doc_views(command_docs@),
                    kind: RegistrationKind::Async,
                };
                match registration_refusal(old(self)@, request) {
                    Some(message) => out is Err && out->Err_0.message@ == message && final(self)@ == old(self)@,
                    None => final(self)@ == registered(old(self)@, request) && out == Ok::<Option<u64>, LazyError>(
                        if old(self).initialization_finished {
                            Some(old(self).next_job_id)
                        } else {
                            None
                        },
                    ),
                }
            }),
    {
        let logical_name = name.clone();
        self.register_plugin(logical_name, name, modules, initializers, command_docs, RegistrationKind::Async)
    }

    /// Registers a plugin as a manifest of a logical one.
    pub fn register_logical_lazy_plugin(
        &mut self,
        logical_name: String,
        name: String,
        modules: Vec<String>,
        initializers: Vec<String>,
        command_docs: Vec<(String, String)>,
    ) -> (out: Result<Option<u64>, LazyError>)
        requires
            old(self).wf(),
            doc_names(doc_views(command_docs@)).no_duplicates(),
        ensures
            final(self).wf(),
            ({
                let request = Request {
                    logical_name: logical_name@,
                    name: name@,
                    modules: string_views(modules@),
                    initializers: string_views(initializers@),
                    docs: doc_views(command_docs@),
                    kind: RegistrationKind::Lazy,
                };
                match registration_refusal(old(self)@, request) {
                    Some(message) => out is Err && out->Err_0.message@ == message && final(self)@ == old(self)@,
                    None => final(self)@ == registered(old(self)@, request) && out == Ok::<Option<u64>, LazyError>(None),
                }
            }),
    {
        self.register_plugin(logical_name, name, modules, initializers, command_docs, RegistrationKind::Lazy)
    }

    /// Puts a logical plugin into the catalog.
    pub fn register_logical_plugin(&mut self, name: String, eager_modules: Vec<String>) -> (out: Result<(), LazyError>)
        requires
            old(self).wf(),
        ensures
            final(self).wf(),
            match catalog_refusal(old(self)@, name@, string_views(eager_modules@)) {
                Some(message) => out is Err && out->Err_0.message@ == message && final(self)@ == old(self)@,
                None => out is Ok && final(self)@ == cataloged(old(self)@, name@, string_views(eager_modules@)),
            },
    {
        let ghost before = self@;
        if let Err(error) = validate_name("logical name", name.as_str()) {
            return Err(error);
        }
        if eager_modules.len() == 0 {
            return Err(
                failure(
                    "logical plugin ".to_owned().concat(quote(name.as_str()).as_str()).concat(
                        " must register at least one eager module",
                    ),
                ),
            );
        }
        if let Err(error) = validate_names("module", &eager_modules) {
            return Err(error);
        }
        if let Some(i) = self.logical_index(name.as_str()) {
            proof {
                assert(before.logical_plugins[i as int] == self.logical_plugins@[i as int]@);
            }
            if self.logical_plugins[i].builtin && same_texts(&self.logical_plugins[i].eager_modules, &eager_modules) {
                return Ok(());
            }
            return Err(
                failure(
                    "logical plugin ".to_owned().concat(quote(name.as_str()).as_str()).concat(" is already cataloged"),
                ),
            );
        }
        let ghost plugins = self.logical_plugins@;
        let plugin = LogicalPlugin { name, eager_modules, manifests: Vec::new(), builtin: true, strategy: None };
        let ghost pushed = plugin;
        self.logical_plugins.push(plugin);
        proof {
            super::state::lemma_views_push(plugins, pushed);
            assert(string_views(pushed.manifests@) =~= Seq::<Seq<char>>::empty());
            crate::text::lemma_find_name(before.logical_names(), pushed.name@, 0);
            assert(self@.logical_names() =~= before.logical_names().push(pushed.name@));
            lemma_logical_wf(before, self@);
        }
        Ok(())
    }

    /// Notes that a logical plugin is loaded eagerly.
    pub fn mark_logical_plugin_eager(&mut self, name: String) -> (out: Result<(), LazyError>)
        requires
            old(self).wf(),
        ensures
            final(self).wf(),
            match eager_refusal(old(self)@, name@) {
                Some(message) => out is Err && out->Err_0.message@ == message && final(self)@ == old(self)@,
                None => out is Ok && final(self)@ == made_eager(old(self)@, name@),
            },
    {
        let ghost before = self@;
        let ghost plugins = self.logical_plugins@;
        let ghost order = self.logical_registration_order@;
        let i: usize = match self.logical_index(name.as_str()) {
            Some(i) => i,
            None => {
                return Err(failure("unknown logical plugin ".to_owned().concat(quote(name.as_str()).as_str())));
            },
        };
        proof {
            assert(before.logical_plugins[i as int] == plugins[i as int]@);
        }
        let newly = match self.logical_plugins[i].strategy {
            Some(LogicalStrategy::Lazy) => {
                return Err(
                    failure(
                        "logical plugin ".to_owned().concat(quote(name.as_str()).as_str()).concat(
                            " is already registered lazily",
                        ),
                    ),
                );
            },
            Some(LogicalStrategy::Eager) => false,
            None => true,
        };
        self.logical_plugins[i].strategy = Some(LogicalStrategy::Eager);
        proof {
            super::state::lemma_views_update(plugins, i as int, self.logical_plugins@[i as int]);
            assert(self.logical_plugins@ =~= plugins.update(i as int, self.logical_plugins@[i as int]));
        }
        if newly {
            self.logical_registration_order.push(name);
            proof {
                crate::text::lemma_string_views_push(order, name);
            }
        }
        proof {
            assert(self@.logical_names() =~= before.logical_names());
            lemma_logical_wf(before, self@);
        }
        Ok(())
    }

    /// Whether a logical plugin has a strategy.
    pub fn logical_plugin_registered(&self, name: &str) -> (out: bool)
        ensures
            out == (strategy_of(self@, name@) is Some),
    {
        match self.logical_index(name) {
            Some(i) => {
                proof {
                    assert(self@.logical_plugins[i as int] == self.logical_plugins@[i as int]@);
                }
                self.logical_plugins[i].strategy.is_some()
            },
            None => false,
        }
    }

    /// The logical plugins that have a strategy, in the order of their registration.
    pub fn logical_plugin_registered_ids(&self) -> (out: Vec<String>)
        ensures
            string_views(out@) == with_strategy(self@, self@.logical_registration_order),
    {
        let ghost all = self@.logical_registration_order;
        let mut out: Vec<String> = Vec::new();
        let mut i: usize = 0;
        proof {
            assert(all.subrange(0, 0) =~= Seq::<Seq<char>>::empty());
            assert(string_views(out@) =~= Seq::<Seq<char>>::empty());
        }
        while i < self.logical_registration_order.len()
            invariant
                i <= self.logical_registration_order@.len(),
                all == self@.logical_registration_order,
                string_views(out@) == with_strategy(self@, all.subrange(0, i as int)),
            decreases self.logical_registration_order.len() - i,
        {
            let ghost before = out@;
            let name = self.logical_registration_order[i].clone();
            if self.logical_plugin_registered(name.as_str()) {
                out.push(name);
                proof {
                    crate::text::lemma_string_views_push(before, name);
                }
            }
            i += 1;
            proof {
                assert(all.subrange(0, i as int).drop_last() =~= all.subrange(0, i - 1));
            }
        }
        proof {
            assert(all.subrange(0, all.len() as int) =~= all);
        }
        out
    }

    /// The strategy of a logical plugin, as a word.
    pub fn logical_plugin_strategy(&self, name: &str) -> (out: Option<String>)
        ensures
            optional_text(out) == (match strategy_of(self@, name@) {
                Some(LogicalStrategy::Lazy) => Some("lazy"@),
                Some(LogicalStrategy::Eager) => Some("eager"@),
                None => None,
            }),
    {
        match self.logical_index(name) {
            Some(i) => {
                proof {
                    assert(self@.logical_plugins[i as int] == self.logical_plugins@[i as int]@);
                }
                match self.logical_plugins[i].strategy {
                    Some(LogicalStrategy::Lazy) => Some("lazy".to_owned()),
                    Some(LogicalStrategy::Eager) => Some("eager".to_owned()),
                    None => None,
                }
            },
            None => None,
        }
    }

    fn plugin_loaded(&self, name: &str) -> (out: bool)
        ensures
            out == loaded(self@, name@),
    {
        match self.plugin_index(name) {
            Some(i) => {
                proof {
                    assert(self@.plugins[i as int] == self.plugins@[i as int]@);
                }
                match self.plugins[i].state {
                    ActivationState::Loaded => true,
                    _ => false,
                }
            },
            None => false,
        }
    }

    /// Whether all of a logical plugin has been loaded.
    pub fn logical_plugin_materialized(&self, name: &str) -> (out: bool)
        ensures
            out == materialized(self@, name@),
    {
        let at: usize = match self.logical_index(name) {
            Some(at) => at,
            None => {
                return false;
            },
        };
        let ghost manifests = self@.logical_plugins[at as int].manifests;
        proof {
            assert(self@.logical_plugins[at as int] == self.logical_plugins@[at as int]@);
        }
        match self.logical_plugins[at].strategy {
            Some(LogicalStrategy::Eager) => {
                return true;
            },
            Some(LogicalStrategy::Lazy) => {},
            None => {
                return false;
            },
        }
        let mut i: usize = 0;
        while i < self.logical_plugins[at].manifests.len()
            invariant
                at < self.logical_plugins@.len(),
                i <= manifests.len(),
                self@.logical_at(name@) == Some(at as int),
                strategy_of(self@, name@) == Some(LogicalStrategy::Lazy),
                manifests == self@.logical_plugins[at as int].manifests,
                manifests == string_views(self.logical_plugins@[at as int].manifests@),
                forall|k: int| 0 <= k < i ==> loaded(self@, #[trigger] manifests[k]),
            decreases manifests.len() - i,
        {
            proof {
                assert(manifests[i as int] == self.logical_plugins@[at as int].manifests@[i as int]@);
            }
            if !self.plugin_loaded(self.logical_plugins[at].manifests[i].as_str()) {
                proof {
                    assert(!loaded(self@, manifests[i as int]));
                }
                return false;
            }
            i += 1;
        }
        self.logical_plugins[at].manifests.len() > 0
    }
}

/// The registry once a registration was tried.
pub open spec fn after_registration(registry: RegistryView, request: Request) -> RegistryView {
    match registration_refusal(registry, request) {
        Some(_) => registry,
        None => registered(registry, request),
    }
}

/// A registration that is refused changes no command, no documentation and no
/// strategy. One that is accepted adds the commands of the plugin, with their
/// documentation, to those that are there, which stay as they are; of the
/// strategies it sets that of its logical plugin.
pub proof fn law_registration_makes_commands_known(registry: RegistryView, request: Request)
    requires
        registry.wf(),
        doc_names(request.docs).no_duplicates(),
    ensures
        registration_refusal(registry, request) is Some ==> after_registration(registry, request) == registry,
        registration_refusal(registry, request) is None ==> {
            let after = after_registration(registry, request);
            &&& after.command_names() == registry.command_names() + doc_names(request.docs)
            &&& forall|name: Seq<char>|
                registry.command_at(name) is Some ==> #[trigger] after.command_at(name) == registry.command_at(name)
                    && after.commands[after.command_at(name)->0] == registry.commands[registry.command_at(name)->0]
            &&& forall|i: int|
                0 <= i < request.docs.len() ==> {
                    let at = after.command_at((#[trigger] request.docs[i]).0);
                    &&& registry.command_at(request.docs[i].0) is None
                    &&& at is Some
                    &&& after.commands[at->0].doc == request.docs[i].1
                    &&& after.commands[at->0].plugin == request.name
                }
            &&& forall|name: Seq<char>| #[trigger]
                after.command_at(name) is Some ==> registry.command_at(name) is Some || doc_names(request.docs).contains(name)
            &&& forall|name: Seq<char>| #[trigger]
                strategy_of(after, name) == (if name == request.logical_name {
                    Some(LogicalStrategy::Lazy)
                } else {
                    strategy_of(registry, name)
                })
        },
{
    if registration_refusal(registry, request) is None {
        let after = registered(registry, request);
        let old_names = registry.command_names();
        let new_names = doc_names(request.docs);
        let names = after.command_names();
        lemma_registered_wf(registry, request);
        assert(names =~= old_names + new_names);
        assert forall|name: Seq<char>| registry.command_at(name) is Some implies #[trigger] after.command_at(name)
            == registry.command_at(name) && after.commands[after.command_at(name)->0] == registry.commands[registry.command_at(
            name,
        )->0] by {
            crate::text::lemma_find_name(old_names, name, 0);
            crate::text::lemma_find_name(names, name, 0);
            let at = registry.command_at(name)->0;
            assert(names[at] == name);
        }
        assert forall|i: int| 0 <= i < request.docs.len() implies {
            let at = after.command_at((#[trigger] request.docs[i]).0);
            &&& registry.command_at(request.docs[i].0) is None
            &&& at is Some
            &&& after.commands[at->0].doc == request.docs[i].1
            &&& after.commands[at->0].plugin == request.name
        } by {
            let name = request.docs[i].0;
            let place = old_names.len() + i;
            assert(names[place] == name);
            crate::text::lemma_find_name(names, name, 0);
            crate::text::lemma_find_name(old_names, name, 0);
            if registry.command_at(name) is Some {
                assert(names[registry.command_at(name)->0] == name);
            }
        }
        assert forall|name: Seq<char>| #[trigger] after.command_at(name) is Some implies registry.command_at(name) is Some
            || new_names.contains(name) by {
            crate::text::lemma_find_name(names, name, 0);
            crate::text::lemma_find_name(old_names, name, 0);
            let at = after.command_at(name)->0;
            if at < old_names.len() {
                assert(old_names[at] == name);
            } else {
                assert(new_names[at - old_names.len()] == name);
            }
        }
        assert forall|name: Seq<char>| #[trigger] strategy_of(after, name) == (if name == request.logical_name {
            Some(LogicalStrategy::Lazy)
        } else {
            strategy_of(registry, name)
        }) by {
            let was = registry.logical_names();
            let now = after.logical_names();
            crate::text::lemma_find_name(was, request.logical_name, 0);
            crate::text::lemma_find_name(was, name, 0);
            crate::text::lemma_find_name(now, name, 0);
            match registry.logical_at(request.logical_name) {
                Some(i) => {
                    assert(now =~= was);
                },
                None => {
                    assert(now =~= was.push(request.logical_name));
                    if registry.logical_at(name) is Some {
                        assert(now[registry.logical_at(name)->0] == name);
                    }
                    assert(now[was.len() as int] == request.logical_name);
                },
            }
        }
    }
}

/// A registration that was accepted is refused when it is tried again.
pub proof fn law_a_plugin_registers_once(registry: RegistryView, request: Request, again: Request)
    requires
        registry.wf(),
        doc_names(request.docs).no_duplicates(),
        registration_refusal(registry, request) is None,
        again.name == request.name,
    ensures
        registration_refusal(registered(registry, request), again) is Some,
{
    let after = registered(registry, request);
    crate::text::lemma_find_name(after.plugin_names(), request.name, 0);
    assert(after.plugin_names()[registry.plugins.len() as int] == request.name);
}

} // verus!
