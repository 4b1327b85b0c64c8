//! What registering plugins, cataloging them and depending on them comes to.

use vstd::prelude::*;

use super::forms::FormView;
use super::local_dependencies::{
    added_names, commands_noted, declared, declared_by, declares, dependencies_of, first_missing, ids_of, introduced, plan_of,
    plan_refusal, symbols_of, PlanView,
};
use super::registration::{
    cataloged, catalog_refusal, command_refusal, commands_refusal, doc_names, eager_refusal, first_registered, made_eager,
    materialized, name_refusal, names_refusal, registered, registration_refusal, strategy_of, with_strategy, Request,
};
use super::state::{LogicalStrategy, RegistrationKind, RegistryView, StateView};
use crate::text::{law_sorted_texts, lemma_find_name, sorted_texts};
use crate::value::ScriptValue;

verus! {

broadcast use vstd::string::group_string_axioms;

/// Whether a text is a name: not empty, on one line and without null characters.
pub open spec fn is_name(name: Seq<char>) -> bool {
    &&& name.len() > 0
    &&& forall|i: int| 0 <= i < name.len() ==> #[trigger] name[i] != '\n' && name[i] != '\r' && name[i] != '\0'
}

/// Whether a text can be the name of a command.
pub open spec fn is_command_name(builtins: Seq<Seq<char>>, name: Seq<char>) -> bool {
    is_name(name) && name[0] != ':' && !builtins.contains(name)
}

/// Names are refused exactly where they are empty or hold a line break or a null
/// character; names of commands also where they start with a colon or are taken
/// by a built-in one.
pub proof fn law_names_are_refused_for_a_reason(kind: Seq<char>, builtins: Seq<Seq<char>>, name: Seq<char>)
    ensures
        name_refusal(kind, name) is None <==> is_name(name),
        command_refusal(builtins, name) is None <==> is_command_name(builtins, name),
{
    if name_refusal(kind, name) is Some && name.len() > 0 {
        let i = choose|i: int| 0 <= i < name.len() && super::registration::breaking(#[trigger] name[i]);
        assert(name[i] == '\n' || name[i] == '\r' || name[i] == '\0');
    }
    if name_refusal(kind, name) is None {
        assert forall|i: int| 0 <= i < name.len() implies #[trigger] name[i] != '\n' && name[i] != '\r' && name[i] != '\0' by {
            assert(!super::registration::breaking(name[i]));
        }
    }
    assert(name_refusal("command"@, name) is None <==> name_refusal(kind, name) is None);
}

/// A list of names is accepted exactly where every one of them is.
pub proof fn law_lists_of_names_are_accepted_as_a_whole(kind: Seq<char>, builtins: Seq<Seq<char>>, names: Seq<Seq<char>>)
    ensures
        names_refusal(kind, names) is None <==> forall|i: int| 0 <= i < names.len() ==> is_name(#[trigger] names[i]),
        commands_refusal(builtins, names) is None <==> forall|i: int|
            0 <= i < names.len() ==> is_command_name(builtins, #[trigger] names[i]),
    decreases names.len(),
{
    if names.len() > 0 {
        let rest = names.drop_last();
        law_lists_of_names_are_accepted_as_a_whole(kind, builtins, rest);
        law_names_are_refused_for_a_reason(kind, builtins, names.last());
        assert forall|i: int| 0 <= i < rest.len() implies #[trigger] rest[i] == names[i] by {}
        if forall|i: int| 0 <= i < names.len() ==> is_name(#[trigger] names[i]) {
            assert(is_name(names[names.len() - 1]));
            assert forall|i: int| 0 <= i < rest.len() implies is_name(#[trigger] rest[i]) by {
                assert(is_name(names[i]));
            }
        }
        if names_refusal(kind, names) is None {
            assert forall|i: int| 0 <= i < names.len() implies is_name(#[trigger] names[i]) by {
                if i < rest.len() {
                    assert(is_name(rest[i]));
                }
            }
        }
        if forall|i: int| 0 <= i < names.len() ==> is_command_name(builtins, #[trigger] names[i]) {
            assert(is_command_name(builtins, names[names.len() - 1]));
            assert forall|i: int| 0 <= i < rest.len() implies is_command_name(builtins, #[trigger] rest[i]) by {
                assert(is_command_name(builtins, names[i]));
            }
        }
        if commands_refusal(builtins, names) is None {
            assert forall|i: int| 0 <= i < names.len() implies is_command_name(builtins, #[trigger] names[i]) by {
                if i < rest.len() {
                    assert(is_command_name(builtins, rest[i]));
                }
            }
        }
    }
}

proof fn lemma_first_registered(registry: RegistryView, names: Seq<Seq<char>>)
    ensures
        first_registered(registry, names) is None <==> forall|i: int|
            0 <= i < names.len() ==> registry.command_at(#[trigger] names[i]) is None,
        first_registered(registry, names) matches Some(name) ==> names.contains(name) && registry.command_at(name) is Some,
    decreases names.len(),
{
    if names.len() > 0 {
        let rest = names.drop_last();
        lemma_first_registered(registry, rest);
        assert forall|i: int| 0 <= i < rest.len() implies #[trigger] rest[i] == names[i] by {}
        if forall|i: int| 0 <= i < names.len() ==> registry.command_at(#[trigger] names[i]) is None {
            assert(registry.command_at(names[names.len() - 1]) is None);
            assert forall|i: int| 0 <= i < rest.len() implies registry.command_at(#[trigger] rest[i]) is None by {
                assert(registry.command_at(names[i]) is None);
            }
        }
        if first_registered(registry, names) is None {
            assert forall|i: int| 0 <= i < names.len() implies registry.command_at(#[trigger] names[i]) is None by {
                if i < rest.len() {
                    assert(registry.command_at(rest[i]) is None);
                }
            }
        }
        if let Some(name) = first_registered(registry, names) {
            if first_registered(registry, rest) is Some {
                let k = choose|k: int| 0 <= k < rest.len() && rest[k] == name;
                assert(names[k] == name);
            } else {
                assert(names[names.len() - 1] == name);
            }
        }
    }
}

/// Whether all names of a request are names, and there is something to load and
/// something to call.
pub open spec fn sound(builtins: Seq<Seq<char>>, request: Request) -> bool {
    &&& is_name(request.logical_name)
    &&& is_name(request.name)
    &&& request.modules.len() > 0
    &&& request.docs.len() > 0
    &&& forall|i: int| 0 <= i < request.modules.len() ==> is_name(#[trigger] request.modules[i])
    &&& forall|i: int| 0 <= i < request.initializers.len() ==> is_name(#[trigger] request.initializers[i])
    &&& forall|i: int| 0 <= i < request.docs.len() ==> is_command_name(builtins, (#[trigger] request.docs[i]).0)
}

/// A registration is accepted exactly where the request is sound, neither its
/// plugin nor one of its commands is registered, and its logical plugin is not
/// eager.
pub proof fn law_registrations_are_refused_for_a_reason(registry: RegistryView, request: Request)
    ensures
        registration_refusal(registry, request) is None <==> {
            &&& sound(registry.builtins, request)
            &&& forall|i: int| 0 <= i < registry.plugins.len() ==> (#[trigger] registry.plugins[i]).name != request.name
            &&& forall|i: int| 0 <= i < request.docs.len() ==> registry.command_at((#[trigger] request.docs[i]).0) is None
            &&& strategy_of(registry, request.logical_name) != Some(LogicalStrategy::Eager)
        },
{
    let builtins = registry.builtins;
    let names = doc_names(request.docs);
    let commands = sorted_texts(names);
    law_sorted_texts(names);
    law_names_are_refused_for_a_reason("logical name"@, builtins, request.logical_name);
    law_names_are_refused_for_a_reason("name"@, builtins, request.name);
    law_lists_of_names_are_accepted_as_a_whole("module"@, builtins, request.modules);
    law_lists_of_names_are_accepted_as_a_whole("initializer"@, builtins, request.initializers);
    law_lists_of_names_are_accepted_as_a_whole("command"@, builtins, commands);
    lemma_first_registered(registry, commands);
    lemma_find_name(registry.plugin_names(), request.name, 0);
    assert forall|i: int| 0 <= i < registry.plugins.len() implies (#[trigger] registry.plugins[i]).name == registry.plugin_names()[i] by {}
    assert((forall|i: int| 0 <= i < commands.len() ==> is_command_name(builtins, #[trigger] commands[i])) <==> (forall|i: int|
        0 <= i < request.docs.len() ==> is_command_name(builtins, (#[trigger] request.docs[i]).0))) by {
        if forall|i: int| 0 <= i < commands.len() ==> is_command_name(builtins, #[trigger] commands[i]) {
            assert forall|i: int| 0 <= i < request.docs.len() implies is_command_name(builtins, (#[trigger] request.docs[i]).0) by {
                assert(names[i] == request.docs[i].0);
                assert(names.contains(names[i]));
                assert(commands.contains(names[i]));
                let k = choose|k: int| 0 <= k < commands.len() && commands[k] == names[i];
                assert(is_command_name(builtins, commands[k]));
            }
        }
        if forall|i: int| 0 <= i < request.docs.len() ==> is_command_name(builtins, (#[trigger] request.docs[i]).0) {
            assert forall|i: int| 0 <= i < commands.len() implies is_command_name(builtins, #[trigger] commands[i]) by {
                assert(commands.contains(commands[i]));
                assert(names.contains(commands[i]));
                let k = choose|k: int| 0 <= k < names.len() && names[k] == commands[i];
                assert(is_command_name(builtins, request.docs[k].0));
            }
        }
    }
    assert((forall|i: int| 0 <= i < commands.len() ==> registry.command_at(#[trigger] commands[i]) is None) <==> (forall|i: int|
        0 <= i < request.docs.len() ==> registry.command_at((#[trigger] request.docs[i]).0) is None)) by {
        if forall|i: int| 0 <= i < commands.len() ==> registry.command_at(#[trigger] commands[i]) is None {
            assert forall|i: int| 0 <= i < request.docs.len() implies registry.command_at((#[trigger] request.docs[i]).0) is None by {
                assert(names[i] == request.docs[i].0);
                assert(names.contains(names[i]));
                assert(commands.contains(names[i]));
                let k = choose|k: int| 0 <= k < commands.len() && commands[k] == names[i];
                assert(registry.command_at(commands[k]) is None);
            }
        }
        if forall|i: int| 0 <= i < request.docs.len() ==> registry.command_at((#[trigger] request.docs[i]).0) is None {
            assert forall|i: int| 0 <= i < commands.len() implies registry.command_at(#[trigger] commands[i]) is None by {
                assert(commands.contains(commands[i]));
                assert(names.contains(commands[i]));
                let k = choose|k: int| 0 <= k < names.len() && names[k] == commands[i];
                assert(registry.command_at(request.docs[k].0) is None);
            }
        }
    }
}

/// A registered plugin is the last one, with what its request says of it; every
/// command of the request follows those from before, with its documentation. An
/// asynchronous plugin is queued where the initialization is over, and then takes
/// the next job number; any other is not loaded.
pub proof fn law_registered_plugins_are_as_requested(registry: RegistryView, request: Request, i: int, k: int)
    requires
        registry.next_job_id < u64::MAX,
    ensures
        ({
            let after = registered(registry, request);
            let last = registry.plugins.len() as int;
            let queued = request.kind == RegistrationKind::Async && registry.initialization_finished;
            &&& after.plugins.len() == last + 1
            &&& after.plugins[last].name == request.name
            &&& after.plugins[last].modules == request.modules
            &&& after.plugins[last].initializers == request.initializers
            &&& after.plugins[last].kind == request.kind
            &&& queued ==> after.plugins[last].state == (StateView::Queued { job_id: registry.next_job_id }) && after.next_job_id
                == registry.next_job_id + 1
            &&& !queued ==> after.plugins[last].state is Unloaded && after.next_job_id == registry.next_job_id
            &&& 0 <= i < last ==> after.plugins[i] == registry.plugins[i]
            &&& after.commands.len() == registry.commands.len() + request.docs.len()
            &&& 0 <= i < registry.commands.len() ==> after.commands[i] == registry.commands[i]
            &&& 0 <= k < request.docs.len() ==> {
                let command = after.commands[registry.commands.len() + k];
                command.name == request.docs[k].0 && command.doc == request.docs[k].1 && command.plugin == request.name
            }
            &&& after.generation == registry.generation
            &&& after.builtins == registry.builtins
            &&& after.locally_loaded_commands == registry.locally_loaded_commands
            &&& after.initialization_finished == registry.initialization_finished
        }),
{
}

/// The logical plugin of a request is lazy from then on and has the request's
/// plugin as its last manifest; where it is new, its modules are those of the
/// request. Other logical plugins stay as they are.
pub proof fn law_logical_plugins_get_their_manifest(registry: RegistryView, request: Request, i: int)
    requires
        registry.wf(),
    ensures
        ({
            let after = registered(registry, request);
            let before = registry.logical_plugins;
            &&& 0 <= i < before.len() && before[i].name != request.logical_name ==> after.logical_plugins[i] == before[i]
            &&& 0 <= i < before.len() && before[i].name == request.logical_name ==> {
                let own = after.logical_plugins[i];
                &&& own.strategy == Some(LogicalStrategy::Lazy)
                &&& own.manifests == before[i].manifests.push(request.name)
                &&& own.name == before[i].name
                &&& own.eager_modules == before[i].eager_modules
                &&& own.builtin == before[i].builtin
                &&& after.logical_plugins.len() == before.len()
            }
            &&& registry.logical_at(request.logical_name) is None ==> {
                let own = after.logical_plugins.last();
                &&& after.logical_plugins.len() == before.len() + 1
                &&& own.name == request.logical_name
                &&& own.strategy == Some(LogicalStrategy::Lazy)
                &&& own.manifests == seq![request.name]
                &&& own.eager_modules == request.modules
                &&& !own.builtin
            }
            &&& strategy_of(registry, request.logical_name) is None ==> after.logical_registration_order
                == registry.logical_registration_order.push(request.logical_name)
            &&& strategy_of(registry, request.logical_name) is Some ==> after.logical_registration_order
                == registry.logical_registration_order
        }),
{
    lemma_find_name(registry.logical_names(), request.logical_name, 0);
    if 0 <= i < registry.logical_plugins.len() {
        assert(registry.logical_names()[i] == registry.logical_plugins[i].name);
    }
    if let Some(at) = registry.logical_at(request.logical_name) {
        assert(registry.logical_names()[at] == registry.logical_plugins[at].name);
    }
}

/// A logical plugin is cataloged as a built-in one without a strategy. It can be
/// cataloged exactly where its names are names, it has modules, and it is new or
/// cataloged with the same modules already, which changes nothing.
pub proof fn law_the_catalog_takes_each_plugin_once(registry: RegistryView, name: Seq<char>, modules: Seq<Seq<char>>, i: int)
    requires
        registry.wf(),
        0 <= i < registry.logical_plugins.len(),
    ensures
        catalog_refusal(registry, name, modules) is None && registry.logical_at(name) is None ==> {
            let own = cataloged(registry, name, modules).logical_plugins.last();
            &&& own.name == name && own.eager_modules == modules && own.manifests.len() == 0 && own.builtin && own.strategy is None
            &&& cataloged(registry, name, modules).logical_plugins.drop_last() == registry.logical_plugins
        },
        registry.logical_plugins[i].name == name ==> cataloged(registry, name, modules) == registry,
        registry.logical_plugins[i].name == name ==> (catalog_refusal(registry, name, modules) is None ==> (
        registry.logical_plugins[i].builtin && registry.logical_plugins[i].eager_modules == modules)),
        catalog_refusal(registry, name, modules) is None ==> is_name(name) && modules.len() > 0 && forall|k: int|
            0 <= k < modules.len() ==> is_name(#[trigger] modules[k]),
        registry.logical_at(name) is None && is_name(name) && modules.len() > 0 && (forall|k: int|
            0 <= k < modules.len() ==> is_name(#[trigger] modules[k])) ==> catalog_refusal(registry, name, modules) is None,
        cataloged(registry, name, modules).plugins == registry.plugins,
        cataloged(registry, name, modules).commands == registry.commands,
{
    lemma_find_name(registry.logical_names(), name, 0);
    assert(registry.logical_names()[i] == registry.logical_plugins[i].name);
    law_names_are_refused_for_a_reason("logical name"@, registry.builtins, name);
    law_lists_of_names_are_accepted_as_a_whole("module"@, registry.builtins, modules);
    assert(cataloged(registry, name, modules).logical_plugins.len() > registry.logical_plugins.len() ==> cataloged(
        registry,
        name,
        modules,
    ).logical_plugins.drop_last() =~= registry.logical_plugins);
}

/// A logical plugin can be made eager exactly where it is known and not lazy. It
/// is eager then, keeps all else, and no other plugin changes.
pub proof fn law_eager_plugins_are_known_and_not_lazy(registry: RegistryView, name: Seq<char>, i: int, k: int)
    requires
        registry.wf(),
        0 <= i < registry.logical_plugins.len(),
        registry.logical_plugins[i].name == name,
        0 <= k < registry.logical_plugins.len(),
    ensures
        eager_refusal(registry, name) is None <==> registry.logical_plugins[i].strategy != Some(LogicalStrategy::Lazy),
        ({
            let after = made_eager(registry, name);
            let own = after.logical_plugins[i];
            &&& own.strategy == Some(LogicalStrategy::Eager)
            &&& own.name == name
            &&& own.eager_modules == registry.logical_plugins[i].eager_modules
            &&& own.manifests == registry.logical_plugins[i].manifests
            &&& own.builtin == registry.logical_plugins[i].builtin
            &&& k != i ==> after.logical_plugins[k] == registry.logical_plugins[k]
            &&& after.logical_plugins.len() == registry.logical_plugins.len()
            &&& after.plugins == registry.plugins
            &&& after.commands == registry.commands
            &&& registry.logical_plugins[i].strategy is None ==> after.logical_registration_order
                == registry.logical_registration_order.push(name)
            &&& registry.logical_plugins[i].strategy is Some ==> after.logical_registration_order
                == registry.logical_registration_order
        }),
{
    lemma_find_name(registry.logical_names(), name, 0);
    assert(registry.logical_names()[i] == name);
}

/// The names with a strategy are those among the given ones whose logical plugin
/// has one.
pub proof fn law_names_with_a_strategy(registry: RegistryView, names: Seq<Seq<char>>, name: Seq<char>)
    ensures
        with_strategy(registry, names).contains(name) <==> names.contains(name) && strategy_of(registry, name) is Some,
    decreases names.len(),
{
    if names.len() > 0 {
        let rest = names.drop_last();
        law_names_with_a_strategy(registry, rest, name);
        assert(names =~= rest.push(names.last()));
        lemma_pushed(rest, names.last(), name);
        lemma_pushed(with_strategy(registry, rest), names.last(), name);
    }
}

proof fn lemma_pushed(list: Seq<Seq<char>>, added: Seq<char>, one: Seq<char>)
    ensures
        list.push(added).contains(one) <==> list.contains(one) || one == added,
{
    let longer = list.push(added);
    assert(longer.last() == added);
    if list.contains(one) {
        let k = choose|k: int| 0 <= k < list.len() && list[k] == one;
        assert(longer[k] == one);
    }
    if longer.contains(one) {
        let k = choose|k: int| 0 <= k < longer.len() && longer[k] == one;
        if k < list.len() {
            assert(list[k] == one);
        }
    }
}

/// A logical plugin is materialized where it is eager, or lazy with manifests all
/// of which are loaded; and not otherwise.
pub proof fn law_materialized_plugins_are_loaded_whole(registry: RegistryView, i: int)
    requires
        registry.wf(),
        0 <= i < registry.logical_plugins.len(),
    ensures
        ({
            let logical = registry.logical_plugins[i];
            &&& logical.strategy == Some(LogicalStrategy::Eager) ==> materialized(registry, logical.name)
            &&& logical.strategy is None ==> !materialized(registry, logical.name)
            &&& logical.strategy == Some(LogicalStrategy::Lazy) && logical.manifests.len() == 0 ==> !materialized(
                registry,
                logical.name,
            )
            &&& logical.strategy == Some(LogicalStrategy::Lazy) && materialized(registry, logical.name) ==> forall|m: int|
                0 <= m < logical.manifests.len() ==> registry.plugin_at(#[trigger] logical.manifests[m]) is Some
                    && registry.plugins[registry.plugin_at(logical.manifests[m])->0].state is Loaded
        }),
{
    let name = registry.logical_plugins[i].name;
    lemma_find_name(registry.logical_names(), name, 0);
    assert(registry.logical_names()[i] == name);
    if materialized(registry, name) && registry.logical_plugins[i].strategy == Some(LogicalStrategy::Lazy) {
        let manifests = registry.logical_plugins[i].manifests;
        assert forall|m: int| 0 <= m < manifests.len() implies registry.plugin_at(#[trigger] manifests[m]) is Some
            && registry.plugins[registry.plugin_at(manifests[m])->0].state is Loaded by {
            assert(super::registration::loaded(registry, manifests[m]));
        }
    }
}

/// A list of plugin ids is read exactly where every form is a name and no name
/// comes twice: the ids are these names, in their order.
pub proof fn law_ids_are_the_names_of_the_list(path: Seq<char>, forms: Seq<FormView>, n: int)
    requires
        0 <= n <= forms.len(),
    ensures
        ids_of(path, forms, n) is Ok <==> {
            &&& forall|i: int| 0 <= i < n ==> #[trigger] forms[i] is Identifier
            &&& forall|i: int, j: int| 0 <= i < j < n ==> (#[trigger] forms[i])->Identifier_0 != (#[trigger] forms[j])->Identifier_0
        },
        ids_of(path, forms, n) is Ok ==> ids_of(path, forms, n)->Ok_0.len() == n && forall|i: int|
            0 <= i < n ==> #[trigger] ids_of(path, forms, n)->Ok_0[i] == forms[i]->Identifier_0,
    decreases n,
{
    if n > 0 {
        law_ids_are_the_names_of_the_list(path, forms, n - 1);
        if ids_of(path, forms, n - 1) is Ok {
            let before = ids_of(path, forms, n - 1)->Ok_0;
            let last = forms[n - 1];
            if last is Identifier {
                if before.contains(last->Identifier_0) {
                    let k = choose|k: int| 0 <= k < before.len() && before[k] == last->Identifier_0;
                    assert(forms[k]->Identifier_0 == forms[n - 1]->Identifier_0);
                } else {
                    assert forall|i: int, j: int| 0 <= i < j < n implies (#[trigger] forms[i])->Identifier_0 != (
                    #[trigger] forms[j])->Identifier_0 by {
                        if j == n - 1 {
                            assert(before[i] == forms[i]->Identifier_0);
                        }
                    }
                }
            }
        }
    }
}

/// The same holds of a list of symbols.
pub proof fn law_symbols_are_read_in_order(values: Seq<ScriptValue>, n: int)
    requires
        0 <= n <= values.len(),
    ensures
        symbols_of(values, n) is Ok <==> {
            &&& forall|i: int| 0 <= i < n ==> #[trigger] values[i] is Symbol
            &&& forall|i: int, j: int| 0 <= i < j < n ==> (#[trigger] values[i])->Symbol_0@ != (#[trigger] values[j])->Symbol_0@
        },
        symbols_of(values, n) is Ok ==> symbols_of(values, n)->Ok_0.len() == n && forall|i: int|
            0 <= i < n ==> #[trigger] symbols_of(values, n)->Ok_0[i] == values[i]->Symbol_0@,
    decreases n,
{
    if n > 0 {
        law_symbols_are_read_in_order(values, n - 1);
        if symbols_of(values, n - 1) is Ok {
            let before = symbols_of(values, n - 1)->Ok_0;
            let last = values[n - 1];
            if last is Symbol {
                if before.contains(last->Symbol_0@) {
                    let k = choose|k: int| 0 <= k < before.len() && before[k] == last->Symbol_0@;
                    assert(values[k]->Symbol_0@ == values[n - 1]->Symbol_0@);
                } else {
                    assert forall|i: int, j: int| 0 <= i < j < n implies (#[trigger] values[i])->Symbol_0@ != (
                    #[trigger] values[j])->Symbol_0@ by {
                        if j == n - 1 {
                            assert(before[i] == values[i]->Symbol_0@);
                        }
                    }
                }
            }
        }
    }
}

/// A form declares dependencies where it is a list that starts with the name of
/// the declaration, and lists them in one quoted proper list.
pub proof fn law_declarations_quote_one_list(path: Seq<char>, form: FormView)
    ensures
        declares(form) <==> form is List && form->args.len() > 0 && form->args[0] == FormView::Identifier(
            "local-plugin-dependencies"@,
        ),
        declared(path, form) is Ok ==> {
            &&& form is List && form->args.len() == 2
            &&& form->args[1] is Quote
            &&& *(form->args[1]->Quote_0) is List
            &&& !(*(form->args[1]->Quote_0))->improper
            &&& declared(path, form) == ids_of(
                path,
                (*(form->args[1]->Quote_0))->args,
                (*(form->args[1]->Quote_0))->args.len() as int,
            )
        },
{
}

/// Without a declaration a workspace has no dependencies, and one declaration
/// decides them, wherever it stands; a second one is refused.
pub proof fn law_one_declaration_decides(path: Seq<char>, forms: Seq<FormView>, n: int, at: int)
    requires
        0 <= n <= forms.len(),
    ensures
        (forall|i: int| 0 <= i < n ==> !declares(#[trigger] forms[i])) ==> declared_by(path, forms, n) == Ok::<
            Option<Seq<Seq<char>>>,
            Seq<char>,
        >(None),
        0 <= at < n && declares(forms[at]) && (forall|i: int| 0 <= i < n && i != at ==> !declares(#[trigger] forms[i]))
            ==> declared_by(path, forms, n) == (match declared(path, forms[at]) {
            Ok(ids) => Ok::<Option<Seq<Seq<char>>>, Seq<char>>(Some(ids)),
            Err(message) => Err::<Option<Seq<Seq<char>>>, Seq<char>>(message),
        }),
        declared_by(path, forms, n) is Ok ==> forall|i: int, j: int|
            0 <= i < j < n ==> !(declares(#[trigger] forms[i]) && declares(#[trigger] forms[j])),
        declared_by(path, forms, n) is Ok && declared_by(path, forms, n)->Ok_0 is None ==> forall|i: int|
            0 <= i < n ==> !declares(#[trigger] forms[i]),
    decreases n,
{
    if n > 0 {
        law_one_declaration_decides(path, forms, n - 1, at);
        if at == n - 1 && declares(forms[at]) && (forall|i: int| 0 <= i < n && i != at ==> !declares(#[trigger] forms[i])) {
            assert(forall|i: int| 0 <= i < n - 1 ==> !declares(#[trigger] forms[i]));
        }
    }
}

/// A workspace whose configuration cannot be parsed has an error, and one without
/// a declaration has no dependencies.
pub proof fn law_workspaces_without_a_declaration(path: Seq<char>, forms: Seq<FormView>, message: Seq<char>)
    ensures
        dependencies_of(path, Err(message)) is Err,
        (forall|i: int| 0 <= i < forms.len() ==> !declares(#[trigger] forms[i])) ==> dependencies_of(path, Ok(forms)) is Ok
            && dependencies_of(path, Ok(forms))->Ok_0.len() == 0,
{
    law_one_declaration_decides(path, forms, forms.len() as int, 0);
}

/// How a dependency gets loaded: not at all where it is eager, by its manifests
/// where it is lazy and has some, by its modules where it is a built-in plugin
/// without a strategy; and in no other way.
pub proof fn law_dependencies_are_loaded_by_strategy(registry: RegistryView, i: int)
    requires
        registry.wf(),
        0 <= i < registry.logical_plugins.len(),
    ensures
        ({
            let logical = registry.logical_plugins[i];
            let plan = plan_of(registry, logical.name);
            &&& logical.strategy == Some(LogicalStrategy::Eager) ==> plan == Ok::<PlanView, Seq<char>>(PlanView::AlreadyLoaded)
            &&& logical.strategy == Some(LogicalStrategy::Lazy) ==> (plan is Ok <==> logical.manifests.len() > 0) && (plan is Ok
                ==> plan->Ok_0 == PlanView::Lazy(logical.manifests))
            &&& logical.strategy is None ==> (plan is Ok <==> logical.builtin) && (plan is Ok ==> plan->Ok_0 == PlanView::Eager(
                logical.eager_modules,
            ))
        }),
{
    let name = registry.logical_plugins[i].name;
    lemma_find_name(registry.logical_names(), name, 0);
    assert(registry.logical_names()[i] == name);
}

/// A dependency that is not cataloged cannot be loaded.
pub proof fn law_unknown_dependencies_are_refused(registry: RegistryView, name: Seq<char>)
    requires
        forall|i: int| 0 <= i < registry.logical_plugins.len() ==> (#[trigger] registry.logical_plugins[i]).name != name,
    ensures
        plan_of(registry, name) is Err,
        introduced(registry, name) == registry,
{
    lemma_find_name(registry.logical_names(), name, 0);
    if let Some(i) = registry.logical_at(name) {
        assert(registry.logical_names()[i] == registry.logical_plugins[i].name);
    }
}

/// Dependencies can be loaded exactly where each of them can.
pub proof fn law_plans_are_made_for_all_or_none(registry: RegistryView, dependencies: Seq<Seq<char>>, from: int)
    requires
        0 <= from,
    ensures
        plan_refusal(registry, dependencies, from) is None <==> forall|i: int|
            from <= i < dependencies.len() ==> plan_of(registry, #[trigger] dependencies[i]) is Ok,
        first_missing(registry, dependencies, from) is None <==> forall|i: int|
            from <= i < dependencies.len() ==> materialized(registry, #[trigger] dependencies[i]),
        first_missing(registry, dependencies, from) matches Some(name) ==> !materialized(registry, name) && dependencies.contains(
            name,
        ),
    decreases dependencies.len() - from,
{
    if from < dependencies.len() {
        law_plans_are_made_for_all_or_none(registry, dependencies, from + 1);
        assert(dependencies.contains(dependencies[from]));
    }
}

/// A dependency that was loaded eagerly is eager from then on; nothing else of it
/// and no other plugin changes.
pub proof fn law_introduced_dependencies_are_eager(registry: RegistryView, i: int, k: int)
    requires
        registry.wf(),
        0 <= i < registry.logical_plugins.len(),
        0 <= k < registry.logical_plugins.len(),
    ensures
        ({
            let name = registry.logical_plugins[i].name;
            let after = introduced(registry, name);
            &&& after.logical_plugins[i].strategy == Some(LogicalStrategy::Eager)
            &&& after.logical_plugins[i].name == name
            &&& after.logical_plugins[i].eager_modules == registry.logical_plugins[i].eager_modules
            &&& after.logical_plugins[i].manifests == registry.logical_plugins[i].manifests
            &&& k != i ==> after.logical_plugins[k] == registry.logical_plugins[k]
            &&& after.logical_registration_order == registry.logical_registration_order.push(name)
            &&& after.plugins == registry.plugins
            &&& after.commands == registry.commands
        }),
{
    let name = registry.logical_plugins[i].name;
    lemma_find_name(registry.logical_names(), name, 0);
    assert(registry.logical_names()[i] == name);
}

/// The names that loading has bound are those that are bound now and were not
/// before; they are remembered beside those from earlier loads.
pub proof fn law_new_names_are_remembered(registry: RegistryView, before: Seq<Seq<char>>, after: Seq<Seq<char>>, name: Seq<char>)
    ensures
        added_names(before, after).contains(name) <==> after.contains(name) && !before.contains(name),
        commands_noted(registry, before, after).locally_loaded_commands.contains(name) <==>
            registry.locally_loaded_commands.contains(name) || after.contains(name) && !before.contains(name),
        commands_noted(registry, before, after).plugins == registry.plugins,
        commands_noted(registry, before, after).commands == registry.commands,
    decreases after.len(),
{
    if after.len() > 0 {
        let rest = after.drop_last();
        law_new_names_are_remembered(registry, before, rest, name);
        assert(after =~= rest.push(after.last()));
        lemma_pushed(rest, after.last(), name);
        lemma_pushed(added_names(before, rest), after.last(), name);
    }
    let known = registry.locally_loaded_commands;
    let added = added_names(before, after);
    let all = known + added;
    if known.contains(name) {
        let k = choose|k: int| 0 <= k < known.len() && known[k] == name;
        assert(all[k] == name);
    }
    if added.contains(name) {
        let k = choose|k: int| 0 <= k < added.len() && added[k] == name;
        assert(all[known.len() + k] == name);
    }
    if all.contains(name) {
        let k = choose|k: int| 0 <= k < all.len() && all[k] == name;
        if k < known.len() {
            assert(known[k] == name);
        } else {
            assert(added[k - known.len()] == name);
        }
    }
}

} // verus!
