//! Plugins that a trusted workspace depends on.

use steel::parser::ast::ExprKind;
use vstd::prelude::*;

use super::forms::{form_view, form_views, identifier, identifier_view, open_form, parse_source, plain_forms, Form, FormView};
use super::reader::{is_readable, plain_if_readable};
use super::registration::materialized;
use super::state::{LazyError, LogicalStrategy, LogicalView, Registry, RegistryView};
use crate::text::{copy_texts, holds_text, quote, same_text, string_views};
use crate::value::ScriptValue;

verus! {

broadcast use vstd::string::group_string_axioms;

pub open spec fn not_literal(path: Seq<char>) -> Seq<char> {
    "local-plugin-dependencies in "@ + path + " must contain one literal quoted list of plugin IDs"@
}

/// The first `n` of the forms as plugin ids, or why they are refused.
pub open spec fn ids_of(path: Seq<char>, forms: Seq<FormView>, n: int) -> Result<Seq<Seq<char>>, Seq<char>>
    decreases n,
{
    if n <= 0 {
        Ok(Seq::empty())
    } else {
        match ids_of(path, forms, n - 1) {
            Err(message) => Err(message),
            Ok(ids) => match identifier_view(forms[n - 1]) {
                None => Err("local-plugin-dependencies in "@ + path + " accepts only literal symbol IDs"@),
                Some(id) => if ids.contains(id) {
                    Err("duplicate local plugin dependency "@ + crate::text::quoted(id) + " in "@ + path)
                } else {
                    Ok(ids.push(id))
                },
            },
        }
    }
}

/// Whether a form declares dependencies.
pub open spec fn declares(form: FormView) -> bool {
    match form {
        FormView::List { args, .. } => args.len() > 0 && identifier_view(args[0]) == Some("local-plugin-dependencies"@),
        _ => false,
    }
}

/// The dependencies that a declaration lists, or why it is refused.
pub open spec fn declared(path: Seq<char>, form: FormView) -> Result<Seq<Seq<char>>, Seq<char>> {
    match form {
        FormView::List { args, .. } => if args.len() == 2 {
            match args[1] {
                FormView::Quote(quoted) => match *quoted {
                    FormView::List { args: ids, improper } => if improper {
                        Err("local-plugin-dependencies in "@ + path + " must use a proper list"@)
                    } else {
                        ids_of(path, ids, ids.len() as int)
                    },
                    _ => Err(not_literal(path)),
                },
                _ => Err(not_literal(path)),
            }
        } else {
            Err(not_literal(path))
        },
        _ => Err(not_literal(path)),
    }
}

/// The dependencies that the first `n` forms declare, if one does, or why they
/// are refused.
pub open spec fn declared_by(path: Seq<char>, forms: Seq<FormView>, n: int) -> Result<Option<Seq<Seq<char>>>, Seq<char>>
    decreases n,
{
    if n <= 0 {
        Ok(None)
    } else {
        match declared_by(path, forms, n - 1) {
            Err(message) => Err(message),
            Ok(before) => if !declares(forms[n - 1]) {
                Ok(before)
            } else if before is Some {
                Err(
                    "workspace Steel config "@ + path
                        + " contains more than one local-plugin-dependencies declaration"@,
                )
            } else {
                match declared(path, forms[n - 1]) {
                    Ok(ids) => Ok(Some(ids)),
                    Err(message) => Err(message),
                }
            },
        }
    }
}

/// The dependencies of a workspace, given the forms of its configuration.
pub open spec fn dependencies_of(path: Seq<char>, forms: Result<Seq<FormView>, Seq<char>>) -> Result<
    Seq<Seq<char>>,
    Seq<char>,
> {
    match forms {
        Err(message) => Err("unable to parse workspace Steel config "@ + path + ": "@ + message),
        Ok(forms) => match declared_by(path, forms, forms.len() as int) {
            Err(message) => Err(message),
            Ok(Some(ids)) => Ok(ids),
            Ok(None) => Ok(Seq::empty()),
        },
    }
}

proof fn lemma_ids_stay(path: Seq<char>, forms: Seq<FormView>, n: int, m: int)
    requires
        0 <= n <= m,
        ids_of(path, forms, n) is Err,
    ensures
        ids_of(path, forms, m) == ids_of(path, forms, n),
    decreases m,
{
    if n < m {
        lemma_ids_stay(path, forms, n, m - 1);
    }
}

proof fn lemma_declared_stays(path: Seq<char>, forms: Seq<FormView>, n: int, m: int)
    requires
        0 <= n <= m,
        declared_by(path, forms, n) is Err,
    ensures
        declared_by(path, forms, m) == declared_by(path, forms, n),
    decreases m,
{
    if n < m {
        lemma_declared_stays(path, forms, n, m - 1);
    }
}

/// Dependencies are named once each.
pub proof fn law_ids_are_distinct(path: Seq<char>, forms: Seq<FormView>, n: int)
    requires
        ids_of(path, forms, n) is Ok,
    ensures
        ids_of(path, forms, n)->Ok_0.no_duplicates(),
    decreases n,
{
    if n > 0 {
        law_ids_are_distinct(path, forms, n - 1);
    }
}

proof fn lemma_declared_distinct(path: Seq<char>, forms: Seq<FormView>, n: int)
    requires
        declared_by(path, forms, n) is Ok,
    ensures
        declared_by(path, forms, n)->Ok_0 is Some ==> declared_by(path, forms, n)->Ok_0->0.no_duplicates(),
    decreases n,
{
    if n > 0 {
        lemma_declared_distinct(path, forms, n - 1);
        let form = forms[n - 1];
        if declares(form) && declared(path, form) is Ok {
            match form {
                FormView::List { args, .. } => match args[1] {
                    FormView::Quote(quoted) => match *quoted {
                        FormView::List { args: ids, improper } => {
                            law_ids_are_distinct(path, ids, ids.len() as int);
                        },
                        _ => {},
                    },
                    _ => {},
                },
                _ => {},
            }
        }
    }
}

fn refuse(before: &str, path: &str, after: &str) -> (out: LazyError)
    ensures
        out.message@ == before@ + path@ + after@,
{
    LazyError { message: before.to_owned().concat(path).concat(after) }
}

fn read_ids(path: &str, forms: Vec<ExprKind>) -> (out: Result<Vec<String>, LazyError>)
    ensures
        match ids_of(path@, form_views(forms@), forms@.len() as int) {
            Ok(ids) => out is Ok && string_views(out->Ok_0@) == ids,
            Err(message) => out is Err && out->Err_0.message@ == message,
        },
{
    let ghost elements = forms@;
    let ghost all = form_views(elements);
    let mut rest = forms;
    let mut ids: Vec<String> = Vec::new();
    let ghost mut n: int = 0;
    proof {
        assert(elements.subrange(0, elements.len() as int) =~= elements);
        assert(string_views(ids@) =~= Seq::<Seq<char>>::empty());
    }
    while rest.len() > 0
        invariant
            elements == forms@,
            all == form_views(elements),
            0 <= n <= elements.len(),
            rest@ == elements.subrange(n, elements.len() as int),
            ids_of(path@, all, n) == Ok::<Seq<Seq<char>>, Seq<char>>(string_views(ids@)),
        decreases rest.len(),
    {
        let form = rest.remove(0);
        proof {
            assert(form == elements[n]);
            assert(all[n] == form_view(form));
            assert(rest@ =~= elements.subrange(n + 1, elements.len() as int));
            n = n + 1;
        }
        let id = match identifier(form) {
            Some(id) => id,
            None => {
                proof {
                    lemma_ids_stay(path@, all, n, all.len() as int);
                }
                return Err(refuse("local-plugin-dependencies in ", path, " accepts only literal symbol IDs"));
            },
        };
        if holds_text(&ids, id.as_str()) {
            proof {
                lemma_ids_stay(path@, all, n, all.len() as int);
            }
            return Err(
                LazyError {
                    message: "duplicate local plugin dependency ".to_owned().concat(quote(id.as_str()).as_str()).concat(
                        " in ",
                    ).concat(path),
                },
            );
        }
        let ghost before = ids@;
        ids.push(id);
        proof {
            crate::text::lemma_string_views_push(before, id);
        }
    }
    Ok(ids)
}

fn not_literal_error(path: &str) -> (out: LazyError)
    ensures
        out.message@ == not_literal(path@),
{
    refuse("local-plugin-dependencies in ", path, " must contain one literal quoted list of plugin IDs")
}

/// The dependencies that a form declares, if it is a declaration.
fn read_declaration(path: &str, form: ExprKind, first: bool) -> (out: Option<Result<Vec<String>, LazyError>>)
    ensures
        match out {
            None => !declares(form_view(form)),
            Some(result) => declares(form_view(form)) && if first {
                match declared(path@, form_view(form)) {
                    Ok(ids) => result is Ok && string_views(result->Ok_0@) == ids,
                    Err(message) => result is Err && result->Err_0.message@ == message,
                }
            } else {
                result is Err && result->Err_0.message@ == "workspace Steel config "@ + path@
                    + " contains more than one local-plugin-dependencies declaration"@
            },
        },
{
    let mut args = match open_form(form) {
        Form::List { args, .. } => args,
        _ => {
            return None;
        },
    };
    let ghost all = form_views(args@);
    if args.len() == 0 {
        return None;
    }
    proof {
        assert(all[0] == form_view(args@[0]));
        assert(args@.len() > 1 ==> all[1] == form_view(args@[1]));
    }
    let length: usize = args.len();
    let head = match identifier(args.remove(0)) {
        Some(head) => head,
        None => {
            return None;
        },
    };
    if !same_text(head.as_str(), "local-plugin-dependencies") {
        return None;
    }
    if !first {
        return Some(
            Err(
                refuse(
                    "workspace Steel config ",
                    path,
                    " contains more than one local-plugin-dependencies declaration",
                ),
            ),
        );
    }
    if length != 2 {
        return Some(Err(not_literal_error(path)));
    }
    let quoted = match open_form(args.remove(0)) {
        Form::Quote(quoted) => quoted,
        _ => {
            return Some(Err(not_literal_error(path)));
        },
    };
    match open_form(quoted) {
        Form::List { args: ids, improper } => if improper {
            Some(Err(refuse("local-plugin-dependencies in ", path, " must use a proper list")))
        } else {
            Some(read_ids(path, ids))
        },
        _ => Some(Err(not_literal_error(path))),
    }
}

/// The dependencies that the forms of a configuration declare.
pub fn read_dependencies(path: &str, forms: Result<Vec<ExprKind>, String>) -> (out: Result<Vec<String>, LazyError>)
    ensures
        match dependencies_of(
            path@,
            match forms {
                Ok(forms) => Ok(form_views(forms@)),
                Err(message) => Err(message@),
            },
        ) {
            Ok(ids) => out is Ok && string_views(out->Ok_0@) == ids && ids.no_duplicates(),
            Err(message) => out is Err && out->Err_0.message@ == message,
        },
{
    let list = match forms {
        Ok(list) => list,
        Err(message) => {
            return Err(refuse("unable to parse workspace Steel config ", path, ": ".to_owned().concat(message.as_str()).as_str()));
        },
    };
    let ghost elements = list@;
    let ghost all = form_views(elements);
    let mut rest = list;
    let mut found: Option<Vec<String>> = None;
    let ghost mut n: int = 0;
    proof {
        assert(elements.subrange(0, elements.len() as int) =~= elements);
    }
    while rest.len() > 0
        invariant
            forms is Ok,
            elements == forms->Ok_0@,
            all == form_views(elements),
            0 <= n <= elements.len(),
            rest@ == elements.subrange(n, elements.len() as int),
            declared_by(path@, all, n) == Ok::<Option<Seq<Seq<char>>>, Seq<char>>(
                match found {
                    Some(ids) => Some(string_views(ids@)),
                    None => None,
                },
            ),
        decreases rest.len(),
    {
        let form = rest.remove(0);
        proof {
            assert(form == elements[n]);
            assert(all[n] == form_view(form));
            assert(rest@ =~= elements.subrange(n + 1, elements.len() as int));
            n = n + 1;
        }
        match read_declaration(path, form, found.is_none()) {
            None => {},
            Some(Ok(ids)) => {
                found = Some(ids);
            },
            Some(Err(error)) => {
                proof {
                    lemma_declared_stays(path@, all, n, all.len() as int);
                }
                return Err(error);
            },
        }
    }
    proof {
        lemma_declared_distinct(path@, all, n);
    }
    match found {
        Some(ids) => Ok(ids),
        None => {
            let none: Vec<String> = Vec::new();
            proof {
                assert(string_views(none@) =~= Seq::<Seq<char>>::empty());
            }
            Ok(none)
        },
    }
}

/// The plugins that a workspace declares to depend on.
pub fn parse_local_dependencies(source: &str, path: &str) -> (out: Result<Vec<String>, LazyError>)
    ensures
        match dependencies_of(path@, plain_if_readable(source@, plain_forms(source@))) {
            Ok(ids) => out is Ok && string_views(out->Ok_0@) == ids && ids.no_duplicates(),
            Err(message) => out is Err && out->Err_0.message@ == message,
        },
{
    if !is_readable(source) {
        return read_dependencies(path, Err("source holds a form that cannot be read".to_owned()));
    }
    read_dependencies(path, parse_source(source))
}

/// The first `n` of the values as plugin ids, or why they are refused.
pub open spec fn symbols_of(values: Seq<ScriptValue>, n: int) -> Result<Seq<Seq<char>>, Seq<char>>
    decreases n,
{
    if n <= 0 {
        Ok(Seq::empty())
    } else {
        match symbols_of(values, n - 1) {
            Err(message) => Err(message),
            Ok(ids) => match values[n - 1] {
                ScriptValue::Symbol(id) => if ids.contains(id@) {
                    Err("duplicate local plugin dependency "@ + crate::text::quoted(id@))
                } else {
                    Ok(ids.push(id@))
                },
                _ => Err("local-plugin-dependencies accepts only literal symbol IDs"@),
            },
        }
    }
}

proof fn lemma_symbols_stay(values: Seq<ScriptValue>, n: int, m: int)
    requires
        0 <= n <= m,
        symbols_of(values, n) is Err,
    ensures
        symbols_of(values, m) == symbols_of(values, n),
    decreases m,
{
    if n < m {
        lemma_symbols_stay(values, n, m - 1);
    }
}

/// The values as plugin ids.
pub fn normalize_dependency_values(dependencies: &Vec<ScriptValue>) -> (out: Result<Vec<String>, LazyError>)
    ensures
        match symbols_of(dependencies@, dependencies@.len() as int) {
            Ok(ids) => out is Ok && string_views(out->Ok_0@) == ids,
            Err(message) => out is Err && out->Err_0.message@ == message,
        },
{
    let mut ids: Vec<String> = Vec::new();
    let mut i: usize = 0;
    proof {
        assert(string_views(ids@) =~= Seq::<Seq<char>>::empty());
    }
    while i < dependencies.len()
        invariant
            i <= dependencies@.len(),
            symbols_of(dependencies@, i as int) == Ok::<Seq<Seq<char>>, Seq<char>>(string_views(ids@)),
        decreases dependencies.len() - i,
    {
        let id = match &dependencies[i] {
            ScriptValue::Symbol(id) => id.clone(),
            _ => {
                proof {
                    lemma_symbols_stay(dependencies@, i + 1, dependencies@.len() as int);
                }
                return Err(
                    LazyError { message: "local-plugin-dependencies accepts only literal symbol IDs".to_owned() },
                );
            },
        };
        if holds_text(&ids, id.as_str()) {
            proof {
                lemma_symbols_stay(dependencies@, i + 1, dependencies@.len() as int);
            }
            return Err(
                LazyError {
                    message: "duplicate local plugin dependency ".to_owned().concat(quote(id.as_str()).as_str()),
                },
            );
        }
        let ghost before = ids@;
        ids.push(id);
        proof {
            crate::text::lemma_string_views_push(before, id);
        }
        i += 1;
    }
    Ok(ids)
}

/// The first of the names that is not materialized.
pub open spec fn first_missing(registry: RegistryView, names: Seq<Seq<char>>, from: int) -> Option<Seq<char>>
    decreases names.len() - from,
{
    if from < 0 || from >= names.len() {
        None
    } else if !materialized(registry, names[from]) {
        Some(names[from])
    } else {
        first_missing(registry, names, from + 1)
    }
}

/// How a dependency gets loaded.
pub enum LocalMaterialization {
    AlreadyLoaded,
    Lazy(Vec<String>),
    Eager(Vec<String>),
}

/// The contents of a [`LocalMaterialization`].
pub enum PlanView {
    AlreadyLoaded,
    Lazy(Seq<Seq<char>>),
    Eager(Seq<Seq<char>>),
}

impl View for LocalMaterialization {
    type V = PlanView;

    open spec fn view(&self) -> PlanView {
        match self {
            LocalMaterialization::AlreadyLoaded => PlanView::AlreadyLoaded,
            LocalMaterialization::Lazy(manifests) => PlanView::Lazy(string_views(manifests@)),
            LocalMaterialization::Eager(modules) => PlanView::Eager(string_views(modules@)),
        }
    }
}

/// How a dependency gets loaded, or why it cannot be.
pub open spec fn plan_of(registry: RegistryView, dependency: Seq<char>) -> Result<PlanView, Seq<char>> {
    match registry.logical_at(dependency) {
        None => Err(
            "unknown local plugin dependency "@ + crate::text::quoted(dependency)
                + "; load plugins/lazy-plugins.scm in the global configuration"@,
        ),
        Some(i) => {
            let logical = registry.logical_plugins[i];
            match logical.strategy {
                Some(LogicalStrategy::Eager) => Ok(PlanView::AlreadyLoaded),
                Some(LogicalStrategy::Lazy) => if logical.manifests.len() == 0 {
                    Err("lazy local plugin dependency "@ + crate::text::quoted(dependency) + " has no manifests"@)
                } else {
                    Ok(PlanView::Lazy(logical.manifests))
                },
                None => if logical.builtin {
                    Ok(PlanView::Eager(logical.eager_modules))
                } else {
                    Err(
                        "custom local plugin dependency "@ + crate::text::quoted(dependency)
                            + " must be registered globally"@,
                    )
                },
            }
        },
    }
}

/// The message of the first dependency that cannot be loaded.
pub open spec fn plan_refusal(registry: RegistryView, dependencies: Seq<Seq<char>>, from: int) -> Option<Seq<char>>
    decreases dependencies.len() - from,
{
    if from < 0 || from >= dependencies.len() {
        None
    } else {
        match plan_of(registry, dependencies[from]) {
            Err(message) => Some(message),
            Ok(_) => plan_refusal(registry, dependencies, from + 1),
        }
    }
}

/// The registry once a dependency has been loaded eagerly.
pub open spec fn introduced(registry: RegistryView, dependency: Seq<char>) -> RegistryView {
    match registry.logical_at(dependency) {
        Some(i) => RegistryView {
            logical_plugins: registry.logical_plugins.update(
                i,
                LogicalView { strategy: Some(LogicalStrategy::Eager), ..registry.logical_plugins[i] },
            ),
            logical_registration_order: registry.logical_registration_order.push(dependency),
            ..registry
        },
        None => registry,
    }
}

/// The names of the second list that the first one does not hold.
pub open spec fn added_names(before: Seq<Seq<char>>, after: Seq<Seq<char>>) -> Seq<Seq<char>>
    decreases after.len(),
{
    if after.len() == 0 {
        Seq::empty()
    } else if before.contains(after.last()) {
        added_names(before, after.drop_last())
    } else {
        added_names(before, after.drop_last()).push(after.last())
    }
}

/// The registry that remembers the commands which loading has bound: those that
/// are bound now and were not before.
pub open spec fn commands_noted(registry: RegistryView, before: Seq<Seq<char>>, after: Seq<Seq<char>>) -> RegistryView {
    RegistryView { locally_loaded_commands: registry.locally_loaded_commands + added_names(before, after), ..registry }
}

impl Registry {
    /// Refuses dependencies that are not loaded.
    pub fn verify_local_plugin_dependencies(&self, dependencies: &Vec<ScriptValue>) -> (out: Result<(), LazyError>)
        ensures
            match symbols_of(dependencies@, dependencies@.len() as int) {
                Err(message) => out is Err && out->Err_0.message@ == message,
                Ok(ids) => match first_missing(self@, ids, 0) {
                    Some(id) => out is Err && out->Err_0.message@ == "local plugin dependency "@ + crate::text::quoted(id)
                        + " was not materialized before evaluation"@,
                    None => out is Ok,
                },
            },
    {
        let ids = match normalize_dependency_values(dependencies) {
            Ok(ids) => ids,
            Err(error) => {
                return Err(error);
            },
        };
        let ghost all = string_views(ids@);
        let mut i: usize = 0;
        while i < ids.len()
            invariant
                i <= ids@.len(),
                all == string_views(ids@),
                symbols_of(dependencies@, dependencies@.len() as int) == Ok::<Seq<Seq<char>>, Seq<char>>(all),
                first_missing(self@, all, 0) == first_missing(self@, all, i as int),
            decreases ids.len() - i,
        {
            proof {
                assert(all[i as int] == ids@[i as int]@);
            }
            if !self.logical_plugin_materialized(ids[i].as_str()) {
                return Err(
                    LazyError {
                        message: "local plugin dependency ".to_owned().concat(quote(ids[i].as_str()).as_str()).concat(
                            " was not materialized before evaluation",
                        ),
                    },
                );
            }
            i += 1;
        }
        Ok(())
    }

    /// How a dependency gets loaded.
    pub fn plan_dependency(&self, dependency: &str) -> (out: Result<LocalMaterialization, LazyError>)
        ensures
            match plan_of(self@, dependency@) {
                Ok(plan) => out is Ok && out->Ok_0@ == plan,
                Err(message) => out is Err && out->Err_0.message@ == message,
            },
    {
        let i: usize = match self.logical_index(dependency) {
            Some(i) => i,
            None => {
                return Err(
                    LazyError {
                        message: "unknown local plugin dependency ".to_owned().concat(quote(dependency).as_str()).concat(
                            "; load plugins/lazy-plugins.scm in the global configuration",
                        ),
                    },
                );
            },
        };
        proof {
            assert(self@.logical_plugins[i as int] == self.logical_plugins@[i as int]@);
        }
        match self.logical_plugins[i].strategy {
            Some(LogicalStrategy::Eager) => Ok(LocalMaterialization::AlreadyLoaded),
            Some(LogicalStrategy::Lazy) => if self.logical_plugins[i].manifests.len() == 0 {
                Err(
                    LazyError {
                        message: "lazy local plugin dependency ".to_owned().concat(quote(dependency).as_str()).concat(
                            " has no manifests",
                        ),
                    },
                )
            } else {
                Ok(LocalMaterialization::Lazy(copy_texts(&self.logical_plugins[i].manifests)))
            },
            None => if self.logical_plugins[i].builtin {
                Ok(LocalMaterialization::Eager(copy_texts(&self.logical_plugins[i].eager_modules)))
            } else {
                Err(
                    LazyError {
                        message: "custom local plugin dependency ".to_owned().concat(quote(dependency).as_str()).concat(
                            " must be registered globally",
                        ),
                    },
                )
            },
        }
    }

    /// How the dependencies get loaded.
    pub fn plan_dependencies(&self, dependencies: &Vec<String>) -> (out: Result<Vec<LocalMaterialization>, LazyError>)
        ensures
            match plan_refusal(self@, string_views(dependencies@), 0) {
                Some(message) => out is Err && out->Err_0.message@ == message,
                None => out is Ok && out->Ok_0@.len() == dependencies@.len() && forall|i: int|
                    0 <= i < dependencies@.len() ==> Ok::<PlanView, Seq<char>>((#[trigger] out->Ok_0@[i])@) == plan_of(
                        self@,
                        dependencies@[i]@,
                    ),
            },
    {
        let ghost all = string_views(dependencies@);
        let mut plans: Vec<LocalMaterialization> = Vec::new();
        let mut i: usize = 0;
        while i < dependencies.len()
            invariant
                i <= dependencies@.len(),
                all == string_views(dependencies@),
                plans@.len() == i,
                plan_refusal(self@, all, 0) == plan_refusal(self@, all, i as int),
                forall|k: int|
                    0 <= k < i ==> Ok::<PlanView, Seq<char>>((#[trigger] plans@[k])@) == plan_of(self@, dependencies@[k]@),
            decreases dependencies.len() - i,
        {
            proof {
                assert(all[i as int] == dependencies@[i as int]@);
            }
            match self.plan_dependency(dependencies[i].as_str()) {
                Ok(plan) => {
                    plans.push(plan);
                },
                Err(error) => {
                    return Err(error);
                },
            }
            i += 1;
        }
        Ok(plans)
    }

    /// Notes that a dependency has been loaded eagerly.
    pub fn introduce(&mut self, dependency: &str) -> (out: Result<(), LazyError>)
        requires
            old(self).wf(),
        ensures
            final(self).wf(),
            final(self)@ == introduced(old(self)@, dependency@),
            match old(self)@.logical_at(dependency@) {
                Some(_) => out is Ok,
                None => out is Err && out->Err_0.message@ == "local plugin dependency "@ + crate::text::quoted(dependency@)
                    + " disappeared during engine reload"@,
            },
    {
        let ghost before = self@;
        let ghost plugins = self.logical_plugins@;
        let ghost order = self.logical_registration_order@;
        let i: usize = match self.logical_index(dependency) {
            Some(i) => i,
            None => {
                return Err(
                    LazyError {
                        message: "local plugin dependency ".to_owned().concat(quote(dependency).as_str()).concat(
                            " disappeared during engine reload",
                        ),
                    },
                );
            },
        };
        self.logical_plugins[i].strategy = Some(LogicalStrategy::Eager);
        let entry = dependency.to_owned();
        self.logical_registration_order.push(entry);
        proof {
            assert(before.logical_plugins[i as int] == plugins[i as int]@);
            super::state::lemma_views_update(plugins, i as int, self.logical_plugins@[i as int]);
            assert(self.logical_plugins@ =~= plugins.update(i as int, self.logical_plugins@[i as int]));
            crate::text::lemma_string_views_push(order, entry);
            assert(self@.logical_names() =~= before.logical_names());
            super::registration::lemma_logical_wf(before, self@);
        }
        Ok(())
    }

    /// Remembers the commands that are bound now and were not before.
    pub fn note_local_commands(&mut self, before: &Vec<String>, after: &Vec<String>)
        ensures
            final(self)@ == commands_noted(old(self)@, string_views(before@), string_views(after@)),
    {
        let ghost first = self@;
        let ghost known = string_views(before@);
        let ghost all = string_views(after@);
        let mut i: usize = 0;
        proof {
            assert(all.subrange(0, 0) =~= Seq::<Seq<char>>::empty());
            assert(first.locally_loaded_commands + Seq::<Seq<char>>::empty() =~= first.locally_loaded_commands);
        }
        while i < after.len()
            invariant
                i <= after@.len(),
                known == string_views(before@),
                all == string_views(after@),
                self@ == (RegistryView {
                    locally_loaded_commands: first.locally_loaded_commands + added_names(known, all.subrange(0, i as int)),
                    ..first
                }),
            decreases after.len() - i,
        {
            let ghost commands = self.locally_loaded_commands@;
            proof {
                assert(all.subrange(0, i + 1).drop_last() =~= all.subrange(0, i as int));
                assert(all.subrange(0, i + 1).last() == after@[i as int]@);
            }
            if !holds_text(before, after[i].as_str()) {
                let name = after[i].clone();
                self.locally_loaded_commands.push(name);
                proof {
                    crate::text::lemma_string_views_push(commands, name);
                    let done = added_names(known, all.subrange(0, i as int));
                    assert((first.locally_loaded_commands + done).push(name@) =~= first.locally_loaded_commands + done.push(
                        name@,
                    ));
                }
            }
            i += 1;
        }
        proof {
            assert(all.subrange(0, all.len() as int) =~= all);
        }
    }
}

} // verus!
