//! What publishing diagnostics keeps of them.

use vstd::prelude::*;

use super::external::{
    as_lsp, first_refusal, group_for, of_provider, publication_refusal, refusal, severity_named, DiagnosticError,
    ExternalDiagnostic, Severity,
};
use super::model::{
    of_others, path_before, slash_first, CodeView, DiagnosticSeverity, LspView, ProviderView, PublishedView,
};
use crate::file_snapshot::blank;
use crate::text_laws::{law_texts_have_an_order, law_the_first_difference_decides};

verus! {

broadcast use vstd::string::group_string_axioms;

/// A diagnostic is published with its own message, source and code, with the
/// severity that it was given, and with every position one lower in line and in
/// column, since it counted from 1.
pub proof fn law_published_diagnostics_keep_their_contents(given: ExternalDiagnostic)
    requires
        refusal(given) is None,
    ensures
        ({
            let out: LspView = as_lsp(given);
            &&& out.message == given.message@
            &&& out.source is Some <==> given.source is Some
            &&& given.source matches Some(source) ==> out.source == Some(source@)
            &&& out.code is Some <==> given.code is Some
            &&& given.code matches Some(code) ==> out.code == Some(CodeView::Text(code@))
            &&& out.range.start.line + 1 == given.start_line
            &&& out.range.start.character + 1 == given.start_column
            &&& out.range.end.line + 1 == given.end_line
            &&& out.range.end.character + 1 == given.end_column
            &&& given.severity == Severity::Hint <==> out.severity == Some(DiagnosticSeverity::Hint)
            &&& given.severity == Severity::Info <==> out.severity == Some(DiagnosticSeverity::Information)
            &&& given.severity == Severity::Warning <==> out.severity == Some(DiagnosticSeverity::Warning)
            &&& given.severity == Severity::Error <==> out.severity == Some(DiagnosticSeverity::Error)
        }),
{
}

/// A diagnostic is accepted exactly where its positions are positive, its end
/// does not precede its start, and all of them fit into the numbers of a
/// language server.
pub proof fn law_diagnostics_are_refused_for_their_positions(given: ExternalDiagnostic)
    ensures
        refusal(given) is None <==> {
            &&& 1 <= given.start_line <= 4_294_967_296
            &&& 1 <= given.start_column <= 4_294_967_296
            &&& 1 <= given.end_line <= 4_294_967_296
            &&& 1 <= given.end_column <= 4_294_967_296
            &&& given.start_line < given.end_line || given.start_line == given.end_line && given.start_column <= given.end_column
        },
        refusal(given) == Some(DiagnosticError::ZeroPosition) <==> given.start_line == 0 || given.start_column == 0
            || given.end_line == 0 || given.end_column == 0,
{
}

proof fn lemma_first_refusal(diagnostics: Seq<ExternalDiagnostic>, from: int)
    requires
        0 <= from,
    ensures
        match first_refusal(diagnostics, from) {
            None => forall|i: int| from <= i < diagnostics.len() ==> refusal(#[trigger] diagnostics[i]) is None,
            Some(error) => exists|i: int|
                from <= i < diagnostics.len() && refusal(#[trigger] diagnostics[i]) == Some(error) && forall|k: int|
                    from <= k < i ==> refusal(#[trigger] diagnostics[k]) is None,
        },
    decreases diagnostics.len() - from,
{
    if from < diagnostics.len() && refusal(diagnostics[from]) is None {
        lemma_first_refusal(diagnostics, from + 1);
        if let Some(error) = first_refusal(diagnostics, from + 1) {
            let i = choose|i: int|
                from + 1 <= i < diagnostics.len() && refusal(#[trigger] diagnostics[i]) == Some(error) && forall|k: int|
                    from + 1 <= k < i ==> refusal(#[trigger] diagnostics[k]) is None;
            assert(refusal(diagnostics[i]) == Some(error));
        }
    } else if from < diagnostics.len() {
        assert(refusal(diagnostics[from]) == first_refusal(diagnostics, from));
    }
}

/// A publication is accepted exactly where its namespace is not blank and every
/// one of its diagnostics is accepted; else the error is that of the first one
/// that is not.
pub proof fn law_publications_are_accepted_as_a_whole(namespace: Seq<char>, diagnostics: Seq<ExternalDiagnostic>)
    ensures
        publication_refusal(namespace, diagnostics) is None <==> !blank(namespace) && forall|i: int|
            0 <= i < diagnostics.len() ==> refusal(#[trigger] diagnostics[i]) is None,
        blank(namespace) ==> publication_refusal(namespace, diagnostics) == Some(DiagnosticError::EmptyNamespace),
        !blank(namespace) && publication_refusal(namespace, diagnostics) is Some ==> exists|i: int|
            0 <= i < diagnostics.len() && refusal(#[trigger] diagnostics[i]) == publication_refusal(namespace, diagnostics)
                && forall|k: int| 0 <= k < i ==> refusal(#[trigger] diagnostics[k]) is None,
{
    lemma_first_refusal(diagnostics, 0);
    if let Some(error) = first_refusal(diagnostics, 0) {
        let i = choose|i: int|
            0 <= i < diagnostics.len() && refusal(#[trigger] diagnostics[i]) == Some(error) && forall|k: int|
                0 <= k < i ==> refusal(#[trigger] diagnostics[k]) is None;
        assert(refusal(diagnostics[i]) is Some);
    }
}

/// A file gets exactly those diagnostics of a publication that name it, in their
/// order, each under the provider.
pub proof fn law_files_get_their_own_diagnostics(
    diagnostics: Seq<ExternalDiagnostic>,
    n: int,
    uri: Seq<char>,
    provider: ProviderView,
    one: PublishedView,
)
    requires
        0 <= n <= diagnostics.len(),
    ensures
        group_for(diagnostics, n, uri, provider).contains(one) <==> exists|i: int|
            0 <= i < n && (#[trigger] diagnostics[i]).path@ == uri && one.provider == provider && one.diagnostic == as_lsp(
                diagnostics[i],
            ),
        group_for(diagnostics, n, uri, provider).len() == named_among(diagnostics, n, uri),
        n > 0 && diagnostics[n - 1].path@ == uri ==> group_for(diagnostics, n, uri, provider).last().diagnostic == as_lsp(
            diagnostics[n - 1],
        ),
    decreases n,
{
    if n > 0 {
        law_files_get_their_own_diagnostics(diagnostics, n - 1, uri, provider, one);
        let before = group_for(diagnostics, n - 1, uri, provider);
        let all = group_for(diagnostics, n, uri, provider);
        if all.contains(one) {
            let k = choose|k: int| 0 <= k < all.len() && all[k] == one;
            if k < before.len() {
                assert(before[k] == one);
                let i = choose|i: int|
                    0 <= i < n - 1 && (#[trigger] diagnostics[i]).path@ == uri && one.provider == provider && one.diagnostic
                        == as_lsp(diagnostics[i]);
                assert(diagnostics[i].path@ == uri);
            } else {
                assert(diagnostics[n - 1].path@ == uri);
            }
        }
        if exists|i: int|
            0 <= i < n && (#[trigger] diagnostics[i]).path@ == uri && one.provider == provider && one.diagnostic == as_lsp(
                diagnostics[i],
            ) {
            let i = choose|i: int|
                0 <= i < n && (#[trigger] diagnostics[i]).path@ == uri && one.provider == provider && one.diagnostic == as_lsp(
                    diagnostics[i],
                );
            if i < n - 1 {
                assert(diagnostics[i].path@ == uri);
                let k = choose|k: int| 0 <= k < before.len() && before[k] == one;
                assert(all[k] == one);
            } else {
                assert(all[before.len() as int] == one);
            }
        }
    }
}

/// How many of the first `n` diagnostics name a file.
pub open spec fn named_among(diagnostics: Seq<ExternalDiagnostic>, n: int, uri: Seq<char>) -> int
    decreases n,
{
    if n <= 0 {
        0
    } else if diagnostics[n - 1].path@ == uri {
        named_among(diagnostics, n - 1, uri) + 1
    } else {
        named_among(diagnostics, n - 1, uri)
    }
}

/// The items of a provider and those of the others are all items, each once.
pub proof fn law_items_belong_to_one_side(items: Seq<PublishedView>, provider: ProviderView, one: PublishedView)
    ensures
        of_provider(items, provider).len() + of_others(items, provider).len() == items.len(),
        of_provider(items, provider).contains(one) <==> items.contains(one) && one.provider == provider,
        of_others(items, provider).contains(one) <==> items.contains(one) && one.provider != provider,
        of_provider(items, provider).to_multiset().add(of_others(items, provider).to_multiset()) =~= items.to_multiset(),
    decreases items.len(),
{
    broadcast use vstd::seq_lib::group_to_multiset_ensures;

    if items.len() > 0 {
        let rest = items.drop_last();
        let last = items.last();
        law_items_belong_to_one_side(rest, provider, one);
        assert(items =~= rest.push(last));
        lemma_contains_pushed(rest, last, one);
        lemma_contains_pushed(of_provider(rest, provider), last, one);
        lemma_contains_pushed(of_others(rest, provider), last, one);
    }
}

proof fn lemma_contains_pushed(list: Seq<PublishedView>, added: PublishedView, one: PublishedView)
    ensures
        list.push(added).contains(one) <==> list.contains(one) || one == added,
{
    let longer = list.push(added);
    assert(longer.last() == added);
    if list.contains(one) {
        let k = choose|k: int| 0 <= k < list.len() && list[k] == one;
        assert(longer[k] == one);
    }
    if longer.contains(one) {
        let k = choose|k: int| 0 <= k < longer.len() && longer[k] == one;
        if k < list.len() {
            assert(list[k] == one);
        }
    }
}

/// Each severity has one name, and no other name is one of a severity.
pub proof fn law_severities_are_named(name: Seq<char>)
    ensures
        severity_named("hint"@) == Some(Severity::Hint),
        severity_named("info"@) == Some(Severity::Info),
        severity_named("warning"@) == Some(Severity::Warning),
        severity_named("error"@) == Some(Severity::Error),
        severity_named(name) is Some <==> name == "hint"@ || name == "info"@ || name == "warning"@ || name == "error"@,
{
    reveal_strlit("hint");
    reveal_strlit("info");
    reveal_strlit("warning");
    reveal_strlit("error");
    assert("hint"@.len() == 4 && "info"@.len() == 4 && "warning"@.len() == 7 && "error"@.len() == 5);
    assert("hint"@[0] == 'h' && "info"@[0] == 'i');
}

/// Of two paths one comes before the other, unless they are the same.
pub proof fn law_paths_have_an_order(a: Seq<char>, b: Seq<char>)
    ensures
        a == b <==> !path_before(a, b) && !path_before(b, a),
        !(path_before(a, b) && path_before(b, a)),
{
    law_texts_have_an_order(a, b);
    law_texts_have_an_order(slash_first(a), slash_first(b));
    if a == b {
        assert(slash_first(a) == slash_first(b));
    }
}

/// What stands in a directory comes before what has a longer name than the
/// directory.
pub proof fn law_directories_come_before_longer_names(start: Seq<char>, inside: Seq<char>, c: char, rest: Seq<char>)
    requires
        c != '/',
        c as u32 > 0,
    ensures
        path_before(start + seq!['/'] + inside, start + seq![c] + rest),
{
    let a = start + seq!['/'] + inside;
    let b = start + seq![c] + rest;
    let n = start.len() as int;
    let (x, y) = (slash_first(a), slash_first(b));
    assert forall|i: int| 0 <= i < n implies x[i] == y[i] by {
        assert(a[i] == start[i] && b[i] == start[i]);
    }
    assert(a[n] == '/' && b[n] == c);
    assert(x[n] == '\0' && y[n] == c);
    law_the_first_difference_decides(x, y, n);
}

} // verus!
