//! What discovery is for, in terms of the sources and the commands found.

use vstd::prelude::*;

use super::discovery::{
    accepted, accounted, cache_after, cached, cached_at, commands_of, count_refusal, feeds, first_file, found_in, joined, leading,
    line_of, lookup, marker_above, marker_of, marks, merged, names_from, orphan, scan_forms, scan_result, scan_step,
    source_name_refusal, summary_of, top_view, trimmed, trimmed_end, CachedView, DocumentedView, ScanView, SourceView, TopView,
};
use super::forms::{documented_forms, FormView, Parsed};
use super::reader::readable;
use super::registration::doc_names;
use crate::file_snapshot::whitespace;
use crate::text::{lemma_find_name, lines_of};

verus! {

broadcast use vstd::string::group_string_axioms;

/// Commands with their documentation.
pub type Commands = Seq<(Seq<char>, Seq<char>)>;

proof fn lemma_merged(found: Commands, commands: Commands, n: int)
    requires
        doc_names(found).no_duplicates(),
        0 <= n <= commands.len(),
    ensures
        merged(found, commands, n) is Ok <==> doc_names(found + commands.subrange(0, n)).no_duplicates(),
        merged(found, commands, n) is Ok ==> merged(found, commands, n)->Ok_0 == found + commands.subrange(0, n),
    decreases n,
{
    if n <= 0 {
        assert(found + commands.subrange(0, 0) =~= found);
    } else {
        lemma_merged(found, commands, n - 1);
        let before = found + commands.subrange(0, n - 1);
        let after = found + commands.subrange(0, n);
        let last = commands[n - 1];
        assert(after =~= before.push(last));
        assert(doc_names(after) =~= doc_names(before).push(last.0));
        if doc_names(after).no_duplicates() {
            assert forall|i: int, j: int| 0 <= i < j < before.len() implies doc_names(before)[i] != doc_names(before)[j] by {
                assert(doc_names(after)[i] == doc_names(before)[i]);
                assert(doc_names(after)[j] == doc_names(before)[j]);
            }
        }
        if doc_names(before).no_duplicates() {
            lemma_find_name(doc_names(before), last.0, 0);
            if crate::text::find_name(doc_names(before), last.0, 0) is Some {
                let i = crate::text::find_name(doc_names(before), last.0, 0)->0;
                assert(doc_names(after)[i] == doc_names(after)[n - 1 + found.len()]);
            } else {
                assert forall|i: int, j: int| 0 <= i < j < after.len() implies doc_names(after)[i] != doc_names(after)[j] by {
                    if j < before.len() {
                        assert(doc_names(before)[i] != doc_names(before)[j]);
                    }
                }
            }
        }
    }
}

/// Adding the commands of a source to those found before succeeds exactly where
/// all names stay distinct, and then gives all of them, one list behind the
/// other.
pub proof fn law_merging_keeps_every_command(found: Commands, commands: Commands)
    requires
        doc_names(found).no_duplicates(),
    ensures
        merged(found, commands, commands.len() as int) is Ok <==> doc_names(found + commands).no_duplicates(),
        merged(found, commands, commands.len() as int) is Ok ==> merged(found, commands, commands.len() as int)->Ok_0 == found
            + commands,
{
    lemma_merged(found, commands, commands.len() as int);
    assert(commands.subrange(0, commands.len() as int) =~= commands);
}

/// The commands of the source at `i`, after those before it.
pub open spec fn commands_at(cache: Seq<CachedView>, sources: Seq<SourceView>, i: int) -> Result<Commands, Seq<char>> {
    lookup(cache_after(cache, sources, i), sources[i])
}

/// How many commands the first `n` sources have together.
pub open spec fn commands_together(cache: Seq<CachedView>, sources: Seq<SourceView>, n: int) -> nat
    decreases n,
{
    if n <= 0 {
        0
    } else {
        commands_together(cache, sources, n - 1) + commands_at(cache, sources, n - 1)->Ok_0.len()
    }
}

proof fn lemma_found_distinct(cache: Seq<CachedView>, sources: Seq<SourceView>, n: int)
    requires
        found_in(cache, sources, n) is Ok,
        0 <= n,
    ensures
        doc_names(found_in(cache, sources, n)->Ok_0).no_duplicates(),
    decreases n,
{
    if n > 0 {
        lemma_found_distinct(cache, sources, n - 1);
        law_merging_keeps_every_command(
            found_in(cache, sources, n - 1)->Ok_0,
            commands_at(cache, sources, n - 1)->Ok_0,
        );
    }
}

/// When discovery over some sources succeeds, all of them can be searched, a
/// command with its documentation is found exactly where one of the sources has
/// it, and as many are found as the sources have together.
pub proof fn law_discovery_finds_every_command(cache: Seq<CachedView>, sources: Seq<SourceView>, n: int)
    requires
        0 <= n <= sources.len(),
        found_in(cache, sources, n) is Ok,
    ensures
        forall|i: int| 0 <= i < n ==> (#[trigger] commands_at(cache, sources, i)) is Ok,
        found_in(cache, sources, n)->Ok_0.len() == commands_together(cache, sources, n),
        forall|command: (Seq<char>, Seq<char>)| #[trigger]
            found_in(cache, sources, n)->Ok_0.contains(command) <==> exists|i: int|
                0 <= i < n && (#[trigger] commands_at(cache, sources, i))->Ok_0.contains(command),
    decreases n,
{
    if n > 0 {
        law_discovery_finds_every_command(cache, sources, n - 1);
        let before = found_in(cache, sources, n - 1)->Ok_0;
        let added = commands_at(cache, sources, n - 1)->Ok_0;
        let after = found_in(cache, sources, n)->Ok_0;
        lemma_found_distinct(cache, sources, n - 1);
        law_merging_keeps_every_command(before, added);
        assert forall|command: (Seq<char>, Seq<char>)| #[trigger] after.contains(command) <==> exists|i: int|
            0 <= i < n && (#[trigger] commands_at(cache, sources, i))->Ok_0.contains(command) by {
            if after.contains(command) {
                let k = choose|k: int| 0 <= k < after.len() && after[k] == command;
                if k < before.len() {
                    assert(before[k] == command);
                    assert(before.contains(command));
                    let i = choose|i: int|
                        0 <= i < n - 1 && (#[trigger] commands_at(cache, sources, i))->Ok_0.contains(command);
                    assert(commands_at(cache, sources, i)->Ok_0.contains(command));
                } else {
                    assert(added[k - before.len()] == command);
                    assert(commands_at(cache, sources, n - 1)->Ok_0.contains(command));
                }
            }
            if exists|i: int| 0 <= i < n && (#[trigger] commands_at(cache, sources, i))->Ok_0.contains(command) {
                let i = choose|i: int| 0 <= i < n && (#[trigger] commands_at(cache, sources, i))->Ok_0.contains(command);
                if i < n - 1 {
                    assert(before.contains(command));
                    let k = choose|k: int| 0 <= k < before.len() && before[k] == command;
                    assert(after[k] == command);
                } else {
                    let k = choose|k: int| 0 <= k < added.len() && added[k] == command;
                    assert(after[before.len() + k] == command);
                }
            }
        }
    }
}

/// Discovery over sources that can all be searched fails only where two of the
/// commands have one name.
pub proof fn law_discovery_fails_only_on_clashes(cache: Seq<CachedView>, sources: Seq<SourceView>, n: int)
    requires
        0 < n <= sources.len(),
        found_in(cache, sources, n - 1) is Ok,
        commands_at(cache, sources, n - 1) is Ok,
    ensures
        found_in(cache, sources, n) is Ok <==> doc_names(
            found_in(cache, sources, n - 1)->Ok_0 + commands_at(cache, sources, n - 1)->Ok_0,
        ).no_duplicates(),
{
    lemma_found_distinct(cache, sources, n - 1);
    law_merging_keeps_every_command(found_in(cache, sources, n - 1)->Ok_0, commands_at(cache, sources, n - 1)->Ok_0);
}

/// A source that is not in the cache is searched: its commands are those of its
/// own text. One that is there answers with what was found in it.
pub proof fn law_a_new_source_is_searched(cache: Seq<CachedView>, source: SourceView, i: int)
    ensures
        (forall|k: int| 0 <= k < cache.len() ==> (#[trigger] cache[k]).path != source.path) ==> match source.text {
            Ok(text) => readable(text) ==> lookup(cache, source) == commands_of(source.path, text, documented_forms(text)),
            Err(_) => lookup(cache, source) is Err,
        },
        0 <= i < cache.len() && cache[i].path == source.path && (forall|k: int|
            0 <= k < i ==> (#[trigger] cache[k]).path != source.path) ==> lookup(cache, source) == Ok::<Commands, Seq<char>>(
            cache[i].commands,
        ),
{
    let paths = Seq::new(cache.len(), |i: int| cache[i].path);
    lemma_find_name(paths, source.path, 0);
    if 0 <= i < cache.len() && cache[i].path == source.path {
        assert(paths[i] == source.path);
    }
}

/// A source that was searched is kept with its own commands under its own path;
/// all others stay as they are. A source that was refused is not kept.
pub proof fn law_a_searched_source_is_kept(cache: Seq<CachedView>, source: SourceView)
    requires
        forall|k: int| 0 <= k < cache.len() ==> (#[trigger] cache[k]).path != source.path,
    ensures
        lookup(cache, source) is Ok ==> cached(cache, source) == cache.push(
            CachedView { path: source.path, commands: lookup(cache, source)->Ok_0 },
        ),
        lookup(cache, source) is Err ==> cached(cache, source) == cache,
{
    let paths = Seq::new(cache.len(), |i: int| cache[i].path);
    lemma_find_name(paths, source.path, 0);
}

/// What a form says: the names that it provides.
pub open spec fn provides(form: FormView, name: Seq<char>) -> bool {
    form matches FormView::List { args, .. } && args.len() > 0 && args[0] == FormView::Identifier("provide"@) && exists|k: int|
        1 <= k < args.len() && #[trigger] args[k] == FormView::Identifier(name)
}

/// What a form says: the documentation of the definition of a name, and where
/// the definition starts.
pub open spec fn documents(form: FormView, name: Seq<char>, documentation: Seq<char>, start: usize) -> bool {
    &&& form matches FormView::List { args, .. } && args.len() >= 3 && args[0] == FormView::Identifier("@doc"@) && args[1]
        == FormView::Text(documentation) && args[2] == (FormView::Define {
        name: Box::new(FormView::Identifier(name)),
        start,
    })
}

proof fn lemma_names_from(forms: Seq<FormView>, from: int, name: Seq<char>)
    requires
        0 <= from,
    ensures
        names_from(forms, from).contains(name) <==> exists|k: int|
            from <= k < forms.len() && #[trigger] forms[k] == FormView::Identifier(name),
    decreases forms.len() - from,
{
    if from < forms.len() {
        lemma_names_from(forms, from + 1, name);
        let rest = names_from(forms, from + 1);
        let all = names_from(forms, from);
        if let FormView::Identifier(first) = forms[from] {
            assert(all =~= seq![first] + rest);
            if rest.contains(name) {
                let k = choose|k: int| 0 <= k < rest.len() && rest[k] == name;
                assert(all[k + 1] == name);
            }
            if first == name {
                assert(all[0] == name);
            }
            if all.contains(name) && first != name {
                let k = choose|k: int| 0 <= k < all.len() && all[k] == name;
                assert(rest[k - 1] == name);
            }
        }
    }
}

/// What discovery takes from a form: the names of a `provide` form, and the
/// documentation of a documented definition.
pub proof fn law_forms_are_read_for_what_they_say(form: FormView, name: Seq<char>, documentation: Seq<char>, start: usize)
    ensures
        provides(form, name) <==> (top_view(form) matches TopView::Provide(names) && names.contains(name)),
        documents(form, name, documentation, start) <==> top_view(form) == (TopView::Documented { documentation, name, start }),
{
    reveal_strlit("provide");
    reveal_strlit("@doc");
    assert("provide"@.len() != "@doc"@.len());
    if let FormView::List { args, .. } = form {
        lemma_names_from(args, 1, name);
        if args.len() >= 3 {
            if let FormView::Define { name: named, start: at } = args[2] {
                assert(*named == FormView::Identifier(name) ==> named == Box::new(FormView::Identifier(name)));
            }
        }
    }
}

/// Whether the form at `k` declares a command: it documents a definition that a
/// marker stands above.
pub open spec fn declares(
    source: Seq<char>,
    forms: Seq<Parsed>,
    k: int,
    name: Seq<char>,
    documentation: Seq<char>,
    start: usize,
) -> bool {
    &&& 0 <= k < forms.len()
    &&& forms[k] is Ok
    &&& documents(forms[k]->Ok_0, name, documentation, start)
    &&& marker_of(lines_of(source), line_of(source, start) as int) is Some
}

/// Whether what is known after some forms is what they say.
spec fn faithful(source: Seq<char>, forms: Seq<Parsed>, scan: ScanView) -> bool {
    &&& forall|name: Seq<char>| #[trigger]
        scan.provides.contains(name) <==> exists|k: int|
            0 <= k < forms.len() && (#[trigger] forms[k]) is Ok && provides(forms[k]->Ok_0, name)
    &&& forall|i: int| 0 <= i < scan.documented.len() ==> from_some_form(source, forms, #[trigger] scan.documented[i])
    &&& forall|k: int, name: Seq<char>, documentation: Seq<char>, start: usize| #[trigger]
        declares(source, forms, k, name, documentation, start) ==> summary_of(documentation).len() > 0 && scan.documented.contains(
            DocumentedView { name, summary: summary_of(documentation), line: line_of(source, start) },
        )
    &&& forall|line: int| #[trigger] scan.consumed.contains(line) <==> from_some_marker(source, forms, line)
}

/// Whether some form declares the command.
pub open spec fn from_some_form(source: Seq<char>, forms: Seq<Parsed>, command: DocumentedView) -> bool {
    exists|k: int, documentation: Seq<char>, start: usize| #[trigger]
        declares(source, forms, k, command.name, documentation, start) && command.summary == summary_of(documentation)
            && command.line == line_of(source, start) && command.summary.len() > 0
}

/// Whether the marker on the line belongs to a command that some form declares.
pub open spec fn from_some_marker(source: Seq<char>, forms: Seq<Parsed>, line: int) -> bool {
    exists|k: int, name: Seq<char>, documentation: Seq<char>, start: usize| #[trigger]
        declares(source, forms, k, name, documentation, start) && marker_of(
            lines_of(source),
            line_of(source, start) as int,
        ) == Some(line)
}

proof fn lemma_step_is_faithful(path: Seq<char>, source: Seq<char>, forms: Seq<Parsed>, form: FormView, scan: ScanView)
    requires
        faithful(source, forms, scan),
        scan_step(path, source, scan, top_view(form)) is Ok,
    ensures
        faithful(source, forms.push(Ok(form)), scan_step(path, source, scan, top_view(form))->Ok_0),
{
    let all = forms.push(Parsed::Ok(form));
    let next = scan_step(path, source, scan, top_view(form))->Ok_0;
    let n = forms.len() as int;
    assert(all[n] == Parsed::Ok(form));
    assert forall|k: int| 0 <= k < n implies #[trigger] all[k] == forms[k] by {}
    assert forall|k: int, name: Seq<char>, documentation: Seq<char>, start: usize| #[trigger]
        declares(source, all, k, name, documentation, start) implies (k < n && declares(
        source,
        forms,
        k,
        name,
        documentation,
        start,
    )) || (k == n && top_view(form) == (TopView::Documented { documentation, name, start })) by {
        if k == n {
            law_forms_are_read_for_what_they_say(form, name, documentation, start);
        }
    }
    assert forall|k: int, name: Seq<char>, documentation: Seq<char>, start: usize| #[trigger]
        declares(source, forms, k, name, documentation, start) implies declares(source, all, k, name, documentation, start) by {
        assert(all[k] == forms[k]);
    }
    assert forall|name: Seq<char>| #[trigger] next.provides.contains(name) <==> exists|k: int|
        0 <= k < all.len() && (#[trigger] all[k]) is Ok && provides(all[k]->Ok_0, name) by {
        law_forms_are_read_for_what_they_say(form, name, Seq::empty(), 0);
        if let TopView::Provide(names) = top_view(form) {
            assert(next.provides == scan.provides + names);
            if scan.provides.contains(name) {
                let i = choose|i: int| 0 <= i < scan.provides.len() && scan.provides[i] == name;
                assert(next.provides[i] == name);
            }
            if names.contains(name) {
                let i = choose|i: int| 0 <= i < names.len() && names[i] == name;
                assert(next.provides[scan.provides.len() + i] == name);
            }
            if next.provides.contains(name) && !names.contains(name) {
                let i = choose|i: int| 0 <= i < next.provides.len() && next.provides[i] == name;
                if i >= scan.provides.len() {
                    assert(names[i - scan.provides.len()] == name);
                }
                assert(scan.provides[i] == name);
            }
        }
        if scan.provides.contains(name) {
            let k = choose|k: int| 0 <= k < n && (#[trigger] forms[k]) is Ok && provides(forms[k]->Ok_0, name);
            assert(all[k] == forms[k]);
        }
        if exists|k: int| 0 <= k < all.len() && (#[trigger] all[k]) is Ok && provides(all[k]->Ok_0, name) {
            let k = choose|k: int| 0 <= k < all.len() && (#[trigger] all[k]) is Ok && provides(all[k]->Ok_0, name);
            if k < n {
                assert(forms[k] == all[k]);
            }
        }
    }
    assert forall|i: int| 0 <= i < next.documented.len() implies from_some_form(source, all, #[trigger] next.documented[i]) by {
        if i < scan.documented.len() {
            assert(next.documented[i] == scan.documented[i]);
            let command = scan.documented[i];
            let (k, documentation, start) = choose|k: int, documentation: Seq<char>, start: usize| #[trigger]
                declares(source, forms, k, command.name, documentation, start) && command.summary == summary_of(documentation)
                    && command.line == line_of(source, start) && command.summary.len() > 0;
            assert(declares(source, all, k, command.name, documentation, start));
        } else {
            let (documentation, name, start) = (
                top_view(form)->documentation,
                top_view(form)->Documented_name,
                top_view(form)->start,
            );
            law_forms_are_read_for_what_they_say(form, name, documentation, start);
            assert(top_view(form) == (TopView::Documented { documentation, name, start }));
            assert(declares(source, all, n, name, documentation, start));
            assert(i == scan.documented.len());
            let command = next.documented[i];
            assert(command == (DocumentedView { name, summary: summary_of(documentation), line: line_of(source, start) }));
            assert(declares(source, all, n, command.name, documentation, start));
        }
    }
    assert forall|k: int, name: Seq<char>, documentation: Seq<char>, start: usize| #[trigger]
        declares(source, all, k, name, documentation, start) implies summary_of(documentation).len() > 0
        && next.documented.contains(
        DocumentedView { name, summary: summary_of(documentation), line: line_of(source, start) },
    ) by {
        let command = DocumentedView { name, summary: summary_of(documentation), line: line_of(source, start) };
        if k < n {
            assert(declares(source, forms, k, name, documentation, start));
            let i = choose|i: int| 0 <= i < scan.documented.len() && scan.documented[i] == command;
            assert(next.documented[i] == command);
        } else {
            assert(next.documented[scan.documented.len() as int] == command);
        }
    }
    assert forall|line: int| #[trigger] next.consumed.contains(line) <==> from_some_marker(source, all, line) by {
        if scan.consumed.contains(line) {
            let i = choose|i: int| 0 <= i < scan.consumed.len() && scan.consumed[i] == line;
            assert(next.consumed[i] == line);
            let (k, name, documentation, start) = choose|k: int, name: Seq<char>, documentation: Seq<char>, start: usize| #[trigger]
                declares(source, forms, k, name, documentation, start) && marker_of(
                    lines_of(source),
                    line_of(source, start) as int,
                ) == Some(line);
            assert(declares(source, all, k, name, documentation, start));
        }
        if next.consumed.contains(line) && !scan.consumed.contains(line) {
            let i = choose|i: int| 0 <= i < next.consumed.len() && next.consumed[i] == line;
            if i < scan.consumed.len() {
                assert(scan.consumed[i] == line);
            }
            let (documentation, name, start) = (
                top_view(form)->documentation,
                top_view(form)->Documented_name,
                top_view(form)->start,
            );
            law_forms_are_read_for_what_they_say(form, name, documentation, start);
            assert(declares(source, all, n, name, documentation, start));
        }
        if from_some_marker(source, all, line) {
            let (k, name, documentation, start) = choose|k: int, name: Seq<char>, documentation: Seq<char>, start: usize| #[trigger]
                declares(source, all, k, name, documentation, start) && marker_of(
                    lines_of(source),
                    line_of(source, start) as int,
                ) == Some(line);
            if k < n {
                assert(declares(source, forms, k, name, documentation, start));
                assert(from_some_marker(source, forms, line));
                assert(scan.consumed.contains(line));
            } else {
                assert(next.consumed[scan.consumed.len() as int] == line);
            }
        }
    }
}

proof fn lemma_scan_is_faithful(path: Seq<char>, source: Seq<char>, seen: Seq<Parsed>, forms: Seq<Parsed>, scan: ScanView)
    requires
        faithful(source, seen, scan),
        scan_forms(path, source, forms, scan) is Ok,
    ensures
        faithful(source, seen + forms, scan_forms(path, source, forms, scan)->Ok_0),
        forall|k: int| 0 <= k < forms.len() ==> (#[trigger] forms[k]) is Ok,
    decreases forms.len(),
{
    if forms.len() == 0 {
        assert(seen + forms =~= seen);
    } else {
        let form = forms[0]->Ok_0;
        lemma_step_is_faithful(path, source, seen, form, scan);
        let next = scan_step(path, source, scan, top_view(form))->Ok_0;
        lemma_scan_is_faithful(path, source, seen.push(Ok(form)), forms.drop_first(), next);
        assert(seen.push(Parsed::Ok(form)) + forms.drop_first() =~= seen + forms);
        assert forall|k: int| 0 <= k < forms.len() implies (#[trigger] forms[k]) is Ok by {
            if k > 0 {
                assert(forms.drop_first()[k - 1] == forms[k]);
            }
        }
    }
}

proof fn lemma_accepted(path: Seq<char>, scan: ScanView, n: int)
    requires
        0 <= n <= scan.documented.len(),
    ensures
        accepted(path, scan, n) is Ok ==> {
            &&& accepted(path, scan, n)->Ok_0.len() == n
            &&& forall|i: int|
                0 <= i < n ==> accepted(path, scan, n)->Ok_0[i] == ((#[trigger] scan.documented[i]).name, scan.documented[i].summary)
                    && scan.provides.contains(scan.documented[i].name)
        },
    decreases n,
{
    if n > 0 {
        lemma_accepted(path, scan, n - 1);
        if accepted(path, scan, n) is Ok {
            let before = accepted(path, scan, n - 1)->Ok_0;
            let after = accepted(path, scan, n)->Ok_0;
            let last = scan.documented[n - 1];
            assert(after =~= before.push((last.name, last.summary)));
            assert forall|i: int| 0 <= i < n implies after[i] == ((#[trigger] scan.documented[i]).name, scan.documented[i].summary)
                && scan.provides.contains(scan.documented[i].name) by {
                if i < n - 1 {
                    assert(after[i] == before[i]);
                }
            }
        }
    }
}

proof fn lemma_orphan(lines: Seq<Seq<char>>, consumed: Seq<int>, from: int, line: int)
    requires
        orphan(lines, consumed, from) is None,
        1 <= from <= line <= lines.len(),
        marks(lines[line - 1]),
    ensures
        consumed.contains(line),
    decreases line - from,
{
    if from < line {
        lemma_orphan(lines, consumed, from + 1, line);
    }
}

/// The commands of a source are the marked and documented ones: a name with a
/// summary is among them exactly where some form documents a definition of the
/// name that a marker stands above, and the summary is that of the
/// documentation. All of them are provided, none is without a summary, and
/// every marker belongs to one of them.
pub proof fn law_commands_are_marked_documented_and_provided(path: Seq<char>, source: Seq<char>, forms: Seq<Parsed>)
    requires
        commands_of(path, source, forms) is Ok,
    ensures
        forall|k: int| 0 <= k < forms.len() ==> (#[trigger] forms[k]) is Ok,
        forall|k: int, name: Seq<char>, documentation: Seq<char>, start: usize| #[trigger]
            declares(source, forms, k, name, documentation, start) ==> commands_of(path, source, forms)->Ok_0.contains(
                (name, summary_of(documentation)),
            ),
        forall|i: int|
            0 <= i < commands_of(path, source, forms)->Ok_0.len() ==> declared(
                source,
                forms,
                #[trigger] commands_of(path, source, forms)->Ok_0[i],
            ),
        forall|line: int|
            1 <= line <= lines_of(source).len() && marks(#[trigger] lines_of(source)[line - 1]) ==> from_some_marker(
                source,
                forms,
                line,
            ),
{
    let first = ScanView { consumed: Seq::empty(), provides: Seq::empty(), documented: Seq::empty() };
    let none = Seq::<Parsed>::empty();
    assert(faithful(source, none, first));
    lemma_scan_is_faithful(path, source, none, forms, first);
    assert(none + forms =~= forms);
    let scan = scan_forms(path, source, forms, first)->Ok_0;
    let commands = commands_of(path, source, forms)->Ok_0;
    let n = scan.documented.len() as int;
    assert(commands == accepted(path, scan, n)->Ok_0);
    lemma_accepted(path, scan, n);
    assert forall|k: int, name: Seq<char>, documentation: Seq<char>, start: usize| #[trigger]
        declares(source, forms, k, name, documentation, start) implies commands.contains((name, summary_of(documentation))) by {
        let command = DocumentedView { name, summary: summary_of(documentation), line: line_of(source, start) };
        let i = choose|i: int| 0 <= i < scan.documented.len() && scan.documented[i] == command;
        assert(scan.documented[i] == command);
        assert(commands[i] == (name, summary_of(documentation)));
    }
    assert forall|i: int| 0 <= i < commands.len() implies declared(source, forms, #[trigger] commands[i]) by {
        let command = scan.documented[i];
        assert(commands[i] == (command.name, command.summary));
        assert(from_some_form(source, forms, command));
        let (k, documentation, start) = choose|k: int, documentation: Seq<char>, start: usize| #[trigger]
            declares(source, forms, k, command.name, documentation, start) && command.summary == summary_of(documentation)
                && command.line == line_of(source, start) && command.summary.len() > 0;
        assert(declares(source, forms, k, commands[i].0, documentation, start));
        assert(scan.provides.contains(command.name));
        let p = choose|p: int| 0 <= p < forms.len() && (#[trigger] forms[p]) is Ok && provides(forms[p]->Ok_0, command.name);
        assert(provided(forms, p, commands[i].0));
    }
    assert forall|line: int| 1 <= line <= lines_of(source).len() && marks(#[trigger] lines_of(source)[line - 1]) implies from_some_marker(
        source,
        forms,
        line,
    ) by {
        lemma_orphan(lines_of(source), scan.consumed, 1, line);
        assert(scan.consumed.contains(line));
    }
}

/// Whether the form at `k` provides a name.
pub open spec fn provided(forms: Seq<Parsed>, k: int, name: Seq<char>) -> bool {
    0 <= k < forms.len() && forms[k] is Ok && provides(forms[k]->Ok_0, name)
}

/// Whether a command is declared with its summary and provided.
pub open spec fn declared(source: Seq<char>, forms: Seq<Parsed>, command: (Seq<char>, Seq<char>)) -> bool {
    &&& command.1.len() > 0
    &&& exists|k: int, documentation: Seq<char>, start: usize| #[trigger]
        declares(source, forms, k, command.0, documentation, start) && command.1 == summary_of(documentation)
    &&& exists|k: int| #[trigger] provided(forms, k, command.0)
}

/// A line is a marker where it starts with the marker and holds nothing else but
/// white space.
pub proof fn law_a_marker_stands_alone_on_its_line(line: Seq<char>)
    ensures
        marks(line) <==> line.len() >= 15 && line.subrange(0, 15) == ";;@lazy-command"@ && forall|i: int|
            15 <= i < line.len() ==> whitespace(#[trigger] line[i]),
{
    let marker = ";;@lazy-command"@;
    reveal_strlit(";;@lazy-command");
    assert(marker.len() == 15);
    assert(!whitespace(marker[0]));
    assert(!whitespace(marker[14]));
    lemma_trimmed(line);
    if marks(line) {
        assert(line.subrange(0, 15) == marker);
        assert(line[0] == marker[0]);
        assert(leading(line) == 0);
        assert(line.subrange(0, line.len() as int) =~= line);
        lemma_trimmed_end(line);
    }
    if line.len() >= 15 && line.subrange(0, 15) == marker && forall|i: int| 15 <= i < line.len() ==> whitespace(#[trigger] line[i]) {
        assert(line[0] == line.subrange(0, 15)[0]);
        assert(leading(line) == 0);
        assert(line.subrange(0, line.len() as int) =~= line);
        lemma_trimmed_end_of(line, 15);
    }
}

proof fn lemma_trimmed_end(text: Seq<char>)
    ensures
        trimmed_end(text).len() <= text.len(),
        trimmed_end(text) == text.subrange(0, trimmed_end(text).len() as int),
        forall|i: int| trimmed_end(text).len() <= i < text.len() ==> whitespace(#[trigger] text[i]),
        trimmed_end(text).len() > 0 ==> !whitespace(trimmed_end(text).last()),
    decreases text.len(),
{
    if text.len() > 0 && whitespace(text.last()) {
        let rest = text.drop_last();
        lemma_trimmed_end(rest);
        let k = trimmed_end(text).len() as int;
        assert(rest.subrange(0, k) =~= text.subrange(0, k));
        assert forall|i: int| k <= i < text.len() implies whitespace(#[trigger] text[i]) by {
            if i < rest.len() {
                assert(rest[i] == text[i]);
            }
        }
    } else {
        assert(text.subrange(0, text.len() as int) =~= text);
    }
}

proof fn lemma_trimmed_end_of(text: Seq<char>, k: int)
    requires
        0 < k <= text.len(),
        !whitespace(text[k - 1]),
        forall|i: int| k <= i < text.len() ==> whitespace(#[trigger] text[i]),
    ensures
        trimmed_end(text) == text.subrange(0, k),
    decreases text.len(),
{
    if k < text.len() {
        assert(whitespace(text[text.len() - 1]));
        let rest = text.drop_last();
        assert forall|i: int| k <= i < rest.len() implies whitespace(#[trigger] rest[i]) by {
            assert(rest[i] == text[i]);
        }
        lemma_trimmed_end_of(rest, k);
        assert(rest.subrange(0, k) =~= text.subrange(0, k));
    } else {
        assert(text.subrange(0, k) =~= text);
    }
}

proof fn lemma_leading(text: Seq<char>)
    ensures
        0 <= leading(text) <= text.len(),
        forall|i: int| 0 <= i < leading(text) ==> whitespace(#[trigger] text[i]),
        leading(text) < text.len() ==> !whitespace(text[leading(text)]),
    decreases text.len(),
{
    if text.len() > 0 && whitespace(text[0]) {
        let rest = text.drop_first();
        lemma_leading(rest);
        assert forall|i: int| 0 <= i < leading(text) implies whitespace(#[trigger] text[i]) by {
            if i > 0 {
                assert(rest[i - 1] == text[i]);
            }
        }
        if leading(text) < text.len() {
            assert(rest[leading(rest)] == text[leading(text)]);
        }
    }
}

proof fn lemma_trimmed(text: Seq<char>)
    ensures
        ({
            let from = leading(text);
            let to = from + trimmed(text).len();
            &&& 0 <= from <= to <= text.len()
            &&& trimmed(text) == text.subrange(from, to)
            &&& forall|i: int| 0 <= i < from || to <= i < text.len() ==> whitespace(#[trigger] text[i])
            &&& from < to ==> !whitespace(text[from]) && !whitespace(text[to - 1])
        }),
{
    let from = leading(text);
    lemma_leading(text);
    let rest = text.subrange(from, text.len() as int);
    lemma_trimmed_end(rest);
    let to = from + trimmed(text).len();
    assert(rest.subrange(0, trimmed(text).len() as int) =~= text.subrange(from, to));
    assert forall|i: int| 0 <= i < from || to <= i < text.len() implies whitespace(#[trigger] text[i]) by {
        if i >= to {
            assert(rest[i - from] == text[i]);
        }
    }
    if from < to {
        assert(trimmed(text)[0] == text[from]);
        assert(trimmed(text).last() == text[to - 1]);
    }
}

/// Trimming takes away white space at both ends and nothing else.
pub proof fn law_trimming_takes_only_white_space(text: Seq<char>)
    ensures
        exists|from: int, to: int|
            0 <= from <= to <= text.len() && trimmed(text) == #[trigger] text.subrange(from, to) && (forall|i: int|
                0 <= i < from || to <= i < text.len() ==> whitespace(#[trigger] text[i])) && (from < to ==> !whitespace(text[from])
                && !whitespace(text[to - 1])),
{
    lemma_trimmed(text);
    let from = leading(text);
    let to = from + trimmed(text).len();
    assert(trimmed(text) == text.subrange(from, to));
}

proof fn lemma_marker_above(lines: Seq<Seq<char>>, index: int)
    requires
        index <= lines.len(),
    ensures
        match marker_above(lines, index) {
            Some(line) => 1 <= line <= index && marks(lines[line - 1]) && forall|i: int|
                line <= i < index ==> !marks(#[trigger] lines[i]) && (trimmed(lines[i]).len() == 0 || lines[i].len() >= 2
                    && lines[i][0] == ';' && lines[i][1] == ';'),
            None => forall|line: int|
                1 <= line <= index && marks(#[trigger] lines[line - 1]) ==> exists|i: int|
                    line <= i < index && trimmed(#[trigger] lines[i]).len() > 0 && !(lines[i].len() >= 2 && lines[i][0] == ';'
                        && lines[i][1] == ';'),
        },
    decreases index,
{
    reveal_strlit(";;");
    if index > 0 {
        lemma_marker_above(lines, index - 1);
        let line = lines[index - 1];
        assert(crate::text::starts_text(line, ";;"@) <==> line.len() >= 2 && line[0] == ';' && line[1] == ';') by {
            if line.len() >= 2 {
                if line[0] == ';' && line[1] == ';' {
                    assert(line.subrange(0, 2) =~= ";;"@);
                }
                if line.subrange(0, 2) == ";;"@ {
                    assert(line.subrange(0, 2)[0] == line[0]);
                    assert(line.subrange(0, 2)[1] == line[1]);
                }
            }
        }
        if marker_above(lines, index) is None {
            assert forall|at: int| 1 <= at <= index && marks(#[trigger] lines[at - 1]) implies exists|i: int|
                at <= i < index && trimmed(#[trigger] lines[i]).len() > 0 && !(lines[i].len() >= 2 && lines[i][0] == ';'
                    && lines[i][1] == ';') by {
                if trimmed(line).len() == 0 || crate::text::starts_text(line, ";;"@) {
                    let i = choose|i: int|
                        at <= i < index - 1 && trimmed(#[trigger] lines[i]).len() > 0 && !(lines[i].len() >= 2 && lines[i][0]
                            == ';' && lines[i][1] == ';');
                    assert(trimmed(lines[i]).len() > 0);
                } else {
                    assert(trimmed(lines[index - 1]).len() > 0);
                }
            }
        }
    }
}

/// The marker of a definition is the nearest one above it with only comments and
/// blank lines between. Where there is none, other text parts every marker above
/// from the definition.
pub proof fn law_a_marker_belongs_to_the_definition_below_it(lines: Seq<Seq<char>>, definition_line: int)
    requires
        1 <= definition_line <= lines.len() + 1,
    ensures
        match marker_of(lines, definition_line) {
            Some(line) => 1 <= line < definition_line && marks(lines[line - 1]) && forall|i: int|
                line <= i < definition_line - 1 ==> !marks(#[trigger] lines[i]) && (trimmed(lines[i]).len() == 0
                    || lines[i].len() >= 2 && lines[i][0] == ';' && lines[i][1] == ';'),
            None => forall|line: int|
                1 <= line < definition_line && marks(#[trigger] lines[line - 1]) ==> exists|i: int|
                    line <= i < definition_line - 1 && trimmed(#[trigger] lines[i]).len() > 0 && !(lines[i].len() >= 2
                        && lines[i][0] == ';' && lines[i][1] == ';'),
        },
{
    lemma_marker_above(lines, definition_line - 1);
}

/// The first byte is on line 1, and the number grows by one behind every line
/// feed and nowhere else.
pub proof fn law_lines_are_counted_by_line_feeds(source: Seq<char>, offset: usize)
    requires
        offset < vstd::utf8::encode_utf8(source).len(),
        offset < usize::MAX,
    ensures
        line_of(source, 0) == 1,
        line_of(source, (offset + 1) as usize) == line_of(source, offset) + if vstd::utf8::encode_utf8(source)[offset as int] == 10 {
            1nat
        } else {
            0nat
        },
{
    let bytes = vstd::utf8::encode_utf8(source);
    assert(feeds(bytes, 0) == 0);
    assert(feeds(bytes, offset + 1) == feeds(bytes, offset as int) + if bytes[offset as int] == 10 {
        1nat
    } else {
        0nat
    });
}

proof fn lemma_joined_more(lines: Seq<Seq<char>>, line: Seq<char>, from: int)
    requires
        0 <= from <= lines.len(),
        forall|i: int| from <= i < lines.len() ==> trimmed(#[trigger] lines[i]).len() > 0,
    ensures
        trimmed(line).len() == 0 ==> joined(lines.push(line), from) == joined(lines, from),
        trimmed(line).len() > 0 && lines.len() > 0 ==> joined(lines.push(line), from) == joined(lines, from) + (" "@ + trimmed(line)),
        trimmed(line).len() > 0 && lines.len() == 0 ==> joined(lines.push(line), from) == trimmed(line),
    decreases lines.len() - from,
{
    let more = lines.push(line);
    if from < lines.len() {
        lemma_joined_more(lines, line, from + 1);
        assert(more[from] == lines[from]);
        assert(trimmed(lines[from]).len() > 0);
        let rest = joined(lines, from + 1);
        let tail = " "@ + trimmed(line);
        if trimmed(line).len() > 0 {
            if from == 0 {
                assert(trimmed(lines[0]) + (rest + tail) =~= trimmed(lines[0]) + rest + tail);
            } else {
                assert(" "@ + trimmed(lines[from]) + (rest + tail) =~= " "@ + trimmed(lines[from]) + rest + tail);
            }
        }
    } else {
        assert(more[from] == line);
        assert(joined(more, from + 1) =~= Seq::empty());
        assert(joined(lines, from) =~= Seq::empty());
        if trimmed(line).len() > 0 {
            if from == 0 {
                assert(trimmed(line) + Seq::<char>::empty() =~= trimmed(line));
            } else {
                assert(" "@ + trimmed(line) + Seq::<char>::empty() =~= joined(lines, from) + (" "@ + trimmed(line)));
            }
        }
    }
}

/// A summary is put together from the lines of the first paragraph: one more
/// line of it is added trimmed and behind a space, and a blank line ends it.
pub proof fn law_summaries_join_the_first_paragraph(lines: Seq<Seq<char>>, line: Seq<char>, rest: Seq<Seq<char>>)
    requires
        forall|i: int| 0 <= i < lines.len() ==> trimmed(#[trigger] lines[i]).len() > 0,
    ensures
        trimmed(line).len() > 0 && lines.len() > 0 ==> joined(lines.push(line), 0) == joined(lines, 0) + " "@ + trimmed(line),
        trimmed(line).len() > 0 ==> joined(seq![line], 0) == trimmed(line),
        trimmed(line).len() == 0 ==> joined(lines.push(line) + rest, 0) == joined(lines, 0),
{
    lemma_joined_more(lines, line, 0);
    lemma_joined_more(Seq::empty(), line, 0);
    assert(Seq::<Seq<char>>::empty().push(line) =~= seq![line]);
    assert(joined(lines, 0) + (" "@ + trimmed(line)) =~= joined(lines, 0) + " "@ + trimmed(line));
    if trimmed(line).len() == 0 {
        lemma_joined_ends(lines, line, rest, 0);
    }
}

proof fn lemma_joined_ends(lines: Seq<Seq<char>>, line: Seq<char>, rest: Seq<Seq<char>>, from: int)
    requires
        0 <= from <= lines.len(),
        forall|i: int| 0 <= i < lines.len() ==> trimmed(#[trigger] lines[i]).len() > 0,
        trimmed(line).len() == 0,
    ensures
        joined(lines.push(line) + rest, from) == joined(lines, from),
    decreases lines.len() - from,
{
    let all = lines.push(line) + rest;
    if from < lines.len() {
        assert(all[from] == lines[from]);
        lemma_joined_ends(lines, line, rest, from + 1);
    } else {
        assert(all[from] == line);
    }
}

/// A documentation has a summary exactly where its first line is not blank, and
/// a summary of one line is that line, trimmed.
pub proof fn law_summaries_come_from_the_documentation(documentation: Seq<char>)
    ensures
        lines_of(documentation).len() == 0 || trimmed(lines_of(documentation)[0]).len() == 0 ==> summary_of(documentation).len()
            == 0,
        lines_of(documentation).len() > 0 && trimmed(lines_of(documentation)[0]).len() > 0 ==> summary_of(documentation).len() > 0
            && trimmed(lines_of(documentation)[0]).is_prefix_of(summary_of(documentation)),
        summary_of(documentation) == trimmed(joined(lines_of(documentation), 0)),
{
    let lines = lines_of(documentation);
    let whole = joined(lines, 0);
    if lines.len() > 0 && trimmed(lines[0]).len() > 0 {
        let first = trimmed(lines[0]);
        lemma_trimmed(lines[0]);
        assert(whole == first + joined(lines, 1));
        lemma_trimmed(whole);
        let a = leading(lines[0]);
        assert(first[0] == lines[0][a]);
        assert(first.last() == lines[0][a + first.len() - 1]);
        assert(whole[0] == first[0]);
        assert(leading(whole) == 0);
        let to = trimmed(whole).len() as int;
        if to < first.len() {
            assert(whitespace(whole[first.len() - 1]));
            assert(whole[first.len() - 1] == first.last());
        }
        assert(trimmed(whole).subrange(0, first.len() as int) =~= first);
    } else {
        assert(whole =~= Seq::empty());
        lemma_trimmed(whole);
    }
}

/// At least one source and at most 256 are searched.
pub proof fn law_the_number_of_sources_is_bounded(count: nat)
    ensures
        count_refusal(count) is None <==> 1 <= count <= 256,
{
}

/// A source is taken up to a megabyte, and all of them up to sixteen; the sum is
/// kept.
pub proof fn law_sources_are_accounted_for(path: Seq<char>, total: u64, bytes: u64)
    ensures
        accounted(path, total, bytes) is Ok <==> bytes <= 1_048_576 && total + bytes <= 16_777_216,
        accounted(path, total, bytes) is Ok ==> accounted(path, total, bytes)->Ok_0 == total + bytes,
{
}

/// The candidate that is taken is a file, and none before it is. Where none is
/// taken, none is a file.
pub proof fn law_the_first_file_is_taken(candidates: Seq<(String, bool)>, from: int)
    requires
        0 <= from,
    ensures
        match first_file(candidates, from) {
            Some(i) => from <= i < candidates.len() && candidates[i].1 && forall|k: int|
                from <= k < i ==> !(#[trigger] candidates[k]).1,
            None => forall|k: int| from <= k < candidates.len() ==> !(#[trigger] candidates[k]).1,
        },
    decreases candidates.len() - from,
{
    if from < candidates.len() && !candidates[from].1 {
        law_the_first_file_is_taken(candidates, from + 1);
    }
}

/// A source has to be named, on one line, and to be a Scheme file.
pub proof fn law_sources_are_scheme_files(source: Seq<char>, scheme: bool)
    ensures
        source_name_refusal(source, scheme) is None <==> scheme && source.len() > 0 && !super::registration::holds_break(source),
{
}

} // verus!
