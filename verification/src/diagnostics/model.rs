//! The diagnostics of all files.

use vstd::prelude::*;

use crate::text::{chars_of, less_text, optional_text, precedes, same_text};

verus! {

broadcast use vstd::string::group_string_axioms;

#[derive(Clone, Copy, Debug, PartialEq, Eq, Structural)]
pub struct LspPosition {
    pub line: u32,
    pub character: u32,
}

#[derive(Clone, Copy, Debug, PartialEq, Eq, Structural)]
pub struct LspRange {
    pub start: LspPosition,
    pub end: LspPosition,
}

#[derive(Clone, Copy, Debug, PartialEq, Eq, Structural)]
pub enum DiagnosticSeverity {
    Error,
    Warning,
    Information,
    Hint,
    /// A level that the protocol does not name.
    Unknown(i32),
}

#[derive(Debug)]
pub enum DiagnosticCode {
    Number(i32),
    Text(String),
}

/// A diagnostic as language servers publish it.
#[derive(Debug)]
pub struct LspDiagnostic {
    pub range: LspRange,
    pub severity: Option<DiagnosticSeverity>,
    pub code: Option<DiagnosticCode>,
    pub source: Option<String>,
    pub message: String,
}

/// Who publishes a diagnostic.
#[derive(Debug)]
pub enum DiagnosticProvider {
    Lsp { server: String, identifier: Option<String> },
    External { namespace: String },
}

#[derive(Debug)]
pub struct Published {
    pub diagnostic: LspDiagnostic,
    pub provider: DiagnosticProvider,
}

/// The diagnostics of one file.
#[derive(Debug)]
pub struct FileDiagnostics {
    pub uri: String,
    /// Whether the location is a path that can be written as text.
    pub has_path: bool,
    pub items: Vec<Published>,
}

/// The diagnostics of all files, in the order of their paths.
#[derive(Debug)]
pub struct Diagnostics {
    pub files: Vec<FileDiagnostics>,
}

pub enum CodeView {
    Number(i32),
    Text(Seq<char>),
}

/// The contents of an [`LspDiagnostic`].
pub struct LspView {
    pub range: LspRange,
    pub severity: Option<DiagnosticSeverity>,
    pub code: Option<CodeView>,
    pub source: Option<Seq<char>>,
    pub message: Seq<char>,
}

pub enum ProviderView {
    Lsp { server: Seq<char>, identifier: Option<Seq<char>> },
    External { namespace: Seq<char> },
}

pub struct PublishedView {
    pub diagnostic: LspView,
    pub provider: ProviderView,
}

impl View for DiagnosticCode {
    type V = CodeView;

    open spec fn view(&self) -> CodeView {
        match self {
            DiagnosticCode::Number(value) => CodeView::Number(*value),
            DiagnosticCode::Text(value) => CodeView::Text(value@),
        }
    }
}

impl View for LspDiagnostic {
    type V = LspView;

    open spec fn view(&self) -> LspView {
        LspView {
            range: self.range,
            severity: self.severity,
            code: match self.code {
                Some(code) => Some(code@),
                None => None,
            },
            source: optional_text(self.source),
            message: self.message@,
        }
    }
}

impl View for DiagnosticProvider {
    type V = ProviderView;

    open spec fn view(&self) -> ProviderView {
        match self {
            DiagnosticProvider::Lsp { server, identifier } => ProviderView::Lsp {
                server: server@,
                identifier: optional_text(*identifier),
            },
            DiagnosticProvider::External { namespace } => ProviderView::External { namespace: namespace@ },
        }
    }
}

impl View for Published {
    type V = PublishedView;

    open spec fn view(&self) -> PublishedView {
        PublishedView { diagnostic: self.diagnostic@, provider: self.provider@ }
    }
}

pub open spec fn published(items: Seq<Published>) -> Seq<PublishedView> {
    Seq::new(items.len(), |i: int| items[i]@)
}

/// A path in which the separators come before all other characters.
pub open spec fn slash_first(text: Seq<char>) -> Seq<char> {
    Seq::new(
        text.len(),
        |i: int|
            if text[i] == '/' {
                '\0'
            } else {
                text[i]
            },
    )
}

/// Whether a path comes before another one, part by part.
pub open spec fn path_before(a: Seq<char>, b: Seq<char>) -> bool {
    precedes(slash_first(a), slash_first(b)) || slash_first(a) == slash_first(b) && precedes(a, b)
}

pub proof fn lemma_path_order(a: Seq<char>, b: Seq<char>)
    ensures
        a == b || path_before(a, b) || path_before(b, a),
        path_before(a, b) ==> !path_before(b, a) && a != b,
{
    crate::text::lemma_precedes_total(slash_first(a), slash_first(b));
    crate::text::lemma_precedes_total(a, b);
}

pub proof fn lemma_path_order_transitive(a: Seq<char>, b: Seq<char>, c: Seq<char>)
    requires
        path_before(a, b),
        path_before(b, c),
    ensures
        path_before(a, c),
{
    let x = slash_first(a);
    let y = slash_first(b);
    let z = slash_first(c);
    crate::text::lemma_precedes_total(x, y);
    crate::text::lemma_precedes_total(y, z);
    if x == y && y == z {
        crate::text::lemma_precedes_transitive(a, b, c);
    } else if x != y && y != z {
        crate::text::lemma_precedes_transitive(x, y, z);
    }
}

fn with_slash_first(text: &str) -> (out: String)
    ensures
        out@ == slash_first(text@),
{
    let chars = chars_of(text);
    let mut out = String::new();
    let mut i: usize = 0;
    while i < chars.len()
        invariant
            i <= chars@.len(),
            chars@ == text@,
            out@ == slash_first(text@).subrange(0, i as int),
        decreases chars.len() - i,
    {
        out.push(
            if chars[i] == '/' {
                '\0'
            } else {
                chars[i]
            },
        );
        i += 1;
        proof {
            let all = slash_first(text@);
            assert(all.subrange(0, i as int) =~= all.subrange(0, i - 1).push(all[i - 1]));
        }
    }
    proof {
        let all = slash_first(text@);
        assert(all.subrange(0, all.len() as int) =~= all);
    }
    out
}

/// Whether a path comes before another one, part by part.
pub fn is_path_before(a: &str, b: &str) -> (out: bool)
    ensures
        out == path_before(a@, b@),
{
    let x = with_slash_first(a);
    let y = with_slash_first(b);
    less_text(x.as_str(), y.as_str()) || same_text(x.as_str(), y.as_str()) && less_text(a, b)
}

/// The first place of a location at or after `from`.
pub open spec fn find_file(files: Seq<FileDiagnostics>, uri: Seq<char>, from: int) -> Option<int>
    decreases files.len() - from,
{
    if from < 0 || from >= files.len() {
        None
    } else if files[from].uri@ == uri {
        Some(from)
    } else {
        find_file(files, uri, from + 1)
    }
}

proof fn lemma_find_file(files: Seq<FileDiagnostics>, uri: Seq<char>, from: int)
    requires
        0 <= from,
    ensures
        match find_file(files, uri, from) {
            Some(i) => from <= i < files.len() && files[i].uri@ == uri && forall|k: int|
                from <= k < i ==> (#[trigger] files[k]).uri@ != uri,
            None => forall|k: int| from <= k < files.len() ==> (#[trigger] files[k]).uri@ != uri,
        },
    decreases files.len() - from,
{
    if from < files.len() && files[from].uri@ != uri {
        lemma_find_file(files, uri, from + 1);
    }
}

/// The items that some other provider published.
pub open spec fn of_others(items: Seq<PublishedView>, provider: ProviderView) -> Seq<PublishedView>
    decreases items.len(),
{
    if items.len() == 0 {
        Seq::empty()
    } else if items.last().provider != provider {
        of_others(items.drop_last(), provider).push(items.last())
    } else {
        of_others(items.drop_last(), provider)
    }
}

pub open spec fn files_ok(files: Seq<FileDiagnostics>) -> bool {
    &&& forall|i: int, j: int|
        0 <= i < j < files.len() ==> path_before((#[trigger] files[i]).uri@, (#[trigger] files[j]).uri@)
    &&& forall|i: int| 0 <= i < files.len() ==> (#[trigger] files[i]).items@.len() > 0
}

impl Diagnostics {
    /// The files are in order, and each has diagnostics.
    pub open spec fn wf(&self) -> bool {
        files_ok(self.files@)
    }

    /// The diagnostics of a file.
    pub open spec fn at(&self, uri: Seq<char>) -> Seq<PublishedView> {
        match find_file(self.files@, uri, 0) {
            Some(i) => published(self.files@[i].items@),
            None => Seq::empty(),
        }
    }

    /// Whether the location of a file is a path that can be written as text.
    /// That of a file without diagnostics is taken to be one.
    pub open spec fn path_at(&self, uri: Seq<char>) -> bool {
        match find_file(self.files@, uri, 0) {
            Some(i) => self.files@[i].has_path,
            None => true,
        }
    }

    /// Whether a file still has a location of the same kind, where it has
    /// diagnostics of other providers.
    pub open spec fn keeps_path(&self, before: &Diagnostics, provider: ProviderView, uri: Seq<char>) -> bool {
        self.path_at(uri) == (if of_others(before.at(uri), provider).len() > 0 {
            before.path_at(uri)
        } else {
            true
        })
    }

    pub fn new() -> (out: Diagnostics)
        ensures
            out.wf(),
            forall|uri: Seq<char>| (#[trigger] out.at(uri)).len() == 0,
            forall|uri: Seq<char>| #[trigger] out.path_at(uri),
    {
        Diagnostics { files: Vec::new() }
    }
}

fn same_optional(a: &Option<String>, b: &Option<String>) -> (out: bool)
    ensures
        out == (optional_text(*a) == optional_text(*b)),
{
    match (a, b) {
        (Some(x), Some(y)) => same_text(x.as_str(), y.as_str()),
        (None, None) => true,
        _ => false,
    }
}

impl DiagnosticProvider {
    pub fn same(&self, other: &DiagnosticProvider) -> (out: bool)
        ensures
            out == (self@ == other@),
    {
        match (self, other) {
            (
                DiagnosticProvider::Lsp { server, identifier },
                DiagnosticProvider::Lsp { server: other_server, identifier: other_identifier },
            ) => same_text(server.as_str(), other_server.as_str()) && same_optional(identifier, other_identifier),
            (
                DiagnosticProvider::External { namespace },
                DiagnosticProvider::External { namespace: other_namespace },
            ) => same_text(namespace.as_str(), other_namespace.as_str()),
            _ => false,
        }
    }
}

fn keep_others(items: Vec<Published>, provider: &DiagnosticProvider) -> (out: Vec<Published>)
    ensures
        published(out@) == of_others(published(items@), provider@),
{
    let ghost given = items@;
    let ghost all = published(given);
    let mut rest = items;
    let mut out: Vec<Published> = Vec::new();
    let ghost mut n: int = 0;
    proof {
        assert(given.subrange(0, given.len() as int) =~= given);
        assert(all.subrange(0, 0) =~= Seq::<PublishedView>::empty());
        assert(published(out@) =~= Seq::<PublishedView>::empty());
    }
    while rest.len() > 0
        invariant
            given == items@,
            all == published(given),
            0 <= n <= given.len(),
            rest@ == given.subrange(n, given.len() as int),
            published(out@) == of_others(all.subrange(0, n), provider@),
        decreases rest.len(),
    {
        let ghost before = out@;
        let item = rest.remove(0);
        let ghost view = item@;
        proof {
            assert(item == given[n]);
            assert(rest@ =~= given.subrange(n + 1, given.len() as int));
            assert(all.subrange(0, n + 1).drop_last() =~= all.subrange(0, n));
            assert(all.subrange(0, n + 1).last() == view);
            n = n + 1;
        }
        if !item.provider.same(provider) {
            out.push(item);
            proof {
                assert(published(out@) =~= published(before).push(view));
            }
        }
    }
    proof {
        assert(all.subrange(0, n) =~= all);
    }
    out
}

/// Whether the files are the first `n` of the given ones, without the items of
/// a provider and without files that have none left.
spec fn filtered(files: Seq<FileDiagnostics>, given: Seq<FileDiagnostics>, n: int, provider: ProviderView) -> bool {
    &&& files_ok(files)
    &&& forall|i: int| 0 <= i < files.len() ==> exists|k: int| 0 <= k < n && #[trigger] given[k].uri@ == (#[trigger] files[i]).uri@
    &&& forall|k: int|
        0 <= k < n ==> {
            let left = of_others(published((#[trigger] given[k]).items@), provider);
            match find_file(files, given[k].uri@, 0) {
                Some(i) => published(files[i].items@) == left && files[i].has_path == given[k].has_path,
                None => left.len() == 0,
            }
        }
}

impl Diagnostics {
    /// Takes all diagnostics of a provider away.
    pub fn remove_provider(&mut self, provider: &DiagnosticProvider)
        requires
            old(self).wf(),
        ensures
            final(self).wf(),
            forall|uri: Seq<char>| #[trigger] final(self).at(uri) == of_others(old(self).at(uri), provider@),
            forall|uri: Seq<char>| #[trigger] final(self).keeps_path(old(self), provider@, uri),
    {
        let ghost given = self.files@;
        let mut rest: Vec<FileDiagnostics> = Vec::new();
        core::mem::swap(&mut rest, &mut self.files);
        let mut out: Vec<FileDiagnostics> = Vec::new();
        let ghost mut n: int = 0;
        proof {
            assert(given.subrange(0, given.len() as int) =~= given);
        }
        while rest.len() > 0
            invariant
                files_ok(given),
                0 <= n <= given.len(),
                rest@ == given.subrange(n, given.len() as int),
                filtered(out@, given, n, provider@),
            decreases rest.len(),
        {
            let ghost before = out@;
            let file = rest.remove(0);
            proof {
                assert(file == given[n]);
                assert(rest@ =~= given.subrange(n + 1, given.len() as int));
                lemma_find_file(before, file.uri@, 0);
                if find_file(before, file.uri@, 0) is Some {
                    let i = find_file(before, file.uri@, 0)->0;
                    let k = choose|k: int| 0 <= k < n && #[trigger] given[k].uri@ == before[i].uri@;
                    assert(path_before(given[k].uri@, given[n].uri@));
                    lemma_path_order(given[k].uri@, given[n].uri@);
                }
            }
            let FileDiagnostics { uri, has_path, items } = file;
            let ghost name = uri@;
            let ghost given_items = published(items@);
            let items = keep_others(items, provider);
            let ghost left = published(items@);
            if items.len() > 0 {
                out.push(FileDiagnostics { uri, has_path, items });
                proof {
                    let after = out@;
                    assert forall|i: int, j: int| 0 <= i < j < after.len() implies path_before(
                        (#[trigger] after[i]).uri@,
                        (#[trigger] after[j]).uri@,
                    ) by {
                        if j < before.len() {
                            assert(path_before(before[i].uri@, before[j].uri@));
                        } else {
                            let k = choose|k: int| 0 <= k < n && #[trigger] given[k].uri@ == before[i].uri@;
                            assert(path_before(given[k].uri@, given[n].uri@));
                        }
                    }
                    assert forall|i: int| 0 <= i < after.len() implies exists|k: int|
                        0 <= k < n + 1 && #[trigger] given[k].uri@ == (#[trigger] after[i]).uri@ by {
                        if i < before.len() {
                            let k = choose|k: int| 0 <= k < n && #[trigger] given[k].uri@ == before[i].uri@;
                            assert(given[k].uri@ == after[i].uri@);
                        } else {
                            assert(given[n].uri@ == after[i].uri@);
                        }
                    }
                    assert forall|k: int| 0 <= k < n + 1 implies ({
                        let left = of_others(published((#[trigger] given[k]).items@), provider@);
                        match find_file(after, given[k].uri@, 0) {
                            Some(i) => published(after[i].items@) == left && after[i].has_path == given[k].has_path,
                            None => left.len() == 0,
                        }
                    }) by {
                        lemma_find_file(before, given[k].uri@, 0);
                        lemma_find_file(after, given[k].uri@, 0);
                        let a = find_file(before, given[k].uri@, 0);
                        let b = find_file(after, given[k].uri@, 0);
                        if a is Some {
                            assert(after[a->0].uri@ == given[k].uri@);
                        }
                        if k < n {
                            assert(path_before(given[k].uri@, given[n].uri@));
                            lemma_path_order(given[k].uri@, given[n].uri@);
                            if b is Some {
                                assert(b->0 < before.len());
                                assert(before[b->0].uri@ == given[k].uri@);
                            }
                        } else {
                            assert(after[before.len() as int].uri@ == given[n].uri@);
                        }
                    }
                }
            } else {
                proof {
                    assert forall|i: int| 0 <= i < before.len() implies exists|k: int|
                        0 <= k < n + 1 && #[trigger] given[k].uri@ == (#[trigger] before[i]).uri@ by {
                        let k = choose|k: int| 0 <= k < n && #[trigger] given[k].uri@ == before[i].uri@;
                        assert(given[k].uri@ == before[i].uri@);
                    }
                }
            }
            proof {
                n = n + 1;
            }
        }
        self.files = out;
        proof {
            assert forall|uri: Seq<char>| #[trigger] self.at(uri) == of_others(old(self).at(uri), provider@) by {
                lemma_find_file(given, uri, 0);
                lemma_find_file(self.files@, uri, 0);
                if find_file(given, uri, 0) is Some {
                    let k = find_file(given, uri, 0)->0;
                    let left = of_others(published(given[k].items@), provider@);
                    if find_file(self.files@, uri, 0) is None {
                        assert(left =~= Seq::<PublishedView>::empty());
                    }
                } else if find_file(self.files@, uri, 0) is Some {
                    let i = find_file(self.files@, uri, 0)->0;
                    let k = choose|k: int| 0 <= k < n && #[trigger] given[k].uri@ == self.files@[i].uri@;
                    assert(given[k].uri@ == uri);
                }
            }
            assert forall|uri: Seq<char>| #[trigger] self.keeps_path(old(self), provider@, uri) by {
                lemma_find_file(given, uri, 0);
                lemma_find_file(self.files@, uri, 0);
                assert(self.at(uri) == of_others(old(self).at(uri), provider@));
                if find_file(self.files@, uri, 0) is Some {
                    let i = find_file(self.files@, uri, 0)->0;
                    let k = choose|k: int| 0 <= k < n && #[trigger] given[k].uri@ == self.files@[i].uri@;
                    assert(given[k].uri@ == uri);
                    let found = find_file(given, uri, 0)->0;
                    assert(given[found].uri@ == uri);
                    assert(self.files@[i].items@.len() > 0);
                    assert(self.at(uri).len() > 0);
                }
            }
        }
    }

    /// Adds a diagnostic to those of a file.
    pub fn add_item(&mut self, uri: String, item: Published)
        requires
            old(self).wf(),
        ensures
            final(self).wf(),
            final(self).at(uri@) == old(self).at(uri@).push(item@),
            forall|other: Seq<char>| other != uri@ ==> #[trigger] final(self).at(other) == old(self).at(other),
            forall|other: Seq<char>| #[trigger] final(self).path_at(other) == old(self).path_at(other),
    {
        let ghost before = self.files@;
        let ghost name = uri@;
        let ghost view = item@;
        let mut i: usize = 0;
        while i < self.files.len() && is_path_before(self.files[i].uri.as_str(), uri.as_str())
            invariant
                before == self.files@,
                self.files == old(self).files,
                i <= self.files@.len(),
                forall|k: int| 0 <= k < i ==> path_before((#[trigger] before[k]).uri@, uri@),
            decreases self.files.len() - i,
        {
            i += 1;
        }
        proof {
            assert forall|k: int| 0 <= k < i implies (#[trigger] before[k]).uri@ != name by {
                lemma_path_order(before[k].uri@, name);
            }
        }
        if i < self.files.len() && same_text(self.files[i].uri.as_str(), uri.as_str()) {
            let ghost items = before[i as int].items@;
            self.files[i].items.push(item);
            proof {
                let after = self.files@;
                assert(published(after[i as int].items@) =~= published(items).push(view));
                assert forall|other: Seq<char>| true implies find_file(after, other, 0) == #[trigger] find_file(
                    before,
                    other,
                    0,
                ) by {
                    lemma_find_file(before, other, 0);
                    lemma_find_file(after, other, 0);
                    let a = find_file(before, other, 0);
                    let b = find_file(after, other, 0);
                    if a is Some {
                        assert(after[a->0].uri@ == before[a->0].uri@);
                    }
                    if b is Some {
                        assert(after[b->0].uri@ == before[b->0].uri@);
                    }
                }
                lemma_find_file(before, name, 0);
                assert(find_file(before, name, 0) == Some(i as int)) by {
                    let a = find_file(before, name, 0);
                    if a is Some && a->0 > i {
                        assert(before[i as int].uri@ != name);
                    }
                }
                assert(find_file(after, name, 0) == find_file(before, name, 0));
                assert forall|other: Seq<char>| other != name implies #[trigger] self.at(other) == old(self).at(other) by {
                    assert(find_file(after, other, 0) == find_file(before, other, 0));
                    lemma_find_file(before, other, 0);
                }
                assert forall|other: Seq<char>| #[trigger] self.path_at(other) == old(self).path_at(other) by {
                    assert(find_file(after, other, 0) == find_file(before, other, 0));
                    lemma_find_file(before, other, 0);
                }
            }
        } else {
            let mut items: Vec<Published> = Vec::new();
            items.push(item);
            proof {
                assert(published(items@) =~= seq![view]);
            }
            let file = FileDiagnostics { uri, has_path: true, items };
            let ghost inserted = file;
            self.files.insert(i, file);
            proof {
                let after = self.files@;
                assert(after =~= before.insert(i as int, inserted));
                assert forall|k: int| i <= k < before.len() implies path_before(name, (#[trigger] before[k]).uri@) by {
                    lemma_path_order(before[i as int].uri@, name);
                    if k > i {
                        assert(path_before(before[i as int].uri@, before[k].uri@));
                        lemma_path_order_transitive(name, before[i as int].uri@, before[k].uri@);
                    }
                }
                assert forall|a: int, b: int| 0 <= a < b < after.len() implies path_before(
                    (#[trigger] after[a]).uri@,
                    (#[trigger] after[b]).uri@,
                ) by {
                    let x = if a < i {
                        a
                    } else {
                        a - 1
                    };
                    let y = if b < i {
                        b
                    } else {
                        b - 1
                    };
                    if a != i && b != i {
                        assert(after[a] == before[x] && after[b] == before[y]);
                        assert(path_before(before[x].uri@, before[y].uri@));
                    } else if a == i {
                        assert(after[b] == before[y]);
                    } else {
                        assert(after[a] == before[x]);
                    }
                }
                assert forall|a: int| 0 <= a < after.len() implies (#[trigger] after[a]).items@.len() > 0 by {
                    if a != i {
                        let x = if a < i {
                            a
                        } else {
                            a - 1
                        };
                        assert(after[a] == before[x]);
                        assert(before[x].items@.len() > 0);
                    }
                }
                assert forall|k: int| 0 <= k < before.len() implies (#[trigger] before[k]).uri@ != name by {
                    if k >= i {
                        lemma_path_order(name, before[k].uri@);
                    }
                }
                lemma_find_file(before, name, 0);
                lemma_find_file(after, name, 0);
                assert(after[i as int].uri@ == name);
                assert(find_file(after, name, 0) == Some(i as int)) by {
                    let a = find_file(after, name, 0)->0;
                    if a < i {
                        assert(after[a] == before[a]);
                    }
                }
                assert(self.at(name) =~= old(self).at(name).push(view));
                assert forall|other: Seq<char>| other != name implies #[trigger] self.at(other) == old(self).at(other)
                    && self.path_at(other) == old(self).path_at(other) by {
                    lemma_find_file(before, other, 0);
                    lemma_find_file(after, other, 0);
                    let a = find_file(before, other, 0);
                    let b = find_file(after, other, 0);
                    if a is Some {
                        let x = a->0;
                        let y = if x < i {
                            x
                        } else {
                            x + 1
                        };
                        assert(after[y] == before[x]);
                        if b is Some && b->0 < y {
                            let z = b->0;
                            let from = if z < i {
                                z
                            } else {
                                z - 1
                            };
                            assert(after[z] == before[from]);
                        }
                    }
                    if b is Some {
                        let z = b->0;
                        let from = if z < i {
                            z
                        } else {
                            z - 1
                        };
                        assert(z != i);
                        assert(after[z] == before[from]);
                    }
                }
                assert forall|other: Seq<char>| #[trigger] self.path_at(other) == old(self).path_at(other) by {
                    if other != name {
                        assert(self.at(other) == old(self).at(other));
                    }
                }
            }
        }
    }
}

} // verus!
