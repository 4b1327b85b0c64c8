//! Snapshots of all diagnostics.

use vstd::prelude::*;

use super::model::{
    published, CodeView, DiagnosticCode, DiagnosticProvider, DiagnosticSeverity, Diagnostics, FileDiagnostics,
    LspRange, ProviderView, Published, PublishedView,
};
use crate::text::{decimal, decimal_text, optional_text, same_text};

verus! {

broadcast use vstd::string::group_string_axioms;

#[derive(Clone, Copy, Debug, PartialEq, Eq, Structural)]
pub enum OffsetEncoding {
    Utf8,
    Utf16,
    Utf32,
}

/// A language server that runs, and how it counts characters.
#[derive(Debug)]
pub struct RunningServer {
    pub id: String,
    pub offset_encoding: OffsetEncoding,
}

/// A diagnostic at some time.
#[derive(Debug)]
pub struct DiagnosticSnapshot {
    pub path: String,
    pub range: LspRange,
    pub offset_encoding: OffsetEncoding,
    pub severity: &'static str,
    pub message: String,
    pub code: Option<String>,
    pub source: Option<String>,
    pub provider_kind: &'static str,
    pub provider_id: String,
    pub provider_namespace: Option<String>,
}

/// The contents of a [`DiagnosticSnapshot`].
pub struct SnapshotView {
    pub path: Seq<char>,
    pub range: LspRange,
    pub offset_encoding: OffsetEncoding,
    pub severity: Seq<char>,
    pub message: Seq<char>,
    pub code: Option<Seq<char>>,
    pub source: Option<Seq<char>>,
    pub provider_kind: Seq<char>,
    pub provider_id: Seq<char>,
    pub provider_namespace: Option<Seq<char>>,
}

impl View for DiagnosticSnapshot {
    type V = SnapshotView;

    open spec fn view(&self) -> SnapshotView {
        SnapshotView {
            path: self.path@,
            range: self.range,
            offset_encoding: self.offset_encoding,
            severity: self.severity@,
            message: self.message@,
            code: optional_text(self.code),
            source: optional_text(self.source),
            provider_kind: self.provider_kind@,
            provider_id: self.provider_id@,
            provider_namespace: optional_text(self.provider_namespace),
        }
    }
}

pub open spec fn snapshots(items: Seq<DiagnosticSnapshot>) -> Seq<SnapshotView> {
    Seq::new(items.len(), |i: int| items[i]@)
}

/// The diagnostics at some time, and how many were left out.
#[derive(Debug)]
pub struct DiagnosticBatch {
    pub items: Vec<DiagnosticSnapshot>,
    pub omitted: usize,
}

/// The name of a severity; one that is missing or unknown is a warning.
pub open spec fn severity_name(value: Option<DiagnosticSeverity>) -> Seq<char> {
    match value {
        Some(DiagnosticSeverity::Error) => "error"@,
        Some(DiagnosticSeverity::Information) => "info"@,
        Some(DiagnosticSeverity::Hint) => "hint"@,
        _ => "warning"@,
    }
}

/// The name of a severity; one that is missing or unknown is a warning.
pub fn severity(value: Option<DiagnosticSeverity>) -> (out: &'static str)
    ensures
        out@ == severity_name(value),
{
    match value {
        Some(DiagnosticSeverity::Error) => "error",
        Some(DiagnosticSeverity::Information) => "info",
        Some(DiagnosticSeverity::Hint) => "hint",
        _ => "warning",
    }
}

/// A whole number in decimal notation.
pub open spec fn number_text(value: int) -> Seq<char> {
    if value < 0 {
        "-"@ + decimal_text((-value) as nat)
    } else {
        decimal_text(value as nat)
    }
}

/// A code as text.
pub open spec fn code_text(value: Option<CodeView>) -> Option<Seq<char>> {
    match value {
        Some(CodeView::Number(value)) => Some(number_text(value as int)),
        Some(CodeView::Text(value)) => Some(value),
        None => None,
    }
}

/// A code as text.
pub fn code(value: &Option<DiagnosticCode>) -> (out: Option<String>)
    ensures
        optional_text(out) == code_text(
            match *value {
                Some(code) => Some(code@),
                None => None,
            },
        ),
{
    match value {
        Some(DiagnosticCode::Number(value)) => {
            let wide: i64 = *value as i64;
            if wide < 0 {
                Some("-".to_owned().concat(decimal((-wide) as u64).as_str()))
            } else {
                Some(decimal(wide as u64))
            }
        },
        Some(DiagnosticCode::Text(value)) => Some(value.clone()),
        None => None,
    }
}

/// How a server counts characters, if it runs.
pub open spec fn encoding_of(servers: Seq<RunningServer>, id: Seq<char>, from: int) -> Option<OffsetEncoding>
    decreases servers.len() - from,
{
    if from < 0 || from >= servers.len() {
        None
    } else if servers[from].id@ == id {
        Some(servers[from].offset_encoding)
    } else {
        encoding_of(servers, id, from + 1)
    }
}

fn find_encoding(servers: &Vec<RunningServer>, id: &str) -> (out: Option<OffsetEncoding>)
    ensures
        out == encoding_of(servers@, id@, 0),
{
    let mut i: usize = 0;
    while i < servers.len()
        invariant
            i <= servers@.len(),
            encoding_of(servers@, id@, 0) == encoding_of(servers@, id@, i as int),
        decreases servers.len() - i,
    {
        if same_text(servers[i].id.as_str(), id) {
            return Some(servers[i].offset_encoding);
        }
        i += 1;
    }
    None
}

/// The snapshot of a diagnostic; none where its server does not run any more.
pub open spec fn snapshot_of(path: Seq<char>, item: PublishedView, servers: Seq<RunningServer>) -> Option<SnapshotView> {
    let diagnostic = item.diagnostic;
    match item.provider {
        ProviderView::External { namespace } => Some(
            SnapshotView {
                path,
                range: diagnostic.range,
                offset_encoding: OffsetEncoding::Utf8,
                severity: severity_name(diagnostic.severity),
                message: diagnostic.message,
                code: code_text(diagnostic.code),
                source: diagnostic.source,
                provider_kind: "external"@,
                provider_id: namespace,
                provider_namespace: Some(namespace),
            },
        ),
        ProviderView::Lsp { server, identifier } => match encoding_of(servers, server, 0) {
            Some(offset_encoding) => Some(
                SnapshotView {
                    path,
                    range: diagnostic.range,
                    offset_encoding,
                    severity: severity_name(diagnostic.severity),
                    message: diagnostic.message,
                    code: code_text(diagnostic.code),
                    source: diagnostic.source,
                    provider_kind: "lsp"@,
                    provider_id: match identifier {
                        Some(identifier) => server + ":"@ + identifier,
                        None => server,
                    },
                    provider_namespace: identifier,
                },
            ),
            None => None,
        },
    }
}

fn copy_optional(text: &Option<String>) -> (out: Option<String>)
    ensures
        optional_text(out) == optional_text(*text),
{
    match text {
        Some(text) => Some(text.clone()),
        None => None,
    }
}

fn take(path: &str, item: &Published, servers: &Vec<RunningServer>) -> (out: Option<DiagnosticSnapshot>)
    ensures
        (match out {
            Some(snapshot) => Some(snapshot@),
            None => None,
        }) == snapshot_of(path@, item@, servers@),
{
    let (offset_encoding, provider_kind, provider_id, provider_namespace) = match &item.provider {
        DiagnosticProvider::External { namespace } => (
            OffsetEncoding::Utf8,
            "external",
            namespace.clone(),
            Some(namespace.clone()),
        ),
        DiagnosticProvider::Lsp { server, identifier } => {
            let encoding = match find_encoding(servers, server.as_str()) {
                Some(encoding) => encoding,
                None => {
                    return None;
                },
            };
            let id = match identifier {
                Some(identifier) => server.clone().concat(":").concat(identifier.as_str()),
                None => server.clone(),
            };
            (encoding, "lsp", id, copy_optional(identifier))
        },
    };
    Some(
        DiagnosticSnapshot {
            path: path.to_owned(),
            range: item.diagnostic.range,
            offset_encoding,
            severity: severity(item.diagnostic.severity),
            message: item.diagnostic.message.clone(),
            code: code(&item.diagnostic.code),
            source: copy_optional(&item.diagnostic.source),
            provider_kind,
            provider_id,
            provider_namespace,
        },
    )
}

/// The snapshots of the first `n` diagnostics of a file.
pub open spec fn file_snapshots(path: Seq<char>, items: Seq<PublishedView>, servers: Seq<RunningServer>, n: int) -> Seq<
    SnapshotView,
>
    decreases n,
{
    if n <= 0 {
        Seq::empty()
    } else {
        let before = file_snapshots(path, items, servers, n - 1);
        match snapshot_of(path, items[n - 1], servers) {
            Some(snapshot) => before.push(snapshot),
            None => before,
        }
    }
}

/// How many of the first `n` diagnostics of a file are left out.
pub open spec fn file_omitted(path: Seq<char>, items: Seq<PublishedView>, servers: Seq<RunningServer>, n: int) -> nat
    decreases n,
{
    if n <= 0 {
        0
    } else {
        file_omitted(path, items, servers, n - 1) + if snapshot_of(path, items[n - 1], servers) is None {
            1nat
        } else {
            0nat
        }
    }
}

/// The snapshots of the first `n` files. A file without a path that can be
/// written as text has none.
pub open spec fn all_snapshots(files: Seq<FileDiagnostics>, servers: Seq<RunningServer>, n: int) -> Seq<SnapshotView>
    decreases n,
{
    if n <= 0 {
        Seq::empty()
    } else {
        let file = files[n - 1];
        let before = all_snapshots(files, servers, n - 1);
        if file.has_path {
            before + file_snapshots(file.uri@, published(file.items@), servers, file.items@.len() as int)
        } else {
            before
        }
    }
}

/// How many diagnostics of the first `n` files are left out.
pub open spec fn all_omitted(files: Seq<FileDiagnostics>, servers: Seq<RunningServer>, n: int) -> nat
    decreases n,
{
    if n <= 0 {
        0
    } else {
        let file = files[n - 1];
        all_omitted(files, servers, n - 1) + if file.has_path {
            file_omitted(file.uri@, published(file.items@), servers, file.items@.len() as int)
        } else {
            file.items@.len()
        }
    }
}

pub open spec fn at_most_max(count: nat) -> usize {
    if count > usize::MAX {
        usize::MAX
    } else {
        count as usize
    }
}

/// All diagnostics, in the order of their files.
pub fn snapshot(diagnostics: &Diagnostics, servers: &Vec<RunningServer>) -> (out: DiagnosticBatch)
    ensures
        snapshots(out.items@) == all_snapshots(diagnostics.files@, servers@, diagnostics.files@.len() as int),
        out.omitted == at_most_max(all_omitted(diagnostics.files@, servers@, diagnostics.files@.len() as int)),
{
    let mut items: Vec<DiagnosticSnapshot> = Vec::new();
    let mut omitted: usize = 0;
    let mut i: usize = 0;
    proof {
        assert(snapshots(items@) =~= Seq::<SnapshotView>::empty());
    }
    while i < diagnostics.files.len()
        invariant
            i <= diagnostics.files@.len(),
            snapshots(items@) == all_snapshots(diagnostics.files@, servers@, i as int),
            omitted == at_most_max(all_omitted(diagnostics.files@, servers@, i as int)),
        decreases diagnostics.files.len() - i,
    {
        let file = &diagnostics.files[i];
        if !file.has_path {
            omitted = omitted.saturating_add(file.items.len());
        } else {
            let ghost before = snapshots(items@);
            let ghost count = all_omitted(diagnostics.files@, servers@, i as int);
            let ghost all = published(file.items@);
            let mut k: usize = 0;
            proof {
                assert(before + Seq::<SnapshotView>::empty() =~= before);
            }
            while k < file.items.len()
                invariant
                    k <= file.items@.len(),
                    all == published(file.items@),
                    snapshots(items@) == before + file_snapshots(file.uri@, all, servers@, k as int),
                    omitted == at_most_max(count + file_omitted(file.uri@, all, servers@, k as int)),
                decreases file.items.len() - k,
            {
                let ghost taken = items@;
                proof {
                    assert(all[k as int] == file.items@[k as int]@);
                }
                match take(file.uri.as_str(), &file.items[k], servers) {
                    Some(snapshot) => {
                        let ghost view = snapshot@;
                        items.push(snapshot);
                        proof {
                            assert(snapshots(items@) =~= snapshots(taken).push(view));
                            assert((before + file_snapshots(file.uri@, all, servers@, k as int)).push(view) =~= before
                                + file_snapshots(file.uri@, all, servers@, k as int).push(view));
                        }
                    },
                    None => {
                        omitted = omitted.saturating_add(1);
                    },
                }
                k += 1;
            }
        }
        i += 1;
    }
    DiagnosticBatch { items, omitted }
}

proof fn lemma_file_accounted(path: Seq<char>, items: Seq<PublishedView>, servers: Seq<RunningServer>, n: int)
    requires
        0 <= n <= items.len(),
    ensures
        file_snapshots(path, items, servers, n).len() + file_omitted(path, items, servers, n) == n,
    decreases n,
{
    if n > 0 {
        lemma_file_accounted(path, items, servers, n - 1);
    }
}

/// How many diagnostics the first `n` files have.
pub open spec fn all_items(files: Seq<FileDiagnostics>, n: int) -> nat
    decreases n,
{
    if n <= 0 {
        0
    } else {
        all_items(files, n - 1) + files[n - 1].items@.len()
    }
}

proof fn lemma_files_accounted(files: Seq<FileDiagnostics>, servers: Seq<RunningServer>, n: int)
    requires
        0 <= n <= files.len(),
    ensures
        all_snapshots(files, servers, n).len() + all_omitted(files, servers, n) == all_items(files, n),
    decreases n,
{
    if n > 0 {
        lemma_files_accounted(files, servers, n - 1);
        let file = files[n - 1];
        lemma_file_accounted(file.uri@, published(file.items@), servers, file.items@.len() as int);
    }
}

/// Every diagnostic of every file is in the batch or counted as left out. The
/// count stops at the largest number that it can hold.
pub proof fn law_snapshots_account_for_all(files: Seq<FileDiagnostics>, servers: Seq<RunningServer>, batch: DiagnosticBatch)
    requires
        snapshots(batch.items@) == all_snapshots(files, servers, files.len() as int),
        batch.omitted == at_most_max(all_omitted(files, servers, files.len() as int)),
    ensures
        batch.omitted < usize::MAX ==> batch.items@.len() + batch.omitted == all_items(files, files.len() as int),
        batch.items@.len() + batch.omitted <= all_items(files, files.len() as int),
{
    lemma_files_accounted(files, servers, files.len() as int);
    assert(snapshots(batch.items@).len() == batch.items@.len());
}

impl DiagnosticSnapshot {
    /// The first line, counted from 1.
    pub fn start_line(&self) -> (out: u64)
        ensures
            out == self.range.start.line + 1,
    {
        self.range.start.line as u64 + 1
    }

    /// The first column, counted from 1.
    pub fn start_column(&self) -> (out: u64)
        ensures
            out == self.range.start.character + 1,
    {
        self.range.start.character as u64 + 1
    }

    /// The last line, counted from 1.
    pub fn end_line(&self) -> (out: u64)
        ensures
            out == self.range.end.line + 1,
    {
        self.range.end.line as u64 + 1
    }

    /// The last column, counted from 1.
    pub fn end_column(&self) -> (out: u64)
        ensures
            out == self.range.end.character + 1,
    {
        self.range.end.character as u64 + 1
    }
}

/// A snapshot carries what its diagnostic says, whoever provided it: the path of
/// the file, the range, the message, the source, the code, and the name of the
/// severity. Only a diagnostic of a server that does not run has none.
pub proof fn law_snapshots_carry_their_diagnostics(path: Seq<char>, item: PublishedView, servers: Seq<RunningServer>)
    ensures
        snapshot_of(path, item, servers) is None <==> (item.provider matches ProviderView::Lsp { server, .. } && forall|i: int|
            0 <= i < servers.len() ==> (#[trigger] servers[i]).id@ != server),
        snapshot_of(path, item, servers) matches Some(snapshot) ==> {
            let diagnostic = item.diagnostic;
            &&& snapshot.path == path
            &&& snapshot.range == diagnostic.range
            &&& snapshot.message == diagnostic.message
            &&& snapshot.source == diagnostic.source
            &&& diagnostic.severity == Some(DiagnosticSeverity::Error) <==> snapshot.severity == "error"@
            &&& diagnostic.severity == Some(DiagnosticSeverity::Information) <==> snapshot.severity == "info"@
            &&& diagnostic.severity == Some(DiagnosticSeverity::Hint) <==> snapshot.severity == "hint"@
            &&& snapshot.severity == "error"@ || snapshot.severity == "warning"@ || snapshot.severity == "info"@
                || snapshot.severity == "hint"@
            &&& diagnostic.code is None <==> snapshot.code is None
            &&& diagnostic.code matches Some(CodeView::Text(text)) ==> snapshot.code == Some(text)
            &&& diagnostic.code matches Some(CodeView::Number(number)) ==> (number >= 0 ==> snapshot.code == Some(
                decimal_text(number as nat),
            )) && (number < 0 ==> snapshot.code == Some(seq!['-'] + decimal_text((-number) as nat)))
        },
{
    if let ProviderView::Lsp { server, .. } = item.provider {
        lemma_encoding(servers, server, 0);
    }
    reveal_strlit("error");
    reveal_strlit("warning");
    reveal_strlit("info");
    reveal_strlit("hint");
    reveal_strlit("-");
    assert("error"@.len() == 5 && "warning"@.len() == 7 && "info"@.len() == 4 && "hint"@.len() == 4);
    assert("info"@[0] != "hint"@[0]);
    assert("-"@ =~= seq!['-']);
}

proof fn lemma_encoding(servers: Seq<RunningServer>, id: Seq<char>, from: int)
    requires
        0 <= from,
    ensures
        match encoding_of(servers, id, from) {
            Some(encoding) => exists|i: int|
                from <= i < servers.len() && (#[trigger] servers[i]).id@ == id && servers[i].offset_encoding == encoding && forall|
                    k: int,
                |
                    from <= k < i ==> (#[trigger] servers[k]).id@ != id,
            None => forall|i: int| from <= i < servers.len() ==> (#[trigger] servers[i]).id@ != id,
        },
    decreases servers.len() - from,
{
    if from < servers.len() {
        if servers[from].id@ == id {
            assert(servers[from].id@ == id);
        } else {
            lemma_encoding(servers, id, from + 1);
            if encoding_of(servers, id, from) is Some {
                let i = choose|i: int|
                    from + 1 <= i < servers.len() && (#[trigger] servers[i]).id@ == id && servers[i].offset_encoding
                        == encoding_of(servers, id, from)->0 && forall|k: int|
                        from + 1 <= k < i ==> (#[trigger] servers[k]).id@ != id;
                assert(servers[i].id@ == id);
            }
        }
    }
}

/// Diagnostics that differ only in who provided them have snapshots that differ
/// only in the provider and in how it counts characters.
pub proof fn law_providers_change_only_their_own_fields(
    path: Seq<char>,
    item: PublishedView,
    other: PublishedView,
    servers: Seq<RunningServer>,
)
    requires
        item.diagnostic == other.diagnostic,
        snapshot_of(path, item, servers) is Some,
        snapshot_of(path, other, servers) is Some,
    ensures
        ({
            let a = snapshot_of(path, item, servers)->0;
            let b = snapshot_of(path, other, servers)->0;
            b == SnapshotView {
                offset_encoding: b.offset_encoding,
                provider_kind: b.provider_kind,
                provider_id: b.provider_id,
                provider_namespace: b.provider_namespace,
                ..a
            }
        }),
{
}

/// A snapshot names its provider: a plugin by its namespace, which counts in
/// bytes, and a server by its own id, with its identifier behind a colon, and it
/// counts as the server does.
pub proof fn law_snapshots_name_their_providers(path: Seq<char>, item: PublishedView, servers: Seq<RunningServer>)
    requires
        snapshot_of(path, item, servers) is Some,
    ensures
        ({
            let snapshot = snapshot_of(path, item, servers)->0;
            match item.provider {
                ProviderView::External { namespace } => {
                    &&& snapshot.provider_kind == "external"@
                    &&& snapshot.provider_id == namespace
                    &&& snapshot.provider_namespace == Some(namespace)
                    &&& snapshot.offset_encoding == OffsetEncoding::Utf8
                },
                ProviderView::Lsp { server, identifier } => {
                    &&& snapshot.provider_kind == "lsp"@
                    &&& snapshot.provider_namespace == identifier
                    &&& identifier is None ==> snapshot.provider_id == server
                    &&& identifier matches Some(identifier) ==> snapshot.provider_id == server + seq![':'] + identifier
                    &&& exists|i: int|
                        0 <= i < servers.len() && (#[trigger] servers[i]).id@ == server && servers[i].offset_encoding
                            == snapshot.offset_encoding
                },
            }
        }),
{
    reveal_strlit(":");
    assert(":"@ =~= seq![':']);
    if let ProviderView::Lsp { server, .. } = item.provider {
        lemma_encoding(servers, server, 0);
    }
}

/// Whether the diagnostic at `k` of the file at `f` is to be shown as this.
pub open spec fn shown_as(files: Seq<FileDiagnostics>, servers: Seq<RunningServer>, f: int, k: int, view: SnapshotView) -> bool {
    &&& 0 <= f < files.len()
    &&& files[f].has_path
    &&& 0 <= k < files[f].items@.len()
    &&& snapshot_of(files[f].uri@, files[f].items@[k]@, servers) == Some(view)
}

proof fn lemma_file_snapshots(path: Seq<char>, items: Seq<PublishedView>, servers: Seq<RunningServer>, n: int, view: SnapshotView)
    requires
        0 <= n <= items.len(),
    ensures
        file_snapshots(path, items, servers, n).contains(view) <==> exists|k: int|
            0 <= k < n && snapshot_of(path, #[trigger] items[k], servers) == Some(view),
    decreases n,
{
    if n > 0 {
        lemma_file_snapshots(path, items, servers, n - 1, view);
        let before = file_snapshots(path, items, servers, n - 1);
        let all = file_snapshots(path, items, servers, n);
        if before.contains(view) {
            let i = choose|i: int| 0 <= i < before.len() && before[i] == view;
            assert(all[i] == view);
        }
        if all.contains(view) && !before.contains(view) {
            let i = choose|i: int| 0 <= i < all.len() && all[i] == view;
            if i < before.len() {
                assert(before[i] == view);
            }
            assert(snapshot_of(path, items[n - 1], servers) == Some(view));
        }
        if snapshot_of(path, items[n - 1], servers) == Some(view) {
            assert(all[before.len() as int] == view);
        }
        if exists|k: int| 0 <= k < n && snapshot_of(path, #[trigger] items[k], servers) == Some(view) {
            let k = choose|k: int| 0 <= k < n && snapshot_of(path, #[trigger] items[k], servers) == Some(view);
            if k < n - 1 {
                assert(snapshot_of(path, items[k], servers) == Some(view));
            }
        }
    }
}

proof fn lemma_all_snapshots(files: Seq<FileDiagnostics>, servers: Seq<RunningServer>, n: int, view: SnapshotView)
    requires
        0 <= n <= files.len(),
    ensures
        all_snapshots(files, servers, n).contains(view) <==> exists|f: int, k: int|
            f < n && #[trigger] shown_as(files, servers, f, k, view),
    decreases n,
{
    if n > 0 {
        lemma_all_snapshots(files, servers, n - 1, view);
        let before = all_snapshots(files, servers, n - 1);
        let all = all_snapshots(files, servers, n);
        let file = files[n - 1];
        let items = published(file.items@);
        let own = file_snapshots(file.uri@, items, servers, items.len() as int);
        lemma_file_snapshots(file.uri@, items, servers, items.len() as int, view);
        if before.contains(view) {
            let i = choose|i: int| 0 <= i < before.len() && before[i] == view;
            assert(all[i] == view);
            let (f, k) = choose|f: int, k: int| f < n - 1 && #[trigger] shown_as(files, servers, f, k, view);
            assert(shown_as(files, servers, f, k, view));
        }
        if all.contains(view) && !before.contains(view) {
            let i = choose|i: int| 0 <= i < all.len() && all[i] == view;
            if i < before.len() {
                assert(before[i] == view);
            }
            assert(own[i - before.len()] == view);
            let k = choose|k: int| 0 <= k < items.len() && snapshot_of(file.uri@, #[trigger] items[k], servers) == Some(view);
            assert(items[k] == file.items@[k]@);
            assert(shown_as(files, servers, n - 1, k, view));
        }
        if exists|f: int, k: int| f < n && #[trigger] shown_as(files, servers, f, k, view) {
            let (f, k) = choose|f: int, k: int| f < n && #[trigger] shown_as(files, servers, f, k, view);
            if f < n - 1 {
                assert(shown_as(files, servers, f, k, view));
            } else {
                assert(items[k] == file.items@[k]@);
                assert(snapshot_of(file.uri@, items[k], servers) == Some(view));
                let i = choose|i: int| 0 <= i < own.len() && own[i] == view;
                assert(all[before.len() + i] == view);
            }
        }
    }
}

/// A batch holds exactly the snapshots of the diagnostics of all files that have
/// a path.
pub proof fn law_a_batch_holds_every_snapshot(
    files: Seq<FileDiagnostics>,
    servers: Seq<RunningServer>,
    batch: DiagnosticBatch,
    view: SnapshotView,
)
    requires
        snapshots(batch.items@) == all_snapshots(files, servers, files.len() as int),
    ensures
        snapshots(batch.items@).contains(view) <==> exists|f: int, k: int| #[trigger] shown_as(files, servers, f, k, view),
{
    lemma_all_snapshots(files, servers, files.len() as int, view);
    if exists|f: int, k: int| #[trigger] shown_as(files, servers, f, k, view) {
        let (f, k) = choose|f: int, k: int| #[trigger] shown_as(files, servers, f, k, view);
        assert(f < files.len() && shown_as(files, servers, f, k, view));
    }
}

} // verus!
