//! Diagnostics that extensions publish.

use vstd::prelude::*;

use super::model::{
    of_others, CodeView, DiagnosticCode, DiagnosticProvider, DiagnosticSeverity, Diagnostics, LspDiagnostic, LspPosition,
    LspRange, LspView, ProviderView, Published, PublishedView,
};
use crate::file_snapshot::{blank, is_blank};
use crate::text::{optional_text, same_text};

verus! {

broadcast use vstd::string::group_string_axioms;

#[derive(Clone, Copy, Debug, PartialEq, Eq, Structural)]
pub enum Severity {
    Hint,
    Info,
    Warning,
    Error,
}

/// A one-based diagnostic location published by an editor extension.
#[derive(Debug)]
pub struct ExternalDiagnostic {
    /// The canonical path of the file.
    pub path: String,
    pub start_line: usize,
    pub start_column: usize,
    pub end_line: usize,
    pub end_column: usize,
    pub severity: Severity,
    pub message: String,
    pub code: Option<String>,
    pub source: Option<String>,
}

/// Why diagnostics are refused.
#[derive(Clone, Copy, Debug, PartialEq, Eq, Structural)]
pub enum DiagnosticError {
    UnknownSeverity,
    EmptyNamespace,
    ZeroPosition,
    ReversedRange,
    PositionTooLarge,
}

impl DiagnosticError {
    /// What the user is told.
    pub open spec fn text(self) -> Seq<char> {
        match self {
            DiagnosticError::UnknownSeverity => "diagnostic severity must be hint, info, warning, or error"@,
            DiagnosticError::EmptyNamespace => "external diagnostic namespace cannot be empty"@,
            DiagnosticError::ZeroPosition => "external diagnostic positions are one-based and must be positive"@,
            DiagnosticError::ReversedRange => "external diagnostic end precedes its start"@,
            DiagnosticError::PositionTooLarge => "out of range integral type conversion attempted"@,
        }
    }

    /// What the user is told.
    pub fn message(self) -> (out: &'static str)
        ensures
            out@ == self.text(),
    {
        match self {
            DiagnosticError::UnknownSeverity => "diagnostic severity must be hint, info, warning, or error",
            DiagnosticError::EmptyNamespace => "external diagnostic namespace cannot be empty",
            DiagnosticError::ZeroPosition => "external diagnostic positions are one-based and must be positive",
            DiagnosticError::ReversedRange => "external diagnostic end precedes its start",
            DiagnosticError::PositionTooLarge => "out of range integral type conversion attempted",
        }
    }
}

/// The severity with a name.
pub open spec fn severity_named(name: Seq<char>) -> Option<Severity> {
    if name == "hint"@ {
        Some(Severity::Hint)
    } else if name == "info"@ {
        Some(Severity::Info)
    } else if name == "warning"@ {
        Some(Severity::Warning)
    } else if name == "error"@ {
        Some(Severity::Error)
    } else {
        None
    }
}

/// A diagnostic whose severity is given by its name.
pub fn external_diagnostic(
    path: String,
    start_line: usize,
    start_column: usize,
    end_line: usize,
    end_column: usize,
    severity: &str,
    message: String,
    code: Option<String>,
    source: Option<String>,
) -> (out: Result<ExternalDiagnostic, DiagnosticError>)
    ensures
        match severity_named(severity@) {
            Some(severity) => out == Ok::<ExternalDiagnostic, DiagnosticError>(
                ExternalDiagnostic {
                    path,
                    start_line,
                    start_column,
                    end_line,
                    end_column,
                    severity,
                    message,
                    code,
                    source,
                },
            ),
            None => out == Err::<ExternalDiagnostic, DiagnosticError>(DiagnosticError::UnknownSeverity),
        },
{
    let severity = if same_text(severity, "hint") {
        Severity::Hint
    } else if same_text(severity, "info") {
        Severity::Info
    } else if same_text(severity, "warning") {
        Severity::Warning
    } else if same_text(severity, "error") {
        Severity::Error
    } else {
        return Err(DiagnosticError::UnknownSeverity);
    };
    Ok(
        ExternalDiagnostic { path, start_line, start_column, end_line, end_column, severity, message, code, source },
    )
}

/// Why a diagnostic is refused, if it is.
pub open spec fn refusal(diagnostic: ExternalDiagnostic) -> Option<DiagnosticError> {
    let d = diagnostic;
    if d.start_line == 0 || d.start_column == 0 || d.end_line == 0 || d.end_column == 0 {
        Some(DiagnosticError::ZeroPosition)
    } else if d.end_line < d.start_line || d.end_line == d.start_line && d.end_column < d.start_column {
        Some(DiagnosticError::ReversedRange)
    } else if d.start_line - 1 > u32::MAX || d.start_column - 1 > u32::MAX || d.end_line - 1 > u32::MAX || d.end_column - 1
        > u32::MAX {
        Some(DiagnosticError::PositionTooLarge)
    } else {
        None
    }
}

/// A diagnostic as language servers publish it: positions count from 0.
pub open spec fn as_lsp(diagnostic: ExternalDiagnostic) -> LspView {
    LspView {
        range: LspRange {
            start: LspPosition {
                line: (diagnostic.start_line - 1) as u32,
                character: (diagnostic.start_column - 1) as u32,
            },
            end: LspPosition { line: (diagnostic.end_line - 1) as u32, character: (diagnostic.end_column - 1) as u32 },
        },
        severity: Some(
            match diagnostic.severity {
                Severity::Hint => DiagnosticSeverity::Hint,
                Severity::Info => DiagnosticSeverity::Information,
                Severity::Warning => DiagnosticSeverity::Warning,
                Severity::Error => DiagnosticSeverity::Error,
            },
        ),
        code: match diagnostic.code {
            Some(code) => Some(CodeView::Text(code@)),
            None => None,
        },
        source: optional_text(diagnostic.source),
        message: diagnostic.message@,
    }
}

impl ExternalDiagnostic {
    /// The file of a diagnostic, and the diagnostic as language servers publish it.
    pub fn into_lsp(self) -> (out: Result<(String, LspDiagnostic), DiagnosticError>)
        ensures
            match refusal(self) {
                Some(error) => out == Err::<(String, LspDiagnostic), DiagnosticError>(error),
                None => out is Ok && out->Ok_0.0 == self.path && out->Ok_0.1@ == as_lsp(self),
            },
    {
        if self.start_line == 0 || self.start_column == 0 || self.end_line == 0 || self.end_column == 0 {
            return Err(DiagnosticError::ZeroPosition);
        }
        if self.end_line < self.start_line || self.end_line == self.start_line && self.end_column < self.start_column {
            return Err(DiagnosticError::ReversedRange);
        }
        let largest: u64 = 4294967295;
        if (self.start_line - 1) as u64 > largest || (self.start_column - 1) as u64 > largest || (self.end_line - 1) as u64
            > largest || (self.end_column - 1) as u64 > largest {
            return Err(DiagnosticError::PositionTooLarge);
        }
        let severity = match self.severity {
            Severity::Hint => DiagnosticSeverity::Hint,
            Severity::Info => DiagnosticSeverity::Information,
            Severity::Warning => DiagnosticSeverity::Warning,
            Severity::Error => DiagnosticSeverity::Error,
        };
        let range = LspRange {
            start: LspPosition { line: (self.start_line - 1) as u32, character: (self.start_column - 1) as u32 },
            end: LspPosition { line: (self.end_line - 1) as u32, character: (self.end_column - 1) as u32 },
        };
        let code = match self.code {
            Some(code) => Some(DiagnosticCode::Text(code)),
            None => None,
        };
        Ok((self.path, LspDiagnostic { range, severity: Some(severity), code, source: self.source, message: self.message }))
    }
}

/// The error of the first refused one of the diagnostics.
pub open spec fn first_refusal(diagnostics: Seq<ExternalDiagnostic>, from: int) -> Option<DiagnosticError>
    decreases diagnostics.len() - from,
{
    if from < 0 || from >= diagnostics.len() {
        None
    } else if refusal(diagnostics[from]) is Some {
        refusal(diagnostics[from])
    } else {
        first_refusal(diagnostics, from + 1)
    }
}

/// Those of the first `n` diagnostics that concern a file, as published by a provider.
pub open spec fn group_for(diagnostics: Seq<ExternalDiagnostic>, n: int, uri: Seq<char>, provider: ProviderView) -> Seq<
    PublishedView,
>
    decreases n,
{
    if n <= 0 {
        Seq::empty()
    } else {
        let before = group_for(diagnostics, n - 1, uri, provider);
        if diagnostics[n - 1].path@ == uri {
            before.push(PublishedView { diagnostic: as_lsp(diagnostics[n - 1]), provider })
        } else {
            before
        }
    }
}

/// Why a publication is refused, if it is.
pub open spec fn publication_refusal(namespace: Seq<char>, diagnostics: Seq<ExternalDiagnostic>) -> Option<DiagnosticError> {
    if blank(namespace) {
        Some(DiagnosticError::EmptyNamespace)
    } else {
        first_refusal(diagnostics, 0)
    }
}

impl Diagnostics {
    /// Replaces the diagnostics of a namespace. Those of language servers and
    /// of other namespaces stay as they are.
    pub fn publish_external_diagnostics(&mut self, namespace: &str, diagnostics: Vec<ExternalDiagnostic>) -> (out: Result<
        (),
        DiagnosticError,
    >)
        requires
            old(self).wf(),
        ensures
            final(self).wf(),
            match publication_refusal(namespace@, diagnostics@) {
                Some(error) => out == Err::<(), DiagnosticError>(error) && *final(self) == *old(self),
                None => {
                    &&& out is Ok
                    &&& forall|uri: Seq<char>| #[trigger]
                        final(self).at(uri) == of_others(
                            old(self).at(uri),
                            ProviderView::External { namespace: namespace@ },
                        ) + group_for(
                            diagnostics@,
                            diagnostics@.len() as int,
                            uri,
                            ProviderView::External { namespace: namespace@ },
                        )
                    &&& forall|uri: Seq<char>| #[trigger]
                        final(self).keeps_path(old(self), ProviderView::External { namespace: namespace@ }, uri)
                },
            },
    {
        if is_blank(namespace) {
            return Err(DiagnosticError::EmptyNamespace);
        }
        let ghost given = diagnostics@;
        let ghost first = *self;
        let mut rest = diagnostics;
        let mut converted: Vec<(String, LspDiagnostic)> = Vec::new();
        let ghost mut n: int = 0;
        proof {
            assert(given.subrange(0, given.len() as int) =~= given);
        }
        while rest.len() > 0
            invariant
                *self == first,
                first == *old(self),
                first.wf(),
                given == diagnostics@,
                !blank(namespace@),
                0 <= n <= given.len(),
                rest@ == given.subrange(n, given.len() as int),
                first_refusal(given, 0) == first_refusal(given, n),
                converted@.len() == n,
                forall|k: int|
                    0 <= k < n ==> (#[trigger] converted@[k]).0@ == given[k].path@ && converted@[k].1@ == as_lsp(given[k]),
            decreases rest.len(),
        {
            let diagnostic = rest.remove(0);
            proof {
                assert(diagnostic == given[n]);
                assert(rest@ =~= given.subrange(n + 1, given.len() as int));
            }
            match diagnostic.into_lsp() {
                Ok(item) => {
                    converted.push(item);
                },
                Err(error) => {
                    return Err(error);
                },
            }
            proof {
                n = n + 1;
            }
        }
        let ghost all = converted@;
        let provider = DiagnosticProvider::External { namespace: namespace.to_owned() };
        let ghost view = provider@;
        self.remove_provider(&provider);
        let ghost base = *self;
        let ghost mut m: int = 0;
        proof {
            assert(all.subrange(0, all.len() as int) =~= all);
            assert forall|uri: Seq<char>| #[trigger] self.at(uri) == base.at(uri) + group_for(given, 0, uri, view) by {
                assert(base.at(uri) + Seq::<PublishedView>::empty() =~= base.at(uri));
            }
        }
        while converted.len() > 0
            invariant
                self.wf(),
                0 <= m <= all.len(),
                all.len() == given.len(),
                converted@ == all.subrange(m, all.len() as int),
                forall|k: int|
                    0 <= k < all.len() ==> (#[trigger] all[k]).0@ == given[k].path@ && all[k].1@ == as_lsp(given[k]),
                view == (ProviderView::External { namespace: namespace@ }),
                forall|uri: Seq<char>| #[trigger] self.at(uri) == base.at(uri) + group_for(given, m, uri, view),
                forall|uri: Seq<char>| #[trigger] self.path_at(uri) == base.path_at(uri),
                forall|uri: Seq<char>| #[trigger] base.keeps_path(&first, view, uri),
                first == *old(self),
            decreases converted.len(),
        {
            let ghost before = *self;
            let (uri, diagnostic) = converted.remove(0);
            proof {
                assert((uri, diagnostic) == all[m]);
                assert(converted@ =~= all.subrange(m + 1, all.len() as int));
            }
            let ghost name = uri@;
            let provider = DiagnosticProvider::External { namespace: namespace.to_owned() };
            self.add_item(uri, Published { diagnostic, provider });
            proof {
                assert forall|other: Seq<char>| #[trigger] self.at(other) == base.at(other) + group_for(
                    given,
                    m + 1,
                    other,
                    view,
                ) by {
                    assert(before.at(other) == base.at(other) + group_for(given, m, other, view));
                    if other == name {
                        let item = PublishedView { diagnostic: as_lsp(given[m]), provider: view };
                        assert((base.at(other) + group_for(given, m, other, view)).push(item) =~= base.at(other)
                            + group_for(given, m, other, view).push(item));
                    }
                }
                assert forall|other: Seq<char>| #[trigger] self.path_at(other) == base.path_at(other) by {
                    assert(before.path_at(other) == base.path_at(other));
                }
                m = m + 1;
            }
        }
        proof {
            assert forall|uri: Seq<char>| #[trigger] self.keeps_path(&first, view, uri) by {
                assert(base.keeps_path(&first, view, uri));
                assert(self.path_at(uri) == base.path_at(uri));
            }
        }
        Ok(())
    }

    /// Takes the diagnostics of a namespace away. Those of language servers and
    /// of other namespaces stay as they are.
    pub fn clear_external_diagnostics(&mut self, namespace: &str)
        requires
            old(self).wf(),
        ensures
            final(self).wf(),
            forall|uri: Seq<char>| #[trigger]
                final(self).at(uri) == of_others(old(self).at(uri), ProviderView::External { namespace: namespace@ }),
            forall|uri: Seq<char>| #[trigger]
                final(self).keeps_path(old(self), ProviderView::External { namespace: namespace@ }, uri),
    {
        let provider = DiagnosticProvider::External { namespace: namespace.to_owned() };
        let ghost first = *self;
        let ghost view = ProviderView::External { namespace: namespace@ };
        self.remove_provider(&provider);
        proof {
            assert forall|uri: Seq<char>| #[trigger] self.keeps_path(&first, view, uri) by {
                assert(self.keeps_path(&first, provider@, uri));
            }
        }
    }

    /// Takes the diagnostics of a namespace away, unless its name is blank.
    pub fn external_diagnostics_clear(&mut self, namespace: &str) -> (out: Result<(), DiagnosticError>)
        requires
            old(self).wf(),
        ensures
            final(self).wf(),
            blank(namespace@) ==> out == Err::<(), DiagnosticError>(DiagnosticError::EmptyNamespace) && *final(self) == *old(
                self,
            ),
            !blank(namespace@) ==> {
                &&& out is Ok
                &&& forall|uri: Seq<char>| #[trigger]
                    final(self).at(uri) == of_others(old(self).at(uri), ProviderView::External { namespace: namespace@ })
                &&& forall|uri: Seq<char>| #[trigger]
                    final(self).keeps_path(old(self), ProviderView::External { namespace: namespace@ }, uri)
            },
    {
        if is_blank(namespace) {
            return Err(DiagnosticError::EmptyNamespace);
        }
        self.clear_external_diagnostics(namespace);
        Ok(())
    }
}

/// The items of a provider.
pub open spec fn of_provider(items: Seq<PublishedView>, provider: ProviderView) -> Seq<PublishedView>
    decreases items.len(),
{
    if items.len() == 0 {
        Seq::empty()
    } else if items.last().provider == provider {
        of_provider(items.drop_last(), provider).push(items.last())
    } else {
        of_provider(items.drop_last(), provider)
    }
}

/// Taking one provider away leaves the diagnostics of every other one as they
/// are, and none of its own.
pub proof fn law_other_providers_are_untouched(items: Seq<PublishedView>, gone: ProviderView, kept: ProviderView)
    ensures
        kept != gone ==> of_provider(of_others(items, gone), kept) == of_provider(items, kept),
        of_provider(of_others(items, gone), gone).len() == 0,
    decreases items.len(),
{
    if items.len() > 0 {
        law_other_providers_are_untouched(items.drop_last(), gone, kept);
        let rest = of_others(items.drop_last(), gone);
        if items.last().provider != gone {
            assert(rest.push(items.last()).drop_last() =~= rest);
        }
    }
}

/// A new publication of a namespace replaces the one before it as a whole.
pub proof fn law_publishing_replaces(
    items: Seq<PublishedView>,
    first: Seq<PublishedView>,
    provider: ProviderView,
)
    requires
        forall|i: int| 0 <= i < first.len() ==> (#[trigger] first[i]).provider == provider,
    ensures
        of_others(of_others(items, provider) + first, provider) == of_others(items, provider),
    decreases first.len(),
{
    if first.len() == 0 {
        assert(of_others(items, provider) + first =~= of_others(items, provider));
        lemma_others_twice(items, provider);
    } else {
        let rest = first.drop_last();
        assert forall|i: int| 0 <= i < rest.len() implies (#[trigger] rest[i]).provider == provider by {
            assert(first[i].provider == provider);
        }
        law_publishing_replaces(items, rest, provider);
        let whole = of_others(items, provider) + first;
        assert(whole.drop_last() =~= of_others(items, provider) + rest);
        assert(whole.last() == first[first.len() - 1]);
    }
}

proof fn lemma_others_twice(items: Seq<PublishedView>, provider: ProviderView)
    ensures
        of_others(of_others(items, provider), provider) == of_others(items, provider),
    decreases items.len(),
{
    if items.len() > 0 {
        lemma_others_twice(items.drop_last(), provider);
        let rest = of_others(items.drop_last(), provider);
        if items.last().provider != provider {
            assert(rest.push(items.last()).drop_last() =~= rest);
        }
    }
}

/// The characters of a diagnostic in a document: an end that the document does
/// not have is the end of the document, and without its start there are none.
pub fn core_range(start: Option<usize>, end: Option<usize>, len_chars: usize) -> (out: Option<(usize, usize)>)
    ensures
        out == (match start {
            Some(start) => Some(
                (
                    start,
                    match end {
                        Some(end) => end,
                        None => len_chars,
                    },
                ),
            ),
            None => None,
        }),
{
    match start {
        Some(start) => Some(
            (
                start,
                match end {
                    Some(end) => end,
                    None => len_chars,
                },
            ),
        ),
        None => None,
    }
}

} // verus!
