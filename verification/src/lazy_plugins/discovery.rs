//! Discovery of commands in Steel sources.
//!
//! Discovery deliberately stops at parsing. It never expands macros, compiles
//! modules, evaluates forms or follows `require` expressions.

use steel::parser::ast::ExprKind;
use vstd::prelude::*;

use super::forms::{doc_comment_parser, documented_forms, form_view, form_views, identifier, next_form, open_form, Form, FormView, Parsed};
use super::reader::{forms_if_readable, is_readable, readable};
use super::registration::{doc_names, doc_views, has_break, registered, registration_refusal, Request};
use super::state::{LazyError, RegistrationKind, Registry};
use crate::diagnostics::model::{is_path_before, lemma_path_order, lemma_path_order_transitive, path_before};
use crate::file_snapshot::is_whitespace;
use crate::text::{chars_of, decimal, holds_text, lines, quote, same_text, starts_with, string_of, string_views};

verus! {

broadcast use vstd::string::group_string_axioms;

pub const MAX_SOURCE_BYTES: u64 = 1048576;

pub const MAX_REQUEST_BYTES: u64 = 16777216;

pub const MAX_SOURCE_COUNT: usize = 256;

/// How many characters at the start are white space.
pub open spec fn leading(text: Seq<char>) -> int
    decreases text.len(),
{
    if text.len() > 0 && crate::file_snapshot::whitespace(text[0]) {
        1 + leading(text.drop_first())
    } else {
        0
    }
}

/// The text without white space at its end.
pub open spec fn trimmed_end(text: Seq<char>) -> Seq<char>
    decreases text.len(),
{
    if text.len() > 0 && crate::file_snapshot::whitespace(text.last()) {
        trimmed_end(text.drop_last())
    } else {
        text
    }
}

/// The text without white space at its ends.
pub open spec fn trimmed(text: Seq<char>) -> Seq<char> {
    trimmed_end(text.subrange(leading(text), text.len() as int))
}

proof fn lemma_leading(text: Seq<char>, n: int)
    requires
        0 <= n <= text.len(),
        forall|i: int| 0 <= i < n ==> crate::file_snapshot::whitespace(#[trigger] text[i]),
        n < text.len() ==> !crate::file_snapshot::whitespace(text[n]),
    ensures
        leading(text) == n,
    decreases n,
{
    if n > 0 {
        lemma_leading(text.drop_first(), n - 1);
    }
}

/// The text without white space at its ends.
pub fn trim(text: &str) -> (out: String)
    ensures
        out@ == trimmed(text@),
{
    let chars = chars_of(text);
    let mut start: usize = 0;
    while start < chars.len() && is_whitespace(chars[start])
        invariant
            start <= chars@.len(),
            forall|i: int| 0 <= i < start ==> crate::file_snapshot::whitespace(#[trigger] chars@[i]),
        decreases chars.len() - start,
    {
        start += 1;
    }
    proof {
        lemma_leading(chars@, start as int);
    }
    let mut end: usize = chars.len();
    while end > start && is_whitespace(chars[end - 1])
        invariant
            start <= end <= chars@.len(),
            trimmed_end(chars@.subrange(start as int, end as int)) == trimmed_end(
                chars@.subrange(start as int, chars@.len() as int),
            ),
        decreases end,
    {
        proof {
            assert(chars@.subrange(start as int, end as int).drop_last() =~= chars@.subrange(start as int, end - 1));
        }
        end -= 1;
    }
    proof {
        if end > start {
            assert(chars@.subrange(start as int, end as int).last() == chars@[end - 1]);
        }
    }
    string_of(vstd::slice::slice_subrange(chars.as_slice(), start, end))
}

/// The lines before the first empty one, trimmed and joined by spaces.
pub open spec fn joined(lines: Seq<Seq<char>>, from: int) -> Seq<char>
    decreases lines.len() - from,
{
    if from < 0 || from >= lines.len() || trimmed(lines[from]).len() == 0 {
        Seq::empty()
    } else if from == 0 {
        trimmed(lines[0]) + joined(lines, 1)
    } else {
        " "@ + trimmed(lines[from]) + joined(lines, from + 1)
    }
}

/// The first paragraph of a documentation, on one line.
pub open spec fn summary_of(documentation: Seq<char>) -> Seq<char> {
    trimmed(joined(crate::text::lines_of(documentation), 0))
}

/// The first paragraph of a documentation, on one line.
pub fn first_paragraph(documentation: &str) -> (out: String)
    ensures
        out@ == summary_of(documentation@),
{
    let all = lines(documentation);
    let ghost views = string_views(all@);
    let mut out = String::new();
    let mut i: usize = 0;
    proof {
        assert(out@ + joined(views, 0) =~= joined(views, 0));
    }
    while i < all.len()
        invariant
            i <= all@.len(),
            views == string_views(all@),
            views == crate::text::lines_of(documentation@),
            out@ + joined(views, i as int) == joined(views, 0),
        decreases all.len() - i,
    {
        let line = trim(all[i].as_str());
        proof {
            assert(views[i as int] == all@[i as int]@);
        }
        let length: usize = chars_of(line.as_str()).len();
        if length == 0 {
            proof {
                assert(out@ =~= joined(views, 0));
            }
            return trim(out.as_str());
        }
        let ghost before = out@;
        if i > 0 {
            out = out.concat(" ");
        }
        out = out.concat(line.as_str());
        i += 1;
        proof {
            assert(out@ + joined(views, i as int) =~= before + joined(views, i - 1));
        }
    }
    proof {
        assert(out@ =~= joined(views, 0));
    }
    trim(out.as_str())
}

/// How many of the first `n` bytes are line feeds.
pub open spec fn feeds(bytes: Seq<u8>, n: int) -> nat
    decreases n,
{
    if n <= 0 || n > bytes.len() {
        0
    } else {
        feeds(bytes, n - 1) + if bytes[n - 1] == 10 {
            1nat
        } else {
            0nat
        }
    }
}

/// The number of the line, counted from 1, that holds a byte.
pub open spec fn line_of(source: Seq<char>, offset: usize) -> nat {
    let bytes = vstd::utf8::encode_utf8(source);
    1 + feeds(
        bytes,
        if offset < bytes.len() {
            offset as int
        } else {
            bytes.len() as int
        },
    )
}

/// The number of the line, counted from 1, that holds a byte.
pub fn line_number(source: &str, offset: usize) -> (out: u64)
    requires
        crate::text::byte_length(source@) < usize::MAX,
    ensures
        out == line_of(source@, offset),
{
    let bytes = source.as_bytes();
    let end: usize = if offset < bytes.len() {
        offset
    } else {
        bytes.len()
    };
    let mut count: u64 = 0;
    let mut i: usize = 0;
    while i < end
        invariant
            i <= end <= bytes@.len(),
            bytes@.len() < usize::MAX,
            count == feeds(bytes@, i as int),
            count <= i,
        decreases end - i,
    {
        if bytes[i] == 10 {
            count += 1;
        }
        i += 1;
    }
    count + 1
}

/// Whether a line marks the command that is defined after it.
pub open spec fn marks(line: Seq<char>) -> bool {
    trimmed(line) == ";;@lazy-command"@ && crate::text::starts_text(line, ";;@lazy-command"@)
}

fn is_marker(line: &str) -> (out: bool)
    ensures
        out == marks(line@),
{
    same_text(trim(line).as_str(), ";;@lazy-command") && starts_with(line, ";;@lazy-command")
}

/// The last marker above the line `index`, counted from 0, with nothing but
/// comments and blank lines between them. Its line is counted from 1.
pub open spec fn marker_above(lines: Seq<Seq<char>>, index: int) -> Option<int>
    decreases index,
{
    if index <= 0 || index > lines.len() {
        None
    } else if marks(lines[index - 1]) {
        Some(index)
    } else if trimmed(lines[index - 1]).len() == 0 || crate::text::starts_text(lines[index - 1], ";;"@) {
        marker_above(lines, index - 1)
    } else {
        None
    }
}

/// The line of the marker of a definition.
pub open spec fn marker_of(lines: Seq<Seq<char>>, definition_line: int) -> Option<int> {
    marker_above(
        lines,
        if definition_line - 1 < lines.len() {
            definition_line - 1
        } else {
            lines.len() as int
        },
    )
}

/// The line of the marker of a definition.
pub fn marker_before_definition(lines: &Vec<String>, definition_line: u64) -> (out: Option<usize>)
    ensures
        (match out {
            Some(line) => Some(line as int),
            None => None,
        }) == marker_of(string_views(lines@), definition_line as int),
        out is Some ==> out->0 <= lines@.len(),
{
    let ghost views = string_views(lines@);
    if definition_line == 0 {
        return None;
    }
    let mut index: usize = if definition_line - 1 < lines.len() as u64 {
        (definition_line - 1) as usize
    } else {
        lines.len()
    };
    while index > 0
        invariant
            index <= lines@.len(),
            views == string_views(lines@),
            marker_of(views, definition_line as int) == marker_above(views, index as int),
        decreases index,
    {
        proof {
            assert(views[index - 1] == lines@[index - 1]@);
        }
        let line = lines[index - 1].as_str();
        if is_marker(line) {
            return Some(index);
        }
        let rest: usize = chars_of(trim(line).as_str()).len();
        if rest != 0 && !starts_with(line, ";;") {
            return None;
        }
        index -= 1;
    }
    None
}

/// What discovery makes of a form.
pub enum TopForm {
    Provide(Vec<String>),
    Documented { documentation: String, name: String, start: usize },
    Other,
}

/// The contents of a [`TopForm`].
pub enum TopView {
    Provide(Seq<Seq<char>>),
    Documented { documentation: Seq<char>, name: Seq<char>, start: usize },
    Other,
}

impl View for TopForm {
    type V = TopView;

    open spec fn view(&self) -> TopView {
        match self {
            TopForm::Provide(names) => TopView::Provide(string_views(names@)),
            TopForm::Documented { documentation, name, start } => TopView::Documented {
                documentation: documentation@,
                name: name@,
                start: *start,
            },
            TopForm::Other => TopView::Other,
        }
    }
}

/// The names among the forms from `from` on.
pub open spec fn names_from(forms: Seq<FormView>, from: int) -> Seq<Seq<char>>
    decreases forms.len() - from,
{
    if from < 0 || from >= forms.len() {
        Seq::empty()
    } else {
        match forms[from] {
            FormView::Identifier(name) => seq![name] + names_from(forms, from + 1),
            _ => names_from(forms, from + 1),
        }
    }
}

/// What discovery makes of a form.
pub open spec fn top_view(form: FormView) -> TopView {
    match form {
        FormView::List { args, .. } => if args.len() == 0 {
            TopView::Other
        } else {
            match args[0] {
                FormView::Identifier(head) => if head == "provide"@ {
                    TopView::Provide(names_from(args, 1))
                } else if head == "@doc"@ && args.len() >= 3 {
                    documented_view(args[1], args[2])
                } else {
                    TopView::Other
                },
                _ => TopView::Other,
            }
        },
        _ => TopView::Other,
    }
}

/// What discovery makes of a documentation and what it documents.
pub open spec fn documented_view(documentation: FormView, definition: FormView) -> TopView {
    match (documentation, definition) {
        (FormView::Text(documentation), FormView::Define { name, start }) => match *name {
            FormView::Identifier(name) => TopView::Documented { documentation, name, start },
            _ => TopView::Other,
        },
        _ => TopView::Other,
    }
}

fn names_among(args: Vec<ExprKind>) -> (out: Vec<String>)
    ensures
        string_views(out@) == names_from(form_views(args@), 0),
{
    let ghost all = form_views(args@);
    let ghost elements = args@;
    let mut args = args;
    let mut found: Vec<String> = Vec::new();
    let ghost mut rest: Seq<Seq<char>> = Seq::empty();
    proof {
        assert(args@ =~= elements.subrange(0, args@.len() as int));
        assert(string_views(found@) =~= rest.reverse());
    }
    while args.len() > 0
        invariant
            args@.len() <= elements.len(),
            all == form_views(elements),
            args@ == elements.subrange(0, args@.len() as int),
            rest == names_from(all, args@.len() as int),
            string_views(found@) == rest.reverse(),
        decreases args.len(),
    {
        let ghost n = args@.len() as int;
        let ghost before = found@;
        match args.pop() {
            Some(form) => {
                proof {
                    assert(form == elements[n - 1]);
                    assert(all[n - 1] == form_view(form));
                    assert(args@ =~= elements.subrange(0, n - 1));
                }
                if let Some(name) = identifier(form) {
                    let ghost view = name@;
                    found.push(name);
                    proof {
                        crate::text::lemma_string_views_push(before, name);
                        assert((seq![view] + rest).reverse() =~= rest.reverse().push(view));
                        rest = seq![view] + rest;
                    }
                }
            },
            None => {},
        }
    }
    let mut out: Vec<String> = Vec::new();
    let mut i: usize = found.len();
    while i > 0
        invariant
            i <= found@.len(),
            out@.len() == found@.len() - i,
            forall|k: int| 0 <= k < out@.len() ==> (#[trigger] out@[k])@ == found@[found@.len() - 1 - k]@,
        decreases i,
    {
        i -= 1;
        out.push(found[i].clone());
    }
    proof {
        assert(string_views(out@) =~= string_views(found@).reverse());
        assert(rest.reverse().reverse() =~= rest);
    }
    out
}

proof fn lemma_names_after(forms: Seq<FormView>, skipped: int, from: int)
    requires
        0 <= skipped <= forms.len(),
        0 <= from <= forms.len() - skipped,
    ensures
        names_from(forms.subrange(skipped, forms.len() as int), from) == names_from(forms, skipped + from),
    decreases forms.len() - from,
{
    if from < forms.len() - skipped {
        lemma_names_after(forms, skipped, from + 1);
    }
}

/// What discovery makes of a form.
fn classify(form: ExprKind) -> (out: TopForm)
    ensures
        out@ == top_view(form_view(form)),
{
    let mut args = match open_form(form) {
        Form::List { args, .. } => args,
        _ => {
            return TopForm::Other;
        },
    };
    let ghost all = form_views(args@);
    if args.len() == 0 {
        return TopForm::Other;
    }
    proof {
        assert(all[0] == form_view(args@[0]));
        assert(args@.len() > 1 ==> all[1] == form_view(args@[1]));
        assert(args@.len() > 2 ==> all[2] == form_view(args@[2]));
    }
    let length: usize = args.len();
    let first = args.remove(0);
    let head = match identifier(first) {
        Some(head) => head,
        None => {
            return TopForm::Other;
        },
    };
    if same_text(head.as_str(), "provide") {
        proof {
            assert(form_views(args@) =~= all.subrange(1, all.len() as int));
            lemma_names_after(all, 1, 0);
        }
        return TopForm::Provide(names_among(args));
    }
    if !same_text(head.as_str(), "@doc") || length < 3 {
        return TopForm::Other;
    }
    let documentation = args.remove(0);
    let definition = args.remove(0);
    let documentation = match open_form(documentation) {
        Form::Text(text) => text,
        _ => {
            return TopForm::Other;
        },
    };
    match open_form(definition) {
        Form::Define { name, start } => match identifier(name) {
            Some(name) => TopForm::Documented { documentation, name, start },
            None => TopForm::Other,
        },
        _ => TopForm::Other,
    }
}

/// A command that a source marks and documents.
pub struct Documented {
    pub name: String,
    pub summary: String,
    pub line: u64,
}

/// The contents of a [`Documented`].
pub struct DocumentedView {
    pub name: Seq<char>,
    pub summary: Seq<char>,
    pub line: nat,
}

impl View for Documented {
    type V = DocumentedView;

    open spec fn view(&self) -> DocumentedView {
        DocumentedView { name: self.name@, summary: self.summary@, line: self.line as nat }
    }
}

/// What was found in a source so far.
pub struct Scan {
    /// The lines of the markers that belong to a command.
    pub consumed: Vec<usize>,
    pub provides: Vec<String>,
    pub documented: Vec<Documented>,
}

/// The contents of a [`Scan`].
#[verifier::ext_equal]
pub struct ScanView {
    pub consumed: Seq<int>,
    pub provides: Seq<Seq<char>>,
    pub documented: Seq<DocumentedView>,
}

impl View for Scan {
    type V = ScanView;

    open spec fn view(&self) -> ScanView {
        ScanView {
            consumed: Seq::new(self.consumed@.len(), |i: int| self.consumed@[i] as int),
            provides: string_views(self.provides@),
            documented: super::state::views(self.documented@),
        }
    }
}

/// The message of an error at a line of a source.
pub open spec fn located(path: Seq<char>, line: nat, message: Seq<char>) -> Seq<char> {
    "lazy command discovery failed at "@ + path + ":"@ + crate::text::decimal_text(line) + ": "@ + message
}

/// The message of an error that concerns a source as a whole.
pub open spec fn unlocated(path: Seq<char>, message: Seq<char>) -> Seq<char> {
    "lazy command discovery failed at "@ + path + ": "@ + message
}

fn error_at(path: &str, line: u64, message: &str) -> (out: LazyError)
    ensures
        out.message@ == located(path@, line as nat, message@),
{
    LazyError {
        message: "lazy command discovery failed at ".to_owned().concat(path).concat(":").concat(decimal(line).as_str()).concat(
            ": ",
        ).concat(message),
    }
}

fn error_in(path: &str, message: &str) -> (out: LazyError)
    ensures
        out.message@ == unlocated(path@, message@),
{
    LazyError { message: "lazy command discovery failed at ".to_owned().concat(path).concat(": ").concat(message) }
}

/// What is known once one more form has been seen, or why the source is refused.
pub open spec fn scan_step(path: Seq<char>, source: Seq<char>, scan: ScanView, form: TopView) -> Result<ScanView, Seq<char>> {
    match form {
        TopView::Provide(names) => Ok(ScanView { provides: scan.provides + names, ..scan }),
        TopView::Documented { documentation, name, start } => {
            let line = line_of(source, start);
            match marker_of(crate::text::lines_of(source), line as int) {
                None => Ok(scan),
                Some(marker) => if summary_of(documentation).len() == 0 {
                    Err(
                        located(
                            path,
                            line,
                            "lazy command "@ + crate::text::quoted(name) + " has empty documentation"@,
                        ),
                    )
                } else {
                    Ok(
                        ScanView {
                            consumed: scan.consumed.push(marker),
                            documented: scan.documented.push(
                                DocumentedView { name, summary: summary_of(documentation), line },
                            ),
                            ..scan
                        },
                    )
                },
            }
        },
        TopView::Other => Ok(scan),
    }
}

/// What is known once all forms have been seen, or why the source is refused.
pub open spec fn scan_forms(path: Seq<char>, source: Seq<char>, forms: Seq<Parsed>, scan: ScanView) -> Result<
    ScanView,
    Seq<char>,
>
    decreases forms.len(),
{
    if forms.len() == 0 {
        Ok(scan)
    } else {
        match forms[0] {
            Err((start, message)) => Err(located(path, line_of(source, start), message)),
            Ok(form) => match scan_step(path, source, scan, top_view(form)) {
                Err(message) => Err(message),
                Ok(next) => scan_forms(path, source, forms.drop_first(), next),
            },
        }
    }
}

/// The first marker at or after the line `from`, counted from 1, that belongs
/// to no command.
pub open spec fn orphan(lines: Seq<Seq<char>>, consumed: Seq<int>, from: int) -> Option<int>
    decreases lines.len() + 1 - from,
{
    if from < 1 || from > lines.len() {
        None
    } else if marks(lines[from - 1]) && !consumed.contains(from) {
        Some(from)
    } else {
        orphan(lines, consumed, from + 1)
    }
}

/// The first `n` commands, or why the source is refused.
pub open spec fn accepted(path: Seq<char>, scan: ScanView, n: int) -> Result<Seq<(Seq<char>, Seq<char>)>, Seq<char>>
    decreases n,
{
    if n <= 0 {
        Ok(Seq::empty())
    } else {
        match accepted(path, scan, n - 1) {
            Err(message) => Err(message),
            Ok(commands) => {
                let last = scan.documented[n - 1];
                if !scan.provides.contains(last.name) {
                    Err(
                        located(
                            path,
                            last.line,
                            "lazy command "@ + crate::text::quoted(last.name) + " is not provided by this source"@,
                        ),
                    )
                } else if doc_names(commands).contains(last.name) {
                    Err(
                        located(
                            path,
                            last.line,
                            "lazy command "@ + crate::text::quoted(last.name) + " is declared more than once"@,
                        ),
                    )
                } else {
                    Ok(commands.push((last.name, last.summary)))
                }
            },
        }
    }
}

/// The commands of a source, or why it is refused.
pub open spec fn scan_result(path: Seq<char>, source: Seq<char>, scan: ScanView) -> Result<
    Seq<(Seq<char>, Seq<char>)>,
    Seq<char>,
> {
    match orphan(crate::text::lines_of(source), scan.consumed, 1) {
        Some(line) => Err(located(path, line as nat, "orphan ;;@lazy-command marker"@)),
        None => accepted(path, scan, scan.documented.len() as int),
    }
}

/// The commands of the forms of a source, or why it is refused.
pub open spec fn commands_of(path: Seq<char>, source: Seq<char>, forms: Seq<Parsed>) -> Result<
    Seq<(Seq<char>, Seq<char>)>,
    Seq<char>,
> {
    match scan_forms(
        path,
        source,
        forms,
        ScanView { consumed: Seq::empty(), provides: Seq::empty(), documented: Seq::empty() },
    ) {
        Ok(scan) => scan_result(path, source, scan),
        Err(message) => Err(message),
    }
}

proof fn lemma_accepted_stays(path: Seq<char>, scan: ScanView, n: int, m: int)
    requires
        0 <= n <= m,
        accepted(path, scan, n) is Err,
    ensures
        accepted(path, scan, m) == accepted(path, scan, n),
    decreases m,
{
    if n < m {
        lemma_accepted_stays(path, scan, n, m - 1);
    }
}

/// Whether the commands are the first documented ones, in their order, and all
/// of them are provided.
pub open spec fn are_documented(commands: Seq<(Seq<char>, Seq<char>)>, scan: ScanView) -> bool {
    forall|i: int|
        0 <= i < commands.len() ==> (#[trigger] commands[i]).0 == scan.documented[i].name && scan.provides.contains(
            scan.documented[i].name,
        )
}

/// The commands of a source have distinct names. They are the documented ones,
/// and all of them are provided.
pub proof fn law_discovered_commands_are_distinct(path: Seq<char>, scan: ScanView, n: int)
    requires
        0 <= n <= scan.documented.len(),
        accepted(path, scan, n) is Ok,
    ensures
        doc_names(accepted(path, scan, n)->Ok_0).no_duplicates(),
        accepted(path, scan, n)->Ok_0.len() == n,
        are_documented(accepted(path, scan, n)->Ok_0, scan),
    decreases n,
{
    if n > 0 {
        law_discovered_commands_are_distinct(path, scan, n - 1);
        let before = accepted(path, scan, n - 1)->Ok_0;
        let after = accepted(path, scan, n)->Ok_0;
        let last = scan.documented[n - 1];
        assert(after =~= before.push((last.name, last.summary)));
        assert(doc_names(after) =~= doc_names(before).push(last.name));
        lemma_documented_push(before, (last.name, last.summary), scan);
    } else {
        assert(accepted(path, scan, n)->Ok_0 =~= Seq::empty());
    }
}

proof fn lemma_documented_push(before: Seq<(Seq<char>, Seq<char>)>, last: (Seq<char>, Seq<char>), scan: ScanView)
    requires
        are_documented(before, scan),
        last.0 == scan.documented[before.len() as int].name,
        scan.provides.contains(last.0),
    ensures
        are_documented(before.push(last), scan),
{
    let after = before.push(last);
    assert forall|i: int| 0 <= i < after.len() implies (#[trigger] after[i]).0 == scan.documented[i].name && scan.provides.contains(
        scan.documented[i].name,
    ) by {
        if i < before.len() {
            assert(after[i] == before[i]);
        }
    }
}

impl Scan {
    pub fn new() -> (out: Scan)
        ensures
            out@ == (ScanView { consumed: Seq::empty(), provides: Seq::empty(), documented: Seq::empty() }),
    {
        let out = Scan { consumed: Vec::new(), provides: Vec::new(), documented: Vec::new() };
        proof {
            assert(out@ =~= ScanView { consumed: Seq::empty(), provides: Seq::empty(), documented: Seq::empty() });
        }
        out
    }

    /// Takes one more form into account.
    pub fn record(&mut self, path: &str, source: &str, form: TopForm) -> (out: Result<(), LazyError>)
        requires
            crate::text::byte_length(source@) < usize::MAX,
        ensures
            match scan_step(path@, source@, old(self)@, form@) {
                Ok(next) => out is Ok && final(self)@ == next,
                Err(message) => out is Err && out->Err_0.message@ == message && final(self)@ == old(self)@,
            },
    {
        let ghost before = self@;
        match form {
            TopForm::Provide(names) => {
                let mut names = names;
                let ghost old_names = self.provides@;
                let ghost added = names@;
                self.provides.append(&mut names);
                proof {
                    assert(string_views(self.provides@) =~= string_views(old_names) + string_views(added));
                    assert(self@ =~= ScanView { provides: before.provides + string_views(added), ..before });
                }
                Ok(())
            },
            TopForm::Documented { documentation, name, start } => {
                let line: u64 = line_number(source, start);
                let all = lines(source);
                let marker: usize = match marker_before_definition(&all, line) {
                    Some(marker) => marker,
                    None => {
                        return Ok(());
                    },
                };
                let summary = first_paragraph(documentation.as_str());
                let length: usize = chars_of(summary.as_str()).len();
                if length == 0 {
                    return Err(
                        error_at(
                            path,
                            line,
                            "lazy command ".to_owned().concat(quote(name.as_str()).as_str()).concat(
                                " has empty documentation",
                            ).as_str(),
                        ),
                    );
                }
                let ghost documented = self.documented@;
                let entry = Documented { name, summary, line };
                let ghost pushed = entry;
                self.consumed.push(marker);
                self.documented.push(entry);
                proof {
                    super::state::lemma_views_push(documented, pushed);
                    assert(self@.consumed =~= before.consumed.push(marker as int));
                    assert(self@ =~= ScanView {
                        consumed: before.consumed.push(marker as int),
                        documented: before.documented.push(pushed@),
                        ..before
                    });
                }
                Ok(())
            },
            TopForm::Other => Ok(()),
        }
    }

    fn consumes(&self, line: usize) -> (out: bool)
        ensures
            out == self@.consumed.contains(line as int),
    {
        let mut i: usize = 0;
        while i < self.consumed.len()
            invariant
                i <= self.consumed@.len(),
                forall|k: int| 0 <= k < i ==> self@.consumed[k] != line,
            decreases self.consumed.len() - i,
        {
            if self.consumed[i] == line {
                proof {
                    assert(self@.consumed[i as int] == line);
                }
                return true;
            }
            i += 1;
        }
        false
    }

    fn first_orphan(&self, lines: &Vec<String>) -> (out: Option<usize>)
        ensures
            (match out {
                Some(line) => Some(line as int),
                None => None,
            }) == orphan(string_views(lines@), self@.consumed, 1),
    {
        let ghost views = string_views(lines@);
        let mut i: usize = 0;
        while i < lines.len()
            invariant
                i <= lines@.len(),
                views == string_views(lines@),
                orphan(views, self@.consumed, 1) == orphan(views, self@.consumed, i + 1),
            decreases lines.len() - i,
        {
            proof {
                assert(views[i as int] == lines@[i as int]@);
            }
            if is_marker(lines[i].as_str()) && !self.consumes(i + 1) {
                return Some(i + 1);
            }
            i += 1;
        }
        None
    }

    /// The commands of the source, once all its forms have been seen.
    pub fn finish(self, path: &str, source: &str) -> (out: Result<Vec<(String, String)>, LazyError>)
        ensures
            match scan_result(path@, source@, self@) {
                Ok(commands) => out is Ok && doc_views(out->Ok_0@) == commands,
                Err(message) => out is Err && out->Err_0.message@ == message,
            },
    {
        let all = lines(source);
        if let Some(line) = self.first_orphan(&all) {
            return Err(error_at(path, line as u64, "orphan ;;@lazy-command marker"));
        }
        let ghost view = self@;
        let mut commands: Vec<(String, String)> = Vec::new();
        let mut i: usize = 0;
        proof {
            assert(doc_views(commands@) =~= Seq::<(Seq<char>, Seq<char>)>::empty());
        }
        while i < self.documented.len()
            invariant
                i <= self.documented@.len(),
                view == self@,
                orphan(crate::text::lines_of(source@), view.consumed, 1) is None,
                accepted(path@, view, i as int) == Ok::<Seq<(Seq<char>, Seq<char>)>, Seq<char>>(doc_views(commands@)),
            decreases self.documented.len() - i,
        {
            proof {
                assert(view.documented[i as int] == self.documented@[i as int]@);
            }
            let name = self.documented[i].name.as_str();
            if !holds_text(&self.provides, name) {
                proof {
                    lemma_accepted_stays(path@, view, i + 1, view.documented.len() as int);
                }
                return Err(
                    error_at(
                        path,
                        self.documented[i].line,
                        "lazy command ".to_owned().concat(quote(name).as_str()).concat(" is not provided by this source").as_str(),
                    ),
                );
            }
            if position(&commands, name).is_some() {
                proof {
                    lemma_accepted_stays(path@, view, i + 1, view.documented.len() as int);
                }
                return Err(
                    error_at(
                        path,
                        self.documented[i].line,
                        "lazy command ".to_owned().concat(quote(name).as_str()).concat(" is declared more than once").as_str(),
                    ),
                );
            }
            let ghost before = commands@;
            commands.push((self.documented[i].name.clone(), self.documented[i].summary.clone()));
            proof {
                assert(doc_views(commands@) =~= doc_views(before).push(
                    (view.documented[i as int].name, view.documented[i as int].summary),
                ));
            }
            i += 1;
        }
        Ok(commands)
    }
}

/// Where a command stands in a list.
fn position(commands: &Vec<(String, String)>, name: &str) -> (out: Option<usize>)
    ensures
        match out {
            Some(i) => i < commands@.len() && crate::text::find_name(doc_names(doc_views(commands@)), name@, 0) == Some(
                i as int,
            ) && doc_names(doc_views(commands@)).contains(name@),
            None => crate::text::find_name(doc_names(doc_views(commands@)), name@, 0) is None && !doc_names(
                doc_views(commands@),
            ).contains(name@),
        },
{
    let ghost names = doc_names(doc_views(commands@));
    proof {
        crate::text::lemma_find_name(names, name@, 0);
    }
    let mut i: usize = 0;
    while i < commands.len()
        invariant
            i <= commands@.len(),
            names == doc_names(doc_views(commands@)),
            crate::text::find_name(names, name@, 0) == crate::text::find_name(names, name@, i as int),
        decreases commands.len() - i,
    {
        proof {
            assert(names[i as int] == commands@[i as int].0@);
        }
        if same_text(commands[i].0.as_str(), name) {
            proof {
                assert(names.contains(name@));
            }
            return Some(i);
        }
        i += 1;
    }
    None
}

/// The commands that a source declares.
pub fn scan_source(path: &str, source: &str) -> (out: Result<Vec<(String, String)>, LazyError>)
    requires
        crate::text::byte_length(source@) < usize::MAX,
    ensures
        match commands_of(path@, source@, forms_if_readable(source@, documented_forms(source@))) {
            Ok(commands) => out is Ok && doc_views(out->Ok_0@) == commands,
            Err(message) => out is Err && out->Err_0.message@ == message,
        },
{
    let ghost all = documented_forms(source@);
    if !is_readable(source) {
        return Err(error_at(path, line_number(source, 0), "source holds a form that cannot be read"));
    }
    let mut scan = Scan::new();
    let ghost first = scan@;
    let mut parser = doc_comment_parser(source);
    loop
        invariant
            crate::text::byte_length(source@) < usize::MAX,
            all == documented_forms(source@),
            readable(source@),
            super::forms::text_of(parser) == source@,
            first == (ScanView { consumed: Seq::empty(), provides: Seq::empty(), documented: Seq::empty() }),
            scan_forms(path@, source@, super::forms::forms_of(parser), scan@) == scan_forms(path@, source@, all, first),
        decreases super::forms::forms_of(parser).len(),
    {
        match next_form(&mut parser) {
            None => {
                return scan.finish(path, source);
            },
            Some(Err((start, message))) => {
                return Err(error_at(path, line_number(source, start), message.as_str()));
            },
            Some(Ok(form)) => {
                if let Err(error) = scan.record(path, source, classify(form)) {
                    return Err(error);
                }
            },
        }
    }
}

/// Why a number of sources is refused, if it is.
pub open spec fn count_refusal(count: nat) -> Option<Seq<char>> {
    if count == 0 {
        Some("lazy command discovery requires at least one source"@)
    } else if count > MAX_SOURCE_COUNT {
        Some("lazy command discovery accepts at most 256 sources"@)
    } else {
        None
    }
}

/// Refuses requests with no source, and those with too many.
pub fn check_source_count(count: usize) -> (out: Result<(), LazyError>)
    ensures
        (match out {
            Ok(()) => None,
            Err(error) => Some(error.message@),
        }) == count_refusal(count as nat),
{
    if count == 0 {
        return Err(LazyError { message: "lazy command discovery requires at least one source".to_owned() });
    }
    if count > MAX_SOURCE_COUNT {
        return Err(LazyError { message: "lazy command discovery accepts at most 256 sources".to_owned() });
    }
    Ok(())
}

/// Why a source is refused by its name, if it is. `scheme` tells whether the
/// file extension is `scm`.
pub open spec fn source_name_refusal(source: Seq<char>, scheme: bool) -> Option<Seq<char>> {
    if source.len() == 0 || super::registration::holds_break(source) {
        Some("lazy discovery source contains an invalid path: "@ + crate::text::quoted(source))
    } else if !scheme {
        Some("lazy discovery source must be a .scm file: "@ + crate::text::quoted(source))
    } else {
        None
    }
}

/// Refuses names that are no path, and paths of files of another kind.
pub fn check_source_name(source: &str, extension: Option<&str>) -> (out: Result<(), LazyError>)
    ensures
        (match out {
            Ok(()) => None,
            Err(error) => Some(error.message@),
        }) == source_name_refusal(source@, extension is Some && extension->0@ == "scm"@),
{
    let length: usize = chars_of(source).len();
    if length == 0 || has_break(source) {
        return Err(
            LazyError { message: "lazy discovery source contains an invalid path: ".to_owned().concat(quote(source).as_str()) },
        );
    }
    let scheme = match extension {
        Some(extension) => same_text(extension, "scm"),
        None => false,
    };
    if !scheme {
        return Err(
            LazyError { message: "lazy discovery source must be a .scm file: ".to_owned().concat(quote(source).as_str()) },
        );
    }
    Ok(())
}

/// The bytes of all sources with one more, or why that one is refused.
pub open spec fn accounted(path: Seq<char>, total: u64, bytes: u64) -> Result<u64, Seq<char>> {
    if bytes > MAX_SOURCE_BYTES {
        Err(unlocated(path, "source exceeds the 1048576-byte limit"@))
    } else if total + bytes > u64::MAX {
        Err("lazy command discovery aggregate source size overflowed"@)
    } else if total + bytes > MAX_REQUEST_BYTES {
        Err("lazy command discovery sources exceed the 16777216-byte aggregate limit"@)
    } else {
        Ok((total + bytes) as u64)
    }
}

/// Adds the size of a source to the size of those before it.
pub fn account_source(path: &str, total: u64, bytes: u64) -> (out: Result<u64, LazyError>)
    ensures
        match accounted(path@, total, bytes) {
            Ok(sum) => out == Ok::<u64, LazyError>(sum),
            Err(message) => out is Err && out->Err_0.message@ == message,
        },
{
    if bytes > MAX_SOURCE_BYTES {
        return Err(error_in(path, "source exceeds the 1048576-byte limit"));
    }
    match total.checked_add(bytes) {
        Some(sum) => if sum > MAX_REQUEST_BYTES {
            Err(
                LazyError {
                    message: "lazy command discovery sources exceed the 16777216-byte aggregate limit".to_owned(),
                },
            )
        } else {
            Ok(sum)
        },
        None => Err(LazyError { message: "lazy command discovery aggregate source size overflowed".to_owned() }),
    }
}

/// The first of the candidates that is a file.
pub open spec fn first_file(candidates: Seq<(String, bool)>, from: int) -> Option<int>
    decreases candidates.len() - from,
{
    if from < 0 || from >= candidates.len() {
        None
    } else if candidates[from].1 {
        Some(from)
    } else {
        first_file(candidates, from + 1)
    }
}

/// Where a source is found: at the first of the places it may have that is a
/// file.
pub fn resolve_source(source: &str, candidates: &Vec<(String, bool)>) -> (out: Result<String, LazyError>)
    ensures
        match first_file(candidates@, 0) {
            Some(i) => out is Ok && out->Ok_0@ == candidates@[i].0@,
            None => out is Err && out->Err_0.message@ == "lazy discovery source was not found: "@ + crate::text::quoted(
                source@,
            ),
        },
{
    let mut i: usize = 0;
    while i < candidates.len()
        invariant
            i <= candidates@.len(),
            first_file(candidates@, 0) == first_file(candidates@, i as int),
        decreases candidates.len() - i,
    {
        if candidates[i].1 {
            return Ok(candidates[i].0.clone());
        }
        i += 1;
    }
    Err(LazyError { message: "lazy discovery source was not found: ".to_owned().concat(quote(source).as_str()) })
}

/// Whether paths are in order, each of them once.
pub open spec fn paths_in_order(paths: Seq<Seq<char>>) -> bool {
    forall|i: int, j: int| 0 <= i < j < paths.len() ==> path_before(#[trigger] paths[i], #[trigger] paths[j])
}

/// The paths in order, each of them once.
pub fn order_sources(paths: &Vec<String>) -> (out: Vec<String>)
    ensures
        paths_in_order(string_views(out@)),
        forall|x: Seq<char>| #[trigger] string_views(out@).contains(x) <==> string_views(paths@).contains(x),
{
    let ghost all = string_views(paths@);
    let mut out: Vec<String> = Vec::new();
    let mut i: usize = 0;
    while i < paths.len()
        invariant
            i <= paths@.len(),
            all == string_views(paths@),
            paths_in_order(string_views(out@)),
            forall|x: Seq<char>| #[trigger] string_views(out@).contains(x) <==> all.subrange(0, i as int).contains(x),
        decreases paths.len() - i,
    {
        let ghost sorted = string_views(out@);
        let ghost path = paths@[i as int]@;
        let ghost now = all.subrange(0, i + 1);
        proof {
            assert(now =~= all.subrange(0, i as int).push(path));
        }
        let mut at: usize = out.len();
        while at > 0 && !is_path_before(out[at - 1].as_str(), paths[i].as_str())
            invariant
                i < paths@.len(),
                path == paths@[i as int]@,
                at <= out@.len(),
                sorted == string_views(out@),
                forall|k: int| at <= k < sorted.len() ==> !path_before(#[trigger] sorted[k], path),
            decreases at,
        {
            at -= 1;
            proof {
                assert(sorted[at as int] == out@[at as int]@);
            }
        }
        let known = at < out.len() && same_text(out[at].as_str(), paths[i].as_str());
        proof {
            if at < sorted.len() {
                assert(sorted[at as int] == out@[at as int]@);
            }
            assert forall|x: Seq<char>| #[trigger] now.contains(x) <==> all.subrange(0, i as int).contains(x) || x == path by {
                let before = all.subrange(0, i as int);
                if before.contains(x) {
                    let k = choose|k: int| 0 <= k < before.len() && before[k] == x;
                    assert(now[k] == x);
                }
                if x == path {
                    assert(now[i as int] == path);
                }
            }
            if known {
                assert(sorted.contains(path));
            }
        }
        if !known {
            out.insert(at, paths[i].clone());
            proof {
                let after = string_views(out@);
                assert(after =~= sorted.insert(at as int, path));
                assert forall|k: int| 0 <= k < at implies path_before(#[trigger] sorted[k], path) by {
                    assert(sorted[at - 1] == out@[at - 1]@);
                    if k < at - 1 {
                        lemma_path_order_transitive(sorted[k], sorted[at - 1], path);
                    }
                }
                assert forall|k: int| at <= k < sorted.len() implies path_before(path, #[trigger] sorted[k]) by {
                    lemma_path_order(sorted[k], path);
                    if k > at && sorted[k] == path {
                        assert(path_before(sorted[at as int], sorted[k]));
                    }
                }
                assert forall|a: int, b: int| 0 <= a < b < after.len() implies path_before(
                    #[trigger] after[a],
                    #[trigger] after[b],
                ) by {
                    let x = if a < at {
                        a
                    } else {
                        a - 1
                    };
                    let y = if b < at {
                        b
                    } else {
                        b - 1
                    };
                    if a == at {
                        assert(after[b] == sorted[y]);
                    } else if b == at {
                        assert(after[a] == sorted[x]);
                    } else {
                        assert(after[a] == sorted[x] && after[b] == sorted[y]);
                    }
                }
                assert forall|x: Seq<char>| #[trigger] after.contains(x) <==> sorted.contains(x) || x == path by {
                    if after.contains(x) {
                        let k = choose|k: int| 0 <= k < after.len() && after[k] == x;
                        if k < at {
                            assert(sorted[k] == x);
                        } else if k > at {
                            assert(sorted[k - 1] == x);
                        }
                    }
                    if sorted.contains(x) {
                        let k = choose|k: int| 0 <= k < sorted.len() && sorted[k] == x;
                        if k < at {
                            assert(after[k] == x);
                        } else {
                            assert(after[k + 1] == x);
                        }
                    }
                    if x == path {
                        assert(after[at as int] == x);
                    }
                }
            }
        }
        i += 1;
    }
    proof {
        assert(all.subrange(0, all.len() as int) =~= all);
    }
    out
}

/// The commands found so far with the first `n` of those of one more source,
/// or why they clash.
pub open spec fn merged(
    found: Seq<(Seq<char>, Seq<char>)>,
    commands: Seq<(Seq<char>, Seq<char>)>,
    n: int,
) -> Result<Seq<(Seq<char>, Seq<char>)>, Seq<char>>
    decreases n,
{
    if n <= 0 {
        Ok(found)
    } else {
        match merged(found, commands, n - 1) {
            Err(message) => Err(message),
            Ok(all) => {
                let (name, doc) = commands[n - 1];
                match crate::text::find_name(doc_names(all), name, 0) {
                    Some(i) => Err(
                        "lazy command "@ + crate::text::quoted(name) + " was discovered more than once with documentation "@
                            + crate::text::quoted(all[i].1) + " and "@ + crate::text::quoted(doc),
                    ),
                    None => Ok(all.push((name, doc))),
                }
            },
        }
    }
}

proof fn lemma_merged_stays(found: Seq<(Seq<char>, Seq<char>)>, commands: Seq<(Seq<char>, Seq<char>)>, n: int, m: int)
    requires
        0 <= n <= m,
        merged(found, commands, n) is Err,
    ensures
        merged(found, commands, m) == merged(found, commands, n),
    decreases m,
{
    if n < m {
        lemma_merged_stays(found, commands, n, m - 1);
    }
}

proof fn lemma_merged_distinct(found: Seq<(Seq<char>, Seq<char>)>, commands: Seq<(Seq<char>, Seq<char>)>, n: int)
    requires
        doc_names(found).no_duplicates(),
        merged(found, commands, n) is Ok,
    ensures
        doc_names(merged(found, commands, n)->Ok_0).no_duplicates(),
    decreases n,
{
    if n > 0 {
        lemma_merged_distinct(found, commands, n - 1);
        let all = merged(found, commands, n - 1)->Ok_0;
        let name = commands[n - 1].0;
        crate::text::lemma_find_name(doc_names(all), name, 0);
        assert(doc_names(merged(found, commands, n)->Ok_0) =~= doc_names(all).push(name));
    }
}

/// Adds the commands of a source to those found before.
pub fn merge_commands(found: Vec<(String, String)>, commands: &Vec<(String, String)>) -> (out: Result<
    Vec<(String, String)>,
    LazyError,
>)
    ensures
        match merged(doc_views(found@), doc_views(commands@), commands@.len() as int) {
            Ok(all) => out is Ok && doc_views(out->Ok_0@) == all,
            Err(message) => out is Err && out->Err_0.message@ == message,
        },
{
    let ghost first = doc_views(found@);
    let ghost added = doc_views(commands@);
    let mut all = found;
    let mut i: usize = 0;
    while i < commands.len()
        invariant
            i <= commands@.len(),
            first == doc_views(found@),
            added == doc_views(commands@),
            merged(first, added, i as int) == Ok::<Seq<(Seq<char>, Seq<char>)>, Seq<char>>(doc_views(all@)),
        decreases commands.len() - i,
    {
        let ghost before = all@;
        proof {
            assert(added[i as int] == (commands@[i as int].0@, commands@[i as int].1@));
        }
        if let Some(at) = position(&all, commands[i].0.as_str()) {
            proof {
                assert(doc_views(all@)[at as int].1 == all@[at as int].1@);
                lemma_merged_stays(first, added, i + 1, commands@.len() as int);
            }
            return Err(
                LazyError {
                    message: "lazy command ".to_owned().concat(quote(commands[i].0.as_str()).as_str()).concat(
                        " was discovered more than once with documentation ",
                    ).concat(quote(all[at].1.as_str()).as_str()).concat(" and ").concat(
                        quote(commands[i].1.as_str()).as_str(),
                    ),
                },
            );
        }
        all.push((commands[i].0.clone(), commands[i].1.clone()));
        proof {
            assert(doc_views(all@) =~= doc_views(before).push(added[i as int]));
        }
        i += 1;
    }
    Ok(all)
}

/// A source that is to be searched: its path, and its text or why it could
/// not be read.
pub struct SourceFile {
    pub path: String,
    pub text: Result<String, String>,
}

/// The contents of a [`SourceFile`].
pub struct SourceView {
    pub path: Seq<char>,
    pub text: Result<Seq<char>, Seq<char>>,
}

impl View for SourceFile {
    type V = SourceView;

    open spec fn view(&self) -> SourceView {
        SourceView {
            path: self.path@,
            text: match self.text {
                Ok(text) => Ok(text@),
                Err(message) => Err(message@),
            },
        }
    }
}

/// The commands of one source.
pub struct CachedSource {
    pub path: String,
    pub commands: Vec<(String, String)>,
}

/// The contents of a [`CachedSource`].
pub struct CachedView {
    pub path: Seq<char>,
    pub commands: Seq<(Seq<char>, Seq<char>)>,
}

impl View for CachedSource {
    type V = CachedView;

    open spec fn view(&self) -> CachedView {
        CachedView { path: self.path@, commands: doc_views(self.commands@) }
    }
}

/// The commands of the sources that were searched in this generation.
pub struct DiscoveryCache {
    pub sources: Vec<CachedSource>,
}

/// Where a path stands among cached sources.
pub open spec fn cached_at(cache: Seq<CachedView>, path: Seq<char>) -> Option<int> {
    crate::text::find_name(Seq::new(cache.len(), |i: int| cache[i].path), path, 0)
}

/// The commands of one source, out of the cache where it is there.
pub open spec fn lookup(cache: Seq<CachedView>, source: SourceView) -> Result<Seq<(Seq<char>, Seq<char>)>, Seq<char>> {
    match cached_at(cache, source.path) {
        Some(i) => Ok(cache[i].commands),
        None => match source.text {
            Ok(text) => commands_of(source.path, text, forms_if_readable(text, documented_forms(text))),
            Err(message) => Err(unlocated(source.path, "failed to read source: "@ + message)),
        },
    }
}

/// The cache once a source has been searched.
pub open spec fn cached(cache: Seq<CachedView>, source: SourceView) -> Seq<CachedView> {
    if cached_at(cache, source.path) is Some {
        cache
    } else {
        match lookup(cache, source) {
            Ok(commands) => cache.push(CachedView { path: source.path, commands }),
            Err(_) => cache,
        }
    }
}

/// The cache once the first `n` sources have been searched.
pub open spec fn cache_after(cache: Seq<CachedView>, sources: Seq<SourceView>, n: int) -> Seq<CachedView>
    decreases n,
{
    if n <= 0 {
        cache
    } else {
        cached(cache_after(cache, sources, n - 1), sources[n - 1])
    }
}

/// The commands of the first `n` sources, or why they are refused.
pub open spec fn found_in(cache: Seq<CachedView>, sources: Seq<SourceView>, n: int) -> Result<
    Seq<(Seq<char>, Seq<char>)>,
    Seq<char>,
>
    decreases n,
{
    if n <= 0 {
        Ok(Seq::empty())
    } else {
        match found_in(cache, sources, n - 1) {
            Err(message) => Err(message),
            Ok(found) => match lookup(cache_after(cache, sources, n - 1), sources[n - 1]) {
                Err(message) => Err(message),
                Ok(commands) => merged(found, commands, commands.len() as int),
            },
        }
    }
}

/// How many sources are searched, of which the first `n` were found to be in
/// order: those up to and including the first one that is refused, or all.
pub open spec fn searched_from(cache: Seq<CachedView>, sources: Seq<SourceView>, n: int) -> int
    decreases sources.len() - n,
{
    if n >= sources.len() {
        sources.len() as int
    } else if found_in(cache, sources, n + 1) is Err {
        n + 1
    } else {
        searched_from(cache, sources, n + 1)
    }
}

/// The cache once the sources have been searched, up to and including the first
/// one that is refused.
pub open spec fn cache_searched(cache: Seq<CachedView>, sources: Seq<SourceView>) -> Seq<CachedView> {
    cache_after(cache, sources, searched_from(cache, sources, 0))
}

proof fn lemma_found_stays(cache: Seq<CachedView>, sources: Seq<SourceView>, n: int, m: int)
    requires
        0 <= n <= m,
        found_in(cache, sources, n) is Err,
    ensures
        found_in(cache, sources, m) == found_in(cache, sources, n),
    decreases m,
{
    if n < m {
        lemma_found_stays(cache, sources, n, m - 1);
    }
}

/// The commands of several sources have distinct names.
pub proof fn law_merged_commands_are_distinct(cache: Seq<CachedView>, sources: Seq<SourceView>, n: int)
    requires
        found_in(cache, sources, n) is Ok,
    ensures
        doc_names(found_in(cache, sources, n)->Ok_0).no_duplicates(),
    decreases n,
{
    if n > 0 {
        law_merged_commands_are_distinct(cache, sources, n - 1);
        let found = found_in(cache, sources, n - 1)->Ok_0;
        let commands = lookup(cache_after(cache, sources, n - 1), sources[n - 1])->Ok_0;
        lemma_merged_distinct(found, commands, commands.len() as int);
    }
}

/// A source that was searched is not read again before the cache is reset:
/// whatever its text is now, the commands are those found first.
pub proof fn law_cache_answers_until_reset(cache: Seq<CachedView>, before: SourceView, after: SourceView)
    requires
        before.path == after.path,
        lookup(cache, before) is Ok,
    ensures
        lookup(cached(cache, before), after) == lookup(cache, before),
        cached(cached(cache, before), after) == cached(cache, before),
{
    let next = cached(cache, before);
    let paths = Seq::new(next.len(), |i: int| next[i].path);
    crate::text::lemma_find_name(paths, before.path, 0);
    crate::text::lemma_find_name(Seq::new(cache.len(), |i: int| cache[i].path), before.path, 0);
    if cached_at(cache, before.path) is None {
        assert(paths[cache.len() as int] == before.path);
        let i = cached_at(next, before.path)->0;
        if i < cache.len() {
            assert(Seq::new(cache.len(), |i: int| cache[i].path)[i] == before.path);
        }
    }
}

/// What was searched once is answered from the cache after any more sources have
/// been searched, whether they were refused or not.
pub proof fn law_searched_sources_are_not_read_again(cache: Seq<CachedView>, sources: Seq<SourceView>, source: SourceView)
    requires
        cached_at(cache, source.path) is Some,
    ensures
        lookup(cache_searched(cache, sources), source) == lookup(cache, source),
        cached(cache_searched(cache, sources), source) == cache_searched(cache, sources),
{
    lemma_cache_stays(cache, sources, searched_from(cache, sources, 0), source.path);
}

proof fn lemma_cache_stays(cache: Seq<CachedView>, sources: Seq<SourceView>, n: int, path: Seq<char>)
    requires
        cached_at(cache, path) is Some,
    ensures
        cached_at(cache_after(cache, sources, n), path) == cached_at(cache, path),
        cache.len() <= cache_after(cache, sources, n).len(),
        0 <= cached_at(cache, path)->0 < cache.len(),
        forall|i: int| 0 <= i < cache.len() ==> #[trigger] cache_after(cache, sources, n)[i] == cache[i],
    decreases n,
{
    let paths = Seq::new(cache.len(), |i: int| cache[i].path);
    crate::text::lemma_find_name(paths, path, 0);
    if n > 0 {
        lemma_cache_stays(cache, sources, n - 1, path);
        let next = cache_after(cache, sources, n);
        assert forall|i: int| 0 <= i < cache.len() implies #[trigger] next[i] == cache[i] by {
            assert(cache_after(cache, sources, n - 1)[i] == cache[i]);
        }
        let now = Seq::new(next.len(), |i: int| next[i].path);
        crate::text::lemma_find_name(now, path, 0);
        let at = cached_at(cache, path)->0;
        assert(now[at] == path);
        let found = cached_at(next, path)->0;
        if found < at {
            assert(paths[found] == now[found]);
        }
    }
}

fn copy_commands(commands: &Vec<(String, String)>) -> (out: Vec<(String, String)>)
    ensures
        doc_views(out@) == doc_views(commands@),
{
    let mut out: Vec<(String, String)> = Vec::new();
    let mut i: usize = 0;
    while i < commands.len()
        invariant
            i <= commands@.len(),
            out@.len() == i,
            forall|k: int|
                0 <= k < i ==> (#[trigger] out@[k]).0@ == commands@[k].0@ && out@[k].1@ == commands@[k].1@,
        decreases commands.len() - i,
    {
        out.push((commands[i].0.clone(), commands[i].1.clone()));
        i += 1;
    }
    proof {
        assert(doc_views(out@) =~= doc_views(commands@));
    }
    out
}

impl View for DiscoveryCache {
    type V = Seq<CachedView>;

    open spec fn view(&self) -> Seq<CachedView> {
        super::state::views(self.sources@)
    }
}

impl DiscoveryCache {
    pub fn new() -> (out: DiscoveryCache)
        ensures
            out@ == Seq::<CachedView>::empty(),
    {
        let out = DiscoveryCache { sources: Vec::new() };
        proof {
            assert(out@ =~= Seq::<CachedView>::empty());
        }
        out
    }

    /// Forgets all sources.
    pub fn reset(&mut self)
        ensures
            final(self)@ == Seq::<CachedView>::empty(),
    {
        self.sources.clear();
        proof {
            assert(self@ =~= Seq::<CachedView>::empty());
        }
    }

    fn index(&self, path: &str) -> (out: Option<usize>)
        ensures
            match out {
                Some(i) => i < self.sources@.len() && cached_at(self@, path@) == Some(i as int),
                None => cached_at(self@, path@) is None,
            },
    {
        let ghost paths = Seq::new(self@.len(), |i: int| self@[i].path);
        let mut i: usize = 0;
        while i < self.sources.len()
            invariant
                i <= self.sources@.len(),
                paths == Seq::new(self@.len(), |i: int| self@[i].path),
                crate::text::find_name(paths, path@, 0) == crate::text::find_name(paths, path@, i as int),
            decreases self.sources.len() - i,
        {
            proof {
                assert(paths[i as int] == self.sources@[i as int].path@);
            }
            if same_text(self.sources[i].path.as_str(), path) {
                return Some(i);
            }
            i += 1;
        }
        None
    }

    /// Whether a source was searched already, so that its text is not needed.
    pub fn holds(&self, path: &str) -> (out: bool)
        ensures
            out == (cached_at(self@, path@) is Some),
    {
        self.index(path).is_some()
    }

    /// The commands of one source, out of the cache where it is there.
    pub fn scan(&mut self, source: &SourceFile) -> (out: Result<Vec<(String, String)>, LazyError>)
        requires
            source@.text is Ok ==> crate::text::byte_length(source@.text->Ok_0) < usize::MAX,
        ensures
            final(self)@ == cached(old(self)@, source@),
            match lookup(old(self)@, source@) {
                Ok(commands) => out is Ok && doc_views(out->Ok_0@) == commands,
                Err(message) => out is Err && out->Err_0.message@ == message,
            },
    {
        if let Some(i) = self.index(source.path.as_str()) {
            proof {
                assert(self@[i as int] == self.sources@[i as int]@);
            }
            return Ok(copy_commands(&self.sources[i].commands));
        }
        let text = match &source.text {
            Ok(text) => text,
            Err(message) => {
                return Err(
                    error_in(source.path.as_str(), "failed to read source: ".to_owned().concat(message.as_str()).as_str()),
                );
            },
        };
        match scan_source(source.path.as_str(), text.as_str()) {
            Ok(commands) => {
                let ghost before = self.sources@;
                let entry = CachedSource { path: source.path.clone(), commands: copy_commands(&commands) };
                let ghost pushed = entry;
                self.sources.push(entry);
                proof {
                    super::state::lemma_views_push(before, pushed);
                }
                Ok(commands)
            },
            Err(error) => Err(error),
        }
    }

    /// The commands of all sources.
    pub fn discover_commands(&mut self, sources: &Vec<SourceFile>) -> (out: Result<Vec<(String, String)>, LazyError>)
        requires
            forall|i: int|
                0 <= i < sources@.len() && (#[trigger] sources@[i])@.text is Ok ==> crate::text::byte_length(
                    sources@[i]@.text->Ok_0,
                ) < usize::MAX,
        ensures
            match found_in(old(self)@, super::state::views(sources@), sources@.len() as int) {
                Ok(commands) => out is Ok && doc_views(out->Ok_0@) == commands && doc_names(commands).no_duplicates(),
                Err(message) => out is Err && out->Err_0.message@ == message,
            },
            final(self)@ == cache_searched(old(self)@, super::state::views(sources@)),
    {
        let ghost first = self@;
        let ghost all = super::state::views(sources@);
        let mut found: Vec<(String, String)> = Vec::new();
        let mut i: usize = 0;
        proof {
            assert(doc_views(found@) =~= Seq::<(Seq<char>, Seq<char>)>::empty());
        }
        while i < sources.len()
            invariant
                i <= sources@.len(),
                first == old(self)@,
                all == super::state::views(sources@),
                forall|i: int|
                    0 <= i < sources@.len() && (#[trigger] sources@[i])@.text is Ok ==> crate::text::byte_length(
                        sources@[i]@.text->Ok_0,
                    ) < usize::MAX,
                self@ == cache_after(first, all, i as int),
                searched_from(first, all, 0) == searched_from(first, all, i as int),
                found_in(first, all, i as int) == Ok::<Seq<(Seq<char>, Seq<char>)>, Seq<char>>(doc_views(found@)),
            decreases sources.len() - i,
        {
            proof {
                assert(all[i as int] == sources@[i as int]@);
            }
            let commands = match self.scan(&sources[i]) {
                Ok(commands) => commands,
                Err(error) => {
                    proof {
                        lemma_found_stays(first, all, i + 1, all.len() as int);
                        assert(self@ == cache_after(first, all, i + 1));
                    }
                    return Err(error);
                },
            };
            found = match merge_commands(found, &commands) {
                Ok(found) => found,
                Err(error) => {
                    proof {
                        lemma_found_stays(first, all, i + 1, all.len() as int);
                        assert(self@ == cache_after(first, all, i + 1));
                    }
                    return Err(error);
                },
            };
            i += 1;
        }
        proof {
            law_merged_commands_are_distinct(first, all, all.len() as int);
        }
        Ok(found)
    }
}

impl Registry {
    /// Registers a plugin whose commands are found in its sources.
    pub fn register_discovered_lazy_plugin(
        &mut self,
        cache: &mut DiscoveryCache,
        name: String,
        modules: Vec<String>,
        initializers: Vec<String>,
        sources: &Vec<SourceFile>,
    ) -> (out: Result<Option<u64>, LazyError>)
        requires
            old(self).wf(),
            forall|i: int|
                0 <= i < sources@.len() && (#[trigger] sources@[i])@.text is Ok ==> crate::text::byte_length(
                    sources@[i]@.text->Ok_0,
                ) < usize::MAX,
        ensures
            final(self).wf(),
            final(cache)@ == cache_searched(old(cache)@, super::state::views(sources@)),
            match found_in(old(cache)@, super::state::views(sources@), sources@.len() as int) {
                Err(message) => out is Err && out->Err_0.message@ == message && final(self)@ == old(self)@,
                Ok(docs) => {
                    let request = Request {
                        logical_name: name@,
                        name: name@,
                        modules: string_views(modules@),
                        initializers: string_views(initializers@),
                        docs,
                        kind: RegistrationKind::Lazy,
                    };
                    match registration_refusal(old(self)@, request) {
                        Some(message) => out is Err && out->Err_0.message@ == message && final(self)@ == old(self)@,
                        None => final(self)@ == registered(old(self)@, request) && out == Ok::<Option<u64>, LazyError>(None),
                    }
                },
            },
    {
        match cache.discover_commands(sources) {
            Ok(command_docs) => self.register_lazy_plugin(name, modules, initializers, command_docs),
            Err(error) => Err(error),
        }
    }

    /// Registers a manifest whose commands are found in its sources.
    pub fn register_discovered_logical_lazy_plugin(
        &mut self,
        cache: &mut DiscoveryCache,
        logical_name: String,
        name: String,
        modules: Vec<String>,
        initializers: Vec<String>,
        sources: &Vec<SourceFile>,
    ) -> (out: Result<Option<u64>, LazyError>)
        requires
            old(self).wf(),
            forall|i: int|
                0 <= i < sources@.len() && (#[trigger] sources@[i])@.text is Ok ==> crate::text::byte_length(
                    sources@[i]@.text->Ok_0,
                ) < usize::MAX,
        ensures
            final(self).wf(),
            final(cache)@ == cache_searched(old(cache)@, super::state::views(sources@)),
            match found_in(old(cache)@, super::state::views(sources@), sources@.len() as int) {
                Err(message) => out is Err && out->Err_0.message@ == message && final(self)@ == old(self)@,
                Ok(docs) => {
                    let request = Request {
                        logical_name: logical_name@,
                        name: name@,
                        modules: string_views(modules@),
                        initializers: string_views(initializers@),
                        docs,
                        kind: RegistrationKind::Lazy,
                    };
                    match registration_refusal(old(self)@, request) {
                        Some(message) => out is Err && out->Err_0.message@ == message && final(self)@ == old(self)@,
                        None => final(self)@ == registered(old(self)@, request) && out == Ok::<Option<u64>, LazyError>(None),
                    }
                },
            },
    {
        match cache.discover_commands(sources) {
            Ok(command_docs) => self.register_logical_lazy_plugin(logical_name, name, modules, initializers, command_docs),
            Err(error) => Err(error),
        }
    }
}

} // verus!
