//! Syntax highlight spans for previews.
//!
//! Offsets are character indices, because script strings are indexed by
//! character while the highlighter works in bytes.

use vstd::prelude::*;

use crate::char_index::{
    boundary_after, bytes_of, ceil_char_boundary, chars_before, lemma_boundary_after, lemma_chars_monotonic,
    ByteToChar,
};
use crate::graphics::Style;
use crate::text::text_bytes;

verus! {

/// Highlighting is requested from render paths, so an unbounded parse would
/// stall the frame loop. Above this many bytes nothing is highlighted.
pub const HIGHLIGHT_BYTE_BUDGET: usize = 1_048_576;

/// A styled range of characters.
#[derive(Clone, Copy, Debug, PartialEq, Eq, Structural)]
pub struct Span {
    pub start: usize,
    pub end: usize,
    pub style: Style,
}

/// The character index at or after a byte offset that may lie inside a
/// character or past the end.
pub open spec fn char_at_or_after(text: Seq<char>, offset: int) -> nat {
    chars_before(text, boundary_after(text, offset))
}

/// What is collected: the spans closed so far, the start of the open one and
/// its style.
pub struct Collected {
    pub spans: Seq<Span>,
    pub start: nat,
    pub style: Style,
}

impl Collected {
    /// Closes the open span at a character index.
    pub open spec fn close(self, end: nat) -> Collected {
        if end <= self.start {
            self
        } else if self.style == Style::plain() {
            Collected { start: end, ..self }
        } else {
            Collected {
                spans: self.spans.push(Span { start: self.start as usize, end: end as usize, style: self.style }),
                start: end,
                ..self
            }
        }
    }

    /// Whether the spans are in order, apart, styled and before the open one.
    pub open spec fn tidy(self) -> bool {
        &&& forall|i: int|
            0 <= i < self.spans.len() ==> (#[trigger] self.spans[i]).start < self.spans[i].end <= self.start
                && self.spans[i].style != Style::plain()
        &&& forall|i: int, j: int|
            0 <= i < j < self.spans.len() ==> (#[trigger] self.spans[i]).end <= (#[trigger] self.spans[j]).start
    }
}

/// Accumulates highlight events into non-overlapping character spans.
pub struct SpanCollector<'a> {
    pub source: &'a str,
    pub collected: Vec<Span>,
    pub start: usize,
    pub style: Style,
}

impl<'a> SpanCollector<'a> {
    pub open spec fn text(&self) -> Seq<char> {
        self.source@
    }

    /// What was collected so far.
    pub open spec fn state(&self) -> Collected {
        Collected { spans: self.collected@, start: self.start as nat, style: self.style }
    }

    pub open spec fn wf(&self) -> bool {
        &&& self.state().start <= self.text().len()
        &&& self.state().tidy()
    }

    pub fn new(source: &'a str) -> (out: SpanCollector<'a>)
        ensures
            out.wf(),
            out.text() == source@,
            out.state() == (Collected { spans: Seq::empty(), start: 0, style: Style::plain() }),
            out.style == Style::plain(),
    {
        SpanCollector { source, collected: Vec::new(), start: 0, style: Style::default() }
    }

    /// Gives the open span a style.
    pub fn set_style(&mut self, style: Style)
        requires
            old(self).wf(),
        ensures
            final(self).wf(),
            final(self).text() == old(self).text(),
            final(self).state() == (Collected { style, ..old(self).state() }),
            final(self).style == style,
    {
        self.style = style;
    }

    fn push(&mut self, end: usize)
        requires
            old(self).wf(),
            end <= old(self).text().len(),
        ensures
            final(self).wf(),
            final(self).text() == old(self).text(),
            final(self).state() == old(self).state().close(end as nat),
            final(self).style == old(self).style,
    {
        if end <= self.start {
            return;
        }
        if self.style != Style::default() {
            self.collected.push(Span { start: self.start, end, style: self.style });
        }
        self.start = end;
    }

    /// Closes the open span at `offset`, a byte offset into the source. Byte
    /// offsets can land inside a character, so they are rounded up.
    pub fn advance_to(&mut self, offset: u32)
        requires
            old(self).wf(),
        ensures
            final(self).wf(),
            final(self).text() == old(self).text(),
            final(self).state() == old(self).state().close(char_at_or_after(old(self).text(), offset as int)),
            final(self).style == old(self).style,
    {
        proof {
            lemma_boundary_after(self.text(), offset as int);
            let at = boundary_after(self.text(), offset as int);
            lemma_chars_monotonic(self.text(), at, at);
        }
        let at = ceil_char_boundary(self.source, offset as usize);
        let mut converter = ByteToChar::new(self.source);
        let position = converter.convert(at);
        self.push(position);
    }

    /// Closes the open span at the end of the source and returns the spans.
    pub fn finish(self) -> (out: Vec<Span>)
        requires
            self.wf(),
        ensures
            out@ == self.state().close(self.text().len()).spans,
    {
        let mut collector = self;
        let end: usize = collector.source.unicode_len();
        collector.push(end);
        collector.collected
    }
}

/// A change of the highlights at a byte offset.
#[derive(Debug)]
pub struct HighlightChange {
    pub offset: u32,
    /// Whether the styles replace those in force rather than adding to them.
    pub refresh: bool,
    pub styles: Vec<Style>,
}

/// The effect of the styles one after the other.
pub open spec fn folded(base: Style, styles: Seq<Style>) -> Style
    decreases styles.len(),
{
    if styles.len() == 0 {
        base
    } else {
        folded(base, styles.drop_last()).patched(styles.last())
    }
}

/// What is collected after the first `count` changes.
pub open spec fn after_changes(text: Seq<char>, changes: Seq<HighlightChange>, count: nat) -> Collected
    decreases count,
{
    if count == 0 {
        Collected { spans: Seq::empty(), start: 0, style: Style::plain() }
    } else {
        let change = changes[count - 1];
        let closed = after_changes(text, changes, (count - 1) as nat).close(char_at_or_after(text, change.offset as int));
        let base = if change.refresh {
            Style::plain()
        } else {
            closed.style
        };
        Collected { style: folded(base, change.styles@), ..closed }
    }
}

/// The spans of a text whose highlights change as given.
pub open spec fn spans_of(text: Seq<char>, changes: Seq<HighlightChange>) -> Seq<Span> {
    after_changes(text, changes, changes.len()).close(text.len()).spans
}

fn fold_styles(base: Style, styles: &Vec<Style>) -> (out: Style)
    ensures
        out == folded(base, styles@),
{
    let mut out = base;
    let mut i: usize = 0;
    proof {
        assert(styles@.subrange(0, 0) =~= Seq::<Style>::empty());
    }
    while i < styles.len()
        invariant
            i <= styles@.len(),
            out == folded(base, styles@.subrange(0, i as int)),
        decreases styles.len() - i,
    {
        proof {
            assert(styles@.subrange(0, i + 1).drop_last() =~= styles@.subrange(0, i as int));
        }
        out = out.patch(styles[i]);
        i += 1;
    }
    proof {
        assert(styles@.subrange(0, styles@.len() as int) =~= styles@);
    }
    out
}

/// The spans of a text whose highlights change as given, or nothing where the
/// text is over the budget or the highlighter has nothing to say.
pub fn spans(text: &str, changes: Option<&Vec<HighlightChange>>) -> (out: Vec<Span>)
    ensures
        out@ == (match changes {
            Some(changes) if bytes_of(text@).len() <= HIGHLIGHT_BYTE_BUDGET => spans_of(text@, changes@),
            _ => Seq::<Span>::empty(),
        }),
{
    if text_bytes(text) > HIGHLIGHT_BYTE_BUDGET {
        return Vec::new();
    }
    let changes = match changes {
        Some(changes) => changes,
        None => {
            return Vec::new();
        },
    };
    let mut collector = SpanCollector::new(text);
    let mut i: usize = 0;
    while i < changes.len()
        invariant
            i <= changes@.len(),
            collector.wf(),
            collector.text() == text@,
            collector.state() == after_changes(text@, changes@, i as nat),
            collector.style == collector.state().style,
        decreases changes.len() - i,
    {
        collector.advance_to(changes[i].offset);
        let base = if changes[i].refresh {
            Style::default()
        } else {
            collector.style
        };
        let style = fold_styles(base, &changes[i].styles);
        collector.set_style(style);
        i += 1;
    }
    collector.finish()
}

/// The spans of a text are sorted, do not overlap, are not empty, are styled
/// and end with the text at the latest.
pub proof fn law_spans_are_sorted_and_apart(text: Seq<char>, changes: Seq<HighlightChange>)
    requires
        text.len() <= usize::MAX,
    ensures
        forall|i: int|
            0 <= i < spans_of(text, changes).len() ==> (#[trigger] spans_of(text, changes)[i]).start < spans_of(
                text,
                changes,
            )[i].end <= text.len() && spans_of(text, changes)[i].style != Style::plain(),
        forall|i: int, j: int|
            0 <= i < j < spans_of(text, changes).len() ==> (#[trigger] spans_of(text, changes)[i]).end <= (
            #[trigger] spans_of(text, changes)[j]).start,
{
    lemma_tidy(text, changes, changes.len());
    let last = after_changes(text, changes, changes.len());
    lemma_close_tidy(last, text.len());
}

proof fn lemma_close_tidy(collected: Collected, end: nat)
    requires
        collected.tidy(),
        end <= usize::MAX,
    ensures
        collected.close(end).tidy(),
        collected.start <= end ==> collected.close(end).start == end,
        collected.close(end).start == (if collected.start < end { end } else { collected.start }),
{
}

proof fn lemma_tidy(text: Seq<char>, changes: Seq<HighlightChange>, count: nat)
    requires
        count <= changes.len(),
        text.len() <= usize::MAX,
    ensures
        after_changes(text, changes, count).tidy(),
        after_changes(text, changes, count).start <= text.len(),
    decreases count,
{
    if count > 0 {
        lemma_tidy(text, changes, (count - 1) as nat);
        let change = changes[count - 1];
        lemma_boundary_after(text, change.offset as int);
        let at = boundary_after(text, change.offset as int);
        lemma_chars_monotonic(text, at, at);
        lemma_close_tidy(after_changes(text, changes, (count - 1) as nat), char_at_or_after(text, change.offset as int));
    }
}

/// The style in force after the first `n` changes: a change that refreshes starts
/// from nothing, any other adds to the style before it.
pub open spec fn style_in_force(changes: Seq<HighlightChange>, n: int) -> Style
    decreases n,
{
    if n <= 0 {
        Style::plain()
    } else if changes[n - 1].refresh {
        folded(Style::plain(), changes[n - 1].styles@)
    } else {
        folded(style_in_force(changes, n - 1), changes[n - 1].styles@)
    }
}

/// The style of a character by the first `n` changes: that of the last one at or
/// before it.
pub open spec fn style_over(text: Seq<char>, changes: Seq<HighlightChange>, n: int, c: int) -> Style
    decreases n,
{
    if n <= 0 {
        Style::plain()
    } else if char_at_or_after(text, changes[n - 1].offset as int) <= c {
        style_in_force(changes, n)
    } else {
        style_over(text, changes, n - 1, c)
    }
}

/// Whether a span of a style covers a character.
pub open spec fn colored(spans: Seq<Span>, c: int, style: Style) -> bool {
    exists|i: int| 0 <= i < spans.len() && (#[trigger] spans[i]).start <= c < spans[i].end && spans[i].style == style
}

/// Whether the changes follow each other in the text.
pub open spec fn changes_in_order(text: Seq<char>, changes: Seq<HighlightChange>) -> bool {
    forall|i: int, j: int|
        0 <= i < j < changes.len() ==> char_at_or_after(text, (#[trigger] changes[i]).offset as int) <= char_at_or_after(
            text,
            (#[trigger] changes[j]).offset as int,
        )
}

proof fn lemma_closed_colors(before: Collected, end: nat, c: int, style: Style)
    requires
        before.tidy(),
        before.start <= end <= usize::MAX,
        0 <= c < end,
        style != Style::plain(),
    ensures
        c < before.start ==> (colored(before.close(end).spans, c, style) <==> colored(before.spans, c, style)),
        before.start <= c ==> (colored(before.close(end).spans, c, style) <==> before.style == style),
{
    let after = before.close(end);
    let n = before.spans.len() as int;
    assert forall|i: int| 0 <= i < n implies #[trigger] after.spans[i] == before.spans[i] by {}
    if colored(before.spans, c, style) {
        let i = choose|i: int|
            0 <= i < n && (#[trigger] before.spans[i]).start <= c < before.spans[i].end && before.spans[i].style == style;
        assert(after.spans[i].start <= c < after.spans[i].end);
    }
    if colored(after.spans, c, style) {
        let i = choose|i: int|
            0 <= i < after.spans.len() && (#[trigger] after.spans[i]).start <= c < after.spans[i].end && after.spans[i].style
                == style;
        if i < n {
            assert(before.spans[i].start <= c < before.spans[i].end);
        }
    }
    if before.start <= c && before.style == style {
        assert(after.spans[n].start <= c < after.spans[n].end);
    }
}

proof fn lemma_changes_color(text: Seq<char>, changes: Seq<HighlightChange>, n: nat, c: int, style: Style)
    requires
        n <= changes.len(),
        text.len() <= usize::MAX,
        changes_in_order(text, changes),
        style != Style::plain(),
        0 <= c,
    ensures
        ({
            let out = after_changes(text, changes, n);
            &&& out.style == style_in_force(changes, n as int)
            &&& out.start == (if n == 0 {
                0
            } else {
                char_at_or_after(text, changes[n - 1].offset as int)
            })
            &&& c < out.start ==> (colored(out.spans, c, style) <==> style_over(text, changes, n as int, c) == style)
        }),
    decreases n,
{
    lemma_tidy(text, changes, n);
    if n > 0 {
        let m = (n - 1) as nat;
        lemma_changes_color(text, changes, m, c, style);
        lemma_tidy(text, changes, m);
        let before = after_changes(text, changes, m);
        let end = char_at_or_after(text, changes[n - 1].offset as int);
        if m > 0 {
            assert(char_at_or_after(text, changes[m - 1].offset as int) <= char_at_or_after(text, changes[n - 1].offset as int));
        }
        assert(before.start <= end);
        lemma_boundary_after(text, changes[n - 1].offset as int);
        let at = boundary_after(text, changes[n - 1].offset as int);
        lemma_chars_monotonic(text, at, at);
        if c < end {
            lemma_closed_colors(before, end, c, style);
        }
    }
}

/// Spans color exactly the characters that have a style, each with the style that
/// is in force there.
pub proof fn law_spans_color_their_characters(text: Seq<char>, changes: Seq<HighlightChange>, c: int, style: Style)
    requires
        text.len() <= usize::MAX,
        changes_in_order(text, changes),
        0 <= c < text.len(),
        style != Style::plain(),
    ensures
        colored(spans_of(text, changes), c, style) <==> style_over(text, changes, changes.len() as int, c) == style,
{
    let n = changes.len();
    lemma_changes_color(text, changes, n, c, style);
    lemma_tidy(text, changes, n);
    lemma_closed_colors(after_changes(text, changes, n), text.len(), c, style);
}

/// Styles are put on top of each other in their order.
pub proof fn law_styles_are_put_on_top_of_each_other(base: Style, styles: Seq<Style>, style: Style)
    ensures
        folded(base, Seq::<Style>::empty()) == base,
        folded(base, styles.push(style)) == folded(base, styles).patched(style),
{
    assert(styles.push(style).drop_last() =~= styles);
    assert(styles.push(style).last() == style);
}

} // verus!
