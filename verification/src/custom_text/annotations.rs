//! Annotations that extensions attach to the text of a view.

use std::ops::Range;

use vstd::prelude::*;

use crate::graphics::Style;
use crate::value::{collect, integer, lemma_collect_step, percent, percentage, word, ScriptValue};

verus! {

/// Text shown before a character.
#[derive(Debug)]
pub struct InlineAnnotation {
    pub char_idx: usize,
    pub text: String,
}

#[derive(Debug)]
pub struct CustomInlineAnnotation {
    pub annotation: InlineAnnotation,
    pub scope: String,
}

/// A custom highlight may follow a theme scope or carry an already-resolved
/// style.
#[derive(Debug)]
pub enum CustomHighlightStyle {
    Scope(String),
    Concrete(Style),
}

#[derive(Debug)]
pub struct CustomHighlight {
    pub range: Range<usize>,
    pub style: CustomHighlightStyle,
}

#[derive(Debug)]
pub struct CustomVirtualLine {
    /// The document line after which this virtual line is rendered.
    pub line: usize,
    pub text: String,
    pub scope: String,
    /// Blend percentage used for a full-row background. An explicitly themed
    /// scope background takes precedence over the blend.
    pub background_opacity: Option<u8>,
}

#[derive(Debug)]
pub struct CustomLineBackground {
    pub line: usize,
    pub scope: String,
    pub opacity: u8,
}

#[derive(Debug)]
pub struct CustomTextAnnotations {
    pub inline: Vec<CustomInlineAnnotation>,
    pub highlights: Vec<CustomHighlight>,
    pub virtual_lines: Vec<CustomVirtualLine>,
    pub line_backgrounds: Vec<CustomLineBackground>,
}

pub struct InlineView {
    pub char_idx: usize,
    pub text: Seq<char>,
    pub scope: Seq<char>,
}

pub enum HighlightStyleView {
    Scope(Seq<char>),
    Concrete(Style),
}

pub struct HighlightView {
    pub start: usize,
    pub end: usize,
    pub style: HighlightStyleView,
}

pub struct VirtualLineView {
    pub line: usize,
    pub text: Seq<char>,
    pub scope: Seq<char>,
    pub background_opacity: Option<u8>,
}

pub struct BackgroundView {
    pub line: usize,
    pub scope: Seq<char>,
    pub opacity: u8,
}

/// The contents of [`CustomTextAnnotations`].
pub struct AnnotationsView {
    pub inline: Seq<InlineView>,
    pub highlights: Seq<HighlightView>,
    pub virtual_lines: Seq<VirtualLineView>,
    pub line_backgrounds: Seq<BackgroundView>,
}

impl View for CustomInlineAnnotation {
    type V = InlineView;

    open spec fn view(&self) -> InlineView {
        InlineView { char_idx: self.annotation.char_idx, text: self.annotation.text@, scope: self.scope@ }
    }
}

impl View for CustomHighlightStyle {
    type V = HighlightStyleView;

    open spec fn view(&self) -> HighlightStyleView {
        match self {
            CustomHighlightStyle::Scope(scope) => HighlightStyleView::Scope(scope@),
            CustomHighlightStyle::Concrete(style) => HighlightStyleView::Concrete(*style),
        }
    }
}

impl View for CustomHighlight {
    type V = HighlightView;

    open spec fn view(&self) -> HighlightView {
        HighlightView { start: self.range.start, end: self.range.end, style: self.style@ }
    }
}

impl View for CustomVirtualLine {
    type V = VirtualLineView;

    open spec fn view(&self) -> VirtualLineView {
        VirtualLineView {
            line: self.line,
            text: self.text@,
            scope: self.scope@,
            background_opacity: self.background_opacity,
        }
    }
}

impl View for CustomLineBackground {
    type V = BackgroundView;

    open spec fn view(&self) -> BackgroundView {
        BackgroundView { line: self.line, scope: self.scope@, opacity: self.opacity }
    }
}

/// The views of the elements of a vector.
pub open spec fn views<T: View>(items: Seq<T>) -> Seq<T::V> {
    Seq::new(items.len(), |i: int| items[i]@)
}

pub proof fn lemma_views_push<T: View>(items: Seq<T>, item: T)
    ensures
        views(items.push(item)) == views(items).push(item@),
{
    assert(views(items.push(item)) =~= views(items).push(item@));
}

impl View for CustomTextAnnotations {
    type V = AnnotationsView;

    open spec fn view(&self) -> AnnotationsView {
        AnnotationsView {
            inline: views(self.inline@),
            highlights: views(self.highlights@),
            virtual_lines: views(self.virtual_lines@),
            line_backgrounds: views(self.line_backgrounds@),
        }
    }
}

impl Default for CustomTextAnnotations {
    /// No annotations.
    fn default() -> (out: CustomTextAnnotations)
        ensures
            out@ == no_annotations(),
    {
        let out = CustomTextAnnotations {
            inline: Vec::new(),
            highlights: Vec::new(),
            virtual_lines: Vec::new(),
            line_backgrounds: Vec::new(),
        };
        proof {
            assert(out@.inline =~= Seq::<InlineView>::empty());
            assert(out@.highlights =~= Seq::<HighlightView>::empty());
            assert(out@.virtual_lines =~= Seq::<VirtualLineView>::empty());
            assert(out@.line_backgrounds =~= Seq::<BackgroundView>::empty());
        }
        out
    }
}

pub open spec fn no_annotations() -> AnnotationsView {
    AnnotationsView {
        inline: Seq::empty(),
        highlights: Seq::empty(),
        virtual_lines: Seq::empty(),
        line_backgrounds: Seq::empty(),
    }
}

/// The inline annotation that a row `(char-index text scope)` stands for.
pub open spec fn inline_row(row: Seq<ScriptValue>, char_len: usize) -> Option<InlineView> {
    if row.len() == 3 {
        match (row[0].index(), row[1].word(), row[2].word()) {
            (Some(char_idx), Some(text), Some(scope)) if char_idx <= char_len => Some(
                InlineView { char_idx, text, scope },
            ),
            _ => None,
        }
    } else {
        None
    }
}

/// The style that a value stands for.
pub open spec fn style_of(value: ScriptValue) -> Option<HighlightStyleView> {
    match value.word() {
        Some(scope) => Some(HighlightStyleView::Scope(scope)),
        None => match value {
            ScriptValue::Style(style) => Some(HighlightStyleView::Concrete(style)),
            _ => None,
        },
    }
}

/// The highlight that a row `(start end style)` stands for.
pub open spec fn highlight_row(row: Seq<ScriptValue>, char_len: usize) -> Option<HighlightView> {
    if row.len() == 3 {
        match (row[0].index(), row[1].index(), style_of(row[2])) {
            (Some(start), Some(end), Some(style)) if start < end && end <= char_len => Some(
                HighlightView { start, end, style },
            ),
            _ => None,
        }
    } else {
        None
    }
}

/// The virtual line that a row `(line text scope)` or `(line text scope opacity)` stands for.
pub open spec fn virtual_row(row: Seq<ScriptValue>, last_line: usize) -> Option<VirtualLineView> {
    if row.len() == 3 || row.len() == 4 {
        match (row[0].index(), row[1].word(), row[2].word()) {
            (Some(line), Some(text), Some(scope)) if line <= last_line => if row.len() == 3 {
                Some(VirtualLineView { line, text, scope, background_opacity: None })
            } else {
                match percent(row[3]) {
                    Some(opacity) if opacity <= 100 => Some(
                        VirtualLineView { line, text, scope, background_opacity: Some(opacity) },
                    ),
                    _ => None,
                }
            },
            _ => None,
        }
    } else {
        None
    }
}

/// The line background that a row `(line scope opacity)` stands for.
pub open spec fn background_row(row: Seq<ScriptValue>, last_line: usize) -> Option<BackgroundView> {
    if row.len() == 3 {
        match (row[0].index(), row[1].word(), percent(row[2])) {
            (Some(line), Some(scope), Some(opacity)) if line <= last_line && opacity <= 100 => Some(
                BackgroundView { line, scope, opacity },
            ),
            _ => None,
        }
    } else {
        None
    }
}

pub open spec fn inline_rule(char_len: usize) -> spec_fn(ScriptValue) -> Option<InlineView> {
    |value: ScriptValue| inline_row(value.items(), char_len)
}

pub open spec fn highlight_rule(char_len: usize) -> spec_fn(ScriptValue) -> Option<HighlightView> {
    |value: ScriptValue| highlight_row(value.items(), char_len)
}

pub open spec fn virtual_rule(last_line: usize) -> spec_fn(ScriptValue) -> Option<VirtualLineView> {
    |value: ScriptValue| virtual_row(value.items(), last_line)
}

pub open spec fn background_rule(last_line: usize) -> spec_fn(ScriptValue) -> Option<BackgroundView> {
    |value: ScriptValue| background_row(value.items(), last_line)
}

/// The style that a value stands for.
pub fn highlight_style(value: &ScriptValue) -> (out: Option<CustomHighlightStyle>)
    ensures
        match out {
            Some(style) => style_of(*value) == Some(style@),
            None => style_of(*value) is None,
        },
{
    if let Some(scope) = word(value) {
        return Some(CustomHighlightStyle::Scope(scope));
    }
    match value {
        ScriptValue::Style(style) => Some(CustomHighlightStyle::Concrete(*style)),
        _ => None,
    }
}

fn parse_inline_row(row: &Vec<ScriptValue>, char_len: usize) -> (out: Option<CustomInlineAnnotation>)
    ensures
        match out {
            Some(annotation) => inline_row(row@, char_len) == Some(annotation@),
            None => inline_row(row@, char_len) is None,
        },
{
    if row.len() != 3 {
        return None;
    }
    match (integer(&row[0]), word(&row[1]), word(&row[2])) {
        (Some(char_idx), Some(text), Some(scope)) => if char_idx <= char_len {
            Some(CustomInlineAnnotation { annotation: InlineAnnotation { char_idx, text }, scope })
        } else {
            None
        },
        _ => None,
    }
}

fn parse_highlight_row(row: &Vec<ScriptValue>, char_len: usize) -> (out: Option<CustomHighlight>)
    ensures
        match out {
            Some(highlight) => highlight_row(row@, char_len) == Some(highlight@),
            None => highlight_row(row@, char_len) is None,
        },
{
    if row.len() != 3 {
        return None;
    }
    match (integer(&row[0]), integer(&row[1]), highlight_style(&row[2])) {
        (Some(start), Some(end), Some(style)) => if start < end && end <= char_len {
            Some(CustomHighlight { range: start..end, style })
        } else {
            None
        },
        _ => None,
    }
}

fn parse_virtual_row(row: &Vec<ScriptValue>, last_line: usize) -> (out: Option<CustomVirtualLine>)
    ensures
        match out {
            Some(line) => virtual_row(row@, last_line) == Some(line@),
            None => virtual_row(row@, last_line) is None,
        },
{
    if row.len() != 3 && row.len() != 4 {
        return None;
    }
    match (integer(&row[0]), word(&row[1]), word(&row[2])) {
        (Some(line), Some(text), Some(scope)) => {
            if line > last_line {
                return None;
            }
            if row.len() == 3 {
                return Some(CustomVirtualLine { line, text, scope, background_opacity: None });
            }
            match percentage(&row[3]) {
                Some(opacity) => if opacity <= 100 {
                    Some(CustomVirtualLine { line, text, scope, background_opacity: Some(opacity) })
                } else {
                    None
                },
                None => None,
            }
        },
        _ => None,
    }
}

fn parse_background_row(row: &Vec<ScriptValue>, last_line: usize) -> (out: Option<CustomLineBackground>)
    ensures
        match out {
            Some(background) => background_row(row@, last_line) == Some(background@),
            None => background_row(row@, last_line) is None,
        },
{
    if row.len() != 3 {
        return None;
    }
    match (integer(&row[0]), word(&row[1]), percentage(&row[2])) {
        (Some(line), Some(scope), Some(opacity)) => if line <= last_line && opacity <= 100 {
            Some(CustomLineBackground { line, scope, opacity })
        } else {
            None
        },
        _ => None,
    }
}

fn items_of(value: &ScriptValue) -> (out: Option<&Vec<ScriptValue>>)
    ensures
        match out {
            Some(items) => items@ == value.items() && *value is List,
            None => value.items() == Seq::<ScriptValue>::empty() && !(*value is List),
        },
{
    match value {
        ScriptValue::List(values) => Some(values),
        _ => None,
    }
}

fn parse_inline(value: &ScriptValue, char_len: usize) -> (out: Vec<CustomInlineAnnotation>)
    ensures
        views(out@) == collect(value.items(), inline_rule(char_len)),
{
    let mut out: Vec<CustomInlineAnnotation> = Vec::new();
    let ghost rule = inline_rule(char_len);
    proof {
        assert(views(out@) =~= Seq::<InlineView>::empty());
    }
    let items = match items_of(value) {
        Some(items) => items,
        None => {
            return out;
        },
    };
    let mut i: usize = 0;
    proof {
        assert(items@.subrange(0, 0) =~= Seq::<ScriptValue>::empty());
    }
    while i < items.len()
        invariant
            i <= items@.len(),
            rule == inline_rule(char_len),
            views(out@) == collect(items@.subrange(0, i as int), rule),
        decreases items.len() - i,
    {
        proof {
            lemma_collect_step(items@, i as int, rule);
        }
        if let Some(row) = items_of(&items[i]) {
            if let Some(annotation) = parse_inline_row(row, char_len) {
                proof {
                    lemma_views_push(out@, annotation);
                }
                out.push(annotation);
            }
        }
        i += 1;
    }
    proof {
        assert(items@.subrange(0, items@.len() as int) =~= items@);
    }
    out
}

fn parse_highlights(value: &ScriptValue, char_len: usize) -> (out: Vec<CustomHighlight>)
    ensures
        views(out@) == collect(value.items(), highlight_rule(char_len)),
{
    let mut out: Vec<CustomHighlight> = Vec::new();
    let ghost rule = highlight_rule(char_len);
    proof {
        assert(views(out@) =~= Seq::<HighlightView>::empty());
    }
    let items = match items_of(value) {
        Some(items) => items,
        None => {
            return out;
        },
    };
    let mut i: usize = 0;
    proof {
        assert(items@.subrange(0, 0) =~= Seq::<ScriptValue>::empty());
    }
    while i < items.len()
        invariant
            i <= items@.len(),
            rule == highlight_rule(char_len),
            views(out@) == collect(items@.subrange(0, i as int), rule),
        decreases items.len() - i,
    {
        proof {
            lemma_collect_step(items@, i as int, rule);
        }
        if let Some(row) = items_of(&items[i]) {
            if let Some(highlight) = parse_highlight_row(row, char_len) {
                proof {
                    lemma_views_push(out@, highlight);
                }
                out.push(highlight);
            }
        }
        i += 1;
    }
    proof {
        assert(items@.subrange(0, items@.len() as int) =~= items@);
    }
    out
}

fn parse_virtual_lines(value: &ScriptValue, last_line: usize) -> (out: Vec<CustomVirtualLine>)
    ensures
        views(out@) == collect(value.items(), virtual_rule(last_line)),
{
    let mut out: Vec<CustomVirtualLine> = Vec::new();
    let ghost rule = virtual_rule(last_line);
    proof {
        assert(views(out@) =~= Seq::<VirtualLineView>::empty());
    }
    let items = match items_of(value) {
        Some(items) => items,
        None => {
            return out;
        },
    };
    let mut i: usize = 0;
    proof {
        assert(items@.subrange(0, 0) =~= Seq::<ScriptValue>::empty());
    }
    while i < items.len()
        invariant
            i <= items@.len(),
            rule == virtual_rule(last_line),
            views(out@) == collect(items@.subrange(0, i as int), rule),
        decreases items.len() - i,
    {
        proof {
            lemma_collect_step(items@, i as int, rule);
        }
        if let Some(row) = items_of(&items[i]) {
            if let Some(line) = parse_virtual_row(row, last_line) {
                proof {
                    lemma_views_push(out@, line);
                }
                out.push(line);
            }
        }
        i += 1;
    }
    proof {
        assert(items@.subrange(0, items@.len() as int) =~= items@);
    }
    out
}

fn parse_backgrounds(value: &ScriptValue, last_line: usize) -> (out: Vec<CustomLineBackground>)
    ensures
        views(out@) == collect(value.items(), background_rule(last_line)),
{
    let mut out: Vec<CustomLineBackground> = Vec::new();
    let ghost rule = background_rule(last_line);
    proof {
        assert(views(out@) =~= Seq::<BackgroundView>::empty());
    }
    let items = match items_of(value) {
        Some(items) => items,
        None => {
            return out;
        },
    };
    let mut i: usize = 0;
    proof {
        assert(items@.subrange(0, 0) =~= Seq::<ScriptValue>::empty());
    }
    while i < items.len()
        invariant
            i <= items@.len(),
            rule == background_rule(last_line),
            views(out@) == collect(items@.subrange(0, i as int), rule),
        decreases items.len() - i,
    {
        proof {
            lemma_collect_step(items@, i as int, rule);
        }
        if let Some(row) = items_of(&items[i]) {
            if let Some(background) = parse_background_row(row, last_line) {
                proof {
                    lemma_views_push(out@, background);
                }
                out.push(background);
            }
        }
        i += 1;
    }
    proof {
        assert(items@.subrange(0, items@.len() as int) =~= items@);
    }
    out
}

/// Reads annotations for a text of `char_len` characters whose last line is
/// `last_line`. Malformed and out-of-range rows are left out.
pub fn parse_annotations(
    char_len: usize,
    last_line: usize,
    inline: &ScriptValue,
    highlights: &ScriptValue,
    virtual_lines: &ScriptValue,
    line_backgrounds: &ScriptValue,
) -> (out: CustomTextAnnotations)
    ensures
        out@ == (AnnotationsView {
            inline: collect(inline.items(), inline_rule(char_len)),
            highlights: collect(highlights.items(), highlight_rule(char_len)),
            virtual_lines: collect(virtual_lines.items(), virtual_rule(last_line)),
            line_backgrounds: collect(line_backgrounds.items(), background_rule(last_line)),
        }),
{
    CustomTextAnnotations {
        inline: parse_inline(inline, char_len),
        highlights: parse_highlights(highlights, char_len),
        virtual_lines: parse_virtual_lines(virtual_lines, last_line),
        line_backgrounds: parse_backgrounds(line_backgrounds, last_line),
    }
}

} // verus!
