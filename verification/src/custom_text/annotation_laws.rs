//! What rows of annotations stand for.

use vstd::prelude::*;

use super::annotations::{
    background_row, background_rule, highlight_row, highlight_rule, inline_row, inline_rule, virtual_row, virtual_rule,
    BackgroundView, HighlightStyleView, HighlightView, InlineView, VirtualLineView,
};
use crate::graphics::Style;
use crate::value::{collect, ScriptValue};

verus! {

/// Whether a value is a number that is not negative.
pub open spec fn is_number(value: ScriptValue, n: usize) -> bool {
    value is Int && value->Int_0 == n
}

/// Whether a value is a string or a symbol of a text.
pub open spec fn is_word(value: ScriptValue, text: Seq<char>) -> bool {
    ||| value is Text && value->Text_0@ == text
    ||| value is Symbol && value->Symbol_0@ == text
}

/// A row of a place, a text and a scope is an inline annotation with these,
/// exactly where the place is in the text or at its end.
pub proof fn law_inline_rows_are_read_as_they_are(
    row: Seq<ScriptValue>,
    char_len: usize,
    char_idx: usize,
    text: Seq<char>,
    scope: Seq<char>,
)
    ensures
        row.len() == 3 && is_number(row[0], char_idx) && is_word(row[1], text) && is_word(row[2], scope) ==> {
            &&& char_idx <= char_len ==> inline_row(row, char_len) == Some(InlineView { char_idx, text, scope })
            &&& char_idx > char_len ==> inline_row(row, char_len) is None
        },
        inline_row(row, char_len) matches Some(read) ==> row.len() == 3 && is_number(row[0], read.char_idx) && is_word(
            row[1],
            read.text,
        ) && is_word(row[2], read.scope) && read.char_idx <= char_len,
{
}

/// A row of a start, an end and a scope or a style is a highlight with these,
/// exactly where its range is not empty and ends in the text or at its end.
pub proof fn law_highlight_rows_are_read_as_they_are(
    row: Seq<ScriptValue>,
    char_len: usize,
    start: usize,
    end: usize,
    scope: Seq<char>,
    style: Style,
)
    ensures
        row.len() == 3 && is_number(row[0], start) && is_number(row[1], end) && start < end <= char_len ==> {
            &&& is_word(row[2], scope) ==> highlight_row(row, char_len) == Some(
                HighlightView { start, end, style: HighlightStyleView::Scope(scope) },
            )
            &&& row[2] == ScriptValue::Style(style) ==> highlight_row(row, char_len) == Some(
                HighlightView { start, end, style: HighlightStyleView::Concrete(style) },
            )
        },
        highlight_row(row, char_len) matches Some(read) ==> row.len() == 3 && is_number(row[0], read.start) && is_number(
            row[1],
            read.end,
        ) && read.start < read.end <= char_len && match read.style {
            HighlightStyleView::Scope(name) => is_word(row[2], name),
            HighlightStyleView::Concrete(own) => row[2] == ScriptValue::Style(own),
        },
{
}

/// A row of a line, a text and a scope is a virtual line with these, exactly
/// where the line is one of the text. A fourth value is the opacity of its
/// background, up to 100.
pub proof fn law_virtual_rows_are_read_as_they_are(
    row: Seq<ScriptValue>,
    last_line: usize,
    line: usize,
    text: Seq<char>,
    scope: Seq<char>,
    opacity: u8,
)
    ensures
        row.len() >= 3 && is_number(row[0], line) && is_word(row[1], text) && is_word(row[2], scope) && line <= last_line ==> {
            &&& row.len() == 3 ==> virtual_row(row, last_line) == Some(
                VirtualLineView { line, text, scope, background_opacity: None },
            )
            &&& row.len() == 4 && is_number(row[3], opacity as usize) && opacity <= 100 ==> virtual_row(row, last_line) == Some(
                VirtualLineView { line, text, scope, background_opacity: Some(opacity) },
            )
        },
        virtual_row(row, last_line) matches Some(read) ==> (row.len() == 3 || row.len() == 4) && is_number(row[0], read.line)
            && is_word(row[1], read.text) && is_word(row[2], read.scope) && read.line <= last_line && match read.background_opacity {
            Some(percent) => row.len() == 4 && is_number(row[3], percent as usize) && percent <= 100,
            None => row.len() == 3,
        },
{
}

/// A row of a line, a scope and an opacity up to 100 is a background with these,
/// exactly where the line is one of the text.
pub proof fn law_background_rows_are_read_as_they_are(
    row: Seq<ScriptValue>,
    last_line: usize,
    line: usize,
    scope: Seq<char>,
    opacity: u8,
)
    ensures
        row.len() == 3 && is_number(row[0], line) && is_word(row[1], scope) && is_number(row[2], opacity as usize) && line
            <= last_line && opacity <= 100 ==> background_row(row, last_line) == Some(BackgroundView { line, scope, opacity }),
        background_row(row, last_line) matches Some(read) ==> row.len() == 3 && is_number(row[0], read.line) && is_word(
            row[1],
            read.scope,
        ) && is_number(row[2], read.opacity as usize) && read.line <= last_line && read.opacity <= 100,
{
}

/// What rows stand for is put together row by row, in their order: a row that is
/// accepted gives one annotation and any other gives none.
pub proof fn law_rows_are_read_one_by_one<A, B>(items: Seq<A>, one: A, rule: spec_fn(A) -> Option<B>)
    ensures
        collect(Seq::<A>::empty(), rule).len() == 0,
        rule(one) matches Some(read) ==> collect(items.push(one), rule) == collect(items, rule).push(read),
        rule(one) is None ==> collect(items.push(one), rule) == collect(items, rule),
{
    assert(items.push(one).drop_last() =~= items);
    assert(items.push(one).last() == one);
}

/// An annotation is there exactly where one of the rows stands for it.
pub proof fn law_annotations_come_from_rows<A, B>(items: Seq<A>, read: B, rule: spec_fn(A) -> Option<B>)
    ensures
        collect(items, rule).contains(read) <==> exists|i: int| 0 <= i < items.len() && rule(#[trigger] items[i]) == Some(read),
        collect(items, rule).len() <= items.len(),
        (forall|i: int| 0 <= i < items.len() ==> rule(#[trigger] items[i]) is Some) ==> collect(items, rule).len() == items.len()
            && forall|i: int| 0 <= i < items.len() ==> Some(#[trigger] collect(items, rule)[i]) == rule(items[i]),
    decreases items.len(),
{
    if items.len() > 0 {
        let rest = items.drop_last();
        let last = items.last();
        law_annotations_come_from_rows(rest, read, rule);
        let before = collect(rest, rule);
        let all = collect(items, rule);
        assert forall|i: int| 0 <= i < rest.len() implies #[trigger] rest[i] == items[i] by {}
        if all.contains(read) {
            let k = choose|k: int| 0 <= k < all.len() && all[k] == read;
            if k < before.len() {
                assert(before[k] == read);
                let i = choose|i: int| 0 <= i < rest.len() && rule(#[trigger] rest[i]) == Some(read);
                assert(rule(items[i]) == Some(read));
            } else {
                assert(rule(items[items.len() - 1]) == Some(read));
            }
        }
        if exists|i: int| 0 <= i < items.len() && rule(#[trigger] items[i]) == Some(read) {
            let i = choose|i: int| 0 <= i < items.len() && rule(#[trigger] items[i]) == Some(read);
            if i < rest.len() {
                assert(rule(rest[i]) == Some(read));
                let k = choose|k: int| 0 <= k < before.len() && before[k] == read;
                assert(all[k] == read);
            } else {
                assert(all[before.len() as int] == read);
            }
        }
        if forall|i: int| 0 <= i < items.len() ==> rule(#[trigger] items[i]) is Some {
            assert forall|i: int| 0 <= i < rest.len() implies rule(#[trigger] rest[i]) is Some by {
                assert(rule(items[i]) is Some);
            }
            assert(rule(items[items.len() - 1]) is Some);
            assert forall|i: int| 0 <= i < items.len() implies Some(#[trigger] all[i]) == rule(items[i]) by {
                if i < rest.len() {
                    assert(before[i] == all[i]);
                    assert(rest[i] == items[i]);
                }
            }
        }
    }
}

/// The rules read a value by its row.
pub proof fn law_rules_read_rows(values: Vec<ScriptValue>, limit: usize)
    ensures
        inline_rule(limit)(ScriptValue::List(values)) == inline_row(values@, limit),
        highlight_rule(limit)(ScriptValue::List(values)) == highlight_row(values@, limit),
        virtual_rule(limit)(ScriptValue::List(values)) == virtual_row(values@, limit),
        background_rule(limit)(ScriptValue::List(values)) == background_row(values@, limit),
{
}

} // verus!
