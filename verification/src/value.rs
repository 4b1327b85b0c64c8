//! Values that scripts hand to the editor.

use vstd::prelude::*;

use crate::graphics::Style;

verus! {

/// A script value, as far as the editor reads it.
#[derive(Debug)]
pub enum ScriptValue {
    Int(isize),
    Text(String),
    Symbol(String),
    List(Vec<ScriptValue>),
    Style(Style),
    /// Any other value.
    Other,
}

impl ScriptValue {
    /// The number, if the value is one that is not negative.
    pub open spec fn index(self) -> Option<usize> {
        match self {
            ScriptValue::Int(n) if n >= 0 => Some(n as usize),
            _ => None,
        }
    }

    /// The text of a string or of a symbol.
    pub open spec fn word(self) -> Option<Seq<char>> {
        match self {
            ScriptValue::Text(text) => Some(text@),
            ScriptValue::Symbol(text) => Some(text@),
            _ => None,
        }
    }

    /// The text of a string.
    pub open spec fn text(self) -> Option<Seq<char>> {
        match self {
            ScriptValue::Text(text) => Some(text@),
            _ => None,
        }
    }

    /// The values of a list; none of another value.
    pub open spec fn items(self) -> Seq<ScriptValue> {
        match self {
            ScriptValue::List(values) => values@,
            _ => Seq::empty(),
        }
    }
}

/// The number, if the value is one that is not negative.
pub fn integer(value: &ScriptValue) -> (out: Option<usize>)
    ensures
        out == value.index(),
{
    match value {
        ScriptValue::Int(n) => if *n >= 0 {
            Some(*n as usize)
        } else {
            None
        },
        _ => None,
    }
}

/// The number, if the value is one that fits into a byte.
pub fn percentage(value: &ScriptValue) -> (out: Option<u8>)
    ensures
        out == percent(*value),
{
    match integer(value) {
        Some(n) => if n <= 255 {
            Some(n as u8)
        } else {
            None
        },
        None => None,
    }
}

/// The number, if the value is one that fits into a byte.
pub open spec fn percent(value: ScriptValue) -> Option<u8> {
    match value.index() {
        Some(n) if n <= 255 => Some(n as u8),
        _ => None,
    }
}

/// The text of a string or of a symbol.
pub fn word(value: &ScriptValue) -> (out: Option<String>)
    ensures
        crate::text::optional_text(out) == value.word(),
{
    match value {
        ScriptValue::Text(text) => Some(text.clone()),
        ScriptValue::Symbol(text) => Some(text.clone()),
        _ => None,
    }
}

/// The text of a string.
pub fn string(value: &ScriptValue) -> (out: Option<String>)
    ensures
        crate::text::optional_text(out) == value.text(),
{
    match value {
        ScriptValue::Text(text) => Some(text.clone()),
        _ => None,
    }
}

/// What the rule makes of the items of a sequence, without those of which it
/// makes nothing.
pub open spec fn collect<A, B>(items: Seq<A>, rule: spec_fn(A) -> Option<B>) -> Seq<B>
    decreases items.len(),
{
    if items.len() == 0 {
        Seq::empty()
    } else {
        match rule(items.last()) {
            Some(b) => collect(items.drop_last(), rule).push(b),
            None => collect(items.drop_last(), rule),
        }
    }
}

pub proof fn lemma_collect_step<A, B>(items: Seq<A>, i: int, rule: spec_fn(A) -> Option<B>)
    requires
        0 <= i < items.len(),
    ensures
        collect(items.subrange(0, i + 1), rule) == (match rule(items[i]) {
            Some(b) => collect(items.subrange(0, i), rule).push(b),
            None => collect(items.subrange(0, i), rule),
        }),
{
    assert(items.subrange(0, i + 1).drop_last() =~= items.subrange(0, i));
    assert(items.subrange(0, i + 1).last() == items[i]);
}

} // verus!
