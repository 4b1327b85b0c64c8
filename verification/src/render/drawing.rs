//! What is drawn onto a surface of cells.

use vstd::prelude::*;

use crate::graphics::{Rect, Style};

verus! {

/// A row and a column.
#[derive(Clone, Copy, Debug, PartialEq, Eq, Structural)]
pub struct Position {
    pub row: usize,
    pub col: usize,
}

/// One drawing step.
#[derive(Debug)]
pub enum Draw {
    /// A text that starts at a cell.
    Text { x: u16, y: u16, text: String, style: Style },
    /// A text that takes at most some cells.
    Limited { x: u16, y: u16, text: String, width: usize, style: Style },
    /// A text that is cut to some cells, with an ellipsis if wanted. Each style
    /// holds for the graphemes from a byte of the text on.
    Truncated {
        x: u16,
        y: u16,
        text: String,
        width: usize,
        styles: Vec<(usize, Style)>,
        ellipsis: bool,
        truncate_start: bool,
    },
    /// One grapheme that takes some cells.
    Grapheme { x: u16, y: u16, text: String, width: usize, style: Style },
    /// The cells of a tab, one character each.
    Tab { x: u16, y: u16, text: String, style: Style },
    /// A style for all cells of an area.
    Fill { area: Rect, style: Style },
}

/// The contents of a [`Draw`].
pub enum DrawView {
    Text { x: u16, y: u16, text: Seq<char>, style: Style },
    Limited { x: u16, y: u16, text: Seq<char>, width: usize, style: Style },
    Truncated {
        x: u16,
        y: u16,
        text: Seq<char>,
        width: usize,
        styles: Seq<(usize, Style)>,
        ellipsis: bool,
        truncate_start: bool,
    },
    Grapheme { x: u16, y: u16, text: Seq<char>, width: usize, style: Style },
    Tab { x: u16, y: u16, text: Seq<char>, style: Style },
    Fill { area: Rect, style: Style },
}

impl View for Draw {
    type V = DrawView;

    open spec fn view(&self) -> DrawView {
        match self {
            Draw::Text { x, y, text, style } => DrawView::Text { x: *x, y: *y, text: text@, style: *style },
            Draw::Limited { x, y, text, width, style } => DrawView::Limited {
                x: *x,
                y: *y,
                text: text@,
                width: *width,
                style: *style,
            },
            Draw::Truncated { x, y, text, width, styles, ellipsis, truncate_start } => DrawView::Truncated {
                x: *x,
                y: *y,
                text: text@,
                width: *width,
                styles: styles@,
                ellipsis: *ellipsis,
                truncate_start: *truncate_start,
            },
            Draw::Grapheme { x, y, text, width, style } => DrawView::Grapheme {
                x: *x,
                y: *y,
                text: text@,
                width: *width,
                style: *style,
            },
            Draw::Tab { x, y, text, style } => DrawView::Tab { x: *x, y: *y, text: text@, style: *style },
            Draw::Fill { area, style } => DrawView::Fill { area: *area, style: *style },
        }
    }
}

pub open spec fn steps(draws: Seq<Draw>) -> Seq<DrawView> {
    Seq::new(draws.len(), |i: int| draws[i]@)
}

pub proof fn lemma_steps_push(draws: Seq<Draw>, draw: Draw)
    ensures
        steps(draws.push(draw)) == steps(draws).push(draw@),
{
    assert(steps(draws.push(draw)) =~= steps(draws).push(draw@));
}

} // verus!
