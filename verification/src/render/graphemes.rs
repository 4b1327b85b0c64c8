//! Graphemes and their widths.

use unicode_segmentation::UnicodeSegmentation;
use unicode_width::UnicodeWidthStr;
use vstd::prelude::*;

use crate::file_snapshot::is_whitespace;
use crate::text::{chars_of, same_text, string_views};

verus! {

broadcast use vstd::string::group_string_axioms;

/// The extended grapheme clusters of a text, in order.
pub uninterp spec fn graphemes_of(text: Seq<char>) -> Seq<Seq<char>>;

/// The number of terminal cells that a text takes.
pub uninterp spec fn width_of(text: Seq<char>) -> usize;

/// `UnicodeSegmentation::graphemes` gives the extended grapheme clusters of a
/// text. Put together they are the text, and none of them is empty.
#[verifier::external_body]
pub(crate) fn graphemes(text: &str) -> (out: Vec<String>)
    ensures
        string_views(out@) == graphemes_of(text@),
        string_views(out@).flatten() == text@,
        forall|i: int| 0 <= i < out@.len() ==> (#[trigger] out@[i])@.len() > 0,
{
    text.graphemes(true).map(str::to_owned).collect()
}

/// `UnicodeWidthStr::width` gives the number of cells that a text takes.
#[verifier::external_body]
fn cells(text: &str) -> (out: usize)
    ensures
        out == width_of(text@),
{
    UnicodeWidthStr::width(text)
}

/// The number of terminal cells that a text takes.
pub fn text_display_width(value: &str) -> (out: usize)
    ensures
        out == width_of(value@),
{
    cells(value)
}

/// A grapheme, as it is drawn.
#[derive(Debug)]
pub enum Grapheme {
    Newline,
    Tab { width: usize },
    Other { text: String },
}

/// The contents of a [`Grapheme`].
pub enum GraphemeView {
    Newline,
    Tab { width: usize },
    Other { text: Seq<char> },
}

impl View for Grapheme {
    type V = GraphemeView;

    open spec fn view(&self) -> GraphemeView {
        match self {
            Grapheme::Newline => GraphemeView::Newline,
            Grapheme::Tab { width } => GraphemeView::Tab { width: *width },
            Grapheme::Other { text } => GraphemeView::Other { text: text@ },
        }
    }
}

/// A grapheme at a column: a tab reaches to the next tab stop.
pub open spec fn grapheme_at(text: Seq<char>, col: usize, tab_width: usize) -> GraphemeView {
    if text == "\t"@ {
        GraphemeView::Tab { width: (tab_width - col % tab_width) as usize }
    } else if text == "\n"@ || text == "\r\n"@ {
        GraphemeView::Newline
    } else {
        GraphemeView::Other { text }
    }
}

impl GraphemeView {
    /// The number of cells of the grapheme: one for ASCII, and never none.
    pub open spec fn width(self) -> usize {
        match self {
            GraphemeView::Newline => 1,
            GraphemeView::Tab { width } => width,
            GraphemeView::Other { text } => if text.len() == 0 || (text[0] as u32) <= 127 || width_of(text) == 0 {
                1
            } else {
                width_of(text)
            },
        }
    }

    pub open spec fn is_space(self) -> bool {
        match self {
            GraphemeView::Newline => true,
            GraphemeView::Tab { .. } => true,
            GraphemeView::Other { text } => text.len() > 0 && crate::file_snapshot::whitespace(text[0]),
        }
    }
}

impl Grapheme {
    /// A grapheme at a column.
    pub fn new(text: String, col: usize, tab_width: usize) -> (out: Grapheme)
        requires
            tab_width > 0,
        ensures
            out@ == grapheme_at(text@, col, tab_width),
    {
        if same_text(text.as_str(), "\t") {
            Grapheme::Tab { width: tab_width - col % tab_width }
        } else if same_text(text.as_str(), "\n") || same_text(text.as_str(), "\r\n") {
            Grapheme::Newline
        } else {
            Grapheme::Other { text }
        }
    }

    /// The number of cells of the grapheme.
    pub fn width(&self) -> (out: usize)
        ensures
            out == self@.width(),
    {
        match self {
            Grapheme::Newline => 1,
            Grapheme::Tab { width } => *width,
            Grapheme::Other { text } => {
                let chars = chars_of(text.as_str());
                if chars.len() == 0 || (chars[0] as u32) <= 127 {
                    return 1;
                }
                let width: usize = cells(text.as_str());
                if width == 0 {
                    1
                } else {
                    width
                }
            },
        }
    }

    pub fn is_whitespace(&self) -> (out: bool)
        ensures
            out == self@.is_space(),
    {
        match self {
            Grapheme::Newline => true,
            Grapheme::Tab { .. } => true,
            Grapheme::Other { text } => {
                let chars = chars_of(text.as_str());
                chars.len() > 0 && is_whitespace(chars[0])
            },
        }
    }
}

} // verus!
