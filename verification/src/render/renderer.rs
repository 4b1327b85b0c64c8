//! The renderer: it turns text of a document into drawing steps, inside its
//! viewport and from its offset on.

use vstd::prelude::*;

use super::drawing::{lemma_steps_push, steps, Draw, DrawView, Position};
use super::graphemes::{grapheme_at, graphemes, graphemes_of, Grapheme, GraphemeView};
use crate::graphics::{Rect, Style};
use crate::text::{chars_of, same_text, string_of, string_views};
use crate::theme::Theme;

verus! {

broadcast use vstd::string::group_string_axioms;

/// What the editor is told to show of white space and of indentation.
#[derive(Clone, Copy, Debug)]
pub struct RenderSettings {
    pub tab_width: usize,
    pub indent_width: u16,
    pub show_tabs: bool,
    pub show_newlines: bool,
    pub show_spaces: bool,
    pub show_nbsp: bool,
    pub show_nnbsp: bool,
    pub tab: char,
    pub tab_pad: char,
    pub newline: char,
    pub space: char,
    pub nbsp: char,
    pub nnbsp: char,
    pub indent_guides: bool,
    pub indent_guide: char,
    pub skipped_levels: u8,
}

#[derive(Debug)]
pub struct TextRenderer {
    /// What was drawn so far.
    pub draws: Vec<Draw>,
    pub text_style: Style,
    pub whitespace_style: Style,
    pub indent_guide_char: String,
    pub indent_guide_style: Style,
    pub newline: String,
    pub nbsp: String,
    pub nnbsp: String,
    pub space: String,
    pub tab: String,
    pub virtual_tab: String,
    pub indent_width: u16,
    pub starting_indent: usize,
    pub draw_indent_guides: bool,
    pub viewport: Rect,
    pub offset: Position,
}

/// The styles of a grapheme.
#[derive(Clone, Copy, Debug)]
pub struct GraphemeStyle {
    pub syntax_style: Style,
    pub overlay_style: Style,
}

/// The characters from one place to another, as far as there are any.
pub open spec fn chars_between(text: Seq<char>, from: int, to: int) -> Seq<char> {
    let end = if to < text.len() {
        to
    } else {
        text.len() as int
    };
    let start = if from < end {
        from
    } else {
        end
    };
    text.subrange(start, end)
}

fn slice_chars(text: &str, from: usize, to: usize) -> (out: String)
    ensures
        out@ == chars_between(text@, from as int, to as int),
{
    let chars = chars_of(text);
    let end: usize = if to < chars.len() {
        to
    } else {
        chars.len()
    };
    let start: usize = if from < end {
        from
    } else {
        end
    };
    string_of(vstd::slice::slice_subrange(chars.as_slice(), start, end))
}

/// A character, `count` times.
pub open spec fn repeated(c: char, count: int) -> Seq<char> {
    Seq::new(count as nat, |i: int| c)
}

fn repeat(first: char, rest: char, count: usize) -> (out: String)
    requires
        count > 0,
    ensures
        out@ == seq![first] + repeated(rest, count - 1),
{
    let mut out = String::new();
    out.push(first);
    let mut i: usize = 1;
    proof {
        assert(out@ =~= seq![first] + repeated(rest, 0));
    }
    while i < count
        invariant
            1 <= i <= count,
            out@ == seq![first] + repeated(rest, i - 1),
        decreases count - i,
    {
        out.push(rest);
        i += 1;
        proof {
            assert(out@ =~= seq![first] + repeated(rest, i - 1));
        }
    }
    out
}

fn marker(shown: bool, c: char) -> (out: String)
    ensures
        out@ == seq![if shown { c } else { ' ' }],
{
    let mut out = String::new();
    out.push(
        if shown {
            c
        } else {
            ' '
        },
    );
    proof {
        assert(out@ =~= seq![if shown { c } else { ' ' }]);
    }
    out
}

/// The number of indentation levels that lie before a column.
pub open spec fn levels_before(col: int, indent_width: int) -> int {
    col / indent_width + if col % indent_width == 0 {
        0int
    } else {
        1int
    }
}

impl TextRenderer {
    /// Whether all cells of the viewport have coordinates, and widths make sense.
    pub open spec fn wf(&self) -> bool {
        &&& self.viewport.x + self.viewport.width <= u16::MAX
        &&& self.viewport.y + self.offset.row + self.viewport.height <= u16::MAX
        &&& self.indent_width > 0
        &&& self.tab@.len() > 0
        &&& self.starting_indent * self.indent_width >= self.offset.col
        &&& self.offset.col + self.viewport.width + self.indent_width <= usize::MAX
    }

    /// Whether only more has been drawn.
    pub open spec fn adds(&self, before: &TextRenderer, drawn: Seq<DrawView>) -> bool {
        &&& steps(self.draws@) == steps(before.draws@) + drawn
        &&& self.text_style == before.text_style
        &&& self.whitespace_style == before.whitespace_style
        &&& self.indent_guide_char == before.indent_guide_char
        &&& self.indent_guide_style == before.indent_guide_style
        &&& self.newline == before.newline
        &&& self.nbsp == before.nbsp
        &&& self.nnbsp == before.nnbsp
        &&& self.space == before.space
        &&& self.tab == before.tab
        &&& self.virtual_tab == before.virtual_tab
        &&& self.indent_width == before.indent_width
        &&& self.starting_indent == before.starting_indent
        &&& self.draw_indent_guides == before.draw_indent_guides
        &&& self.viewport == before.viewport
        &&& self.offset == before.offset
    }

    /// Whether a row of the text is shown.
    pub open spec fn shows_row(&self, row: int) -> bool {
        self.offset.row <= row < self.offset.row + self.viewport.height
    }

    /// Where a shown row stands on the surface.
    pub open spec fn surface_row(&self, row: int) -> u16 {
        (self.viewport.y + row - self.offset.row) as u16
    }

    fn push(&mut self, draw: Draw)
        ensures
            final(self).adds(old(self), seq![draw@]),
    {
        let ghost before = self.draws@;
        let ghost drawn = draw;
        self.draws.push(draw);
        proof {
            lemma_steps_push(before, drawn);
            assert(steps(before).push(drawn@) =~= steps(before) + seq![drawn@]);
        }
    }

    /// Whether nothing was drawn yet, and the rest is as the settings and the
    /// theme say.
    pub open spec fn is_new(&self, settings: RenderSettings, theme: Theme, offset: Position, viewport: Rect) -> bool {
        &&& self.draws@.len() == 0
        &&& self.viewport == viewport
        &&& self.offset == offset
        &&& self.indent_width == settings.indent_width
        &&& self.draw_indent_guides == settings.indent_guides
        &&& self.indent_guide_char@ == seq![settings.indent_guide]
        &&& self.newline@ == seq![if settings.show_newlines { settings.newline } else { ' ' }]
        &&& self.space@ == seq![if settings.show_spaces { settings.space } else { ' ' }]
        &&& self.nbsp@ == seq![if settings.show_nbsp { settings.nbsp } else { ' ' }]
        &&& self.nnbsp@ == seq![if settings.show_nnbsp { settings.nnbsp } else { ' ' }]
        &&& self.tab@ == (if settings.show_tabs {
            seq![settings.tab] + repeated(settings.tab_pad, settings.tab_width - 1)
        } else {
            repeated(' ', settings.tab_width as int)
        })
        &&& self.virtual_tab@ == repeated(' ', settings.tab_width as int)
        &&& self.starting_indent == levels_before(offset.col as int, settings.indent_width as int) + settings.skipped_levels
        &&& self.text_style == (match theme.found("ui.text"@) {
            Some(style) => style,
            None => Style::plain(),
        })
        &&& self.whitespace_style == (match theme.found("ui.virtual.whitespace"@) {
            Some(style) => style,
            None => Style::plain(),
        })
        &&& self.indent_guide_style == self.text_style.patched(
            match theme.found("ui.virtual.indent-guide"@) {
                Some(style) => style,
                None => self.whitespace_style,
            },
        )
    }

    /// A renderer that has drawn nothing.
    pub fn new(settings: &RenderSettings, theme: &Theme, offset: Position, viewport: Rect) -> (out: TextRenderer)
        requires
            settings.tab_width > 0,
            settings.indent_width > 0,
            viewport.x + viewport.width <= u16::MAX,
            viewport.y + offset.row + viewport.height <= u16::MAX,
            offset.col + viewport.width + settings.indent_width + settings.skipped_levels <= usize::MAX,
        ensures
            out.wf(),
            out.is_new(*settings, *theme, offset, viewport),
    {
        let tab = if settings.show_tabs {
            repeat(settings.tab, settings.tab_pad, settings.tab_width)
        } else {
            repeat(' ', ' ', settings.tab_width)
        };
        let virtual_tab = repeat(' ', ' ', settings.tab_width);
        proof {
            assert(seq![' '] + repeated(' ', settings.tab_width - 1) =~= repeated(' ', settings.tab_width as int));
        }
        let text_style = theme.get("ui.text");
        let whitespace_style = theme.get("ui.virtual.whitespace");
        let guide = match theme.try_get("ui.virtual.indent-guide") {
            Some(style) => style,
            None => whitespace_style,
        };
        let width: usize = settings.indent_width as usize;
        let whole: usize = offset.col / width;
        let part: usize = if offset.col % width == 0 {
            0
        } else {
            1
        };
        proof {
            let col = offset.col as int;
            let w = width as int;
            assert(col == w * (col / w) + col % w && 0 <= col % w < w && col / w <= col) by (nonlinear_arith)
                requires
                    0 <= col,
                    0 < w,
            ;
            assert(whole + part <= col) by (nonlinear_arith)
                requires
                    col == w * (col / w) + col % w,
                    0 <= col % w < w,
                    0 <= col,
                    0 < w,
                    whole == col / w,
                    part <= 1,
                    col % w == 0 ==> part == 0,
            ;
            assert((whole + part + settings.skipped_levels) * w >= col) by (nonlinear_arith)
                requires
                    col == w * (col / w) + col % w,
                    0 <= col % w < w,
                    0 < w,
                    whole == col / w,
                    col % w != 0 ==> part == 1,
                    0 <= part,
                    0 <= settings.skipped_levels,
            ;
        }
        TextRenderer {
            draws: Vec::new(),
            text_style,
            whitespace_style,
            indent_guide_char: marker(true, settings.indent_guide),
            indent_guide_style: text_style.patch(guide),
            newline: marker(settings.show_newlines, settings.newline),
            nbsp: marker(settings.show_nbsp, settings.nbsp),
            nnbsp: marker(settings.show_nnbsp, settings.nnbsp),
            space: marker(settings.show_spaces, settings.space),
            tab,
            virtual_tab,
            indent_width: settings.indent_width,
            starting_indent: whole + part + settings.skipped_levels as usize,
            draw_indent_guides: settings.indent_guides,
            viewport,
            offset,
        }
    }

    /// Whether a grapheme lies in the viewport with all its cells.
    pub open spec fn in_columns(&self, column: int, width: int) -> bool {
        self.offset.col <= column && column + width <= self.offset.col + self.viewport.width
    }

    /// Whether a grapheme lies in the viewport with all its cells.
    pub fn column_in_bounds(&self, column: usize, width: usize) -> (out: bool)
        requires
            self.wf(),
        ensures
            out == self.in_columns(column as int, width as int),
    {
        if self.offset.col > column {
            return false;
        }
        let end: usize = self.offset.col + self.viewport.width as usize;
        width <= end && column <= end - width
    }

    /// What a grapheme of a decoration is drawn as.
    pub open spec fn decoration_draws(&self, grapheme: GraphemeView, style: Style, row: u16, col: u16) -> Seq<DrawView> {
        if !self.shows_row(row as int) || col >= self.viewport.width {
            Seq::empty()
        } else {
            seq![
                DrawView::Text {
                    x: (self.viewport.x + col) as u16,
                    y: self.surface_row(row as int),
                    text: match grapheme {
                        GraphemeView::Tab { width } => chars_between(self.virtual_tab@, 0, width as int),
                        GraphemeView::Other { text } => if text == "\u{00A0}"@ {
                            " "@
                        } else {
                            text
                        },
                        GraphemeView::Newline => " "@,
                    },
                    style: if grapheme.is_space() {
                        style.patched(self.whitespace_style)
                    } else {
                        style
                    },
                },
            ]
        }
    }

    /// Draws a grapheme of a decoration, where it is in the viewport.
    pub fn draw_decoration_grapheme(&mut self, grapheme: Grapheme, style: Style, row: u16, col: u16) -> (out: bool)
        requires
            old(self).wf(),
        ensures
            final(self).wf(),
            out == (old(self).shows_row(row as int) && col < old(self).viewport.width),
            final(self).adds(old(self), old(self).decoration_draws(grapheme@, style, row, col)),
    {
        if (row as usize) < self.offset.row || row as usize >= self.offset.row + self.viewport.height as usize || col
            >= self.viewport.width {
            proof {
                assert(steps(self.draws@) + Seq::<DrawView>::empty() =~= steps(self.draws@));
            }
            return false;
        }
        let shown: u16 = row - self.offset.row as u16;
        let style = if grapheme.is_whitespace() {
            style.patch(self.whitespace_style)
        } else {
            style
        };
        let text = match grapheme {
            Grapheme::Tab { width } => slice_chars(self.virtual_tab.as_str(), 0, width),
            Grapheme::Other { text } => if same_text(text.as_str(), "\u{00A0}") {
                " ".to_owned()
            } else {
                text
            },
            Grapheme::Newline => " ".to_owned(),
        };
        let x: u16 = self.viewport.x + col;
        let y: u16 = self.viewport.y + shown;
        self.push(Draw::Text { x, y, text, style });
        true
    }

    /// What a text is drawn as.
    pub open spec fn string_draws(&self, x: u16, y: u16, text: Seq<char>, style: Style) -> Seq<DrawView> {
        if self.shows_row(y as int) {
            seq![DrawView::Text { x, y: self.surface_row(y as int), text, style }]
        } else {
            Seq::empty()
        }
    }

    /// Draws a text in a row, where the row is shown.
    pub fn set_string(&mut self, x: u16, y: u16, string: &str, style: Style)
        requires
            old(self).wf(),
        ensures
            final(self).wf(),
            final(self).adds(old(self), old(self).string_draws(x, y, string@, style)),
    {
        if (y as usize) < self.offset.row || y as usize >= self.offset.row + self.viewport.height as usize {
            proof {
                assert(steps(self.draws@) + Seq::<DrawView>::empty() =~= steps(self.draws@));
            }
            return;
        }
        let row: u16 = self.viewport.y + (y - self.offset.row as u16);
        self.push(Draw::Text { x, y: row, text: string.to_owned(), style });
    }

    /// Draws a text of a limited width in a row, where the row is shown.
    pub fn set_stringn(&mut self, x: u16, y: u16, string: &str, width: usize, style: Style)
        requires
            old(self).wf(),
        ensures
            final(self).wf(),
            final(self).adds(
                old(self),
                if old(self).shows_row(y as int) {
                    seq![DrawView::Limited { x, y: old(self).surface_row(y as int), text: string@, width, style }]
                } else {
                    Seq::empty()
                },
            ),
    {
        if (y as usize) < self.offset.row || y as usize >= self.offset.row + self.viewport.height as usize {
            proof {
                assert(steps(self.draws@) + Seq::<DrawView>::empty() =~= steps(self.draws@));
            }
            return;
        }
        let row: u16 = self.viewport.y + (y - self.offset.row as u16);
        self.push(Draw::Limited { x, y: row, text: string.to_owned(), width, style });
    }

    /// Draws a text that is cut to some cells. Where its row is not shown the
    /// given position comes back; else the surface knows where the text ends.
    pub fn set_string_truncated(
        &mut self,
        x: u16,
        y: u16,
        string: &str,
        width: usize,
        styles: Vec<(usize, Style)>,
        ellipsis: bool,
        truncate_start: bool,
    ) -> (out: Option<(u16, u16)>)
        requires
            old(self).wf(),
        ensures
            final(self).wf(),
            out == (if old(self).shows_row(y as int) {
                None
            } else {
                Some((x, y))
            }),
            final(self).adds(
                old(self),
                if old(self).shows_row(y as int) {
                    seq![
                        DrawView::Truncated {
                            x,
                            y: old(self).surface_row(y as int),
                            text: string@,
                            width,
                            styles: styles@,
                            ellipsis,
                            truncate_start,
                        },
                    ]
                } else {
                    Seq::empty()
                },
            ),
    {
        if (y as usize) < self.offset.row || y as usize >= self.offset.row + self.viewport.height as usize {
            proof {
                assert(steps(self.draws@) + Seq::<DrawView>::empty() =~= steps(self.draws@));
            }
            return Some((x, y));
        }
        let row: u16 = self.viewport.y + (y - self.offset.row as u16);
        self.push(Draw::Truncated { x, y: row, text: string.to_owned(), width, styles, ellipsis, truncate_start });
        None
    }

    /// The part of an area of the text whose rows are shown, on the surface.
    pub open spec fn shown_part(&self, area: Rect) -> Rect {
        let bottom = if area.y + area.height > u16::MAX {
            u16::MAX as int
        } else {
            area.y + area.height
        };
        let top = if area.y < self.offset.row {
            self.offset.row as int
        } else {
            area.y as int
        };
        let end = if bottom < self.offset.row + self.viewport.height {
            bottom
        } else {
            self.offset.row + self.viewport.height
        };
        Rect {
            x: area.x,
            y: (self.viewport.y + top - self.offset.row) as u16,
            width: area.width,
            height: if end > top {
                (end - top) as u16
            } else {
                0
            },
        }
    }

    /// What a style of an area is drawn as.
    pub open spec fn style_draws(&self, area: Rect, style: Style) -> Seq<DrawView> {
        let shown = self.shown_part(area);
        if shown.width == 0 || shown.height == 0 {
            Seq::empty()
        } else {
            seq![DrawView::Fill { area: shown, style }]
        }
    }

    /// Sets the style of an area of the text, where its rows are shown.
    pub fn set_style(&mut self, area: Rect, style: Style)
        requires
            old(self).wf(),
        ensures
            final(self).wf(),
            final(self).adds(old(self), old(self).style_draws(area, style)),
    {
        let first: u16 = self.offset.row as u16;
        let top: u16 = if area.y < first {
            first
        } else {
            area.y
        };
        let bottom: u16 = area.y.saturating_add(area.height);
        let limit: u16 = first + self.viewport.height;
        let end: u16 = if bottom < limit {
            bottom
        } else {
            limit
        };
        if area.width == 0 || end <= top {
            proof {
                assert(steps(self.draws@) + Seq::<DrawView>::empty() =~= steps(self.draws@));
            }
            return;
        }
        let y: u16 = self.viewport.y + (top - first);
        self.push(Draw::Fill { area: Rect { x: area.x, y, width: area.width, height: end - top }, style });
    }

    /// How a grapheme of the text is written.
    pub open spec fn written(&self, grapheme: GraphemeView, is_virtual: bool, is_eof: bool) -> Seq<char> {
        match grapheme {
            GraphemeView::Tab { width } => chars_between(
                if is_virtual {
                    self.virtual_tab@
                } else {
                    self.tab@
                },
                0,
                width as int,
            ),
            GraphemeView::Newline => self.newline@,
            GraphemeView::Other { text } => if text == " "@ && !is_eof {
                if is_virtual {
                    " "@
                } else {
                    self.space@
                }
            } else if text == "\u{00A0}"@ {
                if is_virtual {
                    " "@
                } else {
                    self.nbsp@
                }
            } else if text == "\u{202F}"@ {
                if is_virtual {
                    " "@
                } else {
                    self.nnbsp@
                }
            } else {
                text
            },
        }
    }

    fn write(&self, grapheme: &Grapheme, is_virtual: bool, is_eof: bool) -> (out: String)
        ensures
            out@ == self.written(grapheme@, is_virtual, is_eof),
    {
        match grapheme {
            Grapheme::Tab { width } => {
                let tab = if is_virtual {
                    self.virtual_tab.as_str()
                } else {
                    self.tab.as_str()
                };
                slice_chars(tab, 0, *width)
            },
            Grapheme::Newline => self.newline.clone(),
            Grapheme::Other { text } => if same_text(text.as_str(), " ") && !is_eof {
                if is_virtual {
                    " ".to_owned()
                } else {
                    self.space.clone()
                }
            } else if same_text(text.as_str(), "\u{00A0}") {
                if is_virtual {
                    " ".to_owned()
                } else {
                    self.nbsp.clone()
                }
            } else if same_text(text.as_str(), "\u{202F}") {
                if is_virtual {
                    " ".to_owned()
                } else {
                    self.nnbsp.clone()
                }
            } else {
                text.clone()
            },
        }
    }

    /// The style of a grapheme of the text.
    pub open spec fn style_of(&self, grapheme: GraphemeView, styles: GraphemeStyle) -> Style {
        let base = if grapheme.is_space() {
            styles.syntax_style.patched(self.whitespace_style)
        } else {
            styles.syntax_style
        };
        base.patched(styles.overlay_style)
    }

    /// What a grapheme of the text is drawn as.
    pub open spec fn grapheme_draws(
        &self,
        grapheme: GraphemeView,
        styles: GraphemeStyle,
        is_virtual: bool,
        is_eof: bool,
        position: Position,
    ) -> Seq<DrawView> {
        let width = grapheme.width();
        let cut = self.offset.col - position.col;
        let y = self.surface_row(position.row as int);
        let style = self.style_of(grapheme, styles);
        if position.row < self.offset.row {
            Seq::empty()
        } else if self.in_columns(position.col as int, width as int) {
            let x = (self.viewport.x + position.col - self.offset.col) as u16;
            let text = self.written(grapheme, is_virtual, is_eof);
            if grapheme is Tab {
                seq![DrawView::Tab { x, y, text, style }]
            } else {
                seq![DrawView::Grapheme { x, y, text, width, style }]
            }
        } else if 0 < cut < width {
            seq![
                DrawView::Fill {
                    area: Rect { x: self.viewport.x, y, width: (width - cut) as u16, height: 1 },
                    style,
                },
            ]
        } else {
            Seq::empty()
        }
    }

    /// Draws a grapheme of the text. The result is the number of its cells.
    /// The first grapheme of a line that is no white space ends its indentation.
    pub fn draw_grapheme(
        &mut self,
        grapheme: &Grapheme,
        styles: GraphemeStyle,
        is_virtual: bool,
        is_eof: bool,
        last_indent_level: &mut usize,
        is_in_indent_area: &mut bool,
        position: Position,
    ) -> (out: usize)
        requires
            old(self).wf(),
            position.row < old(self).offset.row + old(self).viewport.height,
        ensures
            final(self).wf(),
            final(self).adds(old(self), old(self).grapheme_draws(grapheme@, styles, is_virtual, is_eof, position)),
            out == (if position.row < old(self).offset.row {
                0
            } else {
                grapheme@.width()
            }),
            ({
                let ends = position.row >= old(self).offset.row && *old(is_in_indent_area) && !grapheme@.is_space();
                &&& *final(last_indent_level) == (if ends {
                    position.col
                } else {
                    *old(last_indent_level)
                })
                &&& *final(is_in_indent_area) == (*old(is_in_indent_area) && !ends)
            }),
    {
        if position.row < self.offset.row {
            proof {
                assert(steps(self.draws@) + Seq::<DrawView>::empty() =~= steps(self.draws@));
            }
            return 0;
        }
        let row: u16 = (position.row - self.offset.row) as u16;
        let cut: usize = self.offset.col.saturating_sub(position.col);
        let space = grapheme.is_whitespace();
        let base = if space {
            styles.syntax_style.patch(self.whitespace_style)
        } else {
            styles.syntax_style
        };
        let style = base.patch(styles.overlay_style);
        let width: usize = grapheme.width();
        let y: u16 = self.viewport.y + row;
        if self.column_in_bounds(position.col, width) {
            let x: u16 = self.viewport.x + (position.col - self.offset.col) as u16;
            let text = self.write(grapheme, is_virtual, is_eof);
            let is_tab = match grapheme {
                Grapheme::Tab { .. } => true,
                _ => false,
            };
            if is_tab {
                self.push(Draw::Tab { x, y, text, style });
            } else {
                self.push(Draw::Grapheme { x, y, text, width, style });
            }
        } else if cut != 0 && cut < width {
            #[verifier::truncate]
            let visible: u16 = (width - cut) as u16;
            self.push(Draw::Fill { area: Rect { x: self.viewport.x, y, width: visible, height: 1 }, style });
        } else {
            proof {
                assert(steps(self.draws@) + Seq::<DrawView>::empty() =~= steps(self.draws@));
            }
        }
        if *is_in_indent_area && !space {
            *last_indent_level = position.col;
            *is_in_indent_area = false;
        }
        width
    }
}

/// The sum, or the largest number where it is larger.
pub open spec fn sum_up_to_max(a: usize, b: usize) -> usize {
    if a + b > usize::MAX {
        usize::MAX
    } else {
        (a + b) as usize
    }
}

impl TextRenderer {
    /// Where a row of the text stands on the surface, if it is shown.
    pub fn row_on_surface(&self, row: u16) -> (out: Option<u16>)
        requires
            self.wf(),
        ensures
            out == (if self.shows_row(row as int) {
                Some(self.surface_row(row as int))
            } else {
                None
            }),
    {
        if (row as usize) < self.offset.row || row as usize >= self.offset.row + self.viewport.height as usize {
            return None;
        }
        Some(self.viewport.y + (row - self.offset.row as u16))
    }

    /// The number of indentation levels up to which guides are drawn.
    pub open spec fn last_guide(&self, indent_level: int) -> int {
        let reach = self.offset.col + self.viewport.width + self.indent_width - 1;
        (if indent_level < reach {
            indent_level
        } else {
            reach
        }) / self.indent_width as int
    }

    /// The guide of an indentation level.
    pub open spec fn guide(&self, level: int, row: int) -> DrawView {
        DrawView::Text {
            x: (self.viewport.x + level * self.indent_width - self.offset.col) as u16,
            y: self.surface_row(row),
            text: self.indent_guide_char@,
            style: self.indent_guide_style,
        }
    }

    /// What the indentation guides of a row are drawn as.
    pub open spec fn guide_draws(&self, indent_level: usize, row: u16) -> Seq<DrawView> {
        let end = self.last_guide(indent_level as int);
        if !self.draw_indent_guides || !self.shows_row(row as int) || end <= self.starting_indent {
            Seq::empty()
        } else {
            Seq::new((end - self.starting_indent) as nat, |k: int| self.guide(self.starting_indent + k, row as int))
        }
    }

    /// Draws the indentation guides of a row.
    pub fn draw_indent_guides(&mut self, indent_level: usize, row: u16)
        requires
            old(self).wf(),
        ensures
            final(self).wf(),
            final(self).adds(old(self), old(self).guide_draws(indent_level, row)),
    {
        let ghost all = self.guide_draws(indent_level, row);
        proof {
            assert(steps(self.draws@) + Seq::<DrawView>::empty() =~= steps(self.draws@));
        }
        if !self.draw_indent_guides {
            return;
        }
        let y: u16 = match self.row_on_surface(row) {
            Some(y) => y,
            None => {
                return;
            },
        };
        let width: usize = self.indent_width as usize;
        let reach: usize = self.offset.col + self.viewport.width as usize + (width - 1);
        let bounded: usize = if indent_level < reach {
            indent_level
        } else {
            reach
        };
        let end: usize = bounded / width;
        let mut level: usize = self.starting_indent;
        let ghost first = *self;
        proof {
            let w = width as int;
            assert((bounded as int / w) * w <= bounded) by (nonlinear_arith)
                requires
                    0 < w,
                    0 <= bounded,
            ;
        }
        proof {
            assert(all.subrange(0, 0) =~= Seq::<DrawView>::empty());
        }
        while level < end
            invariant
                first == *old(self),
                first.wf(),
                self.wf(),
                first.draw_indent_guides,
                first.shows_row(row as int),
                y == first.surface_row(row as int),
                width == first.indent_width,
                end == first.last_guide(indent_level as int),
                end * width <= first.offset.col + first.viewport.width + width - 1,
                all == first.guide_draws(indent_level, row),
                first.starting_indent <= level,
                level <= end || level == first.starting_indent,
                self.adds(&first, all.subrange(0, level - first.starting_indent)),
            decreases end - level,
        {
            proof {
                let w = width as int;
                assert(level * w + w <= end * w) by (nonlinear_arith)
                    requires
                        level + 1 <= end,
                        0 < w,
                ;
                assert(level * w >= first.starting_indent * w) by (nonlinear_arith)
                    requires
                        level >= first.starting_indent,
                        0 < w,
                ;
            }
            let from: usize = level * width;
            let x: u16 = self.viewport.x + (from - self.offset.col) as u16;
            let text = self.indent_guide_char.clone();
            let style = self.indent_guide_style;
            let ghost before = *self;
            self.push(Draw::Text { x, y, text, style });
            level += 1;
            proof {
                let n = level - first.starting_indent;
                assert(all.subrange(0, n) =~= all.subrange(0, n - 1).push(all[n - 1]));
                assert(all[n - 1] == first.guide(level - 1, row as int));
                assert(steps(self.draws@) =~= steps(first.draws@) + all.subrange(0, n));
            }
        }
        proof {
            assert(all.subrange(0, all.len() as int) =~= all);
        }
    }

    /// The columns of the text that are shown.
    pub open spec fn shown_columns(&self) -> (int, int) {
        (self.offset.col as int, self.offset.col + self.viewport.width)
    }

    /// A marker for a grapheme of white space, where it is shown as a whole.
    pub open spec fn marker_draws(&self, text: Seq<char>, col: usize, end: usize, y: u16, style: Style) -> Seq<DrawView> {
        let (from, to) = self.shown_columns();
        if col >= from && end <= to {
            seq![DrawView::Grapheme { x: (self.viewport.x + col - from) as u16, y, text, width: 1, style }]
        } else {
            Seq::empty()
        }
    }

    /// The style of a grapheme that is shown in part.
    pub open spec fn clipped_draws(&self, col: usize, end: usize, y: u16, style: Style) -> Seq<DrawView> {
        let (from, to) = self.shown_columns();
        let start = if col < from {
            from
        } else {
            col as int
        };
        let stop = if end < to {
            end as int
        } else {
            to
        };
        if stop > start {
            seq![
                DrawView::Fill {
                    area: Rect {
                        x: (self.viewport.x + start - from) as u16,
                        y,
                        width: (stop - start) as u16,
                        height: 1,
                    },
                    style,
                },
            ]
        } else {
            Seq::empty()
        }
    }

    /// What a grapheme of custom text is drawn as, between two columns of which
    /// some are shown.
    pub open spec fn custom_step(&self, grapheme: GraphemeView, col: usize, end: usize, y: u16, style: Style) -> Seq<DrawView> {
        let (from, to) = self.shown_columns();
        let own = if grapheme.is_space() {
            style.patched(self.whitespace_style)
        } else {
            style
        };
        match grapheme {
            GraphemeView::Tab { width } => {
                let start = if col < from {
                    from
                } else {
                    col as int
                };
                let stop = if end < to {
                    end as int
                } else {
                    to
                };
                let take = if stop - start < width {
                    stop - start
                } else {
                    width as int
                };
                seq![
                    DrawView::Tab {
                        x: (self.viewport.x + start - from) as u16,
                        y,
                        text: chars_between(chars_between(self.tab@, 0, width as int), start - col, start - col + take),
                        style: own,
                    },
                ]
            },
            GraphemeView::Newline => self.clipped_draws(col, end, y, own),
            GraphemeView::Other { text } => if text == " "@ {
                self.marker_draws(self.space@, col, end, y, own)
            } else if text == "\u{00A0}"@ {
                self.marker_draws(self.nbsp@, col, end, y, own)
            } else if text == "\u{202F}"@ {
                self.marker_draws(self.nnbsp@, col, end, y, own)
            } else if col >= from && end <= to {
                seq![
                    DrawView::Grapheme {
                        x: (self.viewport.x + col - from) as u16,
                        y,
                        text,
                        width: grapheme.width(),
                        style: own,
                    },
                ]
            } else {
                self.clipped_draws(col, end, y, own)
            },
        }
    }

    /// What the graphemes from `i` on are drawn as, the first one at a column.
    pub open spec fn custom_draws(&self, values: Seq<Seq<char>>, i: int, col: usize, y: u16, style: Style) -> Seq<DrawView>
        decreases values.len() - i,
    {
        if i < 0 || i >= values.len() {
            Seq::empty()
        } else {
            let grapheme = grapheme_at(values[i], col, self.tab@.len() as usize);
            let end = sum_up_to_max(col, grapheme.width());
            let (from, to) = self.shown_columns();
            if end <= from {
                self.custom_draws(values, i + 1, end, y, style)
            } else if col >= to {
                Seq::empty()
            } else {
                self.custom_step(grapheme, col, end, y, style) + self.custom_draws(values, i + 1, end, y, style)
            }
        }
    }

    /// What a line of custom text is drawn as, given its graphemes.
    pub open spec fn custom_line_draws(&self, row: u16, values: Seq<Seq<char>>, style: Style) -> Seq<DrawView> {
        if self.shows_row(row as int) {
            self.custom_draws(values, 0, 0, self.surface_row(row as int), style)
        } else {
            Seq::empty()
        }
    }

    fn draw_marker(&mut self, text: String, col: usize, end: usize, y: u16, style: Style)
        requires
            old(self).wf(),
            col <= end,
        ensures
            final(self).wf(),
            final(self).adds(old(self), old(self).marker_draws(text@, col, end, y, style)),
    {
        let to: usize = self.offset.col + self.viewport.width as usize;
        if col >= self.offset.col && end <= to {
            let x: u16 = self.viewport.x + (col - self.offset.col) as u16;
            self.push(Draw::Grapheme { x, y, text, width: 1, style });
        } else {
            proof {
                assert(steps(self.draws@) + Seq::<DrawView>::empty() =~= steps(self.draws@));
            }
        }
    }

    fn draw_clipped(&mut self, col: usize, end: usize, y: u16, style: Style)
        requires
            old(self).wf(),
        ensures
            final(self).wf(),
            final(self).adds(old(self), old(self).clipped_draws(col, end, y, style)),
    {
        let from: usize = self.offset.col;
        let to: usize = from + self.viewport.width as usize;
        let start: usize = if col < from {
            from
        } else {
            col
        };
        let stop: usize = if end < to {
            end
        } else {
            to
        };
        if stop > start {
            let x: u16 = self.viewport.x + (start - from) as u16;
            self.push(Draw::Fill { area: Rect { x, y, width: (stop - start) as u16, height: 1 }, style });
        } else {
            proof {
                assert(steps(self.draws@) + Seq::<DrawView>::empty() =~= steps(self.draws@));
            }
        }
    }

    fn draw_custom_grapheme(&mut self, grapheme: Grapheme, col: usize, end: usize, y: u16, style: Style)
        requires
            old(self).wf(),
            end == sum_up_to_max(col, grapheme@.width()),
            end > old(self).offset.col,
            col < old(self).offset.col + old(self).viewport.width,
        ensures
            final(self).wf(),
            final(self).adds(old(self), old(self).custom_step(grapheme@, col, end, y, style)),
    {
        let from: usize = self.offset.col;
        let to: usize = from + self.viewport.width as usize;
        let own = if grapheme.is_whitespace() {
            style.patch(self.whitespace_style)
        } else {
            style
        };
        let width: usize = grapheme.width();
        match grapheme {
            Grapheme::Tab { width } => {
                let start: usize = if col < from {
                    from
                } else {
                    col
                };
                let stop: usize = if end < to {
                    end
                } else {
                    to
                };
                let shown: usize = stop - start;
                let take: usize = if shown < width {
                    shown
                } else {
                    width
                };
                let skip: usize = start - col;
                let tab = slice_chars(self.tab.as_str(), 0, width);
                let text = slice_chars(tab.as_str(), skip, skip + take);
                let x: u16 = self.viewport.x + (start - from) as u16;
                self.push(Draw::Tab { x, y, text, style: own });
            },
            Grapheme::Newline => {
                self.draw_clipped(col, end, y, own);
            },
            Grapheme::Other { text } => {
                if same_text(text.as_str(), " ") {
                    let text = self.space.clone();
                    self.draw_marker(text, col, end, y, own);
                } else if same_text(text.as_str(), "\u{00A0}") {
                    let text = self.nbsp.clone();
                    self.draw_marker(text, col, end, y, own);
                } else if same_text(text.as_str(), "\u{202F}") {
                    let text = self.nnbsp.clone();
                    self.draw_marker(text, col, end, y, own);
                } else if col >= from && end <= to {
                    let x: u16 = self.viewport.x + (col - from) as u16;
                    self.push(Draw::Grapheme { x, y, text, width, style: own });
                } else {
                    self.draw_clipped(col, end, y, own);
                }
            },
        }
    }

    /// Draws a line of custom text, given its graphemes.
    pub fn draw_graphemes(&mut self, row: u16, values: &Vec<String>, style: Style)
        requires
            old(self).wf(),
        ensures
            final(self).wf(),
            final(self).adds(old(self), old(self).custom_line_draws(row, string_views(values@), style)),
    {
        let ghost first = *self;
        let ghost all = string_views(values@);
        proof {
            assert(steps(self.draws@) + Seq::<DrawView>::empty() =~= steps(self.draws@));
        }
        let y: u16 = match self.row_on_surface(row) {
            Some(y) => y,
            None => {
                return;
            },
        };
        let tab_width: usize = chars_of(self.tab.as_str()).len();
        let from: usize = self.offset.col;
        let to: usize = from + self.viewport.width as usize;
        let mut col: usize = 0;
        let mut i: usize = 0;
        let ghost mut drawn: Seq<DrawView> = Seq::empty();
        proof {
            assert(drawn + first.custom_draws(all, 0, 0, y, style) =~= first.custom_draws(all, 0, 0, y, style));
        }
        while i < values.len()
            invariant
                first == *old(self),
                first.wf(),
                self.wf(),
                all == string_views(values@),
                i <= values@.len(),
                first.shows_row(row as int),
                y == first.surface_row(row as int),
                tab_width == first.tab@.len(),
                from == first.offset.col,
                to == from + first.viewport.width,
                self.adds(&first, drawn),
                drawn + first.custom_draws(all, i as int, col, y, style) == first.custom_draws(all, 0, 0, y, style),
            decreases values.len() - i,
        {
            proof {
                assert(all[i as int] == values@[i as int]@);
            }
            let grapheme = Grapheme::new(values[i].clone(), col, tab_width);
            let ghost view = grapheme@;
            let end: usize = col.saturating_add(grapheme.width());
            if end <= from {
                col = end;
                i += 1;
                continue;
            }
            if col >= to {
                proof {
                    assert(drawn + Seq::<DrawView>::empty() =~= drawn);
                }
                return;
            }
            let ghost before = *self;
            self.draw_custom_grapheme(grapheme, col, end, y, style);
            proof {
                let step = first.custom_step(view, col, end, y, style);
                let rest = first.custom_draws(all, i + 1, end, y, style);
                assert(before.custom_step(view, col, end, y, style) == step);
                assert((drawn + step) + rest =~= drawn + (step + rest));
                assert(steps(first.draws@) + (drawn + step) =~= (steps(first.draws@) + drawn) + step);
                drawn = drawn + step;
            }
            col = end;
            i += 1;
        }
        proof {
            assert(drawn + Seq::<DrawView>::empty() =~= drawn);
        }
    }

    /// Draws a line of custom text with the graphemes, tab stops, white-space
    /// markers, scrolling and clipping of the text of the document.
    pub fn draw_custom_text_line(&mut self, row: u16, text: &str, style: Style)
        requires
            old(self).wf(),
        ensures
            final(self).wf(),
            final(self).adds(old(self), old(self).custom_line_draws(row, graphemes_of(text@), style)),
    {
        let values = graphemes(text);
        self.draw_graphemes(row, &values, style);
    }
}

} // verus!
