//! Backgrounds of rows and virtual lines that extensions own.

use vstd::prelude::*;

use super::drawing::{steps, DrawView};
use super::graphemes::graphemes_of;
use super::renderer::TextRenderer;
use crate::custom_text::annotations::{views, BackgroundView, CustomLineBackground, CustomVirtualLine, VirtualLineView};
use crate::custom_text::store::rows_after;
use crate::custom_text::tint::{background_style, row_color};
use crate::graphics::{Rect, Style};
use crate::theme::Theme;

verus! {

broadcast use vstd::string::group_string_axioms;

/// A visual line of the text.
#[derive(Clone, Copy, Debug, PartialEq, Eq, Structural)]
pub struct LinePos {
    /// Whether it is the first visual line of its document line.
    pub first_visual_line: bool,
    /// The document line that it belongs to.
    pub doc_line: usize,
    /// How far below the top of the text it stands.
    pub visual_line: u16,
}

/// The row so far down, or the last one.
pub open spec fn row_below(row: u16, by: int) -> u16 {
    if row + by > u16::MAX {
        u16::MAX
    } else {
        (row + by) as u16
    }
}

pub open spec fn tint(theme: Theme, scope: Seq<char>, opacity: u8) -> Style {
    Style { bg: Some(row_color(theme, scope, opacity)), ..Style::plain() }
}

pub open spec fn full_row(renderer: &TextRenderer, row: u16) -> Rect {
    Rect { x: renderer.viewport.x, y: row, width: renderer.viewport.width, height: 1 }
}

/// What the backgrounds of a row are drawn as, up to the first `n`.
pub open spec fn background_draws(renderer: &TextRenderer, theme: Theme, lines: Seq<BackgroundView>, pos: LinePos, n: int) -> Seq<
    DrawView,
>
    decreases n,
{
    if n <= 0 {
        Seq::empty()
    } else {
        let before = background_draws(renderer, theme, lines, pos, n - 1);
        let line = lines[n - 1];
        if line.line == pos.doc_line {
            before + renderer.style_draws(full_row(renderer, pos.visual_line), tint(theme, line.scope, line.opacity))
        } else {
            before
        }
    }
}

/// What one virtual line is drawn as.
pub open spec fn virtual_line_draws(renderer: &TextRenderer, theme: Theme, line: VirtualLineView, row: u16) -> Seq<DrawView> {
    let own = match theme.found(line.scope) {
        Some(style) => style,
        None => Style::plain(),
    };
    match line.background_opacity {
        Some(opacity) => {
            let background = tint(theme, line.scope, opacity);
            renderer.style_draws(full_row(renderer, row), background) + renderer.custom_line_draws(
                row,
                graphemes_of(line.text),
                own.patched(background),
            )
        },
        None => renderer.custom_line_draws(row, graphemes_of(line.text), own),
    }
}

/// What the virtual lines after a document line are drawn as, up to the first
/// `n` lines, one below the other.
pub open spec fn virtual_draws(
    renderer: &TextRenderer,
    theme: Theme,
    lines: Seq<VirtualLineView>,
    doc_line: usize,
    start_row: u16,
    n: int,
) -> Seq<DrawView>
    decreases n,
{
    if n <= 0 {
        Seq::empty()
    } else {
        let before = virtual_draws(renderer, theme, lines, doc_line, start_row, n - 1);
        let line = lines[n - 1];
        if line.line == doc_line {
            before + virtual_line_draws(
                renderer,
                theme,
                line,
                row_below(start_row, rows_after(lines.subrange(0, n - 1), doc_line) as int),
            )
        } else {
            before
        }
    }
}

pub proof fn lemma_adds(a: &TextRenderer, b: &TextRenderer, c: &TextRenderer, first: Seq<DrawView>, second: Seq<DrawView>)
    requires
        b.adds(a, first),
        c.adds(b, second),
    ensures
        c.adds(a, first + second),
{
    assert((steps(a.draws@) + first) + second =~= steps(a.draws@) + (first + second));
}

/// Nothing drawn is something added.
pub proof fn lemma_adds_nothing(a: &TextRenderer)
    ensures
        a.adds(a, Seq::empty()),
{
    assert(steps(a.draws@) + Seq::<DrawView>::empty() =~= steps(a.draws@));
}

/// The backgrounds and the virtual lines of a view.
#[derive(Debug)]
pub struct CustomDecorations {
    pub line_backgrounds: Vec<CustomLineBackground>,
    pub virtual_lines: Vec<CustomVirtualLine>,
}

fn draw_virtual_line(renderer: &mut TextRenderer, theme: &Theme, line: &CustomVirtualLine, row: u16)
    requires
        old(renderer).wf(),
    ensures
        final(renderer).wf(),
        final(renderer).adds(old(renderer), virtual_line_draws(old(renderer), *theme, line@, row)),
{
    let ghost first = *renderer;
    let mut style = theme.get(line.scope.as_str());
    if let Some(opacity) = line.background_opacity {
        let background = background_style(theme, line.scope.as_str(), opacity);
        let area = Rect::new(renderer.viewport.x, row, renderer.viewport.width, 1);
        renderer.set_style(area, background);
        let ghost middle = *renderer;
        style = style.patch(background);
        renderer.draw_custom_text_line(row, line.text.as_str(), style);
        proof {
            let shown = first.style_draws(full_row(&first, row), background);
            let text = middle.custom_line_draws(row, graphemes_of(line.text@), style);
            lemma_adds(&first, &middle, renderer, shown, text);
            lemma_same_custom(&first, &middle, row, graphemes_of(line.text@), style);
        }
    } else {
        renderer.draw_custom_text_line(row, line.text.as_str(), style);
    }
}

/// What custom text is drawn as does not depend on what was drawn before.
proof fn lemma_same_custom(a: &TextRenderer, b: &TextRenderer, row: u16, values: Seq<Seq<char>>, style: Style)
    requires
        exists|drawn: Seq<DrawView>| b.adds(a, drawn),
    ensures
        b.custom_line_draws(row, values, style) == a.custom_line_draws(row, values, style),
{
    lemma_same_custom_draws(a, b, values, 0, 0, a.surface_row(row as int), style);
}

proof fn lemma_same_custom_draws(
    a: &TextRenderer,
    b: &TextRenderer,
    values: Seq<Seq<char>>,
    i: int,
    col: usize,
    y: u16,
    style: Style,
)
    requires
        exists|drawn: Seq<DrawView>| b.adds(a, drawn),
    ensures
        b.custom_draws(values, i, col, y, style) == a.custom_draws(values, i, col, y, style),
    decreases values.len() - i,
{
    if 0 <= i < values.len() {
        let grapheme = super::graphemes::grapheme_at(values[i], col, a.tab@.len() as usize);
        let end = super::renderer::sum_up_to_max(col, grapheme.width());
        lemma_same_custom_draws(a, b, values, i + 1, end, y, style);
        assert(b.custom_step(grapheme, col, end, y, style) == a.custom_step(grapheme, col, end, y, style));
    }
}

proof fn lemma_same_virtual_line(a: &TextRenderer, b: &TextRenderer, theme: Theme, line: VirtualLineView, row: u16)
    requires
        exists|drawn: Seq<DrawView>| b.adds(a, drawn),
    ensures
        virtual_line_draws(b, theme, line, row) == virtual_line_draws(a, theme, line, row),
{
    let own = match theme.found(line.scope) {
        Some(style) => style,
        None => Style::plain(),
    };
    lemma_same_custom(a, b, row, graphemes_of(line.text), own);
    if line.background_opacity is Some {
        let background = tint(theme, line.scope, line.background_opacity->0);
        lemma_same_custom(a, b, row, graphemes_of(line.text), own.patched(background));
    }
}

pub proof fn lemma_same_virtual(
    a: &TextRenderer,
    b: &TextRenderer,
    theme: Theme,
    lines: Seq<VirtualLineView>,
    doc_line: usize,
    start_row: u16,
    n: int,
)
    requires
        exists|drawn: Seq<DrawView>| b.adds(a, drawn),
    ensures
        virtual_draws(b, theme, lines, doc_line, start_row, n) == virtual_draws(a, theme, lines, doc_line, start_row, n),
    decreases n,
{
    if n > 0 {
        lemma_same_virtual(a, b, theme, lines, doc_line, start_row, n - 1);
        let row = row_below(start_row, rows_after(lines.subrange(0, n - 1), doc_line) as int);
        lemma_same_virtual_line(a, b, theme, lines[n - 1], row);
    }
}

pub proof fn lemma_same_backgrounds(
    a: &TextRenderer,
    b: &TextRenderer,
    theme: Theme,
    lines: Seq<BackgroundView>,
    pos: LinePos,
    n: int,
)
    requires
        exists|drawn: Seq<DrawView>| b.adds(a, drawn),
    ensures
        background_draws(b, theme, lines, pos, n) == background_draws(a, theme, lines, pos, n),
    decreases n,
{
    if n > 0 {
        lemma_same_backgrounds(a, b, theme, lines, pos, n - 1);
    }
}

impl CustomDecorations {
    /// Draws the backgrounds of a row.
    pub fn decorate_line(&self, renderer: &mut TextRenderer, theme: &Theme, pos: LinePos)
        requires
            old(renderer).wf(),
        ensures
            final(renderer).wf(),
            final(renderer).adds(
                old(renderer),
                background_draws(
                    old(renderer),
                    *theme,
                    views(self.line_backgrounds@),
                    pos,
                    self.line_backgrounds@.len() as int,
                ),
            ),
    {
        let ghost first = *renderer;
        let ghost all = views(self.line_backgrounds@);
        let mut i: usize = 0;
        proof {
            lemma_adds_nothing(&first);
        }
        while i < self.line_backgrounds.len()
            invariant
                i <= self.line_backgrounds@.len(),
                all == views(self.line_backgrounds@),
                renderer.wf(),
                renderer.adds(&first, background_draws(&first, *theme, all, pos, i as int)),
            decreases self.line_backgrounds.len() - i,
        {
            let line = &self.line_backgrounds[i];
            proof {
                assert(all[i as int] == self.line_backgrounds@[i as int]@);
            }
            if line.line == pos.doc_line {
                let ghost before = *renderer;
                let style = background_style(theme, line.scope.as_str(), line.opacity);
                let area = Rect::new(renderer.viewport.x, pos.visual_line, renderer.viewport.width, 1);
                renderer.set_style(area, style);
                proof {
                    lemma_adds(
                        &first,
                        &before,
                        renderer,
                        background_draws(&first, *theme, all, pos, i as int),
                        before.style_draws(area, style),
                    );
                }
            }
            i += 1;
        }
    }

    /// Draws the virtual lines after a document line. The result is their number.
    pub fn render_virt_lines(&self, renderer: &mut TextRenderer, theme: &Theme, doc_line: usize, start_row: u16) -> (out: usize)
        requires
            old(renderer).wf(),
        ensures
            final(renderer).wf(),
            out == rows_after(views(self.virtual_lines@), doc_line),
            final(renderer).adds(
                old(renderer),
                virtual_draws(
                    old(renderer),
                    *theme,
                    views(self.virtual_lines@),
                    doc_line,
                    start_row,
                    self.virtual_lines@.len() as int,
                ),
            ),
    {
        let ghost first = *renderer;
        let ghost all = views(self.virtual_lines@);
        let mut count: usize = 0;
        let mut row: u16 = start_row;
        let mut i: usize = 0;
        proof {
            lemma_adds_nothing(&first);
            assert(all.subrange(0, 0) =~= Seq::<VirtualLineView>::empty());
        }
        while i < self.virtual_lines.len()
            invariant
                i <= self.virtual_lines@.len(),
                all == views(self.virtual_lines@),
                count <= i,
                count == rows_after(all.subrange(0, i as int), doc_line),
                row == row_below(start_row, count as int),
                renderer.wf(),
                renderer.adds(&first, virtual_draws(&first, *theme, all, doc_line, start_row, i as int)),
            decreases self.virtual_lines.len() - i,
        {
            let line = &self.virtual_lines[i];
            proof {
                assert(all[i as int] == self.virtual_lines@[i as int]@);
                assert(all.subrange(0, i + 1).drop_last() =~= all.subrange(0, i as int));
                assert(all.subrange(0, i + 1).last() == all[i as int]);
            }
            if line.line == doc_line {
                let ghost before = *renderer;
                draw_virtual_line(renderer, theme, line, row);
                proof {
                    lemma_same_virtual_line(&first, &before, *theme, all[i as int], row);
                    lemma_adds(
                        &first,
                        &before,
                        renderer,
                        virtual_draws(&first, *theme, all, doc_line, start_row, i as int),
                        virtual_line_draws(&before, *theme, all[i as int], row),
                    );
                }
                count += 1;
                row = row.saturating_add(1);
            }
            i += 1;
        }
        proof {
            assert(all.subrange(0, all.len() as int) =~= all);
        }
        count
    }
}

} // verus!
