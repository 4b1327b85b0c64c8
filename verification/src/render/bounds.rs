//! Rows that drawing keeps to.

use vstd::prelude::*;

use super::decorations::{background_draws, full_row, row_below, tint, virtual_draws, virtual_line_draws, LinePos};
use super::drawing::DrawView;
use super::graphemes::{grapheme_at, graphemes_of, GraphemeView};
use super::renderer::{sum_up_to_max, TextRenderer};
use super::walk::{
    enter_draws, item_draws, leave_draws, line_of, row_of, step_draws, walk_draws, walked, FormattedGrapheme, Scene, Walk,
};
use crate::custom_text::annotations::{BackgroundView, VirtualLineView};
use crate::custom_text::store::rows_after;
use crate::graphics::{Rect, Style};
use crate::theme::Theme;

verus! {

/// Whether a step draws on rows of the viewport alone.
pub open spec fn in_rows(renderer: &TextRenderer, draw: DrawView) -> bool {
    let top = renderer.viewport.y;
    let bottom = renderer.viewport.y + renderer.viewport.height;
    match draw {
        DrawView::Text { y, .. } => top <= y < bottom,
        DrawView::Limited { y, .. } => top <= y < bottom,
        DrawView::Truncated { y, .. } => top <= y < bottom,
        DrawView::Grapheme { y, .. } => top <= y < bottom,
        DrawView::Tab { y, .. } => top <= y < bottom,
        DrawView::Fill { area, .. } => top <= area.y && area.y + area.height <= bottom,
    }
}

pub open spec fn all_in_rows(renderer: &TextRenderer, draws: Seq<DrawView>) -> bool {
    forall|i: int| 0 <= i < draws.len() ==> in_rows(renderer, #[trigger] draws[i])
}

proof fn lemma_both(renderer: &TextRenderer, a: Seq<DrawView>, b: Seq<DrawView>)
    requires
        all_in_rows(renderer, a),
        all_in_rows(renderer, b),
    ensures
        all_in_rows(renderer, a + b),
{
    assert forall|i: int| 0 <= i < (a + b).len() implies in_rows(renderer, #[trigger] (a + b)[i]) by {
        if i < a.len() {
            assert((a + b)[i] == a[i]);
        } else {
            assert((a + b)[i] == b[i - a.len()]);
        }
    }
}

proof fn lemma_style_rows(renderer: &TextRenderer, area: Rect, style: Style)
    requires
        renderer.wf(),
    ensures
        all_in_rows(renderer, renderer.style_draws(area, style)),
{
}

proof fn lemma_guide_rows(renderer: &TextRenderer, indent_level: usize, row: u16)
    requires
        renderer.wf(),
    ensures
        all_in_rows(renderer, renderer.guide_draws(indent_level, row)),
{
}

proof fn lemma_step_rows(renderer: &TextRenderer, grapheme: GraphemeView, col: usize, end: usize, y: u16, style: Style)
    requires
        renderer.wf(),
        renderer.viewport.y <= y < renderer.viewport.y + renderer.viewport.height,
    ensures
        all_in_rows(renderer, renderer.custom_step(grapheme, col, end, y, style)),
{
}

proof fn lemma_custom_rows(renderer: &TextRenderer, values: Seq<Seq<char>>, i: int, col: usize, y: u16, style: Style)
    requires
        renderer.wf(),
        renderer.viewport.y <= y < renderer.viewport.y + renderer.viewport.height,
    ensures
        all_in_rows(renderer, renderer.custom_draws(values, i, col, y, style)),
    decreases values.len() - i,
{
    if 0 <= i < values.len() {
        let grapheme = grapheme_at(values[i], col, renderer.tab@.len() as usize);
        let end = sum_up_to_max(col, grapheme.width());
        lemma_custom_rows(renderer, values, i + 1, end, y, style);
        lemma_step_rows(renderer, grapheme, col, end, y, style);
        lemma_both(
            renderer,
            renderer.custom_step(grapheme, col, end, y, style),
            renderer.custom_draws(values, i + 1, end, y, style),
        );
    }
}

proof fn lemma_background_rows(renderer: &TextRenderer, theme: Theme, lines: Seq<BackgroundView>, pos: LinePos, n: int)
    requires
        renderer.wf(),
    ensures
        all_in_rows(renderer, background_draws(renderer, theme, lines, pos, n)),
    decreases n,
{
    if n > 0 {
        lemma_background_rows(renderer, theme, lines, pos, n - 1);
        let line = lines[n - 1];
        let area = full_row(renderer, pos.visual_line);
        lemma_style_rows(renderer, area, tint(theme, line.scope, line.opacity));
        lemma_both(
            renderer,
            background_draws(renderer, theme, lines, pos, n - 1),
            renderer.style_draws(area, tint(theme, line.scope, line.opacity)),
        );
    }
}

proof fn lemma_line_rows(renderer: &TextRenderer, values: Seq<Seq<char>>, row: u16, style: Style)
    requires
        renderer.wf(),
    ensures
        all_in_rows(renderer, renderer.custom_line_draws(row, values, style)),
{
    if renderer.shows_row(row as int) {
        lemma_custom_rows(renderer, values, 0, 0, renderer.surface_row(row as int), style);
    }
}

proof fn lemma_virtual_line_rows(renderer: &TextRenderer, theme: Theme, line: VirtualLineView, row: u16)
    requires
        renderer.wf(),
    ensures
        all_in_rows(renderer, virtual_line_draws(renderer, theme, line, row)),
{
    let own = match theme.found(line.scope) {
        Some(style) => style,
        None => Style::plain(),
    };
    let values = graphemes_of(line.text);
    lemma_line_rows(renderer, values, row, own);
    if let Some(opacity) = line.background_opacity {
        let background = tint(theme, line.scope, opacity);
        lemma_style_rows(renderer, full_row(renderer, row), background);
        lemma_line_rows(renderer, values, row, own.patched(background));
        lemma_both(
            renderer,
            renderer.style_draws(full_row(renderer, row), background),
            renderer.custom_line_draws(row, values, own.patched(background)),
        );
    }
}

proof fn lemma_virtual_rows(
    renderer: &TextRenderer,
    theme: Theme,
    lines: Seq<VirtualLineView>,
    doc_line: usize,
    start_row: u16,
    n: int,
)
    requires
        renderer.wf(),
    ensures
        all_in_rows(renderer, virtual_draws(renderer, theme, lines, doc_line, start_row, n)),
    decreases n,
{
    if n > 0 {
        let row = row_below(start_row, rows_after(lines.subrange(0, n - 1), doc_line) as int);
        lemma_virtual_rows(renderer, theme, lines, doc_line, start_row, n - 1);
        lemma_virtual_line_rows(renderer, theme, lines[n - 1], row);
        lemma_both(
            renderer,
            virtual_draws(renderer, theme, lines, doc_line, start_row, n - 1),
            virtual_line_draws(renderer, theme, lines[n - 1], row),
        );
    }
}

proof fn lemma_leave_rows(renderer: &TextRenderer, scene: Scene, walk: Walk)
    requires
        renderer.wf(),
    ensures
        all_in_rows(renderer, leave_draws(renderer, scene, walk)),
{
    let row = row_below(walk.last.visual_line, 1);
    let count = scene.virtual_lines.len() as int;
    lemma_guide_rows(renderer, walk.indent_level, walk.last.visual_line);
    lemma_virtual_rows(renderer, scene.theme, scene.virtual_lines, walk.last.doc_line, row, count);
    lemma_both(
        renderer,
        renderer.guide_draws(walk.indent_level, walk.last.visual_line),
        virtual_draws(renderer, scene.theme, scene.virtual_lines, walk.last.doc_line, row, count),
    );
}

proof fn lemma_item_rows(renderer: &TextRenderer, scene: Scene, walk: Walk, item: FormattedGrapheme)
    requires
        renderer.wf(),
        row_of(scene, item) < renderer.viewport.height + renderer.offset.row,
    ensures
        all_in_rows(renderer, step_draws(renderer, scene, walk, item)),
{
    let pos = line_of(scene, walk, item);
    let count = scene.backgrounds.len() as int;
    let below = background_draws(renderer, scene.theme, scene.backgrounds, pos, count);
    lemma_background_rows(renderer, scene.theme, scene.backgrounds, pos, count);
    lemma_leave_rows(renderer, scene, walk);
    lemma_both(renderer, leave_draws(renderer, scene, walk), below);
    lemma_both(renderer, Seq::empty(), below);
    assert(all_in_rows(renderer, enter_draws(renderer, scene, walk, item)));
    assert(all_in_rows(renderer, item_draws(renderer, scene, item)));
    lemma_both(renderer, enter_draws(renderer, scene, walk, item), item_draws(renderer, scene, item));
    lemma_both(renderer, Seq::empty(), item_draws(renderer, scene, item));
}

/// Drawing a text touches no row above or below the viewport: what stands
/// there, such as a status line, stays.
pub proof fn law_drawing_keeps_to_its_rows(
    renderer: &TextRenderer,
    scene: Scene,
    items: Seq<FormattedGrapheme>,
    i: int,
    walk: Walk,
)
    requires
        renderer.wf(),
    ensures
        all_in_rows(renderer, walk_draws(renderer, scene, items, i, walk)),
    decreases items.len() - i,
{
    lemma_leave_rows(renderer, scene, walk);
    if 0 <= i < items.len() {
        law_drawing_keeps_to_its_rows(renderer, scene, items, i + 1, walk);
        let next = walked(renderer, scene, walk, items[i]);
        law_drawing_keeps_to_its_rows(renderer, scene, items, i + 1, next);
        if row_of(scene, items[i]) < renderer.viewport.height + renderer.offset.row {
            lemma_item_rows(renderer, scene, walk, items[i]);
            lemma_both(
                renderer,
                step_draws(renderer, scene, walk, items[i]),
                walk_draws(renderer, scene, items, i + 1, next),
            );
        }
    }
}

} // verus!
