//! What is drawn at the edges of the viewport, and how text is styled.

use vstd::prelude::*;

use super::decorations::{virtual_line_draws, CustomDecorations};
use super::drawing::{DrawView, Position};
use super::graphemes::{grapheme_at, graphemes_of, GraphemeView};
use super::highlights::{track_style, HighlightStep};
use super::renderer::{levels_before, sum_up_to_max, GraphemeStyle, RenderSettings, TextRenderer};
use super::walk::{scene_of, styles_of, those, walked, FormattedGrapheme, GraphemeSource, Scene, Walk};
use crate::custom_text::annotations::VirtualLineView;
use crate::custom_text::ranges::{law_ordered_styles_keep_every_range, style_at, StyledRange};
use crate::graphics::{Rect, Style};
use crate::theme::Theme;

verus! {

broadcast use vstd::string::group_string_axioms;

/// Nothing is drawn in a row that is not shown.
pub proof fn law_hidden_rows_show_nothing(
    renderer: &TextRenderer,
    row: u16,
    values: Seq<Seq<char>>,
    style: Style,
    grapheme: GraphemeView,
    col: u16,
    text: Seq<char>,
)
    requires
        row < renderer.offset.row || row >= renderer.offset.row + renderer.viewport.height,
    ensures
        renderer.custom_line_draws(row, values, style).len() == 0,
        renderer.decoration_draws(grapheme, style, row, col).len() == 0,
        renderer.string_draws(col, row, text, style).len() == 0,
{
}

/// A text in a shown row is drawn where it is put, in its style.
pub proof fn law_texts_are_drawn_where_they_are_put(renderer: &TextRenderer, x: u16, row: u16, text: Seq<char>, style: Style)
    requires
        renderer.wf(),
        renderer.offset.row <= row < renderer.offset.row + renderer.viewport.height,
    ensures
        renderer.string_draws(x, row, text, style) == seq![
            DrawView::Text { x, y: (renderer.viewport.y + row - renderer.offset.row) as u16, text, style },
        ],
{
}

/// A decoration in a shown row is drawn at its column of the viewport, as it is,
/// with white space as blanks.
pub proof fn law_decorations_are_drawn_at_their_column(renderer: &TextRenderer, text: Seq<char>, style: Style, row: u16, col: u16)
    requires
        renderer.wf(),
        renderer.offset.row <= row < renderer.offset.row + renderer.viewport.height,
        text != "\u{00A0}"@,
    ensures
        ({
            let draws = renderer.decoration_draws(GraphemeView::Other { text }, style, row, col);
            &&& col >= renderer.viewport.width ==> draws.len() == 0
            &&& col < renderer.viewport.width ==> draws.len() == 1 && match draws[0] {
                DrawView::Text { x, y, text: shown, style: own } => x == renderer.viewport.x + col && y == renderer.viewport.y + row
                    - renderer.offset.row && shown == text && own == (if (GraphemeView::Other { text }).is_space() {
                    style.patched(renderer.whitespace_style)
                } else {
                    style
                }),
                _ => false,
            }
        }),
{
}

/// A grapheme of the text that starts before the viewport and ends in it colors
/// the cells that are shown of it; one that lies outside is not drawn at all.
pub proof fn law_cut_graphemes_color_their_cells(
    renderer: &TextRenderer,
    grapheme: GraphemeView,
    styles: GraphemeStyle,
    is_virtual: bool,
    is_eof: bool,
    position: Position,
)
    requires
        renderer.wf(),
        renderer.offset.row <= position.row < renderer.offset.row + renderer.viewport.height,
        position.col < renderer.offset.col || position.col >= renderer.offset.col + renderer.viewport.width,
        grapheme.width() >= 1,
    ensures
        ({
            let draws = renderer.grapheme_draws(grapheme, styles, is_virtual, is_eof, position);
            &&& position.col + grapheme.width() <= renderer.offset.col || position.col >= renderer.offset.col + renderer.viewport.width
                ==> draws.len() == 0
            &&& position.col < renderer.offset.col < position.col + grapheme.width() ==> draws.len() == 1 && match draws[0] {
                DrawView::Fill { area, .. } => area.x == renderer.viewport.x && area.height == 1 && area.y == renderer.viewport.y
                    + position.row - renderer.offset.row && area.width == (position.col + grapheme.width() - renderer.offset.col) as u16,
                _ => false,
            }
        }),
{
}

/// A tab of the text is drawn as the start of the marker for tabs, a tab of a
/// virtual text as blanks.
pub proof fn law_tabs_are_drawn_as_wide_as_they_are(
    renderer: &TextRenderer,
    width: usize,
    styles: GraphemeStyle,
    is_virtual: bool,
    position: Position,
)
    requires
        renderer.wf(),
        renderer.offset.row <= position.row < renderer.offset.row + renderer.viewport.height,
        renderer.offset.col <= position.col,
        position.col + width <= renderer.offset.col + renderer.viewport.width,
        width <= renderer.tab@.len(),
        width <= renderer.virtual_tab@.len(),
    ensures
        renderer.grapheme_draws(GraphemeView::Tab { width }, styles, is_virtual, false, position) == seq![
            DrawView::Tab {
                x: (renderer.viewport.x + position.col - renderer.offset.col) as u16,
                y: (renderer.viewport.y + position.row - renderer.offset.row) as u16,
                text: if is_virtual {
                    renderer.virtual_tab@.subrange(0, width as int)
                } else {
                    renderer.tab@.subrange(0, width as int)
                },
                style: styles.syntax_style.patched(renderer.whitespace_style).patched(styles.overlay_style),
            },
        ],
{
}

/// Whether two steps draw the same in the same place, in whatever styles.
pub open spec fn same_but_style(a: DrawView, b: DrawView) -> bool {
    match (a, b) {
        (DrawView::Grapheme { x, y, text, width, .. }, DrawView::Grapheme { x: x2, y: y2, text: text2, width: width2, .. }) => x == x2
            && y == y2 && text == text2 && width == width2,
        (DrawView::Tab { x, y, text, .. }, DrawView::Tab { x: x2, y: y2, text: text2, .. }) => x == x2 && y == y2 && text == text2,
        (DrawView::Fill { area, .. }, DrawView::Fill { area: area2, .. }) => area == area2,
        _ => false,
    }
}

proof fn lemma_custom_styles(
    renderer: &TextRenderer,
    values: Seq<Seq<char>>,
    i: int,
    col: usize,
    y: u16,
    a: Style,
    b: Style,
)
    requires
        0 <= i <= values.len(),
    ensures
        ({
            let first = renderer.custom_draws(values, i, col, y, a);
            let second = renderer.custom_draws(values, i, col, y, b);
            &&& first.len() == second.len()
            &&& forall|k: int| 0 <= k < first.len() ==> same_but_style(#[trigger] first[k], second[k])
        }),
    decreases values.len() - i,
{
    if i < values.len() {
        let grapheme = grapheme_at(values[i], col, renderer.tab@.len() as usize);
        let end = sum_up_to_max(col, grapheme.width());
        lemma_custom_styles(renderer, values, i + 1, end, y, a, b);
        let first = renderer.custom_step(grapheme, col, end, y, a);
        let second = renderer.custom_step(grapheme, col, end, y, b);
        assert(first.len() == second.len() <= 1);
        assert(first.len() == 1 ==> same_but_style(first[0], second[0]));
        let rest = renderer.custom_draws(values, i + 1, end, y, a);
        let other = renderer.custom_draws(values, i + 1, end, y, b);
        assert forall|k: int| 0 <= k < (first + rest).len() implies same_but_style(#[trigger] (first + rest)[k], (second + other)[k]) by {
            if k >= first.len() {
                assert(same_but_style(rest[k - first.len()], other[k - first.len()]));
            }
        }
    }
}

/// A background of a virtual line adds one fill before what is drawn without it,
/// and changes nothing else but styles.
pub proof fn law_backgrounds_of_virtual_lines_only_add_a_fill(
    renderer: &TextRenderer,
    theme: Theme,
    line: VirtualLineView,
    row: u16,
    opacity: u8,
)
    requires
        renderer.wf(),
        line.background_opacity == Some(opacity),
        renderer.offset.row <= row < renderer.offset.row + renderer.viewport.height,
        renderer.viewport.width > 0,
        row < u16::MAX,
    ensures
        ({
            let with = virtual_line_draws(renderer, theme, line, row);
            let without = virtual_line_draws(renderer, theme, VirtualLineView { background_opacity: None, ..line }, row);
            &&& with.len() == without.len() + 1
            &&& with[0] is Fill
            &&& forall|k: int| 0 <= k < without.len() ==> same_but_style(with[k + 1], #[trigger] without[k])
        }),
{
    let own = super::laws::scope_style(theme, line.scope);
    let background = Style { bg: Some(crate::custom_text::tint::row_color(theme, line.scope, opacity)), ..Style::plain() };
    let values = graphemes_of(line.text);
    let y = renderer.surface_row(row as int);
    lemma_custom_styles(renderer, values, 0, 0, y, own.patched(background), own);
    let fill = renderer.style_draws(
        Rect { x: renderer.viewport.x, y: row, width: renderer.viewport.width, height: 1 },
        background,
    );
    let text = renderer.custom_line_draws(row, values, own.patched(background));
    let with = virtual_line_draws(renderer, theme, line, row);
    let without = virtual_line_draws(renderer, theme, VirtualLineView { background_opacity: None, ..line }, row);
    assert(fill.len() == 1);
    assert(with == fill + text);
    assert(without == renderer.custom_line_draws(row, values, own));
    assert forall|k: int| 0 <= k < without.len() implies same_but_style(with[k + 1], #[trigger] without[k]) by {
        assert(with[k + 1] == text[k]);
    }
}

/// A grapheme of the document has the style of its language and then those of the
/// ranges behind the overlays; its overlay is that of the highlights and then
/// those of the other ranges. A grapheme of a virtual text has the style of its
/// highlight on top of that of the text, and no overlay.
pub proof fn law_graphemes_are_styled_by_their_source(renderer: &TextRenderer, scene: Scene, item: FormattedGrapheme)
    ensures
        item.source is Document && scene.anchor <= item.char_idx ==> {
            let styles = styles_of(renderer, scene, item);
            &&& styles.syntax_style == track_style(scene.theme, renderer.text_style, scene.syntax, item.char_idx as int).patched(
                style_at(scene.behind, item.char_idx as int),
            )
            &&& styles.overlay_style == track_style(scene.theme, Style::plain(), scene.overlay, item.char_idx as int).patched(
                style_at(scene.above, item.char_idx as int),
            )
        },
        item.source == GraphemeSource::VirtualText(None) ==> styles_of(renderer, scene, item).syntax_style == renderer.text_style
            && styles_of(renderer, scene, item).overlay_style == Style::plain(),
        item.source matches GraphemeSource::VirtualText(Some(highlight)) ==> styles_of(renderer, scene, item).syntax_style
            == renderer.text_style.patched(scene.theme.scopes@[highlight as int].style) && styles_of(renderer, scene, item).overlay_style
            == Style::plain(),
{
}

proof fn lemma_those(ranges: Seq<StyledRange>, behind: bool, one: StyledRange)
    ensures
        those(ranges, behind).contains(one) <==> ranges.contains(one) && one.behind_overlays == behind,
    decreases ranges.len(),
{
    if ranges.len() > 0 {
        let rest = ranges.drop_last();
        let last = ranges.last();
        lemma_those(rest, behind, one);
        let before = those(rest, behind);
        let all = those(ranges, behind);
        if ranges.contains(one) && one.behind_overlays == behind {
            let k = choose|k: int| 0 <= k < ranges.len() && ranges[k] == one;
            if k < rest.len() {
                assert(rest[k] == one);
                let j = choose|j: int| 0 <= j < before.len() && before[j] == one;
                assert(all[j] == one);
            } else {
                assert(all[before.len() as int] == one);
            }
        }
        if all.contains(one) {
            let j = choose|j: int| 0 <= j < all.len() && all[j] == one;
            if j < before.len() {
                assert(before[j] == one);
                let k = choose|k: int| 0 <= k < rest.len() && rest[k] == one;
                assert(ranges[k] == one);
            } else {
                assert(ranges[ranges.len() - 1] == one);
            }
        }
    }
}

/// Every styled range of a scene lies behind the overlays or above them, as it
/// says, and no other range does.
pub proof fn law_scenes_hold_every_styled_range(
    theme: Theme,
    decorations: CustomDecorations,
    syntax: Seq<HighlightStep>,
    overlay: Seq<HighlightStep>,
    concrete: Seq<StyledRange>,
    anchor: usize,
    row_off: usize,
    one: StyledRange,
)
    ensures
        ({
            let scene = scene_of(theme, decorations, syntax, overlay, concrete, anchor, row_off);
            &&& scene.behind.contains(one) <==> concrete.contains(one) && one.behind_overlays
            &&& scene.above.contains(one) <==> concrete.contains(one) && !one.behind_overlays
            &&& scene.syntax == syntax && scene.overlay == overlay
            &&& scene.anchor == anchor && scene.row_off == row_off
            &&& scene.theme == theme
            &&& scene.backgrounds.len() == decorations.line_backgrounds@.len()
            &&& scene.virtual_lines.len() == decorations.virtual_lines@.len()
            &&& forall|k: int| 0 <= k < scene.backgrounds.len() ==> #[trigger] scene.backgrounds[k] == decorations.line_backgrounds@[k]@
            &&& forall|k: int| 0 <= k < scene.virtual_lines.len() ==> #[trigger] scene.virtual_lines[k] == decorations.virtual_lines@[k]@
        }),
{
    broadcast use vstd::seq_lib::group_to_multiset_ensures;

    lemma_those(concrete, true, one);
    lemma_those(concrete, false, one);
    law_ordered_styles_keep_every_range(those(concrete, true));
    law_ordered_styles_keep_every_range(those(concrete, false));
    let scene = scene_of(theme, decorations, syntax, overlay, concrete, anchor, row_off);
    assert(scene.behind.contains(one) <==> scene.behind.to_multiset().count(one) > 0);
    assert(those(concrete, true).contains(one) <==> those(concrete, true).to_multiset().count(one) > 0);
    assert(scene.above.contains(one) <==> scene.above.to_multiset().count(one) > 0);
    assert(those(concrete, false).contains(one) <==> those(concrete, false).to_multiset().count(one) > 0);
}

/// The indentation of a line is the column of its first grapheme that is no white
/// space; graphemes after it leave it as it is.
pub proof fn law_indentation_ends_at_the_first_word(renderer: &TextRenderer, scene: Scene, walk: Walk, item: FormattedGrapheme)
    requires
        item.visual_pos.row >= scene.row_off + renderer.offset.row,
    ensures
        ({
            let next = walked(renderer, scene, walk, item);
            &&& walk.in_indent && !item.grapheme@.is_space() ==> next.indent_level == item.visual_pos.col && !next.in_indent
            &&& item.grapheme@.is_space() ==> next.indent_level == walk.indent_level
            &&& walk.in_indent && item.grapheme@.is_space() ==> next.in_indent
            &&& !walk.in_indent && item.visual_pos.row - scene.row_off == walk.last.visual_line ==> next.indent_level
                == walk.indent_level && !next.in_indent
        }),
{
}

/// A new renderer shows each kind of white space by its marker where that is asked
/// for and as a blank otherwise.
pub proof fn law_markers_are_shown_where_asked_for(
    renderer: TextRenderer,
    settings: RenderSettings,
    theme: Theme,
    offset: Position,
    viewport: Rect,
)
    requires
        renderer.is_new(settings, theme, offset, viewport),
        settings.tab_width > 0,
    ensures
        renderer.newline@[0] == (if settings.show_newlines { settings.newline } else { ' ' }),
        renderer.space@[0] == (if settings.show_spaces { settings.space } else { ' ' }),
        renderer.nbsp@[0] == (if settings.show_nbsp { settings.nbsp } else { ' ' }),
        renderer.nnbsp@[0] == (if settings.show_nnbsp { settings.nnbsp } else { ' ' }),
        renderer.newline@.len() == 1 && renderer.space@.len() == 1 && renderer.nbsp@.len() == 1 && renderer.nnbsp@.len() == 1,
        renderer.tab@.len() == settings.tab_width,
        renderer.tab@[0] == (if settings.show_tabs { settings.tab } else { ' ' }),
        forall|i: int| 0 < i < settings.tab_width ==> #[trigger] renderer.tab@[i] == (if settings.show_tabs { settings.tab_pad } else { ' ' }),
        renderer.virtual_tab@.len() == settings.tab_width,
        forall|i: int| 0 <= i < settings.tab_width ==> #[trigger] renderer.virtual_tab@[i] == ' ',
        renderer.draw_indent_guides == settings.indent_guides,
        renderer.indent_guide_char@ == seq![settings.indent_guide],
        renderer.viewport == viewport && renderer.offset == offset && renderer.indent_width == settings.indent_width,
{
}

/// The levels before a column are as many as it takes to reach the column.
pub proof fn law_levels_reach_the_column(col: int, indent_width: int)
    requires
        0 <= col,
        indent_width > 0,
    ensures
        (levels_before(col, indent_width) - 1) * indent_width < col || col == 0 && levels_before(col, indent_width) == 0,
        col <= levels_before(col, indent_width) * indent_width,
{
    let q = col / indent_width;
    let r = col % indent_width;
    vstd::arithmetic::div_mod::lemma_fundamental_div_mod(col, indent_width);
    vstd::arithmetic::div_mod::lemma_mod_bound(col, indent_width);
    assert(q * indent_width <= col <= (q + 1) * indent_width && (r == 0 ==> col == q * indent_width)) by (nonlinear_arith)
        requires
            col == indent_width * q + r,
            0 <= r < indent_width,
    ;
    if r == 0 {
        assert((q - 1) * indent_width < col) by (nonlinear_arith)
            requires
                col == q * indent_width,
                indent_width > 0,
        ;
    } else {
        assert(q * indent_width < col) by (nonlinear_arith)
            requires
                col == indent_width * q + r,
                0 < r,
        ;
    }
}

} // verus!
