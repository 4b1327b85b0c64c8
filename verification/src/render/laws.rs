//! What drawing is for, in terms of texts, annotations and cells.

use vstd::prelude::*;

use super::decorations::{background_draws, row_below, virtual_draws, virtual_line_draws, LinePos};
use super::drawing::{DrawView, Position};
use super::graphemes::{grapheme_at, graphemes_of, width_of, GraphemeView};
use super::renderer::{chars_between, GraphemeStyle, TextRenderer};
use super::walk::{started, styles_of, walk_draws, walked, FormattedGrapheme, Scene, Walk};
use crate::custom_text::annotations::{BackgroundView, VirtualLineView};
use crate::custom_text::store::rows_after;
use crate::custom_text::tint::row_color;
use crate::file_snapshot::whitespace;
use crate::graphics::{Rect, Style};
use crate::theme::Theme;

verus! {

broadcast use vstd::string::group_string_axioms;

/// The column at which the grapheme at `i` of a line starts: behind all cells of
/// those before it.
pub open spec fn column_of(values: Seq<Seq<char>>, i: int, tab_width: usize) -> int
    decreases i,
{
    if i <= 0 {
        0
    } else {
        let before = column_of(values, i - 1, tab_width);
        before + grapheme_at(values[i - 1], before as usize, tab_width).width()
    }
}

/// A tab reaches to the next tab stop, a line break takes one cell, and so does
/// an ASCII grapheme; any other takes the cells of its text, but at least one.
pub proof fn law_graphemes_take_their_cells(text: Seq<char>, col: usize, tab_width: usize)
    requires
        tab_width > 0,
    ensures
        ({
            let grapheme = grapheme_at(text, col, tab_width);
            &&& grapheme.width() >= 1
            &&& text == "\t"@ ==> grapheme.width() <= tab_width && (col + grapheme.width()) % tab_width as int == 0
            &&& text == "\n"@ || text == "\r\n"@ ==> grapheme == GraphemeView::Newline && grapheme.width() == 1
            &&& text.len() > 0 && text[0] as u32 <= 127 && text != "\t"@ ==> grapheme.width() == 1
            &&& text.len() > 0 && text[0] as u32 > 127 && width_of(text) > 0 ==> grapheme.width() == width_of(text)
            &&& text != "\t"@ && text != "\n"@ && text != "\r\n"@ ==> grapheme == (GraphemeView::Other { text })
            &&& text.len() > 0 && whitespace(text[0]) ==> grapheme.is_space()
            &&& text.len() > 0 && !whitespace(text[0]) ==> !grapheme.is_space()
        }),
{
    reveal_strlit("\t");
    reveal_strlit("\n");
    reveal_strlit("\r\n");
    let c = col as int;
    let t = tab_width as int;
    assert(0 <= c % t < t && (c + (t - c % t)) % t == 0) by {
        vstd::arithmetic::div_mod::lemma_fundamental_div_mod(c, t);
        vstd::arithmetic::div_mod::lemma_mod_bound(c, t);
        assert(c + (t - c % t) == t * (c / t + 1)) by (nonlinear_arith)
            requires
                c == t * (c / t) + c % t,
        ;
        vstd::arithmetic::div_mod::lemma_mod_multiples_basic(c / t + 1, t);
        assert(t * (c / t + 1) == (c / t + 1) * t) by (nonlinear_arith);
    }
    assert("\t"@.len() == 1 && "\t"@[0] == '\t');
    assert("\n"@.len() == 1 && "\n"@[0] == '\n');
    assert("\r\n"@.len() == 2 && "\r\n"@[0] == '\r');
}

proof fn lemma_width(text: Seq<char>, col: usize, tab_width: usize)
    requires
        tab_width > 0,
    ensures
        grapheme_at(text, col, tab_width).width() >= 1,
{
    law_graphemes_take_their_cells(text, col, tab_width);
}

proof fn lemma_columns_grow(values: Seq<Seq<char>>, i: int, j: int, tab_width: usize)
    requires
        tab_width > 0,
        0 <= i <= j,
    ensures
        0 <= column_of(values, i, tab_width) <= column_of(values, j, tab_width),
        i < j ==> column_of(values, i, tab_width) < column_of(values, j, tab_width),
    decreases j,
{
    if i < j {
        lemma_columns_grow(values, i, j - 1, tab_width);
        lemma_width(values[j - 1], column_of(values, j - 1, tab_width) as usize, tab_width);
    } else if i > 0 {
        lemma_columns_grow(values, i - 1, i - 1, tab_width);
    }
}

/// What is drawn for the grapheme at `i` is drawn with the line.
proof fn lemma_custom_contains(
    renderer: &TextRenderer,
    values: Seq<Seq<char>>,
    j: int,
    i: int,
    y: u16,
    style: Style,
    draw: DrawView,
)
    requires
        renderer.wf(),
        0 <= j <= i < values.len(),
        ({
            let tab_width = renderer.tab@.len() as usize;
            let col = column_of(values, i, tab_width);
            let grapheme = grapheme_at(values[i], col as usize, tab_width);
            let end = col + grapheme.width();
            &&& renderer.tab@.len() <= usize::MAX
            &&& end > renderer.offset.col
            &&& end <= renderer.offset.col + renderer.viewport.width
            &&& renderer.custom_step(grapheme, col as usize, end as usize, y, style).contains(draw)
        }),
    ensures
        renderer.custom_draws(values, j, column_of(values, j, renderer.tab@.len() as usize) as usize, y, style).contains(draw),
    decreases i - j,
{
    let tab_width = renderer.tab@.len() as usize;
    let col = column_of(values, j, tab_width);
    lemma_columns_grow(values, j, i, tab_width);
    lemma_columns_grow(values, 0, j, tab_width);
    let grapheme = grapheme_at(values[j], col as usize, tab_width);
    lemma_width(values[j], col as usize, tab_width);
    lemma_width(values[i], column_of(values, i, tab_width) as usize, tab_width);
    let all = renderer.custom_draws(values, j, col as usize, y, style);
    if j < i {
        lemma_columns_grow(values, j + 1, i, tab_width);
        assert(column_of(values, j + 1, tab_width) == col + grapheme.width());
        let end = (col + grapheme.width()) as usize;
        lemma_custom_contains(renderer, values, j + 1, i, y, style, draw);
        let rest = renderer.custom_draws(values, j + 1, end, y, style);
        if end > renderer.offset.col {
            let first = renderer.custom_step(grapheme, col as usize, end, y, style);
            assert(all == first + rest);
            let k = choose|k: int| 0 <= k < rest.len() && rest[k] == draw;
            assert(all[first.len() + k] == draw);
        }
    } else {
        let end = (col + grapheme.width()) as usize;
        let first = renderer.custom_step(grapheme, col as usize, end, y, style);
        let rest = renderer.custom_draws(values, j + 1, end, y, style);
        assert(all == first + rest);
        let k = choose|k: int| 0 <= k < first.len() && first[k] == draw;
        assert(all[k] == draw);
    }
}

/// Whether the grapheme at `i` of a line of text is shown as a whole in a row.
pub open spec fn shows_grapheme(renderer: &TextRenderer, row: u16, values: Seq<Seq<char>>, i: int) -> bool {
    let tab_width = renderer.tab@.len() as usize;
    let col = column_of(values, i, tab_width);
    let end = col + grapheme_at(values[i], col as usize, tab_width).width();
    &&& 0 <= i < values.len()
    &&& renderer.offset.row <= row < renderer.offset.row + renderer.viewport.height
    &&& renderer.offset.col <= col
    &&& end <= renderer.offset.col + renderer.viewport.width
}

/// How a grapheme of custom text is written in a cell: white space by the marker
/// for it, a tab by the cells of a tab, and any other as it is.
pub open spec fn symbol(renderer: &TextRenderer, text: Seq<char>, width: usize) -> Seq<char> {
    if text == " "@ {
        renderer.space@
    } else if text == "\u{00A0}"@ {
        renderer.nbsp@
    } else if text == "\u{202F}"@ {
        renderer.nnbsp@
    } else {
        text
    }
}

/// Whether drawing steps show a text at a cell, in a style.
pub open spec fn shows_at(draws: Seq<DrawView>, x: int, y: int, text: Seq<char>, style: Style) -> bool {
    exists|k: int|
        0 <= k < draws.len() && match #[trigger] draws[k] {
            DrawView::Grapheme { x: at, y: row, text: shown, style: own, .. } => at == x && row == y && shown == text && own == style,
            _ => false,
        }
}

/// Every grapheme of a line of custom text that is shown as a whole is drawn: in
/// its row, at its own column, as it is written, in the style of the line, with
/// that of white space on top where it is white space.
pub proof fn law_custom_text_is_drawn(renderer: &TextRenderer, row: u16, values: Seq<Seq<char>>, i: int, style: Style)
    requires
        renderer.wf(),
        renderer.tab@.len() <= usize::MAX,
        shows_grapheme(renderer, row, values, i),
        values[i].len() > 0,
        values[i] != "\t"@ && values[i] != "\n"@ && values[i] != "\r\n"@,
    ensures
        shows_at(
            renderer.custom_line_draws(row, values, style),
            renderer.viewport.x + column_of(values, i, renderer.tab@.len() as usize) - renderer.offset.col,
            renderer.viewport.y + row - renderer.offset.row,
            symbol(renderer, values[i], 1),
            if whitespace(values[i][0]) {
                style.patched(renderer.whitespace_style)
            } else {
                style
            },
        ),
{
    reveal_strlit(" ");
    reveal_strlit("\u{00A0}");
    reveal_strlit("\u{202F}");
    let tab_width = renderer.tab@.len() as usize;
    let col = column_of(values, i, tab_width);
    lemma_columns_grow(values, 0, i, tab_width);
    law_graphemes_take_their_cells(values[i], col as usize, tab_width);
    let grapheme = grapheme_at(values[i], col as usize, tab_width);
    let end = (col + grapheme.width()) as usize;
    let y = renderer.surface_row(row as int);
    let step = renderer.custom_step(grapheme, col as usize, end, y, style);
    assert(step.len() == 1);
    assert(step.contains(step[0]));
    lemma_custom_contains(renderer, values, 0, i, y, style, step[0]);
    let all = renderer.custom_line_draws(row, values, style);
    assert(all == renderer.custom_draws(values, 0, 0, y, style));
    let k = choose|k: int| 0 <= k < all.len() && all[k] == step[0];
    assert(all[k] is Grapheme);
}

/// A tab of custom text that is shown as a whole is drawn as the cells up to its
/// tab stop.
pub proof fn law_custom_tabs_are_drawn(renderer: &TextRenderer, row: u16, values: Seq<Seq<char>>, i: int, style: Style)
    requires
        renderer.wf(),
        renderer.tab@.len() <= usize::MAX,
        shows_grapheme(renderer, row, values, i),
        values[i] == "\t"@,
    ensures
        ({
            let tab_width = renderer.tab@.len() as usize;
            let col = column_of(values, i, tab_width);
            let width = grapheme_at(values[i], col as usize, tab_width).width();
            renderer.custom_line_draws(row, values, style).contains(
                DrawView::Tab {
                    x: (renderer.viewport.x + col - renderer.offset.col) as u16,
                    y: (renderer.viewport.y + row - renderer.offset.row) as u16,
                    text: renderer.tab@.subrange(0, width as int),
                    style: style.patched(renderer.whitespace_style),
                },
            )
        }),
{
    let tab_width = renderer.tab@.len() as usize;
    let col = column_of(values, i, tab_width);
    lemma_columns_grow(values, 0, i, tab_width);
    law_graphemes_take_their_cells(values[i], col as usize, tab_width);
    let grapheme = grapheme_at(values[i], col as usize, tab_width);
    let width = grapheme.width();
    let end = (col + width) as usize;
    let y = renderer.surface_row(row as int);
    let step = renderer.custom_step(grapheme, col as usize, end, y, style);
    let whole = chars_between(renderer.tab@, 0, width as int);
    assert(whole =~= renderer.tab@.subrange(0, width as int));
    assert(chars_between(whole, 0, width as int) =~= whole);
    assert(step.contains(step[0]));
    lemma_custom_contains(renderer, values, 0, i, y, style, step[0]);
}

/// The style of a scope, or the plain one.
pub open spec fn scope_style(theme: Theme, scope: Seq<char>) -> Style {
    match theme.found(scope) {
        Some(style) => style,
        None => Style::plain(),
    }
}

/// Whether drawing steps fill a row of the viewport with a color.
pub open spec fn fills_row(renderer: &TextRenderer, draw: DrawView, row: u16, color: crate::graphics::Color) -> bool {
    draw matches DrawView::Fill { area, style } && area == (Rect {
        x: renderer.viewport.x,
        y: (renderer.viewport.y + row - renderer.offset.row) as u16,
        width: renderer.viewport.width,
        height: 1,
    }) && style == (Style { bg: Some(color), ..Style::plain() })
}

proof fn lemma_row_fill(renderer: &TextRenderer, row: u16, color: crate::graphics::Color)
    requires
        renderer.wf(),
    ensures
        ({
            let style = Style { bg: Some(color), ..Style::plain() };
            let area = Rect { x: renderer.viewport.x, y: row, width: renderer.viewport.width, height: 1 };
            let draws = renderer.style_draws(area, style);
            &&& renderer.offset.row <= row < renderer.offset.row + renderer.viewport.height && renderer.viewport.width > 0 && row
                < u16::MAX ==> draws.len() == 1 && fills_row(renderer, draws[0], row, color)
            &&& draws.len() <= 1
        }),
{
}

/// A virtual line shows its text, whether it has a background or not: every
/// grapheme of it that is shown as a whole is drawn in its row and at its
/// column. The style is that of its scope; a background only changes the color
/// behind the text and fills the row first.
pub proof fn law_virtual_lines_show_their_text(renderer: &TextRenderer, theme: Theme, line: VirtualLineView, row: u16, i: int)
    requires
        renderer.wf(),
        renderer.tab@.len() <= usize::MAX,
        row < u16::MAX,
        shows_grapheme(renderer, row, graphemes_of(line.text), i),
        graphemes_of(line.text)[i].len() > 0,
        graphemes_of(line.text)[i] != "\t"@ && graphemes_of(line.text)[i] != "\n"@ && graphemes_of(line.text)[i] != "\r\n"@,
    ensures
        ({
            let text = graphemes_of(line.text)[i];
            let own = scope_style(theme, line.scope);
            let style = match line.background_opacity {
                Some(opacity) => own.patched(Style { bg: Some(row_color(theme, line.scope, opacity)), ..Style::plain() }),
                None => own,
            };
            &&& shows_at(
                virtual_line_draws(renderer, theme, line, row),
                renderer.viewport.x + column_of(graphemes_of(line.text), i, renderer.tab@.len() as usize) - renderer.offset.col,
                renderer.viewport.y + row - renderer.offset.row,
                symbol(renderer, text, 1),
                if whitespace(text[0]) {
                    style.patched(renderer.whitespace_style)
                } else {
                    style
                },
            )
            &&& line.background_opacity matches Some(opacity) ==> fills_row(
                renderer,
                virtual_line_draws(renderer, theme, line, row)[0],
                row,
                row_color(theme, line.scope, opacity),
            )
        }),
{
    let values = graphemes_of(line.text);
    let own = scope_style(theme, line.scope);
    let all = virtual_line_draws(renderer, theme, line, row);
    lemma_columns_grow(values, 0, i, renderer.tab@.len() as usize);
    lemma_width(values[i], column_of(values, i, renderer.tab@.len() as usize) as usize, renderer.tab@.len() as usize);
    match line.background_opacity {
        Some(opacity) => {
            let background = Style { bg: Some(row_color(theme, line.scope, opacity)), ..Style::plain() };
            let style = own.patched(background);
            law_custom_text_is_drawn(renderer, row, values, i, style);
            lemma_row_fill(renderer, row, row_color(theme, line.scope, opacity));
            let text = renderer.custom_line_draws(row, values, style);
            let x = renderer.viewport.x + column_of(values, i, renderer.tab@.len() as usize) - renderer.offset.col;
            let y = renderer.viewport.y + row - renderer.offset.row;
            let shown = if whitespace(values[i][0]) {
                style.patched(renderer.whitespace_style)
            } else {
                style
            };
            let k = choose|k: int|
                0 <= k < text.len() && match #[trigger] text[k] {
                    DrawView::Grapheme { x: at, y: line, text: written, style: own, .. } => at == x && line == y && written
                        == symbol(renderer, values[i], 1) && own == shown,
                    _ => false,
                };
            let fill = renderer.style_draws(
                Rect { x: renderer.viewport.x, y: row, width: renderer.viewport.width, height: 1 },
                background,
            );
            assert(all == fill + text);
            assert(all[fill.len() + k] == text[k]);
        },
        None => {
            law_custom_text_is_drawn(renderer, row, values, i, own);
        },
    }
}

/// How many of the first `k` virtual lines stand after a line of the document.
pub open spec fn earlier_rows(lines: Seq<VirtualLineView>, doc_line: usize, k: int) -> int
    decreases k,
{
    if k <= 0 {
        0
    } else {
        earlier_rows(lines, doc_line, k - 1) + if lines[k - 1].line == doc_line {
            1int
        } else {
            0int
        }
    }
}

proof fn lemma_earlier_rows(lines: Seq<VirtualLineView>, doc_line: usize, k: int)
    requires
        0 <= k <= lines.len(),
    ensures
        rows_after(lines.subrange(0, k), doc_line) == earlier_rows(lines, doc_line, k),
        0 <= earlier_rows(lines, doc_line, k) <= k,
    decreases k,
{
    if k > 0 {
        lemma_earlier_rows(lines, doc_line, k - 1);
        assert(lines.subrange(0, k).drop_last() =~= lines.subrange(0, k - 1));
        assert(lines.subrange(0, k).last() == lines[k - 1]);
    } else {
        assert(lines.subrange(0, 0) =~= Seq::<VirtualLineView>::empty());
    }
}

/// The virtual lines after a line of the document stand one below the other, in
/// their order: all that one of them is drawn as is drawn, in the row that is as
/// far down as there are others before it.
pub proof fn law_virtual_lines_stand_below_each_other(
    renderer: &TextRenderer,
    theme: Theme,
    lines: Seq<VirtualLineView>,
    doc_line: usize,
    start_row: u16,
    k: int,
    n: int,
    draw: DrawView,
)
    requires
        0 <= k < n <= lines.len(),
        lines[k].line == doc_line,
        start_row + earlier_rows(lines, doc_line, k) <= u16::MAX,
        virtual_line_draws(renderer, theme, lines[k], (start_row + earlier_rows(lines, doc_line, k)) as u16).contains(draw),
    ensures
        virtual_draws(renderer, theme, lines, doc_line, start_row, n).contains(draw),
        rows_after(lines, doc_line) == earlier_rows(lines, doc_line, lines.len() as int),
    decreases n,
{
    lemma_earlier_rows(lines, doc_line, k);
    lemma_earlier_rows(lines, doc_line, lines.len() as int);
    assert(lines.subrange(0, lines.len() as int) =~= lines);
    let before = virtual_draws(renderer, theme, lines, doc_line, start_row, n - 1);
    let all = virtual_draws(renderer, theme, lines, doc_line, start_row, n);
    if k < n - 1 {
        law_virtual_lines_stand_below_each_other(renderer, theme, lines, doc_line, start_row, k, n - 1, draw);
        let i = choose|i: int| 0 <= i < before.len() && before[i] == draw;
        assert(all[i] == draw);
    } else {
        let own = virtual_line_draws(
            renderer,
            theme,
            lines[k],
            row_below(start_row, rows_after(lines.subrange(0, k), doc_line) as int),
        );
        assert(all == before + own);
        let i = choose|i: int| 0 <= i < own.len() && own[i] == draw;
        assert(all[before.len() + i] == draw);
    }
}

/// Whether one of the drawing steps fills a row of the viewport with a color.
pub open spec fn filled(renderer: &TextRenderer, draws: Seq<DrawView>, row: u16, color: crate::graphics::Color) -> bool {
    exists|i: int| 0 <= i < draws.len() && fills_row(renderer, #[trigger] draws[i], row, color)
}

/// A row is filled with the color of every background of its line.
pub proof fn law_rows_get_the_backgrounds_of_their_line(
    renderer: &TextRenderer,
    theme: Theme,
    lines: Seq<BackgroundView>,
    pos: LinePos,
    n: int,
    k: int,
)
    requires
        renderer.wf(),
        0 <= k < n <= lines.len(),
        lines[k].line == pos.doc_line,
        renderer.offset.row <= pos.visual_line < renderer.offset.row + renderer.viewport.height,
        renderer.viewport.width > 0,
        pos.visual_line < u16::MAX,
    ensures
        filled(
            renderer,
            background_draws(renderer, theme, lines, pos, n),
            pos.visual_line,
            row_color(theme, lines[k].scope, lines[k].opacity),
        ),
    decreases n,
{
    let before = background_draws(renderer, theme, lines, pos, n - 1);
    let all = background_draws(renderer, theme, lines, pos, n);
    let color = row_color(theme, lines[k].scope, lines[k].opacity);
    if k < n - 1 {
        law_rows_get_the_backgrounds_of_their_line(renderer, theme, lines, pos, n - 1, k);
        let i = choose|i: int| 0 <= i < before.len() && fills_row(renderer, #[trigger] before[i], pos.visual_line, color);
        assert(all[i] == before[i]);
    } else {
        lemma_row_fill(renderer, pos.visual_line, color);
        assert(fills_row(renderer, all[before.len() as int], pos.visual_line, color));
    }
}

/// A row is filled with no color but those of the backgrounds of its line.
pub proof fn law_rows_get_no_other_backgrounds(
    renderer: &TextRenderer,
    theme: Theme,
    lines: Seq<BackgroundView>,
    pos: LinePos,
    n: int,
    i: int,
) -> (k: int)
    requires
        renderer.wf(),
        0 <= n <= lines.len(),
        0 <= i < background_draws(renderer, theme, lines, pos, n).len(),
        renderer.offset.row <= pos.visual_line < renderer.offset.row + renderer.viewport.height,
        renderer.viewport.width > 0,
        pos.visual_line < u16::MAX,
    ensures
        0 <= k < n,
        lines[k].line == pos.doc_line,
        fills_row(
            renderer,
            background_draws(renderer, theme, lines, pos, n)[i],
            pos.visual_line,
            row_color(theme, lines[k].scope, lines[k].opacity),
        ),
    decreases n,
{
    let before = background_draws(renderer, theme, lines, pos, n - 1);
    let all = background_draws(renderer, theme, lines, pos, n);
    if n > 0 && i < before.len() {
        assert(all[i] == before[i]);
        law_rows_get_no_other_backgrounds(renderer, theme, lines, pos, n - 1, i)
    } else {
        let line = lines[n - 1];
        lemma_row_fill(renderer, pos.visual_line, row_color(theme, line.scope, line.opacity));
        n - 1
    }
}

/// A grapheme of the text that lies in the viewport with all its cells is drawn
/// at its own place. Ordinary text is drawn as it is; the overlay is on top of
/// the style of the language.
pub proof fn law_graphemes_in_view_are_drawn(
    renderer: &TextRenderer,
    text: Seq<char>,
    styles: GraphemeStyle,
    is_virtual: bool,
    is_eof: bool,
    position: Position,
)
    requires
        renderer.wf(),
        text.len() > 0 && !whitespace(text[0]),
        renderer.offset.row <= position.row < renderer.offset.row + renderer.viewport.height,
        renderer.offset.col <= position.col,
        position.col + (GraphemeView::Other { text }).width() <= renderer.offset.col + renderer.viewport.width,
    ensures
        renderer.grapheme_draws(GraphemeView::Other { text }, styles, is_virtual, is_eof, position) == seq![
            DrawView::Grapheme {
                x: (renderer.viewport.x + position.col - renderer.offset.col) as u16,
                y: (renderer.viewport.y + position.row - renderer.offset.row) as u16,
                text,
                width: (GraphemeView::Other { text }).width(),
                style: styles.syntax_style.patched(styles.overlay_style),
            },
        ],
{
    reveal_strlit(" ");
    reveal_strlit("\u{00A0}");
    reveal_strlit("\u{202F}");
    assert(" "@[0] == ' ' && "\u{00A0}"@[0] == '\u{00A0}' && "\u{202F}"@[0] == '\u{202F}');
}

/// White space of the text is drawn at its own place as its marker, and that of
/// a virtual text as a space; the style of white space is on top of that of the
/// language and below the overlay.
pub proof fn law_white_space_in_view_is_drawn_as_its_marker(
    renderer: &TextRenderer,
    grapheme: GraphemeView,
    styles: GraphemeStyle,
    is_virtual: bool,
    position: Position,
)
    requires
        renderer.wf(),
        renderer.offset.row <= position.row < renderer.offset.row + renderer.viewport.height,
        renderer.offset.col <= position.col,
        position.col + grapheme.width() <= renderer.offset.col + renderer.viewport.width,
        grapheme is Newline || grapheme == (GraphemeView::Other { text: " "@ }) || grapheme == (GraphemeView::Other {
            text: "\u{00A0}"@,
        }) || grapheme == (GraphemeView::Other { text: "\u{202F}"@ }),
    ensures
        ({
            let draws = renderer.grapheme_draws(grapheme, styles, is_virtual, false, position);
            &&& draws.len() == 1
            &&& draws[0] matches DrawView::Grapheme { x, y, text, width, style } && x == renderer.viewport.x + position.col
                - renderer.offset.col && y == renderer.viewport.y + position.row - renderer.offset.row && style
                == styles.syntax_style.patched(renderer.whitespace_style).patched(styles.overlay_style) && width == grapheme.width()
                && text == (if grapheme is Newline {
                renderer.newline@
            } else if is_virtual {
                seq![' ']
            } else if grapheme->text == " "@ {
                renderer.space@
            } else if grapheme->text == "\u{00A0}"@ {
                renderer.nbsp@
            } else {
                renderer.nnbsp@
            })
        }),
{
    reveal_strlit(" ");
    reveal_strlit("\u{00A0}");
    reveal_strlit("\u{202F}");
    assert(" "@ =~= seq![' ']);
    assert(" "@[0] == ' ' && "\u{00A0}"@[0] == '\u{00A0}' && "\u{202F}"@[0] == '\u{202F}');
}

/// The walk once the first `i` graphemes have been taken.
pub open spec fn walk_to(renderer: &TextRenderer, scene: Scene, items: Seq<FormattedGrapheme>, i: int) -> Walk
    decreases i,
{
    if i <= 0 {
        started()
    } else {
        let before = walk_to(renderer, scene, items, i - 1);
        if items[i - 1].visual_pos.row < scene.row_off {
            before
        } else {
            walked(renderer, scene, before, items[i - 1])
        }
    }
}

/// Whether the walk reaches the grapheme at `i`: none up to it is below the
/// viewport.
pub open spec fn reaches(renderer: &TextRenderer, scene: Scene, items: Seq<FormattedGrapheme>, i: int) -> bool {
    forall|j: int|
        0 <= j <= i ==> (#[trigger] items[j]).visual_pos.row < scene.row_off + renderer.viewport.height + renderer.offset.row
}

proof fn lemma_walk_contains(
    renderer: &TextRenderer,
    scene: Scene,
    items: Seq<FormattedGrapheme>,
    j: int,
    i: int,
    draw: DrawView,
)
    requires
        0 <= j <= i < items.len(),
        reaches(renderer, scene, items, i),
        items[i].visual_pos.row >= scene.row_off,
        super::walk::step_draws(renderer, scene, walk_to(renderer, scene, items, i), items[i]).contains(draw),
    ensures
        walk_draws(renderer, scene, items, j, walk_to(renderer, scene, items, j)).contains(draw),
    decreases i - j,
{
    let walk = walk_to(renderer, scene, items, j);
    let all = walk_draws(renderer, scene, items, j, walk);
    assert(items[j].visual_pos.row < scene.row_off + renderer.viewport.height + renderer.offset.row);
    if j < i {
        lemma_walk_contains(renderer, scene, items, j + 1, i, draw);
        let next = walk_to(renderer, scene, items, j + 1);
        let rest = walk_draws(renderer, scene, items, j + 1, next);
        if items[j].visual_pos.row >= scene.row_off {
            let first = super::walk::step_draws(renderer, scene, walk, items[j]);
            assert(all == first + rest);
            let k = choose|k: int| 0 <= k < rest.len() && rest[k] == draw;
            assert(all[first.len() + k] == draw);
        }
    } else {
        let first = super::walk::step_draws(renderer, scene, walk, items[j]);
        let k = choose|k: int| 0 <= k < first.len() && first[k] == draw;
        assert(all[k] == draw);
    }
}

/// Every grapheme that the walk reaches and that is not hidden is drawn: all
/// that it is drawn as at its place is drawn with the text. A grapheme of the
/// document has the style of its highlights at its character.
pub proof fn law_reached_graphemes_are_drawn(
    renderer: &TextRenderer,
    scene: Scene,
    items: Seq<FormattedGrapheme>,
    i: int,
    draw: DrawView,
)
    requires
        0 <= i < items.len(),
        reaches(renderer, scene, items, i),
        items[i].visual_pos.row >= scene.row_off + renderer.offset.row,
        renderer.grapheme_draws(
            items[i].grapheme@,
            styles_of(renderer, scene, items[i]),
            items[i].source is VirtualText,
            items[i].is_eof,
            Position { row: (items[i].visual_pos.row - scene.row_off) as usize, col: items[i].visual_pos.col },
        ).contains(draw),
    ensures
        walk_draws(renderer, scene, items, 0, started()).contains(draw),
{
    let walk = walk_to(renderer, scene, items, i);
    let step = super::walk::step_draws(renderer, scene, walk, items[i]);
    let own = super::walk::item_draws(renderer, scene, items[i]);
    let before = if super::walk::enters(scene, walk, items[i]) {
        super::walk::enter_draws(renderer, scene, walk, items[i])
    } else {
        Seq::empty()
    };
    assert(step == before + own);
    let k = choose|k: int| 0 <= k < own.len() && own[k] == draw;
    assert(step[before.len() + k] == draw);
    lemma_walk_contains(renderer, scene, items, 0, i, draw);
}

/// The first grapheme of a row brings the backgrounds of its line, and, where
/// another row was left for it, the virtual lines after that row's line.
pub proof fn law_rows_bring_backgrounds_and_virtual_lines(
    renderer: &TextRenderer,
    scene: Scene,
    items: Seq<FormattedGrapheme>,
    i: int,
    draw: DrawView,
)
    requires
        0 <= i < items.len(),
        reaches(renderer, scene, items, i),
        items[i].visual_pos.row >= scene.row_off,
        ({
            let last = walk_to(renderer, scene, items, i).last;
            let row = items[i].visual_pos.row - scene.row_off;
            &&& row != last.visual_line
            &&& row <= u16::MAX
            &&& background_draws(
                renderer,
                scene.theme,
                scene.backgrounds,
                LinePos {
                    first_visual_line: items[i].line_idx != last.doc_line,
                    doc_line: items[i].line_idx,
                    visual_line: row as u16,
                },
                scene.backgrounds.len() as int,
            ).contains(draw) || last.doc_line != usize::MAX && last.visual_line < u16::MAX && virtual_draws(
                renderer,
                scene.theme,
                scene.virtual_lines,
                last.doc_line,
                (last.visual_line + 1) as u16,
                scene.virtual_lines.len() as int,
            ).contains(draw)
        }),
    ensures
        walk_draws(renderer, scene, items, 0, started()).contains(draw),
{
    let walk = walk_to(renderer, scene, items, i);
    let step = super::walk::step_draws(renderer, scene, walk, items[i]);
    let enter = super::walk::enter_draws(renderer, scene, walk, items[i]);
    let left = if walk.last.doc_line != usize::MAX {
        super::walk::leave_draws(renderer, scene, walk)
    } else {
        Seq::empty()
    };
    let backgrounds = background_draws(
        renderer,
        scene.theme,
        scene.backgrounds,
        super::walk::line_of(scene, walk, items[i]),
        scene.backgrounds.len() as int,
    );
    assert(enter == left + backgrounds);
    if backgrounds.contains(draw) {
        let k = choose|k: int| 0 <= k < backgrounds.len() && backgrounds[k] == draw;
        assert(enter[left.len() + k] == draw);
        assert(step[left.len() + k] == draw);
    } else {
        let guides = renderer.guide_draws(walk.indent_level, walk.last.visual_line);
        let lines = virtual_draws(
            renderer,
            scene.theme,
            scene.virtual_lines,
            walk.last.doc_line,
            row_below(walk.last.visual_line, 1),
            scene.virtual_lines.len() as int,
        );
        let k = choose|k: int| 0 <= k < lines.len() && lines[k] == draw;
        assert(left[guides.len() + k] == draw);
        assert(enter[guides.len() + k] == draw);
        assert(step[guides.len() + k] == draw);
    }
    assert(step.contains(draw));
    lemma_walk_contains(renderer, scene, items, 0, i, draw);
}

/// After the last grapheme the virtual lines after its line are drawn, below its
/// row.
pub proof fn law_the_last_line_has_its_virtual_lines(
    renderer: &TextRenderer,
    scene: Scene,
    items: Seq<FormattedGrapheme>,
    j: int,
    draw: DrawView,
)
    requires
        0 <= j <= items.len(),
        reaches(renderer, scene, items, items.len() - 1),
        ({
            let last = walk_to(renderer, scene, items, items.len() as int).last;
            &&& last.visual_line < u16::MAX
            &&& virtual_draws(
                renderer,
                scene.theme,
                scene.virtual_lines,
                last.doc_line,
                (last.visual_line + 1) as u16,
                scene.virtual_lines.len() as int,
            ).contains(draw)
        }),
    ensures
        walk_draws(renderer, scene, items, j, walk_to(renderer, scene, items, j)).contains(draw),
    decreases items.len() - j,
{
    let walk = walk_to(renderer, scene, items, j);
    let all = walk_draws(renderer, scene, items, j, walk);
    if j < items.len() {
        assert(items[j].visual_pos.row < scene.row_off + renderer.viewport.height + renderer.offset.row);
        law_the_last_line_has_its_virtual_lines(renderer, scene, items, j + 1, draw);
        let rest = walk_draws(renderer, scene, items, j + 1, walk_to(renderer, scene, items, j + 1));
        if items[j].visual_pos.row >= scene.row_off {
            let first = super::walk::step_draws(renderer, scene, walk, items[j]);
            assert(all == first + rest);
            let k = choose|k: int| 0 <= k < rest.len() && rest[k] == draw;
            assert(all[first.len() + k] == draw);
        }
    } else {
        let guides = renderer.guide_draws(walk.indent_level, walk.last.visual_line);
        let lines = virtual_draws(
            renderer,
            scene.theme,
            scene.virtual_lines,
            walk.last.doc_line,
            row_below(walk.last.visual_line, 1),
            scene.virtual_lines.len() as int,
        );
        let k = choose|k: int| 0 <= k < lines.len() && lines[k] == draw;
        assert(all[guides.len() + k] == draw);
    }
}

/// The walk stands on the row and on the line of the grapheme that it took last.
pub proof fn law_the_walk_follows_the_rows(renderer: &TextRenderer, scene: Scene, items: Seq<FormattedGrapheme>, i: int)
    requires
        0 < i <= items.len(),
        items[i - 1].visual_pos.row >= scene.row_off,
        items[i - 1].visual_pos.row - scene.row_off <= u16::MAX,
        walk_to(renderer, scene, items, i - 1).last.visual_line != items[i - 1].visual_pos.row - scene.row_off,
    ensures
        walk_to(renderer, scene, items, i).last.visual_line == items[i - 1].visual_pos.row - scene.row_off,
        walk_to(renderer, scene, items, i).last.doc_line == items[i - 1].line_idx,
{
}

/// An indentation guide stands at every level that is shown: at the multiples of
/// the indentation's width, from the first level in the viewport on, up to the
/// indentation of the line.
pub proof fn law_guides_stand_at_the_levels(renderer: &TextRenderer, indent_level: usize, row: u16, level: int)
    requires
        renderer.wf(),
        renderer.draw_indent_guides,
        renderer.offset.row <= row < renderer.offset.row + renderer.viewport.height,
        renderer.starting_indent <= level,
        (level + 1) * renderer.indent_width <= indent_level,
        level * renderer.indent_width < renderer.offset.col + renderer.viewport.width,
    ensures
        renderer.guide_draws(indent_level, row).contains(
            DrawView::Text {
                x: (renderer.viewport.x + level * renderer.indent_width - renderer.offset.col) as u16,
                y: (renderer.viewport.y + row - renderer.offset.row) as u16,
                text: renderer.indent_guide_char@,
                style: renderer.indent_guide_style,
            },
        ),
{
    let w = renderer.indent_width as int;
    let reach = renderer.offset.col + renderer.viewport.width + w - 1;
    let limit = if indent_level < reach {
        indent_level as int
    } else {
        reach
    };
    assert((level + 1) * w <= limit) by (nonlinear_arith)
        requires
            (level + 1) * w <= indent_level,
            level * w < renderer.offset.col + renderer.viewport.width,
            reach == renderer.offset.col + renderer.viewport.width + w - 1,
            limit == indent_level || limit == reach,
    ;
    assert(level + 1 <= limit / w) by (nonlinear_arith)
        requires
            (level + 1) * w <= limit,
            w > 0,
    ;
    let all = renderer.guide_draws(indent_level, row);
    let k = level - renderer.starting_indent;
    assert(all[k] == renderer.guide(level, row as int));
}

} // verus!
