//! The walk over the graphemes of a text, row by row.

use std::ops::Range;

use vstd::prelude::*;

use super::decorations::{background_draws, row_below, virtual_draws, CustomDecorations, LinePos};
use super::drawing::{steps, Draw, DrawView, Position};
use super::graphemes::Grapheme;
use super::highlights::{done_at, known_highlights, lemma_done_in_turn, track_style, HighlightStep, HighlightTrack};
use super::renderer::{GraphemeStyle, RenderSettings, TextRenderer};
use crate::custom_text::annotations::{views, BackgroundView, VirtualLineView};
use crate::custom_text::ranges::{
    farther, ordered_styles, style_at, styled, ConcreteStyleHighlighter, ConcreteStyleRange, StyledRange,
};
use crate::editor::document::ViewPosition;
use crate::graphics::{Rect, Style};
use crate::theme::Theme;

verus! {

/// Where a grapheme comes from.
#[derive(Clone, Copy, Debug)]
pub enum GraphemeSource {
    Document,
    /// Text that is not in the document, with its highlight.
    VirtualText(Option<usize>),
}

/// A grapheme and where it stands.
#[derive(Debug)]
pub struct FormattedGrapheme {
    pub grapheme: Grapheme,
    pub source: GraphemeSource,
    pub is_eof: bool,
    pub visual_pos: Position,
    pub line_idx: usize,
    pub char_idx: usize,
}

/// How far the walk has come.
#[derive(Clone, Copy, Debug)]
pub struct Walk {
    pub last: LinePos,
    pub in_indent: bool,
    pub indent_level: usize,
}

/// What is drawn besides the text, and from which row on.
pub struct Scene {
    pub theme: Theme,
    pub backgrounds: Seq<BackgroundView>,
    pub virtual_lines: Seq<VirtualLineView>,
    /// The highlights of the language.
    pub syntax: Seq<HighlightStep>,
    /// The highlights on top of them.
    pub overlay: Seq<HighlightStep>,
    /// The styles behind the overlays, in order.
    pub behind: Seq<StyledRange>,
    /// The styles above the overlays, in order.
    pub above: Seq<StyledRange>,
    /// The character that the view starts at. Before it the styles are those of
    /// the anchor.
    pub anchor: usize,
    pub row_off: usize,
}

/// The walk before the first grapheme.
pub open spec fn started() -> Walk {
    Walk {
        last: LinePos { first_visual_line: false, doc_line: usize::MAX, visual_line: u16::MAX },
        in_indent: true,
        indent_level: 0,
    }
}

/// What is drawn when a row is left: its guides and the virtual lines after it.
pub open spec fn leave_draws(renderer: &TextRenderer, scene: Scene, walk: Walk) -> Seq<DrawView> {
    renderer.guide_draws(walk.indent_level, walk.last.visual_line) + virtual_draws(
        renderer,
        scene.theme,
        scene.virtual_lines,
        walk.last.doc_line,
        row_below(walk.last.visual_line, 1),
        scene.virtual_lines.len() as int,
    )
}

/// The row of a grapheme below the block that the view starts in.
pub open spec fn row_of(scene: Scene, item: FormattedGrapheme) -> int {
    item.visual_pos.row - scene.row_off
}

/// The visual line that a grapheme stands on.
pub open spec fn line_of(scene: Scene, walk: Walk, item: FormattedGrapheme) -> LinePos {
    LinePos {
        first_visual_line: item.line_idx != walk.last.doc_line,
        doc_line: item.line_idx,
        visual_line: row_of(scene, item) as u16,
    }
}

/// Whether a grapheme begins a row.
pub open spec fn enters(scene: Scene, walk: Walk, item: FormattedGrapheme) -> bool {
    row_of(scene, item) != walk.last.visual_line
}

/// What is drawn before the first grapheme of a row.
pub open spec fn enter_draws(renderer: &TextRenderer, scene: Scene, walk: Walk, item: FormattedGrapheme) -> Seq<DrawView> {
    let left = if walk.last.doc_line != usize::MAX {
        leave_draws(renderer, scene, walk)
    } else {
        Seq::empty()
    };
    left + background_draws(
        renderer,
        scene.theme,
        scene.backgrounds,
        line_of(scene, walk, item),
        scene.backgrounds.len() as int,
    )
}

/// The walk on the row of a grapheme.
pub open spec fn entered(scene: Scene, walk: Walk, item: FormattedGrapheme) -> Walk {
    if enters(scene, walk, item) {
        Walk {
            last: line_of(scene, walk, item),
            in_indent: walk.in_indent || walk.last.doc_line != usize::MAX,
            indent_level: walk.indent_level,
        }
    } else {
        walk
    }
}

/// The styles of a grapheme.
pub open spec fn styles_of(renderer: &TextRenderer, scene: Scene, item: FormattedGrapheme) -> GraphemeStyle {
    match item.source {
        GraphemeSource::VirtualText(highlight) => GraphemeStyle {
            syntax_style: match highlight {
                Some(highlight) => renderer.text_style.patched(scene.theme.scopes@[highlight as int].style),
                None => renderer.text_style,
            },
            overlay_style: Style::plain(),
        },
        GraphemeSource::Document => GraphemeStyle {
            syntax_style: track_style(scene.theme, renderer.text_style, scene.syntax, item.char_idx as int).patched(
                style_at(scene.behind, farther(scene.anchor as int, item.char_idx as int)),
            ),
            overlay_style: track_style(scene.theme, Style::plain(), scene.overlay, item.char_idx as int).patched(
                style_at(scene.above, farther(scene.anchor as int, item.char_idx as int)),
            ),
        },
    }
}

/// What a grapheme itself is drawn as.
pub open spec fn item_draws(renderer: &TextRenderer, scene: Scene, item: FormattedGrapheme) -> Seq<DrawView> {
    if row_of(scene, item) < renderer.offset.row {
        Seq::empty()
    } else {
        renderer.grapheme_draws(
            item.grapheme@,
            styles_of(renderer, scene, item),
            item.source is VirtualText,
            item.is_eof,
            Position { row: row_of(scene, item) as usize, col: item.visual_pos.col },
        )
    }
}

/// The walk after a grapheme.
pub open spec fn walked(renderer: &TextRenderer, scene: Scene, walk: Walk, item: FormattedGrapheme) -> Walk {
    let now = entered(scene, walk, item);
    if row_of(scene, item) >= renderer.offset.row && now.in_indent && !item.grapheme@.is_space() {
        Walk { indent_level: item.visual_pos.col, in_indent: false, ..now }
    } else {
        now
    }
}

/// What a grapheme adds to what is drawn.
pub open spec fn step_draws(renderer: &TextRenderer, scene: Scene, walk: Walk, item: FormattedGrapheme) -> Seq<DrawView> {
    let before = if enters(scene, walk, item) {
        enter_draws(renderer, scene, walk, item)
    } else {
        Seq::empty()
    };
    before + item_draws(renderer, scene, item)
}

/// What the graphemes from `i` on and the end of the walk are drawn as.
pub open spec fn walk_draws(renderer: &TextRenderer, scene: Scene, items: Seq<FormattedGrapheme>, i: int, walk: Walk) -> Seq<
    DrawView,
>
    decreases items.len() - i,
{
    if i < 0 || i >= items.len() {
        leave_draws(renderer, scene, walk)
    } else if items[i].visual_pos.row < scene.row_off {
        walk_draws(renderer, scene, items, i + 1, walk)
    } else if row_of(scene, items[i]) >= renderer.viewport.height + renderer.offset.row {
        leave_draws(renderer, scene, walk)
    } else {
        step_draws(renderer, scene, walk, items[i]) + walk_draws(
            renderer,
            scene,
            items,
            i + 1,
            walked(renderer, scene, walk, items[i]),
        )
    }
}

/// The ranges that are behind the overlays, or those that are not.
pub open spec fn those(ranges: Seq<StyledRange>, behind: bool) -> Seq<StyledRange>
    decreases ranges.len(),
{
    if ranges.len() == 0 {
        Seq::empty()
    } else if ranges.last().behind_overlays == behind {
        those(ranges.drop_last(), behind).push(ranges.last())
    } else {
        those(ranges.drop_last(), behind)
    }
}

fn pick(ranges: &Vec<ConcreteStyleRange>, behind: bool) -> (out: Vec<ConcreteStyleRange>)
    ensures
        styled(out@) == those(styled(ranges@), behind),
{
    let ghost all = styled(ranges@);
    let mut out: Vec<ConcreteStyleRange> = Vec::new();
    let mut i: usize = 0;
    proof {
        assert(all.subrange(0, 0) =~= Seq::<StyledRange>::empty());
        assert(styled(out@) =~= Seq::<StyledRange>::empty());
    }
    while i < ranges.len()
        invariant
            i <= ranges@.len(),
            all == styled(ranges@),
            styled(out@) == those(all.subrange(0, i as int), behind),
        decreases ranges.len() - i,
    {
        let ghost before = styled(out@);
        if ranges[i].behind_overlays == behind {
            out.push(
                ConcreteStyleRange {
                    range: Range { start: ranges[i].range.start, end: ranges[i].range.end },
                    style: ranges[i].style,
                    behind_overlays: ranges[i].behind_overlays,
                },
            );
            proof {
                assert(styled(out@) =~= before.push(all[i as int]));
            }
        }
        i += 1;
        proof {
            assert(all.subrange(0, i as int).drop_last() =~= all.subrange(0, i - 1));
        }
    }
    proof {
        assert(all.subrange(0, all.len() as int) =~= all);
    }
    out
}

proof fn lemma_same_leave(a: &TextRenderer, b: &TextRenderer, scene: Scene, walk: Walk)
    requires
        exists|drawn: Seq<DrawView>| b.adds(a, drawn),
    ensures
        leave_draws(b, scene, walk) == leave_draws(a, scene, walk),
        b.guide_draws(walk.indent_level, walk.last.visual_line) == a.guide_draws(walk.indent_level, walk.last.visual_line),
{
    super::decorations::lemma_same_virtual(
        a,
        b,
        scene.theme,
        scene.virtual_lines,
        walk.last.doc_line,
        row_below(walk.last.visual_line, 1),
        scene.virtual_lines.len() as int,
    );
    assert(b.guide_draws(walk.indent_level, walk.last.visual_line) =~= a.guide_draws(
        walk.indent_level,
        walk.last.visual_line,
    ));
}

proof fn lemma_same_step(a: &TextRenderer, b: &TextRenderer, scene: Scene, walk: Walk, item: FormattedGrapheme)
    requires
        exists|drawn: Seq<DrawView>| b.adds(a, drawn),
    ensures
        step_draws(b, scene, walk, item) == step_draws(a, scene, walk, item),
        item_draws(b, scene, item) == item_draws(a, scene, item),
        enter_draws(b, scene, walk, item) == enter_draws(a, scene, walk, item),
        walked(b, scene, walk, item) == walked(a, scene, walk, item),
{
    lemma_same_leave(a, b, scene, walk);
    super::decorations::lemma_same_backgrounds(
        a,
        b,
        scene.theme,
        scene.backgrounds,
        line_of(scene, walk, item),
        scene.backgrounds.len() as int,
    );
}

fn leave(renderer: &mut TextRenderer, theme: &Theme, decorations: &CustomDecorations, walk: Walk, scene: Ghost<Scene>)
    requires
        old(renderer).wf(),
        scene@.theme == *theme,
        scene@.virtual_lines == views(decorations.virtual_lines@),
    ensures
        final(renderer).wf(),
        final(renderer).adds(old(renderer), leave_draws(old(renderer), scene@, walk)),
{
    let ghost first = *renderer;
    renderer.draw_indent_guides(walk.indent_level, walk.last.visual_line);
    let ghost middle = *renderer;
    let below: u16 = walk.last.visual_line.saturating_add(1);
    decorations.render_virt_lines(renderer, theme, walk.last.doc_line, below);
    proof {
        super::decorations::lemma_same_virtual(
            &first,
            &middle,
            scene@.theme,
            scene@.virtual_lines,
            walk.last.doc_line,
            below,
            scene@.virtual_lines.len() as int,
        );
        super::decorations::lemma_adds(
            &first,
            &middle,
            renderer,
            first.guide_draws(walk.indent_level, walk.last.visual_line),
            virtual_draws(
                &middle,
                scene@.theme,
                scene@.virtual_lines,
                walk.last.doc_line,
                below,
                scene@.virtual_lines.len() as int,
            ),
        );
    }
}

/// The scene of a text.
pub open spec fn scene_of(
    theme: Theme,
    decorations: CustomDecorations,
    syntax: Seq<HighlightStep>,
    overlay: Seq<HighlightStep>,
    concrete: Seq<StyledRange>,
    anchor: usize,
    row_off: usize,
) -> Scene {
    Scene {
        theme,
        backgrounds: views(decorations.line_backgrounds@),
        virtual_lines: views(decorations.virtual_lines@),
        syntax,
        overlay,
        behind: ordered_styles(those(concrete, true)),
        above: ordered_styles(those(concrete, false)),
        anchor,
        row_off,
    }
}

/// Whether graphemes come in the order of the text.
pub open spec fn in_text_order(items: Seq<FormattedGrapheme>) -> bool {
    forall|i: int, j: int|
        0 <= i < j < items.len() ==> (#[trigger] items[i]).char_idx <= (#[trigger] items[j]).char_idx
}

/// Whether a theme knows the highlights of the graphemes that are not in the
/// document.
pub open spec fn known_graphemes(theme: Theme, items: Seq<FormattedGrapheme>) -> bool {
    forall|i: int|
        0 <= i < items.len() ==> match (#[trigger] items[i]).source {
            GraphemeSource::VirtualText(Some(highlight)) => highlight < theme.scopes@.len(),
            _ => true,
        }
}

/// Draws a text, given its graphemes in order and the steps of its
/// highlighters.
pub fn render_text(
    renderer: &mut TextRenderer,
    items: &Vec<FormattedGrapheme>,
    anchor: usize,
    row_off: usize,
    syntax_highlights: Vec<HighlightStep>,
    overlay_highlights: Vec<HighlightStep>,
    concrete_highlights: &Vec<ConcreteStyleRange>,
    theme: &Theme,
    decorations: &CustomDecorations,
)
    requires
        old(renderer).wf(),
        in_text_order(items@),
        known_graphemes(*theme, items@),
        known_highlights(*theme, syntax_highlights@),
        known_highlights(*theme, overlay_highlights@),
    ensures
        final(renderer).wf(),
        final(renderer).adds(
            old(renderer),
            walk_draws(
                old(renderer),
                scene_of(*theme, *decorations, syntax_highlights@, overlay_highlights@, styled(concrete_highlights@), anchor, row_off),
                items@,
                0,
                started(),
            ),
        ),
{
    let ghost first = *renderer;
    let ghost scene = scene_of(*theme, *decorations, syntax_highlights@, overlay_highlights@, styled(concrete_highlights@), anchor, row_off);
    let mut syntax = HighlightTrack::new(syntax_highlights, theme, renderer.text_style);
    let mut overlay = HighlightTrack::new(overlay_highlights, theme, Style::default());
    let mut behind = ConcreteStyleHighlighter::new_at(pick(concrete_highlights, true), anchor);
    let mut above = ConcreteStyleHighlighter::new_at(pick(concrete_highlights, false), anchor);
    let mut walk = Walk {
        last: LinePos { first_visual_line: false, doc_line: usize::MAX, visual_line: u16::MAX },
        in_indent: true,
        indent_level: 0,
    };
    let limit: usize = renderer.viewport.height as usize + renderer.offset.row;
    let mut i: usize = 0;
    let ghost mut drawn: Seq<DrawView> = Seq::empty();
    let ghost mut reached: int = -1;
    proof {
        assert(syntax.next == done_at(scene.syntax, 0, reached));
        super::decorations::lemma_adds_nothing(&first);
        assert(drawn + walk_draws(&first, scene, items@, 0, started()) =~= walk_draws(&first, scene, items@, 0, started()));
    }
    while i < items.len()
        invariant_except_break
            drawn + walk_draws(&first, scene, items@, i as int, walk) == walk_draws(&first, scene, items@, 0, started()),
        invariant
            first == *old(renderer),
            first.wf(),
            renderer.wf(),
            scene == scene_of(*theme, *decorations, syntax_highlights@, overlay_highlights@, styled(concrete_highlights@), anchor, row_off),
            in_text_order(items@),
            known_graphemes(*theme, items@),
            i <= items@.len(),
            limit == first.viewport.height + first.offset.row,
            renderer.adds(&first, drawn),
            behind.wf(),
            above.wf(),
            styled(behind.ranges@) == scene.behind,
            styled(above.ranges@) == scene.above,
            behind.position@ == farther(anchor as int, reached),
            above.position@ == behind.position@,
            syntax.wf(theme),
            overlay.wf(theme),
            syntax.steps@ == scene.syntax,
            overlay.steps@ == scene.overlay,
            syntax.base == first.text_style,
            overlay.base == Style::plain(),
            syntax.next == done_at(scene.syntax, 0, reached),
            overlay.next == done_at(scene.overlay, 0, reached),
            reached >= 0 ==> i > 0 && reached <= items@[i - 1].char_idx,
        ensures
            drawn + leave_draws(&first, scene, walk) == walk_draws(&first, scene, items@, 0, started()),
        decreases items.len() - i,
    {
        let item = &items[i];
        if item.visual_pos.row < row_off {
            proof {
                assert(i + 1 < items@.len() ==> items@[i as int].char_idx <= items@[i + 1].char_idx);
                assert(i > 0 ==> items@[i - 1].char_idx <= items@[i as int].char_idx);
            }
            i += 1;
            continue;
        }
        let row: usize = item.visual_pos.row - row_off;
        if row >= limit {
            break;
        }
        let ghost old_walk = walk;
        let ghost step = step_draws(&first, scene, walk, *item);
        let ghost rest = walk_draws(&first, scene, items@, i + 1, walked(&first, scene, walk, *item));
        let ghost before = *renderer;
        let ghost mut added: Seq<DrawView> = Seq::empty();
        proof {
            super::decorations::lemma_adds_nothing(&before);
            lemma_same_step(&first, &before, scene, walk, *item);
            assert(row as u16 == row);
        }
        if row != walk.last.visual_line as usize {
            if walk.last.doc_line != usize::MAX {
                leave(renderer, theme, decorations, walk, Ghost(scene));
                walk.in_indent = true;
                proof {
                    added = leave_draws(&before, scene, old_walk);
                }
            }
            let ghost middle = *renderer;
            let pos = LinePos {
                first_visual_line: item.line_idx != walk.last.doc_line,
                doc_line: item.line_idx,
                visual_line: row as u16,
            };
            walk.last = pos;
            decorations.decorate_line(renderer, theme, pos);
            proof {
                let backgrounds = background_draws(&middle, scene.theme, scene.backgrounds, pos, scene.backgrounds.len() as int);
                assert(middle.adds(&before, added));
                super::decorations::lemma_same_backgrounds(
                    &before,
                    &middle,
                    scene.theme,
                    scene.backgrounds,
                    pos,
                    scene.backgrounds.len() as int,
                );
                super::decorations::lemma_adds(&before, &middle, renderer, added, backgrounds);
                added = added + backgrounds;
                assert(added =~= enter_draws(&before, scene, old_walk, *item));
            }
        }
        proof {
            assert(walk == entered(scene, old_walk, *item));
            assert(renderer.adds(&before, added));
        }
        let ghost entered_renderer = *renderer;
        if row < renderer.offset.row {
            proof {
                assert(added + Seq::<DrawView>::empty() =~= added);
                assert(added =~= step);
            }
        } else {
            proof {
                assert(i > 0 ==> items@[i - 1].char_idx <= items@[i as int].char_idx);
            }
            proof {
                lemma_done_in_turn(scene.syntax, 0, reached, item.char_idx as int);
                lemma_done_in_turn(scene.overlay, 0, reached, item.char_idx as int);
                reached = item.char_idx as int;
            }
            syntax.advance_to(theme, item.char_idx);
            overlay.advance_to(theme, item.char_idx);
            behind.advance_to(item.char_idx);
            above.advance_to(item.char_idx);
            let styles = match item.source {
                GraphemeSource::VirtualText(highlight) => GraphemeStyle {
                    syntax_style: match highlight {
                        Some(highlight) => renderer.text_style.patch(theme.scopes[highlight].style),
                        None => renderer.text_style,
                    },
                    overlay_style: Style::default(),
                },
                GraphemeSource::Document => GraphemeStyle {
                    syntax_style: syntax.style.patch(behind.style),
                    overlay_style: overlay.style.patch(above.style),
                },
            };
            let is_virtual = match item.source {
                GraphemeSource::VirtualText(_) => true,
                GraphemeSource::Document => false,
            };
            let mut level: usize = walk.indent_level;
            let mut in_indent = walk.in_indent;
            renderer.draw_grapheme(
                &item.grapheme,
                styles,
                is_virtual,
                item.is_eof,
                &mut level,
                &mut in_indent,
                Position { row, col: item.visual_pos.col },
            );
            walk.indent_level = level;
            walk.in_indent = in_indent;
            proof {
                let own = item_draws(&entered_renderer, scene, *item);
                assert(styles == styles_of(&entered_renderer, scene, *item));
                assert(renderer.adds(&entered_renderer, own));
                super::decorations::lemma_adds(&before, &entered_renderer, renderer, added, own);
                lemma_same_step(&before, &entered_renderer, scene, old_walk, *item);
                assert(added + own =~= step_draws(&before, scene, old_walk, *item));
                added = added + own;
            }
        }
        proof {
            assert(added == step);
            assert(walk == walked(&first, scene, old_walk, *item));
            super::decorations::lemma_adds(&first, &before, renderer, drawn, added);
            assert((drawn + step) + rest =~= drawn + (step + rest));
            drawn = drawn + step;
            assert(i + 1 < items@.len() ==> items@[i as int].char_idx <= items@[i + 1].char_idx);
            assert(i > 0 ==> items@[i - 1].char_idx <= items@[i as int].char_idx);
        }
        i += 1;
    }
    let ghost end = *renderer;
    leave(renderer, theme, decorations, walk, Ghost(scene));
    proof {
        lemma_same_leave(&first, &end, scene, walk);
        super::decorations::lemma_adds(&first, &end, renderer, drawn, leave_draws(&end, scene, walk));
    }
}

/// Draws the text of a view from where the view stands in it.
pub fn render_document(
    settings: &RenderSettings,
    viewport: Rect,
    offset: ViewPosition,
    items: &Vec<FormattedGrapheme>,
    row_off: usize,
    syntax_highlights: Vec<HighlightStep>,
    overlay_highlights: Vec<HighlightStep>,
    concrete_highlights: &Vec<ConcreteStyleRange>,
    theme: &Theme,
    decorations: &CustomDecorations,
) -> (out: Vec<Draw>)
    requires
        settings.tab_width > 0,
        settings.indent_width > 0,
        viewport.x + viewport.width <= u16::MAX,
        viewport.y + offset.vertical_offset + viewport.height <= u16::MAX,
        offset.horizontal_offset + viewport.width + settings.indent_width + settings.skipped_levels <= usize::MAX,
        in_text_order(items@),
        known_graphemes(*theme, items@),
        known_highlights(*theme, syntax_highlights@),
        known_highlights(*theme, overlay_highlights@),
    ensures
        exists|renderer: TextRenderer| #[trigger]
            renderer.is_new(
                *settings,
                *theme,
                Position { row: offset.vertical_offset, col: offset.horizontal_offset },
                viewport,
            ) && steps(out@) == walk_draws(
                &renderer,
                scene_of(*theme, *decorations, syntax_highlights@, overlay_highlights@, styled(concrete_highlights@), offset.anchor, row_off),
                items@,
                0,
                started(),
            ),
{
    let corner = Position { row: offset.vertical_offset, col: offset.horizontal_offset };
    let mut renderer = TextRenderer::new(settings, theme, corner, viewport);
    let ghost first = renderer;
    render_text(&mut renderer, items, offset.anchor, row_off, syntax_highlights, overlay_highlights, concrete_highlights, theme, decorations);
    proof {
        assert(first.is_new(*settings, *theme, corner, viewport));
        assert(steps(first.draws@) =~= Seq::empty());
        let drawn = walk_draws(
            &first,
            scene_of(*theme, *decorations, syntax_highlights@, overlay_highlights@, styled(concrete_highlights@), offset.anchor, row_off),
            items@,
            0,
            started(),
        );
        assert(Seq::<DrawView>::empty() + drawn =~= drawn);
    }
    renderer.draws
}

} // verus!
