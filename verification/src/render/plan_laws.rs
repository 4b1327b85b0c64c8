//! What becomes of the annotations of the namespaces when a view is drawn.

use vstd::prelude::*;

use super::plan::{
    empty_plan, group_of, grouped, merged_groups, plan_of, with_background, with_backgrounds, with_highlight, with_highlights,
    with_namespace, PlanView,
};
use crate::custom_text::annotations::{AnnotationsView, BackgroundView, HighlightStyleView, HighlightView, VirtualLineView};
use crate::custom_text::ranges::{covered, law_merged_ranges_cover_the_same, law_ordered_ranges, ordered, StyledRange};
use crate::custom_text::store::NamedAnnotations;
use crate::custom_text::tint::row_color;
use crate::graphics::Style;
use crate::line_map::LineMap;
use crate::theme::{resolved, scope_names, Theme};

verus! {

/// Whether a range is highlighted in a plan.
pub open spec fn has_range(plan: PlanView, highlight: int, range: (usize, usize)) -> bool {
    exists|g: int| 0 <= g < plan.groups.len() && (#[trigger] plan.groups[g]).0 == highlight && plan.groups[g].1.contains(range)
}

/// Whether an annotation asks for a range to be highlighted.
pub open spec fn asks_for(theme: Theme, highlight: HighlightView, index: int, range: (usize, usize)) -> bool {
    &&& highlight.style is Scope
    &&& resolved(scope_names(theme.scopes@), highlight.style->Scope_0) == Some(index)
    &&& (highlight.start, highlight.end) == range
}

/// The range of a style that a highlight gives.
pub open spec fn own_style(highlight: HighlightView) -> StyledRange {
    StyledRange {
        start: highlight.start,
        end: highlight.end,
        style: highlight.style->Concrete_0,
        behind_overlays: false,
    }
}

/// The range of a style that the background of a line of the text gives.
pub open spec fn row_style(theme: Theme, map: LineMap, line: BackgroundView) -> StyledRange {
    StyledRange {
        start: map.start_of(line.line as int),
        end: map.start_of(line.line + 1),
        style: Style { bg: Some(row_color(theme, line.scope, line.opacity)), ..Style::plain() },
        behind_overlays: true,
    }
}

proof fn lemma_group_of(groups: Seq<(int, Seq<(usize, usize)>)>, highlight: int, from: int)
    requires
        0 <= from <= groups.len(),
    ensures
        group_of(groups, highlight, from) matches Some(g) ==> from <= g < groups.len() && groups[g].0 == highlight,
    decreases groups.len() - from,
{
    if from < groups.len() && groups[from].0 != highlight {
        lemma_group_of(groups, highlight, from + 1);
    }
}

/// The groups gain the range that is added, and nothing else.
proof fn lemma_grouped(plan: PlanView, added: int, range: (usize, usize), highlight: int, other: (usize, usize))
    ensures
        has_range(PlanView { groups: grouped(plan.groups, added, range), ..plan }, highlight, other) <==> has_range(
            plan,
            highlight,
            other,
        ) || highlight == added && other == range,
{
    let groups = plan.groups;
    let next = PlanView { groups: grouped(groups, added, range), ..plan };
    lemma_group_of(groups, added, 0);
    match group_of(groups, added, 0) {
        Some(at) => {
            let longer = groups[at].1.push(range);
            assert(next.groups[at] == (groups[at].0, longer));
            assert(longer.last() == range);
            assert(longer.contains(range));
            if groups[at].1.contains(other) {
                let k = choose|k: int| 0 <= k < groups[at].1.len() && groups[at].1[k] == other;
                assert(longer[k] == other);
            }
            if has_range(plan, highlight, other) {
                let g = choose|g: int| 0 <= g < groups.len() && (#[trigger] groups[g]).0 == highlight && groups[g].1.contains(other);
                assert(next.groups[g].0 == highlight);
                if g == at {
                    assert(longer.contains(other));
                }
                assert(next.groups[g].1.contains(other));
            }
            if has_range(next, highlight, other) {
                let g = choose|g: int|
                    0 <= g < next.groups.len() && (#[trigger] next.groups[g]).0 == highlight && next.groups[g].1.contains(other);
                if g == at {
                    let k = choose|k: int| 0 <= k < longer.len() && longer[k] == other;
                    if k < groups[at].1.len() {
                        assert(groups[at].1[k] == other);
                        assert(groups[at].0 == highlight && groups[at].1.contains(other));
                    }
                } else {
                    assert(groups[g] == next.groups[g]);
                }
            }
        },
        None => {
            let own = (added, seq![range]);
            assert(next.groups == groups.push(own));
            assert(next.groups[groups.len() as int] == own);
            assert(own.1[0] == range);
            assert(own.1.contains(range));
            if has_range(plan, highlight, other) {
                let g = choose|g: int| 0 <= g < groups.len() && (#[trigger] groups[g]).0 == highlight && groups[g].1.contains(other);
                assert(next.groups[g] == groups[g]);
            }
            if has_range(next, highlight, other) {
                let g = choose|g: int|
                    0 <= g < next.groups.len() && (#[trigger] next.groups[g]).0 == highlight && next.groups[g].1.contains(other);
                if g < groups.len() {
                    assert(next.groups[g] == groups[g]);
                } else {
                    let k = choose|k: int| 0 <= k < own.1.len() && own.1[k] == other;
                    assert(k == 0);
                }
            }
        },
    }
}

/// A highlight by a scope that the theme knows adds its range under the style of
/// the scope, one by a style adds its range with that style, and neither touches
/// anything else.
pub proof fn law_a_highlight_adds_its_range(theme: Theme, plan: PlanView, added: HighlightView, index: int, range: (usize, usize))
    ensures
        ({
            let next = with_highlight(theme, plan, added);
            &&& has_range(next, index, range) <==> has_range(plan, index, range) || asks_for(theme, added, index, range)
            &&& added.style is Concrete ==> next.concrete == plan.concrete.push(own_style(added))
            &&& added.style is Scope ==> next.concrete == plan.concrete
            &&& next.backgrounds == plan.backgrounds
            &&& next.virtual_lines == plan.virtual_lines
        }),
{
    match added.style {
        HighlightStyleView::Scope(scope) => {
            if let Some(found) = resolved(scope_names(theme.scopes@), scope) {
                lemma_grouped(plan, found, (added.start, added.end), index, range);
            }
        },
        HighlightStyleView::Concrete(style) => {
            let next = with_highlight(theme, plan, added);
            assert(next.groups == plan.groups);
        },
    }
}

/// A background of a line of the text is kept and colors the text of its line;
/// one of a line past the end adds nothing.
pub proof fn law_a_background_colors_its_line(theme: Theme, map: LineMap, plan: PlanView, added: BackgroundView)
    ensures
        ({
            let next = with_background(theme, map, plan, added);
            &&& next.backgrounds == (if added.line < map.starts@.len() {
                plan.backgrounds.push(added)
            } else {
                plan.backgrounds
            })
            &&& next.concrete == (if added.line < map.starts@.len() && map.start_of(added.line as int) < map.start_of(
                added.line + 1,
            ) {
                plan.concrete.push(row_style(theme, map, added))
            } else {
                plan.concrete
            })
            &&& next.groups == plan.groups
            &&& next.virtual_lines == plan.virtual_lines
        }),
{
}

/// Whether one of the first `n` highlights asks for a range.
pub open spec fn asked_among(theme: Theme, highlights: Seq<HighlightView>, n: int, index: int, range: (usize, usize)) -> bool {
    exists|k: int| 0 <= k < n && asks_for(theme, #[trigger] highlights[k], index, range)
}

/// Whether one of the first `n` highlights gives a styled range.
pub open spec fn styled_among(highlights: Seq<HighlightView>, n: int, range: StyledRange) -> bool {
    exists|k: int| 0 <= k < n && (#[trigger] highlights[k]).style is Concrete && own_style(highlights[k]) == range
}

/// Whether one of the first `n` backgrounds colors a line of the text by a
/// styled range.
pub open spec fn colored_among(theme: Theme, map: LineMap, lines: Seq<BackgroundView>, n: int, range: StyledRange) -> bool {
    exists|k: int|
        0 <= k < n && (#[trigger] lines[k]).line < map.starts@.len() && map.start_of(lines[k].line as int) < map.start_of(
            lines[k].line + 1,
        ) && row_style(theme, map, lines[k]) == range
}

/// Whether one of the first `n` backgrounds is this one, on a line of the text.
pub open spec fn backed_among(map: LineMap, lines: Seq<BackgroundView>, n: int, line: BackgroundView) -> bool {
    exists|k: int| 0 <= k < n && #[trigger] lines[k] == line && line.line < map.starts@.len()
}

proof fn lemma_push_contains<T>(list: Seq<T>, added: T, one: T)
    ensures
        list.push(added).contains(one) <==> list.contains(one) || one == added,
{
    let longer = list.push(added);
    assert(longer.last() == added);
    if list.contains(one) {
        let k = choose|k: int| 0 <= k < list.len() && list[k] == one;
        assert(longer[k] == one);
    }
    if longer.contains(one) {
        let k = choose|k: int| 0 <= k < longer.len() && longer[k] == one;
        if k < list.len() {
            assert(list[k] == one);
        }
    }
}

proof fn lemma_append_contains<T>(list: Seq<T>, more: Seq<T>, one: T)
    ensures
        (list + more).contains(one) <==> list.contains(one) || more.contains(one),
{
    let longer = list + more;
    if list.contains(one) {
        let k = choose|k: int| 0 <= k < list.len() && list[k] == one;
        assert(longer[k] == one);
    }
    if more.contains(one) {
        let k = choose|k: int| 0 <= k < more.len() && more[k] == one;
        assert(longer[list.len() + k] == one);
    }
    if longer.contains(one) {
        let k = choose|k: int| 0 <= k < longer.len() && longer[k] == one;
        if k < list.len() {
            assert(list[k] == one);
        } else {
            assert(more[k - list.len()] == one);
        }
    }
}

proof fn lemma_highlights(
    theme: Theme,
    plan: PlanView,
    highlights: Seq<HighlightView>,
    n: int,
    index: int,
    range: (usize, usize),
    one: StyledRange,
)
    requires
        0 <= n <= highlights.len(),
    ensures
        ({
            let next = with_highlights(theme, plan, highlights, n);
            &&& has_range(next, index, range) <==> has_range(plan, index, range) || asked_among(theme, highlights, n, index, range)
            &&& next.concrete.contains(one) <==> plan.concrete.contains(one) || styled_among(highlights, n, one)
            &&& next.backgrounds == plan.backgrounds
            &&& next.virtual_lines == plan.virtual_lines
        }),
    decreases n,
{
    if n > 0 {
        lemma_highlights(theme, plan, highlights, n - 1, index, range, one);
        let before = with_highlights(theme, plan, highlights, n - 1);
        let added = highlights[n - 1];
        law_a_highlight_adds_its_range(theme, before, added, index, range);
        lemma_push_contains(before.concrete, own_style(added), one);
        assert(asked_among(theme, highlights, n, index, range) <==> asked_among(theme, highlights, n - 1, index, range) || asks_for(
            theme,
            added,
            index,
            range,
        )) by {
            if asked_among(theme, highlights, n - 1, index, range) {
                let k = choose|k: int| 0 <= k < n - 1 && asks_for(theme, #[trigger] highlights[k], index, range);
                assert(0 <= k < n && asks_for(theme, highlights[k], index, range));
            }
        }
        assert(styled_among(highlights, n, one) <==> styled_among(highlights, n - 1, one) || added.style is Concrete && own_style(
            added,
        ) == one) by {
            if styled_among(highlights, n - 1, one) {
                let k = choose|k: int|
                    0 <= k < n - 1 && (#[trigger] highlights[k]).style is Concrete && own_style(highlights[k]) == one;
                assert(0 <= k < n && highlights[k].style is Concrete);
            }
        }
    }
}

proof fn lemma_backgrounds(
    theme: Theme,
    map: LineMap,
    plan: PlanView,
    lines: Seq<BackgroundView>,
    n: int,
    line: BackgroundView,
    one: StyledRange,
)
    requires
        0 <= n <= lines.len(),
    ensures
        ({
            let next = with_backgrounds(theme, map, plan, lines, n);
            &&& next.backgrounds.contains(line) <==> plan.backgrounds.contains(line) || backed_among(map, lines, n, line)
            &&& next.concrete.contains(one) <==> plan.concrete.contains(one) || colored_among(theme, map, lines, n, one)
            &&& next.groups == plan.groups
            &&& next.virtual_lines == plan.virtual_lines
        }),
    decreases n,
{
    if n > 0 {
        lemma_backgrounds(theme, map, plan, lines, n - 1, line, one);
        let before = with_backgrounds(theme, map, plan, lines, n - 1);
        let added = lines[n - 1];
        law_a_background_colors_its_line(theme, map, before, added);
        lemma_push_contains(before.concrete, row_style(theme, map, added), one);
        lemma_push_contains(before.backgrounds, added, line);
        assert(backed_among(map, lines, n, line) <==> backed_among(map, lines, n - 1, line) || added == line && line.line
            < map.starts@.len()) by {
            if backed_among(map, lines, n - 1, line) {
                let k = choose|k: int| 0 <= k < n - 1 && #[trigger] lines[k] == line && line.line < map.starts@.len();
                assert(0 <= k < n && lines[k] == line);
            }
        }
        let colors = added.line < map.starts@.len() && map.start_of(added.line as int) < map.start_of(added.line + 1) && row_style(
            theme,
            map,
            added,
        ) == one;
        assert(colored_among(theme, map, lines, n, one) <==> colored_among(theme, map, lines, n - 1, one) || colors) by {
            if colored_among(theme, map, lines, n - 1, one) {
                let k = choose|k: int|
                    0 <= k < n - 1 && (#[trigger] lines[k]).line < map.starts@.len() && map.start_of(lines[k].line as int)
                        < map.start_of(lines[k].line + 1) && row_style(theme, map, lines[k]) == one;
                assert(0 <= k < n && lines[k].line < map.starts@.len());
            }
            if colors {
                assert(lines[n - 1].line < map.starts@.len());
            }
        }
    }
}

/// What one namespace adds to a plan: the range of each highlight by a known
/// scope, the styled range of each highlight by a style and of each background,
/// each background of a line of the text, and every virtual line; and nothing
/// else.
pub proof fn law_a_namespace_adds_its_annotations(
    theme: Theme,
    map: LineMap,
    plan: PlanView,
    given: AnnotationsView,
    index: int,
    range: (usize, usize),
    one: StyledRange,
    line: BackgroundView,
)
    ensures
        ({
            let next = with_namespace(theme, map, plan, given);
            &&& has_range(next, index, range) <==> has_range(plan, index, range) || asked_among(
                theme,
                given.highlights,
                given.highlights.len() as int,
                index,
                range,
            )
            &&& next.concrete.contains(one) <==> plan.concrete.contains(one) || styled_among(
                given.highlights,
                given.highlights.len() as int,
                one,
            ) || colored_among(theme, map, given.line_backgrounds, given.line_backgrounds.len() as int, one)
            &&& next.backgrounds.contains(line) <==> plan.backgrounds.contains(line) || backed_among(
                map,
                given.line_backgrounds,
                given.line_backgrounds.len() as int,
                line,
            )
            &&& next.virtual_lines == plan.virtual_lines + given.virtual_lines
        }),
{
    let highlighted = with_highlights(theme, plan, given.highlights, given.highlights.len() as int);
    lemma_highlights(theme, plan, given.highlights, given.highlights.len() as int, index, range, one);
    lemma_backgrounds(theme, map, highlighted, given.line_backgrounds, given.line_backgrounds.len() as int, line, one);
    let next = with_namespace(theme, map, plan, given);
    assert(next.groups == highlighted.groups);
}

/// The plan of a view shows every virtual line of every namespace, and no other.
pub proof fn law_every_virtual_line_is_planned(
    theme: Theme,
    map: LineMap,
    list: Seq<NamedAnnotations>,
    n: int,
    line: VirtualLineView,
)
    requires
        0 <= n <= list.len(),
    ensures
        plan_of(theme, map, list, n).virtual_lines.contains(line) <==> exists|k: int|
            0 <= k < n && (#[trigger] list[k]).annotations@.virtual_lines.contains(line),
    decreases n,
{
    if n > 0 {
        law_every_virtual_line_is_planned(theme, map, list, n - 1, line);
        let before = plan_of(theme, map, list, n - 1);
        let given = list[n - 1].annotations@;
        law_a_namespace_adds_its_annotations(
            theme,
            map,
            before,
            given,
            0,
            (0, 0),
            arbitrary(),
            arbitrary(),
        );
        lemma_append_contains(before.virtual_lines, given.virtual_lines, line);
        if before.virtual_lines.contains(line) {
            let k = choose|k: int| 0 <= k < n - 1 && (#[trigger] list[k]).annotations@.virtual_lines.contains(line);
            assert(0 <= k < n && list[k].annotations@.virtual_lines.contains(line));
        }
        if given.virtual_lines.contains(line) {
            assert(list[n - 1].annotations@.virtual_lines.contains(line));
        }
    } else {
        assert(empty_plan().virtual_lines.len() == 0);
    }
}

/// The plan of a view has every background of every namespace that stands on a
/// line of the text, and no other.
pub proof fn law_every_background_is_planned(
    theme: Theme,
    map: LineMap,
    list: Seq<NamedAnnotations>,
    n: int,
    line: BackgroundView,
)
    requires
        0 <= n <= list.len(),
    ensures
        plan_of(theme, map, list, n).backgrounds.contains(line) <==> exists|k: int|
            0 <= k < n && backed_among(
                map,
                (#[trigger] list[k]).annotations@.line_backgrounds,
                list[k].annotations@.line_backgrounds.len() as int,
                line,
            ),
    decreases n,
{
    if n > 0 {
        law_every_background_is_planned(theme, map, list, n - 1, line);
        let before = plan_of(theme, map, list, n - 1);
        let given = list[n - 1].annotations@;
        law_a_namespace_adds_its_annotations(theme, map, before, given, 0, (0, 0), arbitrary(), line);
        if before.backgrounds.contains(line) {
            let k = choose|k: int|
                0 <= k < n - 1 && backed_among(
                    map,
                    (#[trigger] list[k]).annotations@.line_backgrounds,
                    list[k].annotations@.line_backgrounds.len() as int,
                    line,
                );
            assert(0 <= k < n && list[k].annotations@ == list[k].annotations@);
        }
        if backed_among(map, given.line_backgrounds, given.line_backgrounds.len() as int, line) {
            assert(list[n - 1].annotations@ == given);
        }
    } else {
        assert(empty_plan().backgrounds.len() == 0);
    }
}

/// The plan of a view highlights exactly the ranges that a highlight of one of
/// the namespaces asks for, each under the style of its scope.
pub proof fn law_every_highlight_is_planned(
    theme: Theme,
    map: LineMap,
    list: Seq<NamedAnnotations>,
    n: int,
    index: int,
    range: (usize, usize),
)
    requires
        0 <= n <= list.len(),
    ensures
        has_range(plan_of(theme, map, list, n), index, range) <==> exists|k: int|
            0 <= k < n && asked_among(
                theme,
                (#[trigger] list[k]).annotations@.highlights,
                list[k].annotations@.highlights.len() as int,
                index,
                range,
            ),
    decreases n,
{
    if n > 0 {
        law_every_highlight_is_planned(theme, map, list, n - 1, index, range);
        let before = plan_of(theme, map, list, n - 1);
        let given = list[n - 1].annotations@;
        law_a_namespace_adds_its_annotations(theme, map, before, given, index, range, arbitrary(), arbitrary());
        if has_range(before, index, range) {
            let k = choose|k: int|
                0 <= k < n - 1 && asked_among(
                    theme,
                    (#[trigger] list[k]).annotations@.highlights,
                    list[k].annotations@.highlights.len() as int,
                    index,
                    range,
                );
            assert(0 <= k < n && list[k].annotations@ == list[k].annotations@);
        }
        if asked_among(theme, given.highlights, given.highlights.len() as int, index, range) {
            assert(list[n - 1].annotations@ == given);
        }
    } else {
        assert(empty_plan().groups.len() == 0);
    }
}

/// The plan of a view has exactly the styled ranges that a highlight by a style
/// or a background of one of the namespaces gives.
pub proof fn law_every_style_is_planned(theme: Theme, map: LineMap, list: Seq<NamedAnnotations>, n: int, one: StyledRange)
    requires
        0 <= n <= list.len(),
    ensures
        plan_of(theme, map, list, n).concrete.contains(one) <==> exists|k: int|
            0 <= k < n && gives_style(theme, map, (#[trigger] list[k]).annotations@, one),
    decreases n,
{
    if n > 0 {
        law_every_style_is_planned(theme, map, list, n - 1, one);
        let before = plan_of(theme, map, list, n - 1);
        let given = list[n - 1].annotations@;
        law_a_namespace_adds_its_annotations(theme, map, before, given, 0, (0, 0), one, arbitrary());
        if before.concrete.contains(one) {
            let k = choose|k: int| 0 <= k < n - 1 && gives_style(theme, map, (#[trigger] list[k]).annotations@, one);
            assert(0 <= k < n && gives_style(theme, map, list[k].annotations@, one));
        }
        if gives_style(theme, map, given, one) {
            assert(gives_style(theme, map, list[n - 1].annotations@, one));
        }
    } else {
        assert(empty_plan().concrete.len() == 0);
    }
}

/// Whether annotations give a styled range.
pub open spec fn gives_style(theme: Theme, map: LineMap, given: AnnotationsView, one: StyledRange) -> bool {
    ||| styled_among(given.highlights, given.highlights.len() as int, one)
    ||| colored_among(theme, map, given.line_backgrounds, given.line_backgrounds.len() as int, one)
}

/// Merging the ranges of the groups keeps the groups and what they highlight.
pub proof fn law_merged_groups_highlight_the_same(groups: Seq<(int, Seq<(usize, usize)>)>, g: int, position: int)
    requires
        0 <= g < groups.len(),
        forall|i: int| 0 <= i < groups[g].1.len() ==> (#[trigger] groups[g].1[i]).0 <= groups[g].1[i].1,
    ensures
        merged_groups(groups).len() == groups.len(),
        merged_groups(groups)[g].0 == groups[g].0,
        covered(merged_groups(groups)[g].1, position) <==> covered(groups[g].1, position),
{
    let ranges = groups[g].1;
    let sorted = ordered(ranges);
    law_ordered_ranges(ranges);
    assert(covered(sorted, position) == covered(ranges, position));
    assert forall|i: int| 0 <= i < sorted.len() implies (#[trigger] sorted[i]).0 <= sorted[i].1 by {
        broadcast use vstd::seq_lib::group_to_multiset_ensures;

        assert(sorted.contains(sorted[i]));
        assert(sorted.to_multiset().count(sorted[i]) > 0);
        assert(ranges.contains(sorted[i]));
        let k = choose|k: int| 0 <= k < ranges.len() && ranges[k] == sorted[i];
        assert(groups[g].1[k] == sorted[i]);
    }
    law_merged_ranges_cover_the_same(sorted, position);
}

} // verus!
