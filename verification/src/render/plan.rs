//! The annotations of a view, sorted out for drawing.

use std::ops::Range;

use vstd::prelude::*;

use super::decorations::{tint, CustomDecorations};
use crate::custom_text::annotations::{
    views, AnnotationsView, BackgroundView, CustomHighlight, CustomHighlightStyle, CustomLineBackground, CustomVirtualLine,
    HighlightStyleView, HighlightView, VirtualLineView,
};
use crate::custom_text::ranges::{all_ends, joined, merge_ranges, ordered, styled, ConcreteStyleRange, StyledRange};
use crate::custom_text::store::NamedAnnotations;
use crate::custom_text::tint::background_style;
use crate::line_map::LineMap;
use crate::theme::{resolved, scope_names, Theme};

verus! {

/// The ranges of a highlight of the theme.
#[derive(Debug)]
pub struct Overlay {
    pub highlight: usize,
    pub ranges: Vec<Range<usize>>,
}

/// What a view shows besides its text.
#[derive(Debug)]
pub struct AnnotationPlan {
    pub overlays: Vec<Overlay>,
    pub concrete: Vec<ConcreteStyleRange>,
    pub decorations: CustomDecorations,
}

/// The contents of a plan. The ranges of its groups are not merged yet.
#[verifier::ext_equal]
pub struct PlanView {
    pub groups: Seq<(int, Seq<(usize, usize)>)>,
    pub concrete: Seq<StyledRange>,
    pub backgrounds: Seq<BackgroundView>,
    pub virtual_lines: Seq<VirtualLineView>,
}

pub open spec fn empty_plan() -> PlanView {
    PlanView {
        groups: Seq::empty(),
        concrete: Seq::empty(),
        backgrounds: Seq::empty(),
        virtual_lines: Seq::empty(),
    }
}

/// The group of a highlight.
pub open spec fn group_of(groups: Seq<(int, Seq<(usize, usize)>)>, highlight: int, from: int) -> Option<int>
    decreases groups.len() - from,
{
    if from < 0 || from >= groups.len() {
        None
    } else if groups[from].0 == highlight {
        Some(from)
    } else {
        group_of(groups, highlight, from + 1)
    }
}

/// The groups with one more range.
pub open spec fn grouped(groups: Seq<(int, Seq<(usize, usize)>)>, highlight: int, range: (usize, usize)) -> Seq<
    (int, Seq<(usize, usize)>),
> {
    match group_of(groups, highlight, 0) {
        Some(i) => groups.update(i, (groups[i].0, groups[i].1.push(range))),
        None => groups.push((highlight, seq![range])),
    }
}

/// The plan with one more highlight. A scope that the theme does not know adds
/// nothing.
pub open spec fn with_highlight(theme: Theme, plan: PlanView, highlight: HighlightView) -> PlanView {
    match highlight.style {
        HighlightStyleView::Scope(scope) => match resolved(scope_names(theme.scopes@), scope) {
            Some(found) => PlanView { groups: grouped(plan.groups, found, (highlight.start, highlight.end)), ..plan },
            None => plan,
        },
        HighlightStyleView::Concrete(style) => PlanView {
            concrete: plan.concrete.push(
                StyledRange { start: highlight.start, end: highlight.end, style, behind_overlays: false },
            ),
            ..plan
        },
    }
}

/// The plan with one more background. A line past the end of the text adds
/// nothing, and an empty one no style.
pub open spec fn with_background(theme: Theme, map: LineMap, plan: PlanView, line: BackgroundView) -> PlanView {
    if line.line >= map.starts@.len() {
        plan
    } else {
        let start = map.start_of(line.line as int);
        let end = map.start_of(line.line + 1);
        PlanView {
            backgrounds: plan.backgrounds.push(line),
            concrete: if start < end {
                plan.concrete.push(
                    StyledRange { start, end, style: tint(theme, line.scope, line.opacity), behind_overlays: true },
                )
            } else {
                plan.concrete
            },
            ..plan
        }
    }
}

pub open spec fn with_highlights(theme: Theme, plan: PlanView, highlights: Seq<HighlightView>, n: int) -> PlanView
    decreases n,
{
    if n <= 0 {
        plan
    } else {
        with_highlight(theme, with_highlights(theme, plan, highlights, n - 1), highlights[n - 1])
    }
}

pub open spec fn with_backgrounds(theme: Theme, map: LineMap, plan: PlanView, lines: Seq<BackgroundView>, n: int) -> PlanView
    decreases n,
{
    if n <= 0 {
        plan
    } else {
        with_background(theme, map, with_backgrounds(theme, map, plan, lines, n - 1), lines[n - 1])
    }
}

/// The plan with the annotations of one more namespace.
pub open spec fn with_namespace(theme: Theme, map: LineMap, plan: PlanView, annotations: AnnotationsView) -> PlanView {
    let highlighted = with_highlights(theme, plan, annotations.highlights, annotations.highlights.len() as int);
    let tinted = with_backgrounds(
        theme,
        map,
        highlighted,
        annotations.line_backgrounds,
        annotations.line_backgrounds.len() as int,
    );
    PlanView { virtual_lines: tinted.virtual_lines + annotations.virtual_lines, ..tinted }
}

/// The plan of the first `n` namespaces.
pub open spec fn plan_of(theme: Theme, map: LineMap, list: Seq<NamedAnnotations>, n: int) -> PlanView
    decreases n,
{
    if n <= 0 {
        empty_plan()
    } else {
        with_namespace(theme, map, plan_of(theme, map, list, n - 1), list[n - 1].annotations@)
    }
}

pub open spec fn groups_view(overlays: Seq<Overlay>) -> Seq<(int, Seq<(usize, usize)>)> {
    Seq::new(overlays.len(), |i: int| (overlays[i].highlight as int, all_ends(overlays[i].ranges@)))
}

impl View for AnnotationPlan {
    type V = PlanView;

    open spec fn view(&self) -> PlanView {
        PlanView {
            groups: groups_view(self.overlays@),
            concrete: styled(self.concrete@),
            backgrounds: views(self.decorations.line_backgrounds@),
            virtual_lines: views(self.decorations.virtual_lines@),
        }
    }
}

/// The groups with their ranges merged.
pub open spec fn merged_groups(groups: Seq<(int, Seq<(usize, usize)>)>) -> Seq<(int, Seq<(usize, usize)>)> {
    Seq::new(groups.len(), |i: int| (groups[i].0, joined(ordered(groups[i].1))))
}

impl AnnotationPlan {
    fn group(&self, highlight: usize) -> (out: Option<usize>)
        ensures
            match out {
                Some(i) => i < self.overlays@.len() && group_of(self@.groups, highlight as int, 0) == Some(i as int),
                None => group_of(self@.groups, highlight as int, 0) is None,
            },
    {
        let ghost groups = self@.groups;
        let mut i: usize = 0;
        while i < self.overlays.len()
            invariant
                i <= self.overlays@.len(),
                groups == groups_view(self.overlays@),
                group_of(groups, highlight as int, 0) == group_of(groups, highlight as int, i as int),
            decreases self.overlays.len() - i,
        {
            if self.overlays[i].highlight == highlight {
                return Some(i);
            }
            i += 1;
        }
        None
    }

    fn add_range(&mut self, highlight: usize, start: usize, end: usize)
        ensures
            final(self)@ == (PlanView { groups: grouped(old(self)@.groups, highlight as int, (start, end)), ..old(self)@ }),
    {
        let ghost before = self.overlays@;
        match self.group(highlight) {
            Some(i) => {
                let ghost ranges = before[i as int].ranges@;
                self.overlays[i].ranges.push(Range { start, end });
                proof {
                    assert(all_ends(self.overlays@[i as int].ranges@) =~= all_ends(ranges).push((start, end)));
                    assert(groups_view(self.overlays@) =~= grouped(groups_view(before), highlight as int, (start, end)));
                }
            },
            None => {
                let mut ranges: Vec<Range<usize>> = Vec::new();
                ranges.push(Range { start, end });
                proof {
                    assert(all_ends(ranges@) =~= seq![(start, end)]);
                }
                self.overlays.push(Overlay { highlight, ranges });
                proof {
                    assert(groups_view(self.overlays@) =~= groups_view(before).push((highlight as int, seq![(start, end)])));
                }
            },
        }
    }

    fn add_concrete(&mut self, item: ConcreteStyleRange)
        ensures
            final(self)@ == (PlanView { concrete: old(self)@.concrete.push(item@), ..old(self)@ }),
    {
        let ghost before = self.concrete@;
        let ghost pushed = item;
        self.concrete.push(item);
        proof {
            assert(styled(self.concrete@) =~= styled(before).push(pushed@));
        }
    }

    fn add_highlight(&mut self, theme: &Theme, highlight: &CustomHighlight)
        ensures
            final(self)@ == with_highlight(*theme, old(self)@, highlight@),
    {
        let start: usize = highlight.range.start;
        let end: usize = highlight.range.end;
        match &highlight.style {
            CustomHighlightStyle::Scope(scope) => {
                if let Some(found) = theme.find_highlight(scope.as_str()) {
                    self.add_range(found, start, end);
                }
            },
            CustomHighlightStyle::Concrete(style) => {
                self.add_concrete(
                    ConcreteStyleRange { range: Range { start, end }, style: *style, behind_overlays: false },
                );
            },
        }
    }

    fn add_background(&mut self, theme: &Theme, map: &LineMap, line: &CustomLineBackground)
        requires
            map.wf(),
        ensures
            final(self)@ == with_background(*theme, *map, old(self)@, line@),
    {
        if line.line >= map.len_lines() {
            return;
        }
        let start: usize = map.line_to_char(line.line);
        let end: usize = map.line_to_char(line.line + 1);
        if start < end {
            let style = background_style(theme, line.scope.as_str(), line.opacity);
            self.add_concrete(ConcreteStyleRange { range: Range { start, end }, style, behind_overlays: true });
        }
        let ghost before = self.decorations.line_backgrounds@;
        let copy = CustomLineBackground { line: line.line, scope: line.scope.clone(), opacity: line.opacity };
        let ghost pushed = copy;
        self.decorations.line_backgrounds.push(copy);
        proof {
            crate::custom_text::annotations::lemma_views_push(before, pushed);
        }
    }

    fn add_namespace(&mut self, theme: &Theme, map: &LineMap, item: &NamedAnnotations)
        requires
            map.wf(),
        ensures
            final(self)@ == with_namespace(*theme, *map, old(self)@, item.annotations@),
    {
        let ghost first = self@;
        let ghost given = item.annotations@;
        let mut i: usize = 0;
        while i < item.annotations.highlights.len()
            invariant
                i <= item.annotations.highlights@.len(),
                given == item.annotations@,
                self@ == with_highlights(*theme, first, given.highlights, i as int),
            decreases item.annotations.highlights.len() - i,
        {
            proof {
                assert(given.highlights[i as int] == item.annotations.highlights@[i as int]@);
            }
            self.add_highlight(theme, &item.annotations.highlights[i]);
            i += 1;
        }
        let ghost highlighted = self@;
        let mut j: usize = 0;
        while j < item.annotations.line_backgrounds.len()
            invariant
                map.wf(),
                j <= item.annotations.line_backgrounds@.len(),
                given == item.annotations@,
                self@ == with_backgrounds(*theme, *map, highlighted, given.line_backgrounds, j as int),
            decreases item.annotations.line_backgrounds.len() - j,
        {
            proof {
                assert(given.line_backgrounds[j as int] == item.annotations.line_backgrounds@[j as int]@);
            }
            self.add_background(theme, map, &item.annotations.line_backgrounds[j]);
            j += 1;
        }
        let ghost tinted = self@;
        let mut k: usize = 0;
        proof {
            assert(tinted.virtual_lines + given.virtual_lines.subrange(0, 0) =~= tinted.virtual_lines);
        }
        while k < item.annotations.virtual_lines.len()
            invariant
                k <= item.annotations.virtual_lines@.len(),
                given == item.annotations@,
                self@ == (PlanView {
                    virtual_lines: tinted.virtual_lines + given.virtual_lines.subrange(0, k as int),
                    ..tinted
                }),
            decreases item.annotations.virtual_lines.len() - k,
        {
            let line = &item.annotations.virtual_lines[k];
            let ghost before = self.decorations.virtual_lines@;
            let copy = CustomVirtualLine {
                line: line.line,
                text: line.text.clone(),
                scope: line.scope.clone(),
                background_opacity: line.background_opacity,
            };
            let ghost pushed = copy;
            self.decorations.virtual_lines.push(copy);
            k += 1;
            proof {
                crate::custom_text::annotations::lemma_views_push(before, pushed);
                let lines = given.virtual_lines;
                assert(pushed@ == lines[k - 1]);
                assert(lines.subrange(0, k as int) =~= lines.subrange(0, k - 1).push(lines[k - 1]));
                assert((tinted.virtual_lines + lines.subrange(0, k - 1)).push(lines[k - 1]) =~= tinted.virtual_lines
                    + lines.subrange(0, k as int));
            }
        }
        proof {
            assert(given.virtual_lines.subrange(0, given.virtual_lines.len() as int) =~= given.virtual_lines);
        }
    }
}

/// Sorts the annotations of a view out for drawing.
pub fn add_custom_text_annotations(list: &Vec<NamedAnnotations>, theme: &Theme, map: &LineMap) -> (out: AnnotationPlan)
    requires
        map.wf(),
    ensures
        ({
            let plan = plan_of(*theme, *map, list@, list@.len() as int);
            out@ == (PlanView { groups: merged_groups(plan.groups), ..plan })
        }),
{
    let mut plan = AnnotationPlan {
        overlays: Vec::new(),
        concrete: Vec::new(),
        decorations: CustomDecorations { line_backgrounds: Vec::new(), virtual_lines: Vec::new() },
    };
    let mut i: usize = 0;
    proof {
        assert(plan@ =~= empty_plan());
    }
    while i < list.len()
        invariant
            map.wf(),
            i <= list@.len(),
            plan@ == plan_of(*theme, *map, list@, i as int),
        decreases list.len() - i,
    {
        plan.add_namespace(theme, map, &list[i]);
        i += 1;
    }
    let ghost groups = plan@.groups;
    let ghost whole = plan@;
    let mut merged: Vec<Overlay> = Vec::new();
    let mut overlays = plan.overlays;
    let ghost given = overlays@;
    let ghost mut k: int = 0;
    proof {
        assert(given.subrange(0, given.len() as int) =~= given);
    }
    while overlays.len() > 0
        invariant
            0 <= k <= given.len(),
            groups == groups_view(given),
            overlays@ == given.subrange(k, given.len() as int),
            groups_view(merged@) == merged_groups(groups).subrange(0, k),
            merged@.len() == k,
        decreases overlays.len(),
    {
        let ghost before = merged@;
        let overlay = overlays.remove(0);
        proof {
            assert(overlay == given[k]);
            assert(overlays@ =~= given.subrange(k + 1, given.len() as int));
            assert(groups[k] == (overlay.highlight as int, all_ends(overlay.ranges@)));
        }
        let highlight: usize = overlay.highlight;
        let ranges = merge_ranges(overlay.ranges);
        merged.push(Overlay { highlight, ranges });
        proof {
            k = k + 1;
            let all = merged_groups(groups);
            assert(all.subrange(0, k) =~= all.subrange(0, k - 1).push(all[k - 1]));
            assert(groups_view(merged@) =~= groups_view(before).push(all[k - 1]));
        }
    }
    let out = AnnotationPlan { overlays: merged, concrete: plan.concrete, decorations: plan.decorations };
    proof {
        assert(merged_groups(groups).subrange(0, k) =~= merged_groups(groups));
        assert(out@ =~= PlanView { groups: merged_groups(groups), ..whole });
    }
    out
}

} // verus!
