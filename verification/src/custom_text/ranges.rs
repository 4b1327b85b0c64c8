//! Ranges of characters, merged or carrying styles.

use std::ops::Range;

use vstd::prelude::*;

use crate::graphics::Style;

verus! {

/// The start and the end of a range.
pub open spec fn ends(range: Range<usize>) -> (usize, usize) {
    (range.start, range.end)
}

pub open spec fn all_ends(ranges: Seq<Range<usize>>) -> Seq<(usize, usize)> {
    Seq::new(ranges.len(), |i: int| ends(ranges[i]))
}

/// Whether a range comes before another one by its start and then by its end.
pub open spec fn comes_before(a: (usize, usize), b: (usize, usize)) -> bool {
    a.0 < b.0 || a.0 == b.0 && a.1 < b.1
}

/// Where a range goes in an ordered list: after all that do not come later.
pub open spec fn place_for(sorted: Seq<(usize, usize)>, range: (usize, usize)) -> int
    decreases sorted.len(),
{
    if sorted.len() == 0 {
        0
    } else if comes_before(range, sorted.last()) {
        place_for(sorted.drop_last(), range)
    } else {
        sorted.len() as int
    }
}

/// The ranges in the order of their starts and then of their ends.
pub open spec fn ordered(ranges: Seq<(usize, usize)>) -> Seq<(usize, usize)>
    decreases ranges.len(),
{
    if ranges.len() == 0 {
        Seq::empty()
    } else {
        let rest = ordered(ranges.drop_last());
        rest.insert(place_for(rest, ranges.last()), ranges.last())
    }
}

/// Whether the ranges are in the order of their starts and then of their ends.
pub open spec fn is_ordered(ranges: Seq<(usize, usize)>) -> bool {
    forall|i: int, j: int| 0 <= i < j < ranges.len() ==> !comes_before(#[trigger] ranges[j], #[trigger] ranges[i])
}

/// The ranges, each joined to the one before it where they touch.
pub open spec fn joined(ranges: Seq<(usize, usize)>) -> Seq<(usize, usize)>
    decreases ranges.len(),
{
    if ranges.len() == 0 {
        Seq::empty()
    } else {
        let before = joined(ranges.drop_last());
        let last = ranges.last();
        if before.len() > 0 && last.0 <= before.last().1 {
            before.drop_last().push(
                (
                    before.last().0,
                    if before.last().1 < last.1 {
                        last.1
                    } else {
                        before.last().1
                    },
                ),
            )
        } else {
            before.push(last)
        }
    }
}

/// Whether one of the ranges holds a position.
pub open spec fn covered(ranges: Seq<(usize, usize)>, position: int) -> bool {
    exists|i: int| 0 <= i < ranges.len() && holds(#[trigger] ranges[i], position)
}

pub open spec fn holds(range: (usize, usize), position: int) -> bool {
    range.0 <= position < range.1
}

proof fn lemma_place_for(sorted: Seq<(usize, usize)>, range: (usize, usize))
    ensures
        0 <= place_for(sorted, range) <= sorted.len(),
        forall|i: int| place_for(sorted, range) <= i < sorted.len() ==> comes_before(range, #[trigger] sorted[i]),
        place_for(sorted, range) > 0 ==> !comes_before(range, sorted[place_for(sorted, range) - 1]),
    decreases sorted.len(),
{
    if sorted.len() > 0 && comes_before(range, sorted.last()) {
        let rest = sorted.drop_last();
        lemma_place_for(rest, range);
        assert forall|i: int| place_for(sorted, range) <= i < sorted.len() implies comes_before(range, #[trigger] sorted[i]) by {
            if i < rest.len() {
                assert(rest[i] == sorted[i]);
            }
        }
    }
}

/// Ordering gives the same ranges, in order.
pub proof fn law_ordered_ranges(ranges: Seq<(usize, usize)>)
    ensures
        ordered(ranges).len() == ranges.len(),
        is_ordered(ordered(ranges)),
        ordered(ranges).to_multiset() == ranges.to_multiset(),
        forall|position: int| #[trigger] covered(ordered(ranges), position) == covered(ranges, position),
    decreases ranges.len(),
{
    broadcast use vstd::seq_lib::group_to_multiset_ensures;

    if ranges.len() > 0 {
        let rest = ranges.drop_last();
        law_ordered_ranges(rest);
        let sorted = ordered(rest);
        let last = ranges.last();
        let at = place_for(sorted, last);
        lemma_place_for(sorted, last);
        let out = sorted.insert(at, last);
        assert(ranges =~= rest.push(last));
        assert(out.to_multiset() =~= sorted.to_multiset().insert(last));
        assert forall|i: int, j: int| 0 <= i < j < out.len() implies !comes_before(#[trigger] out[j], #[trigger] out[i]) by {
            let a = if i < at {
                i
            } else {
                i - 1
            };
            let b = if j < at {
                j
            } else {
                j - 1
            };
            if i != at && j != at {
                assert(out[i] == sorted[a] && out[j] == sorted[b]);
            } else if i == at {
                assert(out[j] == sorted[b]);
            } else {
                assert(out[i] == sorted[i]);
                if i < at - 1 {
                    assert(!comes_before(sorted[at - 1], sorted[i]));
                }
            }
        }
        assert forall|position: int| #[trigger] covered(ordered(ranges), position) == covered(ranges, position) by {
            assert(covered(sorted, position) == covered(rest, position));
            if covered(ranges, position) {
                let i = choose|i: int| 0 <= i < ranges.len() && holds(#[trigger] ranges[i], position);
                if i < rest.len() {
                    assert(holds(rest[i], position));
                    let k = choose|k: int| 0 <= k < sorted.len() && holds(#[trigger] sorted[k], position);
                    assert(holds(
                        out[if k < at {
                            k
                        } else {
                            k + 1
                        }],
                        position,
                    ));
                } else {
                    assert(holds(out[at], position));
                }
            }
            if covered(out, position) {
                let i = choose|i: int| 0 <= i < out.len() && holds(#[trigger] out[i], position);
                if i == at {
                    assert(holds(ranges[ranges.len() - 1], position));
                } else {
                    assert(holds(
                        sorted[if i < at {
                            i
                        } else {
                            i - 1
                        }],
                        position,
                    ));
                    let k = choose|k: int| 0 <= k < rest.len() && holds(#[trigger] rest[k], position);
                    assert(holds(ranges[k], position));
                }
            }
        }
    }
}

/// Merged ranges cover what the ranges cover.
pub proof fn law_merged_ranges_cover_the_same(ranges: Seq<(usize, usize)>, position: int)
    requires
        is_ordered(ranges),
        forall|i: int| 0 <= i < ranges.len() ==> (#[trigger] ranges[i]).0 <= ranges[i].1,
    ensures
        covered(joined(ranges), position) == covered(ranges, position),
        ranges.len() > 0 ==> joined(ranges).len() > 0 && joined(ranges).last().0 <= ranges.last().0,
    decreases ranges.len(),
{
    if ranges.len() > 0 {
        let rest = ranges.drop_last();
        assert forall|i: int, j: int| 0 <= i < j < rest.len() implies !comes_before(#[trigger] rest[j], #[trigger] rest[i]) by {
            assert(!comes_before(ranges[j], ranges[i]));
        }
        law_merged_ranges_cover_the_same(rest, position);
        let before = joined(rest);
        let last = ranges.last();
        let out = joined(ranges);
        if rest.len() > 0 {
            assert(!comes_before(ranges[ranges.len() - 1], ranges[rest.len() - 1]));
            assert(rest.last() == ranges[rest.len() - 1]);
        }
        if covered(ranges, position) {
            let i = choose|i: int| 0 <= i < ranges.len() && holds(#[trigger] ranges[i], position);
            if i < rest.len() {
                assert(holds(rest[i], position));
                let k = choose|k: int| 0 <= k < before.len() && holds(#[trigger] before[k], position);
                assert(holds(out[k], position));
            } else {
                assert(holds(out[out.len() - 1], position));
            }
        }
        if covered(out, position) {
            let i = choose|i: int| 0 <= i < out.len() && holds(#[trigger] out[i], position);
            if i < out.len() - 1 {
                assert(holds(before[i], position));
                let k = choose|k: int| 0 <= k < rest.len() && holds(#[trigger] rest[k], position);
                assert(holds(ranges[k], position));
            } else if holds(last, position) {
                assert(holds(ranges[ranges.len() - 1], position));
            } else {
                assert(holds(before[before.len() - 1], position));
                let k = choose|k: int| 0 <= k < rest.len() && holds(#[trigger] rest[k], position);
                assert(holds(ranges[k], position));
            }
        }
    }
}

/// Merged ranges are in order and do not touch.
pub proof fn law_merged_ranges_are_apart(ranges: Seq<(usize, usize)>)
    requires
        is_ordered(ranges),
        forall|i: int| 0 <= i < ranges.len() ==> (#[trigger] ranges[i]).0 <= ranges[i].1,
    ensures
        forall|i: int| 0 <= i < joined(ranges).len() ==> (#[trigger] joined(ranges)[i]).0 <= joined(ranges)[i].1,
        forall|i: int, j: int|
            0 <= i < j < joined(ranges).len() ==> (#[trigger] joined(ranges)[i]).1 < (#[trigger] joined(ranges)[j]).0,
    decreases ranges.len(),
{
    if ranges.len() > 0 {
        let rest = ranges.drop_last();
        assert forall|i: int, j: int| 0 <= i < j < rest.len() implies !comes_before(#[trigger] rest[j], #[trigger] rest[i]) by {
            assert(!comes_before(ranges[j], ranges[i]));
        }
        law_merged_ranges_are_apart(rest);
        let before = joined(rest);
        let out = joined(ranges);
        assert forall|i: int, j: int| 0 <= i < j < out.len() implies (#[trigger] out[i]).1 < (#[trigger] out[j]).0 by {
            if j < before.len() {
                assert(before[i].1 < before[j].0);
                assert(out[i] == before[i]);
            } else if i < before.len() - 1 {
                assert(before[i].1 < before[before.len() - 1].0);
            }
        }
    }
}

fn place_range(sorted: &Vec<Range<usize>>, range: &Range<usize>) -> (out: usize)
    ensures
        out == place_for(all_ends(sorted@), ends(*range)),
        out <= sorted@.len(),
{
    let ghost all = all_ends(sorted@);
    let mut at: usize = sorted.len();
    proof {
        assert(all.subrange(0, at as int) =~= all);
    }
    while at > 0 && (range.start < sorted[at - 1].start || range.start == sorted[at - 1].start && range.end < sorted[at
        - 1].end)
        invariant
            at <= sorted@.len(),
            all == all_ends(sorted@),
            place_for(all, ends(*range)) == place_for(all.subrange(0, at as int), ends(*range)),
        decreases at,
    {
        at -= 1;
        proof {
            assert(all.subrange(0, at + 1).drop_last() =~= all.subrange(0, at as int));
            assert(all.subrange(0, at + 1).last() == ends(sorted@[at as int]));
        }
    }
    proof {
        if at > 0 {
            assert(all.subrange(0, at as int).last() == ends(sorted@[at - 1]));
        }
    }
    at
}

fn order_ranges(ranges: &Vec<Range<usize>>) -> (out: Vec<Range<usize>>)
    ensures
        all_ends(out@) == ordered(all_ends(ranges@)),
{
    let ghost all = all_ends(ranges@);
    let mut out: Vec<Range<usize>> = Vec::new();
    let mut i: usize = 0;
    proof {
        assert(all.subrange(0, 0) =~= Seq::<(usize, usize)>::empty());
        assert(all_ends(out@) =~= Seq::<(usize, usize)>::empty());
    }
    while i < ranges.len()
        invariant
            i <= ranges@.len(),
            all == all_ends(ranges@),
            all_ends(out@) == ordered(all.subrange(0, i as int)),
        decreases ranges.len() - i,
    {
        let ghost sorted = all_ends(out@);
        let range = Range { start: ranges[i].start, end: ranges[i].end };
        let at: usize = place_range(&out, &range);
        out.insert(at, range);
        i += 1;
        proof {
            assert(all_ends(out@) =~= sorted.insert(at as int, all[i - 1]));
            assert(all.subrange(0, i as int).drop_last() =~= all.subrange(0, i - 1));
        }
    }
    proof {
        assert(all.subrange(0, all.len() as int) =~= all);
    }
    out
}

/// The ranges in order, with those that overlap or touch made one.
pub fn merge_ranges(ranges: Vec<Range<usize>>) -> (out: Vec<Range<usize>>)
    ensures
        all_ends(out@) == joined(ordered(all_ends(ranges@))),
{
    let sorted = order_ranges(&ranges);
    let ghost all = all_ends(sorted@);
    let mut merged: Vec<Range<usize>> = Vec::new();
    let mut i: usize = 0;
    proof {
        assert(all.subrange(0, 0) =~= Seq::<(usize, usize)>::empty());
        assert(all_ends(merged@) =~= Seq::<(usize, usize)>::empty());
    }
    while i < sorted.len()
        invariant
            i <= sorted@.len(),
            all == all_ends(sorted@),
            all_ends(merged@) == joined(all.subrange(0, i as int)),
        decreases sorted.len() - i,
    {
        let ghost before = all_ends(merged@);
        let start: usize = sorted[i].start;
        let end: usize = sorted[i].end;
        let count: usize = merged.len();
        proof {
            assert(all.subrange(0, i + 1).drop_last() =~= all.subrange(0, i as int));
            assert(all.subrange(0, i + 1).last() == (start, end));
            if count > 0 {
                assert(before.last() == ends(merged@[count - 1]));
            }
        }
        if count > 0 && start <= merged[count - 1].end {
            let first: usize = merged[count - 1].start;
            let last: usize = if merged[count - 1].end < end {
                end
            } else {
                merged[count - 1].end
            };
            merged.set(count - 1, Range { start: first, end: last });
            proof {
                assert(all_ends(merged@) =~= before.drop_last().push((first, last)));
            }
        } else {
            merged.push(Range { start, end });
            proof {
                assert(all_ends(merged@) =~= before.push((start, end)));
            }
        }
        i += 1;
    }
    proof {
        assert(all.subrange(0, all.len() as int) =~= all);
    }
    merged
}

/// A range of characters with a style.
#[derive(Debug)]
pub struct ConcreteStyleRange {
    pub range: Range<usize>,
    pub style: Style,
    pub behind_overlays: bool,
}

/// The contents of a [`ConcreteStyleRange`].
pub struct StyledRange {
    pub start: usize,
    pub end: usize,
    pub style: Style,
    pub behind_overlays: bool,
}

impl View for ConcreteStyleRange {
    type V = StyledRange;

    open spec fn view(&self) -> StyledRange {
        StyledRange {
            start: self.range.start,
            end: self.range.end,
            style: self.style,
            behind_overlays: self.behind_overlays,
        }
    }
}

pub open spec fn styled(ranges: Seq<ConcreteStyleRange>) -> Seq<StyledRange> {
    Seq::new(ranges.len(), |i: int| ranges[i]@)
}

pub open spec fn styled_ends(ranges: Seq<StyledRange>) -> Seq<(usize, usize)> {
    Seq::new(ranges.len(), |i: int| (ranges[i].start, ranges[i].end))
}

/// The ranges in the order of their starts and ends; equal ones stay in the
/// order in which they were given.
pub open spec fn ordered_styles(ranges: Seq<StyledRange>) -> Seq<StyledRange>
    decreases ranges.len(),
{
    if ranges.len() == 0 {
        Seq::empty()
    } else {
        let rest = ordered_styles(ranges.drop_last());
        let last = ranges.last();
        rest.insert(place_for(styled_ends(rest), (last.start, last.end)), last)
    }
}

proof fn lemma_ordered_styles(ranges: Seq<StyledRange>)
    ensures
        styled_ends(ordered_styles(ranges)) == ordered(styled_ends(ranges)),
        ordered_styles(ranges).len() == ranges.len(),
    decreases ranges.len(),
{
    if ranges.len() > 0 {
        let rest = ranges.drop_last();
        lemma_ordered_styles(rest);
        let sorted = ordered_styles(rest);
        let last = ranges.last();
        lemma_place_for(styled_ends(sorted), (last.start, last.end));
        let at = place_for(styled_ends(sorted), (last.start, last.end));
        assert(styled_ends(ranges).drop_last() =~= styled_ends(rest));
        assert(styled_ends(sorted.insert(at, last)) =~= styled_ends(sorted).insert(at, (last.start, last.end)));
    } else {
        assert(styled_ends(ranges) =~= Seq::<(usize, usize)>::empty());
        assert(styled_ends(ordered_styles(ranges)) =~= Seq::<(usize, usize)>::empty());
    }
}

/// The styles of the first `n` ranges that hold a position, with their ends.
pub open spec fn live_styles(ranges: Seq<StyledRange>, n: int, position: int) -> Seq<(usize, Style)>
    decreases n,
{
    if n <= 0 {
        Seq::empty()
    } else {
        let before = live_styles(ranges, n - 1, position);
        let last = ranges[n - 1];
        if last.start <= position < last.end {
            before.push((last.end, last.style))
        } else {
            before
        }
    }
}

/// The styles one after the other.
pub open spec fn patched_all(styles: Seq<(usize, Style)>) -> Style
    decreases styles.len(),
{
    if styles.len() == 0 {
        Style::plain()
    } else {
        patched_all(styles.drop_last()).patched(styles.last().1)
    }
}

/// The style of a position: those of all ranges that hold it, in their order.
pub open spec fn style_at(ranges: Seq<StyledRange>, position: int) -> Style {
    patched_all(live_styles(ranges, ranges.len() as int, position))
}

/// The later one of two positions.
pub open spec fn farther(a: int, b: int) -> int {
    if a < b {
        b
    } else {
        a
    }
}

/// The styles that still hold at a later position.
pub open spec fn lasting(styles: Seq<(usize, Style)>, position: int) -> Seq<(usize, Style)>
    decreases styles.len(),
{
    if styles.len() == 0 {
        Seq::empty()
    } else if styles.last().0 > position {
        lasting(styles.drop_last(), position).push(styles.last())
    } else {
        lasting(styles.drop_last(), position)
    }
}

proof fn lemma_lasting(ranges: Seq<StyledRange>, n: int, from: int, to: int)
    requires
        0 <= n <= ranges.len(),
        forall|i: int| 0 <= i < n ==> (#[trigger] ranges[i]).start <= from,
    ensures
        lasting(live_styles(ranges, n, from), to) == live_styles(ranges, n, farther(from, to)),
    decreases n,
{
    if n > 0 {
        lemma_lasting(ranges, n - 1, from, to);
        let before = live_styles(ranges, n - 1, from);
        let last = ranges[n - 1];
        if from < last.end {
            assert(before.push((last.end, last.style)).drop_last() =~= before);
        }
    }
}

proof fn lemma_none_later(ranges: Seq<StyledRange>, n: int, m: int, position: int)
    requires
        0 <= n <= m <= ranges.len(),
        forall|i: int| n <= i < m ==> (#[trigger] ranges[i]).start > position,
    ensures
        live_styles(ranges, m, position) == live_styles(ranges, n, position),
    decreases m,
{
    if n < m {
        lemma_none_later(ranges, n, m - 1, position);
    }
}

/// The styles of ranges, from one position to the next.
pub struct ConcreteStyleHighlighter {
    pub ranges: Vec<ConcreteStyleRange>,
    pub next: usize,
    pub active: Vec<(usize, Style)>,
    pub style: Style,
    /// Where the highlighter stands.
    pub position: Ghost<int>,
}

impl ConcreteStyleHighlighter {
    pub open spec fn wf(&self) -> bool {
        &&& is_ordered(styled_ends(styled(self.ranges@)))
        &&& self.next <= self.ranges@.len()
        &&& forall|i: int| 0 <= i < self.next ==> (#[trigger] styled(self.ranges@)[i]).start <= self.position@
        &&& forall|i: int|
            self.next <= i < self.ranges@.len() ==> (#[trigger] styled(self.ranges@)[i]).start > self.position@
        &&& self.active@ == live_styles(styled(self.ranges@), self.next as int, self.position@)
    }

    /// A highlighter that stands at a position.
    pub fn new_at(ranges: Vec<ConcreteStyleRange>, position: usize) -> (out: ConcreteStyleHighlighter)
        ensures
            out.wf(),
            out.position@ == position,
            out.style == Style::plain(),
            styled(out.ranges@) == ordered_styles(styled(ranges@)),
    {
        let ghost given = styled(ranges@);
        let mut sorted: Vec<ConcreteStyleRange> = Vec::new();
        let mut keys: Vec<Range<usize>> = Vec::new();
        let mut i: usize = 0;
        proof {
            assert(given.subrange(0, 0) =~= Seq::<StyledRange>::empty());
            assert(styled(sorted@) =~= Seq::<StyledRange>::empty());
            assert(all_ends(keys@) =~= styled_ends(styled(sorted@)));
        }
        while i < ranges.len()
            invariant
                i <= ranges@.len(),
                given == styled(ranges@),
                styled(sorted@) == ordered_styles(given.subrange(0, i as int)),
                all_ends(keys@) == styled_ends(styled(sorted@)),
                keys@.len() == sorted@.len(),
            decreases ranges.len() - i,
        {
            let ghost before = styled(sorted@);
            let ghost key_views = all_ends(keys@);
            let start: usize = ranges[i].range.start;
            let end: usize = ranges[i].range.end;
            let key = Range { start, end };
            let at: usize = place_range(&keys, &key);
            let item = ConcreteStyleRange {
                range: Range { start, end },
                style: ranges[i].style,
                behind_overlays: ranges[i].behind_overlays,
            };
            keys.insert(at, key);
            sorted.insert(at, item);
            i += 1;
            proof {
                assert(given.subrange(0, i as int).drop_last() =~= given.subrange(0, i - 1));
                assert(styled(sorted@) =~= before.insert(at as int, given[i - 1]));
                assert(all_ends(keys@) =~= key_views.insert(at as int, (start, end)));
                assert(styled_ends(before.insert(at as int, given[i - 1])) =~= styled_ends(before).insert(
                    at as int,
                    (start, end),
                ));
                assert(all_ends(keys@) =~= styled_ends(styled(sorted@)));
            }
        }
        proof {
            assert(given.subrange(0, given.len() as int) =~= given);
            lemma_ordered_styles(given);
            law_ordered_ranges(styled_ends(given));
        }
        let ghost all = styled(sorted@);
        let mut next: usize = 0;
        let mut active: Vec<(usize, Style)> = Vec::new();
        while next < sorted.len() && sorted[next].range.start <= position
            invariant
                next <= sorted@.len(),
                all == styled(sorted@),
                active@ == live_styles(all, next as int, position as int),
                forall|k: int| 0 <= k < next ==> (#[trigger] all[k]).start <= position,
            decreases sorted.len() - next,
        {
            if sorted[next].range.end > position {
                active.push((sorted[next].range.end, sorted[next].style));
            }
            next += 1;
        }
        proof {
            assert forall|k: int| next <= k < sorted@.len() implies (#[trigger] all[k]).start > position by {
                let keys = styled_ends(all);
                if k > next {
                    assert(!comes_before(keys[k], keys[next as int]));
                }
            }
        }
        ConcreteStyleHighlighter {
            ranges: sorted,
            next,
            active,
            style: Style::default(),
            position: Ghost(position as int),
        }
    }

    fn retain(&mut self, position: usize)
        ensures
            final(self).active@ == lasting(old(self).active@, position as int),
            final(self).ranges == old(self).ranges,
            final(self).next == old(self).next,
            final(self).style == old(self).style,
            final(self).position == old(self).position,
    {
        let mut kept: Vec<(usize, Style)> = Vec::new();
        let mut i: usize = 0;
        let ghost all = self.active@;
        proof {
            assert(all.subrange(0, 0) =~= Seq::<(usize, Style)>::empty());
        }
        while i < self.active.len()
            invariant
                i <= self.active@.len(),
                all == self.active@,
                kept@ == lasting(all.subrange(0, i as int), position as int),
                self.ranges == old(self).ranges,
                self.next == old(self).next,
                self.style == old(self).style,
                self.position == old(self).position,
            decreases self.active.len() - i,
        {
            let entry = self.active[i];
            if entry.0 > position {
                kept.push(entry);
            }
            i += 1;
            proof {
                assert(all.subrange(0, i as int).drop_last() =~= all.subrange(0, i - 1));
            }
        }
        proof {
            assert(all.subrange(0, all.len() as int) =~= all);
        }
        self.active = kept;
    }

    /// Goes on to a position and takes its style. A highlighter that stands
    /// farther on stays there.
    pub fn advance_to(&mut self, position: usize)
        requires
            old(self).wf(),
        ensures
            final(self).wf(),
            final(self).position@ == farther(old(self).position@, position as int),
            final(self).ranges == old(self).ranges,
            final(self).style == style_at(styled(old(self).ranges@), farther(old(self).position@, position as int)),
    {
        let ghost all = styled(self.ranges@);
        let ghost reached = farther(self.position@, position as int);
        proof {
            lemma_lasting(all, self.next as int, self.position@, position as int);
        }
        self.retain(position);
        self.position = Ghost(reached);
        while self.next < self.ranges.len() && self.ranges[self.next].range.start <= position
            invariant
                all == styled(self.ranges@),
                self.ranges == old(self).ranges,
                self.position@ == reached,
                position <= reached,
                position < reached ==> forall|k: int| self.next <= k < self.ranges@.len() ==> (#[trigger] all[k]).start > reached,
                self.next <= self.ranges@.len(),
                is_ordered(styled_ends(all)),
                self.active@ == live_styles(all, self.next as int, reached),
                forall|k: int| 0 <= k < self.next ==> (#[trigger] all[k]).start <= reached,
            decreases self.ranges.len() - self.next,
        {
            proof {
                assert(all[self.next as int].start <= position);
            }
            let range = &self.ranges[self.next];
            let entry = (range.range.end, range.style);
            if entry.0 > position {
                self.active.push(entry);
            }
            self.next = self.next + 1;
        }
        proof {
            assert forall|k: int| self.next <= k < self.ranges@.len() implies (#[trigger] all[k]).start > reached by {
                let keys = styled_ends(all);
                if k > self.next {
                    assert(!comes_before(keys[k], keys[self.next as int]));
                }
                assert(all[self.next as int].start > position);
            }
            lemma_none_later(all, self.next as int, all.len() as int, reached);
        }
        let ghost live = self.active@;
        let mut style = Style::default();
        let mut i: usize = 0;
        proof {
            assert(live.subrange(0, 0) =~= Seq::<(usize, Style)>::empty());
        }
        while i < self.active.len()
            invariant
                i <= self.active@.len(),
                live == self.active@,
                style == patched_all(live.subrange(0, i as int)),
            decreases self.active.len() - i,
        {
            style = style.patch(self.active[i].1);
            i += 1;
            proof {
                assert(live.subrange(0, i as int).drop_last() =~= live.subrange(0, i - 1));
            }
        }
        proof {
            assert(live.subrange(0, live.len() as int) =~= live);
        }
        self.style = style;
    }
}

proof fn lemma_live_prefix(a: Seq<StyledRange>, b: Seq<StyledRange>, n: int, position: int)
    requires
        n <= a.len(),
        n <= b.len(),
        forall|i: int| 0 <= i < n ==> a[i] == b[i],
    ensures
        live_styles(a, n, position) == live_styles(b, n, position),
    decreases n,
{
    if n > 0 {
        lemma_live_prefix(a, b, n - 1, position);
    }
}

/// A range that comes last puts its style on top at the positions that it holds,
/// and changes nothing at others. Without ranges every position is plain.
pub proof fn law_ranges_style_what_they_hold(ranges: Seq<StyledRange>, last: StyledRange, position: int)
    ensures
        style_at(Seq::<StyledRange>::empty(), position) == Style::plain(),
        last.start <= position < last.end ==> style_at(ranges.push(last), position) == style_at(ranges, position).patched(
            last.style,
        ),
        !(last.start <= position < last.end) ==> style_at(ranges.push(last), position) == style_at(ranges, position),
{
    let longer = ranges.push(last);
    let n = ranges.len() as int;
    lemma_live_prefix(longer, ranges, n, position);
    assert(longer[n] == last);
    let before = live_styles(ranges, n, position);
    assert(before.push((last.end, last.style)).drop_last() =~= before);
}

/// The order in which styles are laid on top of each other keeps every range, and
/// goes by their starts and then by their ends.
pub proof fn law_ordered_styles_keep_every_range(ranges: Seq<StyledRange>)
    ensures
        ordered_styles(ranges).to_multiset() == ranges.to_multiset(),
        ordered_styles(ranges).len() == ranges.len(),
        is_ordered(styled_ends(ordered_styles(ranges))),
    decreases ranges.len(),
{
    broadcast use vstd::seq_lib::group_to_multiset_ensures;

    if ranges.len() > 0 {
        let rest = ranges.drop_last();
        let last = ranges.last();
        law_ordered_styles_keep_every_range(rest);
        let sorted = ordered_styles(rest);
        let ends = styled_ends(sorted);
        let range = (last.start, last.end);
        let at = place_for(ends, range);
        lemma_place_for(ends, range);
        let out = sorted.insert(at, last);
        assert(ranges =~= rest.push(last));
        assert(out.to_multiset() =~= sorted.to_multiset().insert(last));
        assert(styled_ends(out) =~= ends.insert(at, range));
        let all = styled_ends(out);
        assert forall|i: int, j: int| 0 <= i < j < all.len() implies !comes_before(#[trigger] all[j], #[trigger] all[i]) by {
            let a = if i < at { i } else { i - 1 };
            let b = if j < at { j } else { j - 1 };
            if i != at && j != at {
                assert(all[i] == ends[a] && all[j] == ends[b]);
            } else if i == at {
                assert(all[j] == ends[b]);
            } else {
                assert(all[i] == ends[a]);
            }
        }
    }
}

/// Ranges come in the order of their starts, and those of one start in the order
/// of their ends.
pub proof fn law_starts_and_then_ends_decide(a: (usize, usize), b: (usize, usize))
    ensures
        a.0 < b.0 ==> comes_before(a, b) && !comes_before(b, a),
        a.0 == b.0 && a.1 < b.1 ==> comes_before(a, b) && !comes_before(b, a),
        a == b <==> !comes_before(a, b) && !comes_before(b, a),
{
}

/// A range holds the positions from its start up to its end, without the end.
pub proof fn law_a_range_holds_its_positions(range: (usize, usize), position: int)
    ensures
        covered(seq![range], position) <==> range.0 <= position < range.1,
{
    let one = seq![range];
    assert(one[0] == range);
    if holds(range, position) {
        assert(holds(one[0], position));
    }
}

} // verus!
