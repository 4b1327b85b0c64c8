//! How an area is shared out between the children of a container.

use vstd::prelude::*;

use super::geometry::{cells_before, extent, gap, share, slot, usable, weight_sum};
use super::Layout;
use crate::graphics::Rect;

verus! {

proof fn lemma_weights(weights: Seq<u16>, i: int)
    requires
        0 <= i < weights.len(),
    ensures
        weights[i] <= weight_sum(weights),
        0 <= weight_sum(weights),
    decreases weights.len(),
{
    if weights.len() > 1 {
        if i < weights.len() - 1 {
            lemma_weights(weights.drop_last(), i);
        } else {
            lemma_weights(weights.drop_last(), 0);
        }
    } else {
        assert(weights.drop_last().len() == 0);
        assert(weight_sum(weights.drop_last()) == 0);
    }
}

/// A share is the part of the cells that the weight is of all weights, rounded
/// down.
pub proof fn law_shares_are_in_proportion(used: int, weight: int, sum: int)
    requires
        0 <= used,
        0 <= weight <= sum,
        sum > 0,
    ensures
        share(used, weight, sum) * sum <= used * weight < (share(used, weight, sum) + 1) * sum,
        0 <= share(used, weight, sum) <= used,
        weight == sum ==> share(used, weight, sum) == used,
        weight == 0 ==> share(used, weight, sum) == 0,
{
    let product = used * weight;
    vstd::arithmetic::div_mod::lemma_fundamental_div_mod(product, sum);
    vstd::arithmetic::div_mod::lemma_mod_bound(product, sum);
    let q = product / sum;
    assert(q * sum <= product < (q + 1) * sum) by (nonlinear_arith)
        requires
            product == sum * q + product % sum,
            0 <= product % sum < sum,
    ;
    assert(0 <= product <= used * sum) by (nonlinear_arith)
        requires
            product == used * weight,
            0 <= used,
            0 <= weight <= sum,
    ;
    assert(0 <= q <= used) by (nonlinear_arith)
        requires
            0 <= product <= used * sum,
            q * sum <= product < (q + 1) * sum,
            sum > 0,
    ;
    if weight == sum {
        assert(q == used) by (nonlinear_arith)
            requires
                product == used * sum,
                q * sum <= product < (q + 1) * sum,
                sum > 0,
        ;
    }
    if weight == 0 {
        assert(q == 0) by (nonlinear_arith)
            requires
                product == used * 0,
                q * sum <= product < (q + 1) * sum,
                sum > 0,
        ;
    }
}

/// Where a child starts along the axis, and how long it is.
pub open spec fn along(area: Rect, layout: Layout, child: Rect) -> (int, int) {
    if layout is Vertical {
        (child.x - area.x, child.width as int)
    } else {
        (child.y - area.y, child.height as int)
    }
}

/// Whether a child is as long as the area across the axis, and starts with it.
pub open spec fn spans_across(area: Rect, layout: Layout, child: Rect) -> bool {
    if layout is Vertical {
        child.y == area.y && child.height == area.height
    } else {
        child.x == area.x && child.width == area.width
    }
}

proof fn lemma_cells(weights: Seq<u16>, used: int, between: int, i: int)
    requires
        0 <= i < weights.len(),
        0 <= used,
        0 <= between,
    ensures
        0 <= cells_before(weights, used, between, i),
        0 <= share(used, weights[i] as int, weight_sum(weights)),
        cells_before(weights, used, between, i + 1) == cells_before(weights, used, between, i) + share(
            used,
            weights[i] as int,
            weight_sum(weights),
        ) + between,
    decreases i,
{
    lemma_weights(weights, i);
    if weight_sum(weights) > 0 {
        law_shares_are_in_proportion(used, weights[i] as int, weight_sum(weights));
    }
    if i > 0 {
        lemma_cells(weights, used, between, i - 1);
    }
}

/// Every child lies in the area and fills it across the axis. Children follow
/// each other, one cell apart where they stand side by side, and the last one
/// reaches to the end.
pub proof fn law_children_share_the_area(area: Rect, layout: Layout, weights: Seq<u16>, i: int)
    requires
        0 <= i < weights.len(),
        area.x + area.width <= u16::MAX,
        area.y + area.height <= u16::MAX,
    ensures
        ({
            let child = slot(area, layout, weights, i);
            let (start, length) = along(area, layout, child);
            let total = if layout is Vertical { area.width as int } else { area.height as int };
            &&& spans_across(area, layout, child)
            &&& 0 <= start && 0 <= length && start + length <= total
            &&& i == 0 ==> start == 0
            &&& i == weights.len() - 1 ==> start + length == total
            &&& i + 1 < weights.len() ==> {
                let (next, _) = along(area, layout, slot(area, layout, weights, i + 1));
                next == (if start + length + (if layout is Vertical { 1int } else { 0int }) < total {
                    start + length + (if layout is Vertical { 1int } else { 0int })
                } else {
                    total
                })
            }
        }),
{
    let total = extent(area, layout);
    let used = usable(total, layout, weights.len() as int);
    if weights.len() > 2 {
        assert(gap(layout) * (weights.len() - 2) >= 0) by (nonlinear_arith)
            requires
                gap(layout) >= 0,
                weights.len() > 2,
        ;
    }
    lemma_cells(weights, used, gap(layout), i);
    if i + 1 < weights.len() {
        lemma_cells(weights, used, gap(layout), i + 1);
    }
}

/// A child that is not the last one has its share of the cells that the gaps
/// leave, as far as there is room: all cells where the children stand below each
/// other, and one less for every child but two where they stand side by side.
pub proof fn law_children_get_their_share(area: Rect, layout: Layout, weights: Seq<u16>, i: int)
    requires
        0 <= i < weights.len() - 1,
        area.x + area.width <= u16::MAX,
        area.y + area.height <= u16::MAX,
    ensures
        ({
            let (start, length) = along(area, layout, slot(area, layout, weights, i));
            let total = if layout is Vertical { area.width as int } else { area.height as int };
            let left = if layout is Vertical { total - (weights.len() - 2) } else { total };
            let wanted = share(if left > 0 { left } else { 0 }, weights[i] as int, weight_sum(weights));
            length == wanted || length < wanted && start + length == total
        }),
{
    let total = extent(area, layout);
    let used = usable(total, layout, weights.len() as int);
    let left = if layout is Vertical { total - (weights.len() - 2) } else { total };
    assert(gap(layout) * (weights.len() - 2) == (if layout is Vertical { weights.len() - 2 } else { 0 })) by (nonlinear_arith)
        requires
            gap(layout) == (if layout is Vertical { 1int } else { 0int }),
    ;
    lemma_cells(weights, used, gap(layout), i);
    assert(used == (if left > 0 { left } else { 0 }));
}

/// Of children of one weight each has as many cells as the other, but for the last
/// one and for those at the end of the area.
pub proof fn law_equal_weights_get_equal_shares(area: Rect, layout: Layout, weights: Seq<u16>, i: int, j: int)
    requires
        0 <= i < weights.len() - 1,
        0 <= j < weights.len() - 1,
        weights[i] == weights[j],
        area.x + area.width <= u16::MAX,
        area.y + area.height <= u16::MAX,
    ensures
        ({
            let total = if layout is Vertical { area.width as int } else { area.height as int };
            let (first, length) = along(area, layout, slot(area, layout, weights, i));
            let (second, other) = along(area, layout, slot(area, layout, weights, j));
            first + length < total && second + other < total ==> length == other
        }),
{
    law_children_get_their_share(area, layout, weights, i);
    law_children_get_their_share(area, layout, weights, j);
}

} // verus!
