//! Descent in a forest of layouts, and the order in which views are walked.

use vstd::prelude::*;

use crate::tree::{at, child_ok, forest, live, node_ok, walk_list, walk_node, Shape, ViewId};

verus! {

/// Whether `top` is `id` or above it.
pub open spec fn under(shapes: Seq<Option<Shape>>, rank: Map<ViewId, nat>, bound: nat, id: ViewId, top: ViewId) -> bool
    decreases bound - rank[id],
{
    let parent = at(shapes, id).parent();
    id == top || rank[id] < rank[parent] <= bound && under(shapes, rank, bound, parent, top)
}

pub proof fn lemma_under_rank(
    shapes: Seq<Option<Shape>>,
    home: Map<ViewId, ViewId>,
    rank: Map<ViewId, nat>,
    bound: nat,
    id: ViewId,
    top: ViewId,
)
    requires
        forest(shapes, home, rank, bound),
        live(shapes, id),
        under(shapes, rank, bound, id, top),
    ensures
        rank[id] <= rank[top],
        home[id] == home[top],
        live(shapes, top),
    decreases bound - rank[id],
{
    if id != top {
        assert(node_ok(shapes, home, rank, bound, id));
        lemma_under_rank(shapes, home, rank, bound, at(shapes, id).parent(), top);
    }
}

proof fn lemma_under_child(
    shapes: Seq<Option<Shape>>,
    home: Map<ViewId, ViewId>,
    rank: Map<ViewId, nat>,
    bound: nat,
    id: ViewId,
    child: ViewId,
)
    requires
        forest(shapes, home, rank, bound),
        live(shapes, id),
        live(shapes, child),
        under(shapes, rank, bound, id, child),
        at(shapes, child).parent() != child,
    ensures
        under(shapes, rank, bound, id, at(shapes, child).parent()),
    decreases bound - rank[id],
{
    assert(node_ok(shapes, home, rank, bound, id));
    assert(node_ok(shapes, home, rank, bound, child));
    let top = at(shapes, child).parent();
    assert(node_ok(shapes, home, rank, bound, top));
    if id == child {
        assert(under(shapes, rank, bound, top, top));
    } else {
        lemma_under_child(shapes, home, rank, bound, at(shapes, id).parent(), child);
    }
}

/// A node is below at most one child of a container.
proof fn lemma_under_one(
    shapes: Seq<Option<Shape>>,
    home: Map<ViewId, ViewId>,
    rank: Map<ViewId, nat>,
    bound: nat,
    id: ViewId,
    c: ViewId,
    d: ViewId,
)
    requires
        forest(shapes, home, rank, bound),
        live(shapes, id),
        live(shapes, c),
        live(shapes, d),
        under(shapes, rank, bound, id, c),
        under(shapes, rank, bound, id, d),
        at(shapes, c).parent() == at(shapes, d).parent(),
        at(shapes, c).parent() != c,
        at(shapes, d).parent() != d,
    ensures
        c == d,
    decreases bound - rank[id],
{
    assert(node_ok(shapes, home, rank, bound, c));
    assert(node_ok(shapes, home, rank, bound, d));
    assert(node_ok(shapes, home, rank, bound, id));
    let p = at(shapes, c).parent();
    if id == c && c != d {
        lemma_under_rank(shapes, home, rank, bound, p, d);
    } else if id == d && c != d {
        lemma_under_rank(shapes, home, rank, bound, p, c);
    } else if c != d {
        lemma_under_one(shapes, home, rank, bound, at(shapes, id).parent(), c, d);
    }
}

pub open spec fn apart(shapes: Seq<Option<Shape>>, rank: Map<ViewId, nat>, bound: nat, list: Seq<ViewId>) -> bool {
    forall|i: int, j: int, x: ViewId|
        0 <= i < j < list.len() && live(shapes, x) && #[trigger] under(shapes, rank, bound, x, list[i]) ==> !(
        #[trigger] under(shapes, rank, bound, x, list[j]))
}

proof fn lemma_walk_distinct(
    shapes: Seq<Option<Shape>>,
    home: Map<ViewId, ViewId>,
    rank: Map<ViewId, nat>,
    bound: nat,
    list: Seq<ViewId>,
    limit: nat,
)
    requires
        forest(shapes, home, rank, bound),
        forall|i: int| 0 <= i < list.len() ==> live(shapes, #[trigger] list[i]) && rank[list[i]] < limit,
        apart(shapes, rank, bound, list),
    ensures
        walk_list(shapes, rank, list, limit).no_duplicates(),
        forall|k: int|
            0 <= k < walk_list(shapes, rank, list, limit).len() ==> live(
                shapes,
                #[trigger] walk_list(shapes, rank, list, limit)[k],
            ) && exists|i: int|
                0 <= i < list.len() && #[trigger] under(
                    shapes,
                    rank,
                    bound,
                    walk_list(shapes, rank, list, limit)[k],
                    list[i],
                ),
    decreases limit, list.len(),
{
    let all = walk_list(shapes, rank, list, limit);
    if list.len() > 0 {
        let last = list.last();
        assert(last == list[list.len() - 1]);
        let kids = at(shapes, last).children();
        assert(node_ok(shapes, home, rank, bound, last));
        assert forall|i: int| 0 <= i < kids.len() implies live(shapes, #[trigger] kids[i]) && rank[kids[i]] < rank[last] by {
            assert(child_ok(shapes, last, i));
            assert(node_ok(shapes, home, rank, bound, kids[i]));
        }
        assert(apart(shapes, rank, bound, kids)) by {
            assert forall|i: int, j: int, x: ViewId|
                0 <= i < j < kids.len() && live(shapes, x) && #[trigger] under(shapes, rank, bound, x, kids[i]) implies !(
            #[trigger] under(shapes, rank, bound, x, kids[j])) by {
                assert(child_ok(shapes, last, i));
                assert(child_ok(shapes, last, j));
                assert(kids[i] != kids[j]);
                if under(shapes, rank, bound, x, kids[j]) {
                    lemma_under_one(shapes, home, rank, bound, x, kids[i], kids[j]);
                }
            }
        }
        lemma_walk_distinct(shapes, home, rank, bound, kids, rank[last]);
        let rest = list.drop_last();
        assert forall|i: int| 0 <= i < rest.len() implies live(shapes, #[trigger] rest[i]) && rank[rest[i]] < limit by {
            assert(rest[i] == list[i]);
        }
        assert(apart(shapes, rank, bound, rest)) by {
            assert forall|i: int, j: int, x: ViewId|
                0 <= i < j < rest.len() && live(shapes, x) && #[trigger] under(shapes, rank, bound, x, rest[i]) implies !(
            #[trigger] under(shapes, rank, bound, x, rest[j])) by {
                assert(rest[i] == list[i] && rest[j] == list[j]);
                assert(under(shapes, rank, bound, x, list[i]));
            }
        }
        lemma_walk_distinct(shapes, home, rank, bound, rest, limit);
        let below = walk_list(shapes, rank, kids, rank[last]);
        let after = walk_list(shapes, rank, rest, limit);
        assert(walk_node(shapes, rank, last) == seq![last] + below);
        assert(all == seq![last] + below + after);
        assert forall|k: int| 0 <= k < below.len() implies under(shapes, rank, bound, #[trigger] below[k], last) && below[k] != last by {
            let x = below[k];
            let i = choose|i: int| 0 <= i < kids.len() && #[trigger] under(shapes, rank, bound, below[k], kids[i]);
            assert(child_ok(shapes, last, i));
            lemma_under_child(shapes, home, rank, bound, x, kids[i]);
            lemma_under_rank(shapes, home, rank, bound, x, kids[i]);
        }
        assert(under(shapes, rank, bound, last, last));
        assert forall|k: int| 0 <= k < after.len() implies !under(shapes, rank, bound, #[trigger] after[k], last) by {
            let x = after[k];
            let i = choose|i: int| 0 <= i < rest.len() && #[trigger] under(shapes, rank, bound, after[k], rest[i]);
            assert(rest[i] == list[i]);
            assert(under(shapes, rank, bound, x, list[i]));
            if under(shapes, rank, bound, x, list[list.len() - 1]) {
                assert(false);
            }
        }
        assert forall|a: int, b: int| 0 <= a < b < all.len() implies all[a] != all[b] by {
            let m = 1 + below.len();
            if b < m {
                if a > 0 {
                    assert(all[a] == below[a - 1] && all[b] == below[b - 1]);
                } else {
                    assert(all[b] == below[b - 1]);
                }
            } else if a >= m {
                assert(all[a] == after[a - m] && all[b] == after[b - m]);
            } else {
                assert(all[b] == after[b - m]);
                if a > 0 {
                    assert(all[a] == below[a - 1]);
                }
            }
        }
        assert forall|k: int| 0 <= k < all.len() implies live(shapes, #[trigger] all[k]) && exists|i: int|
            0 <= i < list.len() && #[trigger] under(shapes, rank, bound, all[k], list[i]) by {
            let m = 1 + below.len();
            if k < m {
                if k > 0 {
                    assert(all[k] == below[k - 1]);
                }
                assert(under(shapes, rank, bound, all[k], list[list.len() - 1]));
            } else {
                assert(all[k] == after[k - m]);
                let i = choose|i: int| 0 <= i < rest.len() && #[trigger] under(shapes, rank, bound, after[k - m], rest[i]);
                assert(rest[i] == list[i]);
                assert(under(shapes, rank, bound, all[k], list[i]));
            }
        }
    }
}

/// A walk visits no node twice.
pub proof fn lemma_walk_no_duplicates(
    shapes: Seq<Option<Shape>>,
    home: Map<ViewId, ViewId>,
    rank: Map<ViewId, nat>,
    bound: nat,
    root: ViewId,
)
    requires
        forest(shapes, home, rank, bound),
        live(shapes, root),
    ensures
        walk_node(shapes, rank, root).no_duplicates(),
{
    let list = seq![root];
    let limit = rank[root] + 1;
    assert(apart(shapes, rank, bound, list));
    lemma_walk_distinct(shapes, home, rank, bound, list, limit);
    assert(list.drop_last() =~= Seq::<ViewId>::empty());
    assert(walk_list(shapes, rank, list.drop_last(), limit) =~= Seq::<ViewId>::empty());
    assert(walk_list(shapes, rank, list, limit) =~= walk_node(shapes, rank, root));
}

/// The root of a layout that holds another node has children.
pub proof fn lemma_root_has_children(
    shapes: Seq<Option<Shape>>,
    home: Map<ViewId, ViewId>,
    rank: Map<ViewId, nat>,
    bound: nat,
    id: ViewId,
)
    requires
        forest(shapes, home, rank, bound),
        live(shapes, id),
        home[id] != id,
    ensures
        at(shapes, home[id]).children().len() > 0,
    decreases bound - rank[id],
{
    assert(node_ok(shapes, home, rank, bound, id));
    let parent = at(shapes, id).parent();
    if parent != home[id] {
        assert(node_ok(shapes, home, rank, bound, parent));
        lemma_root_has_children(shapes, home, rank, bound, parent);
    }
}

/// Every node belongs to a layout whose root is a node.
pub proof fn lemma_home_live(
    shapes: Seq<Option<Shape>>,
    home: Map<ViewId, ViewId>,
    rank: Map<ViewId, nat>,
    bound: nat,
    id: ViewId,
)
    requires
        forest(shapes, home, rank, bound),
        live(shapes, id),
    ensures
        live(shapes, home[id]),
        at(shapes, home[id]).parent() == home[id],
    decreases bound - rank[id],
{
    assert(node_ok(shapes, home, rank, bound, id));
    let parent = at(shapes, id).parent();
    if parent != id {
        assert(node_ok(shapes, home, rank, bound, parent));
        lemma_home_live(shapes, home, rank, bound, parent);
    }
}

/// Below every node of a bushy layout stands a view.
pub proof fn lemma_view_under(
    shapes: Seq<Option<Shape>>,
    home: Map<ViewId, ViewId>,
    rank: Map<ViewId, nat>,
    bound: nat,
    top: ViewId,
) -> (view: ViewId)
    requires
        forest(shapes, home, rank, bound),
        crate::tree::forest::bushy(shapes),
        live(shapes, top),
        at(shapes, top).parent() != top,
    ensures
        live(shapes, view),
        at(shapes, view) is View,
        under(shapes, rank, bound, view, top),
    decreases rank[top],
{
    if at(shapes, top) is View {
        top
    } else {
        let child = at(shapes, top).children()[0];
        assert(child_ok(shapes, top, 0));
        assert(node_ok(shapes, home, rank, bound, child));
        let view = lemma_view_under(shapes, home, rank, bound, child);
        lemma_under_child(shapes, home, rank, bound, view, child);
        view
    }
}

/// A view that has a sibling is not the only view of its layout.
pub proof fn lemma_other_view(
    shapes: Seq<Option<Shape>>,
    home: Map<ViewId, ViewId>,
    rank: Map<ViewId, nat>,
    bound: nat,
    id: ViewId,
) -> (view: ViewId)
    requires
        forest(shapes, home, rank, bound),
        crate::tree::forest::bushy(shapes),
        live(shapes, id),
        at(shapes, id) is View,
        at(shapes, at(shapes, id).parent()).children().len() >= 2,
    ensures
        live(shapes, view),
        at(shapes, view) is View,
        view != id,
        home[view] == home[id],
{
    assert(node_ok(shapes, home, rank, bound, id));
    let parent = at(shapes, id).parent();
    let kids = at(shapes, parent).children();
    assert(node_ok(shapes, home, rank, bound, parent));
    let i: int = if kids[0] == id {
        1
    } else {
        0
    };
    let sibling = kids[i];
    assert(kids[0] != kids[1]);
    assert(child_ok(shapes, parent, i));
    assert(node_ok(shapes, home, rank, bound, sibling));
    let view = lemma_view_under(shapes, home, rank, bound, sibling);
    lemma_under_rank(shapes, home, rank, bound, view, sibling);
    if view == id {
        assert(under(shapes, rank, bound, id, id));
        lemma_under_one(shapes, home, rank, bound, id, id, sibling);
    }
    view
}

/// The views of a list of nodes.
pub open spec fn views_in(shapes: Seq<Option<Shape>>, list: Seq<ViewId>) -> Seq<ViewId>
    decreases list.len(),
{
    if list.len() == 0 {
        Seq::empty()
    } else if at(shapes, list.last()) is View {
        views_in(shapes, list.drop_last()).push(list.last())
    } else {
        views_in(shapes, list.drop_last())
    }
}

pub proof fn lemma_views_in(shapes: Seq<Option<Shape>>, list: Seq<ViewId>)
    ensures
        forall|x: ViewId| #[trigger]
            views_in(shapes, list).contains(x) <==> list.contains(x) && at(shapes, x) is View,
        list.no_duplicates() ==> views_in(shapes, list).no_duplicates(),
    decreases list.len(),
{
    if list.len() > 0 {
        let rest = list.drop_last();
        lemma_views_in(shapes, rest);
        let before = views_in(shapes, rest);
        let all = views_in(shapes, list);
        assert forall|x: ViewId| list.contains(x) <==> rest.contains(x) || x == list.last() by {
            if list.contains(x) {
                let i = choose|i: int| 0 <= i < list.len() && list[i] == x;
                if i < rest.len() {
                    assert(rest[i] == x);
                }
            }
            if rest.contains(x) {
                let i = choose|i: int| 0 <= i < rest.len() && rest[i] == x;
                assert(list[i] == x);
            }
            if x == list.last() {
                assert(list[list.len() - 1] == x);
            }
        }
        assert forall|x: ViewId| #[trigger] all.contains(x) <==> list.contains(x) && at(shapes, x) is View by {
            if at(shapes, list.last()) is View {
                assert(all == before.push(list.last()));
                if all.contains(x) {
                    let i = choose|i: int| 0 <= i < all.len() && all[i] == x;
                    if i < before.len() {
                        assert(before[i] == x);
                        assert(before.contains(x));
                    }
                }
                if before.contains(x) {
                    let i = choose|i: int| 0 <= i < before.len() && before[i] == x;
                    assert(all[i] == x);
                }
                if x == list.last() {
                    assert(all[before.len() as int] == x);
                }
            }
        }
        if list.no_duplicates() {
            assert(rest.no_duplicates());
            if at(shapes, list.last()) is View {
                assert(!before.contains(list.last())) by {
                    if rest.contains(list.last()) {
                        let i = choose|i: int| 0 <= i < rest.len() && rest[i] == list.last();
                        assert(list[i] == list[list.len() - 1]);
                    }
                }
                assert forall|a: int, b: int| 0 <= a < all.len() && 0 <= b < all.len() && a != b implies all[a] != all[b] by {
                    if a < before.len() && b < before.len() {
                        assert(before[a] != before[b]);
                    } else if a < before.len() {
                        assert(before.contains(before[a]));
                    } else {
                        assert(before.contains(before[b]));
                    }
                }
            }
        }
    }
}

} // verus!
