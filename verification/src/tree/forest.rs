//! How the shape of a forest of layouts changes.

use vstd::prelude::*;

use crate::tree::{at, child_ok, forest, live, node_ok, DocumentId, Layout, Shape, ViewId};

verus! {

/// The id of the next node.
pub open spec fn fresh(shapes: Seq<Option<Shape>>) -> ViewId {
    ViewId(shapes.len() as usize)
}

/// Gives a container other children.
pub open spec fn rewire(shapes: Seq<Option<Shape>>, id: ViewId, children: Seq<ViewId>, weights: Seq<u16>) -> Seq<Option<Shape>> {
    shapes.update(id.0 as int, Some(at(shapes, id).with_children(children, weights)))
}

/// Gives a node another parent.
pub open spec fn adopt(shapes: Seq<Option<Shape>>, id: ViewId, parent: ViewId) -> Seq<Option<Shape>> {
    shapes.update(id.0 as int, Some(at(shapes, id).with_parent(parent)))
}

/// Adds a view of the document below `parent`, before the child at `pos`.
pub open spec fn graft(shapes: Seq<Option<Shape>>, parent: ViewId, pos: int, doc: DocumentId) -> Seq<Option<Shape>> {
    rewire(
        shapes,
        parent,
        at(shapes, parent).children().insert(pos, fresh(shapes)),
        at(shapes, parent).weights().insert(pos, 1),
    ).push(Some(Shape::View { parent, doc }))
}

/// Adds the root of another layout, without children.
pub open spec fn plant(shapes: Seq<Option<Shape>>, layout: Layout) -> Seq<Option<Shape>> {
    shapes.push(
        Some(Shape::Container { parent: fresh(shapes), layout, children: Seq::empty(), weights: Seq::empty() }),
    )
}

/// Puts a container in the place of a node and the node into the container.
pub open spec fn wrap(shapes: Seq<Option<Shape>>, id: ViewId, layout: Layout) -> Seq<Option<Shape>> {
    let parent = at(shapes, id).parent();
    let children = at(shapes, parent).children();
    adopt(
        rewire(shapes, parent, children.update(children.index_of(id), fresh(shapes)), at(shapes, parent).weights()),
        id,
        fresh(shapes),
    ).push(Some(Shape::Container { parent, layout, children: seq![id], weights: seq![1u16] }))
}

/// Removes a node without children.
pub open spec fn prune(shapes: Seq<Option<Shape>>, id: ViewId) -> Seq<Option<Shape>> {
    let parent = at(shapes, id).parent();
    let pos = at(shapes, parent).children().index_of(id);
    rewire(shapes, parent, at(shapes, parent).children().remove(pos), at(shapes, parent).weights().remove(pos)).update(
        id.0 as int,
        None,
    )
}

/// Puts the only child of a container in the place of the container.
pub open spec fn collapse(shapes: Seq<Option<Shape>>, id: ViewId) -> Seq<Option<Shape>> {
    let parent = at(shapes, id).parent();
    let child = at(shapes, id).children()[0];
    let children = at(shapes, parent).children();
    adopt(
        rewire(shapes, parent, children.update(children.index_of(id), child), at(shapes, parent).weights()),
        child,
        parent,
    ).update(id.0 as int, None)
}

/// Removes all the nodes of a layout.
pub open spec fn clear(shapes: Seq<Option<Shape>>, home: Map<ViewId, ViewId>, root: ViewId) -> Seq<Option<Shape>> {
    Seq::new(
        shapes.len(),
        |i: int|
            if home[ViewId(i as usize)] == root {
                None
            } else {
                shapes[i]
            },
    )
}

/// Every container but a root has at least two children.
pub open spec fn bushy(shapes: Seq<Option<Shape>>) -> bool {
    forall|id: ViewId|
        #[trigger] live(shapes, id) && at(shapes, id) is Container && at(shapes, id).parent() != id ==> at(
            shapes,
            id,
        ).children().len() >= 2
}

pub open spec fn raised(rank: Map<ViewId, nat>, low: ViewId) -> Map<ViewId, nat> {
    Map::new(
        |id: ViewId| true,
        |id: ViewId|
            if id == low {
                0nat
            } else {
                rank[id] + 1
            },
    )
}

pub open spec fn spread(rank: Map<ViewId, nat>, below: ViewId, mid: ViewId) -> Map<ViewId, nat> {
    Map::new(
        |id: ViewId| true,
        |id: ViewId|
            if id == mid {
                2 * rank[below] + 1
            } else {
                2 * rank[id]
            },
    )
}

pub proof fn lemma_graft(
    shapes: Seq<Option<Shape>>,
    home: Map<ViewId, ViewId>,
    rank: Map<ViewId, nat>,
    bound: nat,
    parent: ViewId,
    pos: int,
    doc: DocumentId,
)
    requires
        forest(shapes, home, rank, bound),
        shapes.len() < usize::MAX,
        live(shapes, parent),
        at(shapes, parent) is Container,
        0 <= pos <= at(shapes, parent).children().len(),
    ensures
        forest(
            graft(shapes, parent, pos, doc),
            home.insert(fresh(shapes), home[parent]),
            raised(rank, fresh(shapes)),
            bound + 1,
        ),
{
    let new = fresh(shapes);
    let after = graft(shapes, parent, pos, doc);
    let kids = at(shapes, parent).children();
    let more = kids.insert(pos, new);
    let home2 = home.insert(new, home[parent]);
    let rank2 = raised(rank, new);
    assert(!live(shapes, new));
    assert(node_ok(shapes, home, rank, bound, parent));
    assert forall|i: int| 0 <= i < kids.len() implies kids[i] != new by {
        assert(child_ok(shapes, parent, i));
    }
    assert(more[pos] == new);
    assert forall|c: ViewId| kids.contains(c) implies more.contains(c) by {
        let i = choose|i: int| 0 <= i < kids.len() && kids[i] == c;
        if i < pos {
            assert(more[i] == c);
        } else {
            assert(more[i + 1] == c);
        }
    }
    assert(more.no_duplicates()) by {
        assert forall|i: int, j: int| 0 <= i < more.len() && 0 <= j < more.len() && i != j implies more[i] != more[j] by {
            let a = if i < pos { i } else { i - 1 };
            let b = if j < pos { j } else { j - 1 };
            if i != pos && j != pos {
                assert(kids[a] != kids[b]);
            }
        }
    }
    assert(at(after, parent).children() == more);
    assert forall|id: ViewId| live(after, id) implies #[trigger] node_ok(after, home2, rank2, bound + 1, id) by {
        if id != new {
            assert(id.0 != new.0);
            assert(node_ok(shapes, home, rank, bound, id));
        }
    }
    assert forall|id: ViewId, i: int|
        live(after, id) && 0 <= i < at(after, id).children().len() implies #[trigger] child_ok(after, id, i) by {
        if id == parent {
            if i != pos {
                let k = if i < pos { i } else { i - 1 };
                assert(more[i] == kids[k]);
                assert(child_ok(shapes, parent, k));
            }
        } else if id != new {
            assert(id.0 != new.0);
            assert(child_ok(shapes, id, i));
        }
    }
}

pub proof fn lemma_plant(
    shapes: Seq<Option<Shape>>,
    home: Map<ViewId, ViewId>,
    rank: Map<ViewId, nat>,
    bound: nat,
    layout: Layout,
)
    requires
        forest(shapes, home, rank, bound),
        shapes.len() < usize::MAX,
    ensures
        forest(plant(shapes, layout), home.insert(fresh(shapes), fresh(shapes)), rank.insert(fresh(shapes), 0), bound),
{
    let new = fresh(shapes);
    let after = plant(shapes, layout);
    let home2 = home.insert(new, new);
    let rank2 = rank.insert(new, 0);
    assert(!live(shapes, new));
    assert forall|id: ViewId| live(after, id) implies #[trigger] node_ok(after, home2, rank2, bound, id) by {
        if id != new {
            assert(id.0 != new.0);
            assert(node_ok(shapes, home, rank, bound, id));
        }
    }
    assert forall|id: ViewId, i: int|
        live(after, id) && 0 <= i < at(after, id).children().len() implies #[trigger] child_ok(after, id, i) by {
        assert(id != new);
        assert(id.0 != new.0);
        assert(child_ok(shapes, id, i));
    }
}

pub proof fn lemma_wrap(
    shapes: Seq<Option<Shape>>,
    home: Map<ViewId, ViewId>,
    rank: Map<ViewId, nat>,
    bound: nat,
    id: ViewId,
    layout: Layout,
)
    requires
        forest(shapes, home, rank, bound),
        shapes.len() < usize::MAX,
        live(shapes, id),
        at(shapes, id).parent() != id,
    ensures
        forest(
            wrap(shapes, id, layout),
            home.insert(fresh(shapes), home[id]),
            spread(rank, id, fresh(shapes)),
            2 * bound + 1,
        ),
{
    let new = fresh(shapes);
    let parent = at(shapes, id).parent();
    let kids = at(shapes, parent).children();
    let pos = kids.index_of(id);
    let more = kids.update(pos, new);
    let after = wrap(shapes, id, layout);
    let home2 = home.insert(new, home[id]);
    let rank2 = spread(rank, id, new);
    assert(node_ok(shapes, home, rank, bound, id));
    assert(node_ok(shapes, home, rank, bound, parent));
    assert(kids[pos] == id);
    assert(!live(shapes, new));
    assert forall|i: int| 0 <= i < kids.len() implies kids[i] != new by {
        assert(child_ok(shapes, parent, i));
    }
    assert(more[pos] == new);
    assert forall|c: ViewId| kids.contains(c) && c != id implies more.contains(c) by {
        let i = choose|i: int| 0 <= i < kids.len() && kids[i] == c;
        assert(more[i] == c);
    }
    assert(more.no_duplicates()) by {
        assert forall|i: int, j: int| 0 <= i < more.len() && 0 <= j < more.len() && i != j implies more[i] != more[j] by {
            if i != pos && j != pos {
                assert(kids[i] != kids[j]);
            }
        }
    }
    assert(seq![id][0] == id);
    assert(at(after, new).children() == seq![id]);
    assert(at(after, parent).children() == more);
    assert(at(after, id) == at(shapes, id).with_parent(new));
    assert forall|x: ViewId| live(after, x) && x != new && x != id && x != parent implies at(after, x) == at(shapes, x) && live(shapes, x) by {
        assert(x.0 != new.0);
    }
    assert forall|x: ViewId| live(after, x) implies #[trigger] node_ok(after, home2, rank2, 2 * bound + 1, x) by {
        if x == new {
            assert(more.contains(new));
        } else {
            assert(x.0 != new.0);
            assert(node_ok(shapes, home, rank, bound, x));
            if x != id {
                let p = at(shapes, x).parent();
                assert(at(after, x).parent() == p);
                assert(p.0 != new.0);
            }
        }
    }
    assert forall|x: ViewId, i: int|
        live(after, x) && 0 <= i < at(after, x).children().len() implies #[trigger] child_ok(after, x, i) by {
        if x != new {
            assert(x.0 != new.0);
            assert(child_ok(shapes, x, i));
            if x == parent {
                if i != pos {
                    assert(kids[i] != kids[pos]);
                }
            }
        }
    }
}

pub proof fn lemma_prune(
    shapes: Seq<Option<Shape>>,
    home: Map<ViewId, ViewId>,
    rank: Map<ViewId, nat>,
    bound: nat,
    id: ViewId,
)
    requires
        forest(shapes, home, rank, bound),
        live(shapes, id),
        at(shapes, id).parent() != id,
        at(shapes, id).children().len() == 0,
    ensures
        forest(prune(shapes, id), home, rank, bound),
{
    let parent = at(shapes, id).parent();
    let kids = at(shapes, parent).children();
    let pos = kids.index_of(id);
    let fewer = kids.remove(pos);
    let after = prune(shapes, id);
    assert(node_ok(shapes, home, rank, bound, id));
    assert(node_ok(shapes, home, rank, bound, parent));
    assert(kids[pos] == id);
    assert forall|c: ViewId| kids.contains(c) && c != id implies fewer.contains(c) by {
        let i = choose|i: int| 0 <= i < kids.len() && kids[i] == c;
        if i < pos {
            assert(fewer[i] == c);
        } else {
            assert(fewer[i - 1] == c);
        }
    }
    assert(fewer.no_duplicates()) by {
        assert forall|i: int, j: int| 0 <= i < fewer.len() && 0 <= j < fewer.len() && i != j implies fewer[i] != fewer[j] by {
            let a = if i < pos { i } else { i + 1 };
            let b = if j < pos { j } else { j + 1 };
            assert(kids[a] != kids[b]);
        }
    }
    assert(at(after, parent).children() == fewer);
    assert forall|x: ViewId| live(after, x) implies #[trigger] node_ok(after, home, rank, bound, x) by {
        assert(node_ok(shapes, home, rank, bound, x));
        let p = at(shapes, x).parent();
        if p == id && x != id {
            assert(at(shapes, id).children().contains(x));
            assert(false);
        }
    }
    assert forall|x: ViewId, i: int|
        live(after, x) && 0 <= i < at(after, x).children().len() implies #[trigger] child_ok(after, x, i) by {
        if x == parent {
            let k = if i < pos { i } else { i + 1 };
            assert(fewer[i] == kids[k]);
            assert(kids[k] != kids[pos]);
            assert(child_ok(shapes, parent, k));
        } else {
            assert(child_ok(shapes, x, i));
        }
    }
}

pub proof fn lemma_collapse(
    shapes: Seq<Option<Shape>>,
    home: Map<ViewId, ViewId>,
    rank: Map<ViewId, nat>,
    bound: nat,
    id: ViewId,
)
    requires
        forest(shapes, home, rank, bound),
        live(shapes, id),
        at(shapes, id).parent() != id,
        at(shapes, id).children().len() == 1,
    ensures
        forest(collapse(shapes, id), home, rank, bound),
        at(collapse(shapes, id), at(shapes, id).children()[0]) == at(shapes, at(shapes, id).children()[0]).with_parent(
            at(shapes, id).parent(),
        ),
{
    let parent = at(shapes, id).parent();
    let child = at(shapes, id).children()[0];
    let kids = at(shapes, parent).children();
    let pos = kids.index_of(id);
    let more = kids.update(pos, child);
    let after = collapse(shapes, id);
    assert(node_ok(shapes, home, rank, bound, id));
    assert(node_ok(shapes, home, rank, bound, parent));
    assert(child_ok(shapes, id, 0));
    assert(node_ok(shapes, home, rank, bound, child));
    assert(kids[pos] == id);
    assert(child != parent);
    assert forall|i: int| 0 <= i < kids.len() implies kids[i] != child by {
        assert(child_ok(shapes, parent, i));
    }
    assert(more[pos] == child);
    assert forall|c: ViewId| kids.contains(c) && c != id implies more.contains(c) by {
        let i = choose|i: int| 0 <= i < kids.len() && kids[i] == c;
        assert(more[i] == c);
    }
    assert(more.no_duplicates()) by {
        assert forall|i: int, j: int| 0 <= i < more.len() && 0 <= j < more.len() && i != j implies more[i] != more[j] by {
            if i != pos && j != pos {
                assert(kids[i] != kids[j]);
            }
        }
    }
    assert(at(after, parent).children() == more);
    assert(at(after, child) == at(shapes, child).with_parent(parent));
    assert forall|x: ViewId| live(after, x) implies #[trigger] node_ok(after, home, rank, bound, x) by {
        assert(node_ok(shapes, home, rank, bound, x));
        if x == child {
            assert(more.contains(child));
        } else {
            let p = at(shapes, x).parent();
            if p == id {
                let i = choose|i: int| 0 <= i < at(shapes, id).children().len() && at(shapes, id).children()[i] == x;
                assert(i == 0);
                assert(false);
            }
        }
    }
    assert forall|x: ViewId, i: int|
        live(after, x) && 0 <= i < at(after, x).children().len() implies #[trigger] child_ok(after, x, i) by {
        assert(child_ok(shapes, x, i));
        if x == parent {
            if i != pos {
                assert(kids[i] != kids[pos]);
            }
        }
    }
}

pub proof fn lemma_clear(
    shapes: Seq<Option<Shape>>,
    home: Map<ViewId, ViewId>,
    rank: Map<ViewId, nat>,
    bound: nat,
    root: ViewId,
)
    requires
        forest(shapes, home, rank, bound),
        shapes.len() <= usize::MAX,
    ensures
        forest(clear(shapes, home, root), home, rank, bound),
        forall|id: ViewId| #[trigger]
            live(clear(shapes, home, root), id) <==> live(shapes, id) && home[id] != root,
        forall|id: ViewId| #[trigger] live(clear(shapes, home, root), id) ==> at(clear(shapes, home, root), id) == at(shapes, id),
{
    let after = clear(shapes, home, root);
    assert forall|id: ViewId| #[trigger] live(after, id) <==> live(shapes, id) && home[id] != root by {
        if id.0 < shapes.len() {
            assert(ViewId(id.0 as int as usize) == id);
        }
    }
    assert forall|id: ViewId| #[trigger] live(after, id) implies at(after, id) == at(shapes, id) by {
        assert(ViewId(id.0 as int as usize) == id);
    }
    assert forall|x: ViewId| live(after, x) implies #[trigger] node_ok(after, home, rank, bound, x) by {
        assert(node_ok(shapes, home, rank, bound, x));
        assert(live(after, at(shapes, x).parent()));
    }
    assert forall|x: ViewId, i: int|
        live(after, x) && 0 <= i < at(after, x).children().len() implies #[trigger] child_ok(after, x, i) by {
        assert(child_ok(shapes, x, i));
        let c = at(shapes, x).children()[i];
        assert(node_ok(shapes, home, rank, bound, c));
        assert(live(after, c));
    }
}

} // verus!
