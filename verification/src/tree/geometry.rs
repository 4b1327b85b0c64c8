//! Where the nodes of a layout are drawn.

use vstd::prelude::*;

use crate::graphics::Rect;
use crate::tree::{self, Content, Layout, Node, Shape, Tree, ViewId};

verus! {

/// The sum of the weights.
pub open spec fn weight_sum(weights: Seq<u16>) -> int
    decreases weights.len(),
{
    if weights.len() == 0 {
        0
    } else {
        weight_sum(weights.drop_last()) + weights.last()
    }
}

/// The cells between two children.
pub open spec fn gap(layout: Layout) -> int {
    if layout is Vertical {
        1
    } else {
        0
    }
}

/// The cells along the axis on which children are laid out.
pub open spec fn extent(area: Rect, layout: Layout) -> int {
    if layout is Vertical {
        area.width as int
    } else {
        area.height as int
    }
}

/// The cells that are shared out between `count` children.
pub open spec fn usable(total: int, layout: Layout, count: int) -> int {
    let gaps = if count > 2 {
        gap(layout) * (count - 2)
    } else {
        0
    };
    if total > gaps {
        total - gaps
    } else {
        0
    }
}

/// The cells that a weight stands for.
pub open spec fn share(used: int, weight: int, sum: int) -> int {
    if sum == 0 {
        0
    } else {
        (used * weight) / sum
    }
}

/// The cells before the child at `i`.
pub open spec fn cells_before(weights: Seq<u16>, used: int, between: int, i: int) -> int
    decreases i,
{
    if i <= 0 {
        0
    } else {
        cells_before(weights, used, between, i - 1) + share(used, weights[i - 1] as int, weight_sum(weights)) + between
    }
}

/// The area of the child at `i`. The last child takes what is left.
pub open spec fn slot(area: Rect, layout: Layout, weights: Seq<u16>, i: int) -> Rect {
    let total = extent(area, layout);
    let used = usable(total, layout, weights.len() as int);
    let before = cells_before(weights, used, gap(layout), i);
    let offset = if before < total {
        before
    } else {
        total
    };
    let wanted = share(used, weights[i] as int, weight_sum(weights));
    let length = if i == weights.len() - 1 || wanted > total - offset {
        total - offset
    } else {
        wanted
    };
    if layout is Vertical {
        Rect { x: (area.x + offset) as u16, y: area.y, width: length as u16, height: area.height }
    } else {
        Rect { x: area.x, y: (area.y + offset) as u16, width: area.width, height: length as u16 }
    }
}

fn sum_of(weights: &Vec<u16>) -> (out: u128)
    ensures
        out == weight_sum(weights@),
{
    let mut out: u128 = 0;
    let mut i: usize = 0;
    while i < weights.len()
        invariant
            i <= weights.len(),
            out == weight_sum(weights@.subrange(0, i as int)),
            out <= 65535 * i,
        decreases weights.len() - i,
    {
        out = out + weights[i] as u128;
        i += 1;
        proof {
            assert(weights@.subrange(0, i as int).drop_last() =~= weights@.subrange(0, i - 1));
        }
    }
    proof {
        assert(weights@.subrange(0, weights@.len() as int) =~= weights@);
    }
    out
}

proof fn lemma_weight_in_sum(weights: Seq<u16>, i: int)
    requires
        0 <= i < weights.len(),
    ensures
        0 <= weights[i] <= weight_sum(weights),
    decreases weights.len(),
{
    lemma_sum_nonnegative(weights.drop_last());
    if i < weights.len() - 1 {
        lemma_weight_in_sum(weights.drop_last(), i);
        assert(weights.drop_last()[i] == weights[i]);
    }
}

proof fn lemma_sum_nonnegative(weights: Seq<u16>)
    ensures
        weight_sum(weights) >= 0,
    decreases weights.len(),
{
    if weights.len() > 0 {
        lemma_sum_nonnegative(weights.drop_last());
    }
}

proof fn lemma_share_bounds(used: int, weight: int, sum: int)
    requires
        0 <= used <= 65535,
        0 <= weight <= sum,
        weight <= 65535,
    ensures
        0 <= share(used, weight, sum) <= used,
        0 <= used * weight <= 65535 * 65535,
{
    assert(0 <= used * weight <= 65535 * 65535) by (nonlinear_arith)
        requires
            0 <= used <= 65535,
            0 <= weight <= 65535,
    ;
    if sum > 0 {
        assert(0 <= (used * weight) / sum <= used) by (nonlinear_arith)
            requires
                0 <= used,
                0 <= weight <= sum,
                0 < sum,
        ;
    }
}

/// The areas of all the children of a container.
pub fn child_areas(area: Rect, layout: Layout, weights: &Vec<u16>) -> (out: Vec<Rect>)
    requires
        area.fits(),
    ensures
        out@.len() == weights@.len(),
        forall|i: int| 0 <= i < out@.len() ==> (#[trigger] out@[i]) == slot(area, layout, weights@, i) && out@[i].fits(),
{
    let vertical = match layout {
        Layout::Vertical => true,
        Layout::Horizontal => false,
    };
    let between: u128 = if vertical {
        1
    } else {
        0
    };
    let total: u128 = if vertical {
        area.width as u128
    } else {
        area.height as u128
    };
    let count: usize = weights.len();
    let gaps: u128 = if vertical && count > 2 {
        (count - 2) as u128
    } else {
        0
    };
    let used: u128 = if total > gaps {
        total - gaps
    } else {
        0
    };
    let sum: u128 = sum_of(weights);
    let mut out: Vec<Rect> = Vec::new();
    let mut before: u128 = 0;
    let mut i: usize = 0;
    proof {
        lemma_sum_nonnegative(weights@);
        assert(gap(layout) * (count - 2) == (if vertical { count - 2 } else { 0 }));
    }
    while i < count
        invariant
            i <= count,
            count == weights@.len(),
            area.fits(),
            vertical == (layout is Vertical),
            between == gap(layout),
            total == extent(area, layout),
            total <= 65535,
            used == usable(total as int, layout, count as int),
            used <= total,
            sum == weight_sum(weights@),
            before == cells_before(weights@, used as int, between as int, i as int),
            before <= 65536 * i,
            out@.len() == i,
            forall|k: int| 0 <= k < i ==> (#[trigger] out@[k]) == slot(area, layout, weights@, k) && out@[k].fits(),
        decreases count - i,
    {
        let weight: u128 = weights[i] as u128;
        proof {
            lemma_weight_in_sum(weights@, i as int);
            lemma_share_bounds(used as int, weight as int, sum as int);
        }
        let wanted: u128 = if sum == 0 {
            0
        } else {
            (used * weight) / sum
        };
        let offset: u128 = if before < total {
            before
        } else {
            total
        };
        let length: u128 = if i == count - 1 || wanted > total - offset {
            total - offset
        } else {
            wanted
        };
        let rect = if vertical {
            Rect { x: area.x + offset as u16, y: area.y, width: length as u16, height: area.height }
        } else {
            Rect { x: area.x, y: area.y + offset as u16, width: area.width, height: length as u16 }
        };
        out.push(rect);
        before = before + wanted + between;
        i += 1;
    }
    out
}

/// Whether the parent of the node at `k` stands before it.
pub open spec fn parent_before(shapes: Seq<Option<Shape>>, walk: Seq<ViewId>, k: int) -> bool {
    exists|j: int| 0 <= j < k && #[trigger] walk[j] == tree::at(shapes, walk[k]).parent()
}

spec fn good_walk(
    shapes: Seq<Option<Shape>>,
    home: Map<ViewId, ViewId>,
    list: Seq<ViewId>,
    walk: Seq<ViewId>,
    root: ViewId,
) -> bool {
    &&& forall|k: int| 0 <= k < walk.len() ==> tree::live(shapes, #[trigger] walk[k]) && home[walk[k]] == root
    &&& forall|i: int| 0 <= i < list.len() ==> walk.contains(#[trigger] list[i])
    &&& forall|k: int| 0 <= k < walk.len() ==> list.contains(#[trigger] walk[k]) || parent_before(shapes, walk, k)
    &&& forall|k: int, c: ViewId|
        0 <= k < walk.len() && #[trigger] tree::at(shapes, walk[k]).children().contains(c) ==> walk.contains(c)
}

proof fn lemma_good_walk(
    shapes: Seq<Option<Shape>>,
    home: Map<ViewId, ViewId>,
    rank: Map<ViewId, nat>,
    bound: nat,
    list: Seq<ViewId>,
    limit: nat,
    root: ViewId,
)
    requires
        tree::forest(shapes, home, rank, bound),
        forall|i: int| 0 <= i < list.len() ==> tree::live(shapes, #[trigger] list[i]) && rank[list[i]] < limit && home[list[i]] == root,
    ensures
        good_walk(shapes, home, list, tree::walk_list(shapes, rank, list, limit), root),
    decreases limit, list.len(),
{
    let all = tree::walk_list(shapes, rank, list, limit);
    if list.len() > 0 {
        let last = list.last();
        assert(last == list[list.len() - 1]);
        let children = tree::at(shapes, last).children();
        tree::lemma_forest_node(shapes, home, rank, bound, last);
        assert forall|i: int| 0 <= i < children.len() implies tree::live(shapes, #[trigger] children[i]) && rank[children[i]]
            < rank[last] && home[children[i]] == root by {
            tree::lemma_forest_child(shapes, home, rank, bound, last, i);
        }
        lemma_good_walk(shapes, home, rank, bound, children, rank[last], root);
        let rest = list.drop_last();
        assert forall|i: int| 0 <= i < rest.len() implies tree::live(shapes, #[trigger] rest[i]) && rank[rest[i]] < limit
            && home[rest[i]] == root by {
            assert(rest[i] == list[i]);
        }
        lemma_good_walk(shapes, home, rank, bound, rest, limit, root);
        let below = tree::walk_list(shapes, rank, children, rank[last]);
        let after = tree::walk_list(shapes, rank, rest, limit);
        assert(tree::walk_node(shapes, rank, last) == seq![last] + below);
        assert(all =~= seq![last] + below + after);
        assert forall|k: int| 0 <= k < below.len() implies #[trigger] all[k + 1] == below[k] by {}
        assert forall|k: int| 0 <= k < after.len() implies #[trigger] all[k + 1 + below.len()] == after[k] by {}
        assert(all[0] == last);
        assert forall|x: ViewId| below.contains(x) implies all.contains(x) by {
            let k = choose|k: int| 0 <= k < below.len() && below[k] == x;
            assert(all[k + 1] == x);
        }
        assert forall|x: ViewId| after.contains(x) implies all.contains(x) by {
            let k = choose|k: int| 0 <= k < after.len() && after[k] == x;
            assert(all[k + 1 + below.len()] == x);
        }
        assert forall|i: int| 0 <= i < list.len() implies all.contains(#[trigger] list[i]) by {
            if i < list.len() - 1 {
                assert(rest[i] == list[i]);
                assert(after.contains(rest[i]));
            } else {
                assert(all[0] == list[i]);
            }
        }
        assert forall|k: int| 0 <= k < all.len() implies tree::live(shapes, #[trigger] all[k]) && home[all[k]] == root && (
        list.contains(all[k]) || parent_before(shapes, all, k)) by {
            if k == 0 {
                assert(list.contains(last));
            } else if k <= below.len() {
                let b = k - 1;
                assert(all[k] == below[b]);
                if children.contains(below[b]) {
                    let i = choose|i: int| 0 <= i < children.len() && children[i] == below[b];
                    tree::lemma_forest_child(shapes, home, rank, bound, last, i);
                    assert(all[0] == tree::at(shapes, all[k]).parent());
                } else {
                    let j = choose|j: int| 0 <= j < b && #[trigger] below[j] == tree::at(shapes, below[b]).parent();
                    assert(all[j + 1] == below[j]);
                    assert(all[j + 1] == tree::at(shapes, all[k]).parent());
                }
            } else {
                let a = k - 1 - below.len();
                assert(all[k] == after[a]);
                if rest.contains(after[a]) {
                    let i = choose|i: int| 0 <= i < rest.len() && rest[i] == after[a];
                    assert(list[i] == all[k]);
                } else {
                    let j = choose|j: int| 0 <= j < a && #[trigger] after[j] == tree::at(shapes, after[a]).parent();
                    assert(all[j + 1 + below.len()] == tree::at(shapes, all[k]).parent());
                }
            }
        }
        assert forall|k: int, c: ViewId|
            0 <= k < all.len() && #[trigger] tree::at(shapes, all[k]).children().contains(c) implies all.contains(c) by {
            if k == 0 {
                let i = choose|i: int| 0 <= i < children.len() && children[i] == c;
                assert(below.contains(children[i]));
            } else if k <= below.len() {
                assert(all[k] == below[k - 1]);
                assert(tree::at(shapes, below[k - 1]).children().contains(c));
                assert(below.contains(c));
            } else {
                let a = k - 1 - below.len();
                assert(all[k] == after[a]);
                assert(tree::at(shapes, after[a]).children().contains(c));
                assert(after.contains(c));
            }
        }
    }
}

/// A walk from a root visits every node of its layout and no other.
pub proof fn lemma_walk_members(
    shapes: Seq<Option<Shape>>,
    home: Map<ViewId, ViewId>,
    rank: Map<ViewId, nat>,
    bound: nat,
    root: ViewId,
)
    requires
        tree::forest(shapes, home, rank, bound),
        tree::live(shapes, root),
        tree::at(shapes, root).parent() == root,
    ensures
        forall|id: ViewId| #[trigger]
            tree::walk_node(shapes, rank, root).contains(id) <==> tree::live(shapes, id) && home[id] == root,
        forall|k: int|
            0 < k < tree::walk_node(shapes, rank, root).len() ==> #[trigger] parent_before(
                shapes,
                tree::walk_node(shapes, rank, root),
                k,
            ) || tree::walk_node(shapes, rank, root)[k] == root,
        tree::walk_node(shapes, rank, root)[0] == root,
{
    let list = seq![root];
    let limit = rank[root] + 1;
    let walk = tree::walk_node(shapes, rank, root);
    tree::lemma_forest_node(shapes, home, rank, bound, root);
    lemma_good_walk(shapes, home, rank, bound, list, limit, root);
    assert(list.drop_last() =~= Seq::<ViewId>::empty());
    assert(tree::walk_list(shapes, rank, list.drop_last(), limit) =~= Seq::<ViewId>::empty());
    assert(tree::walk_list(shapes, rank, list, limit) =~= walk);
    assert forall|id: ViewId| tree::live(shapes, id) && home[id] == root implies #[trigger] walk.contains(id) by {
        lemma_reached(shapes, home, rank, bound, root, walk, id);
    }
    assert forall|k: int| 0 < k < walk.len() implies #[trigger] parent_before(shapes, walk, k) || walk[k] == root by {
        if list.contains(walk[k]) {
            let i = choose|i: int| 0 <= i < list.len() && list[i] == walk[k];
            assert(walk[k] == root);
        }
    }
}

proof fn lemma_reached(
    shapes: Seq<Option<Shape>>,
    home: Map<ViewId, ViewId>,
    rank: Map<ViewId, nat>,
    bound: nat,
    root: ViewId,
    walk: Seq<ViewId>,
    id: ViewId,
)
    requires
        tree::forest(shapes, home, rank, bound),
        good_walk(shapes, home, seq![root], walk, root),
        tree::live(shapes, id),
        home[id] == root,
    ensures
        walk.contains(id),
    decreases bound - rank[id],
{
    tree::lemma_forest_node(shapes, home, rank, bound, id);
    let parent = tree::at(shapes, id).parent();
    if parent == id {
        assert(seq![root][0] == id);
    } else {
        tree::lemma_forest_node(shapes, home, rank, bound, parent);
        lemma_reached(shapes, home, rank, bound, root, walk, parent);
        let k = choose|k: int| 0 <= k < walk.len() && walk[k] == parent;
        assert(tree::at(shapes, walk[k]).children().contains(id));
    }
}

/// Where a node of the layout under `root` is drawn when the layout fills `area`.
pub open spec fn place(
    shapes: Seq<Option<Shape>>,
    rank: Map<ViewId, nat>,
    bound: nat,
    root: ViewId,
    area: Rect,
    id: ViewId,
) -> Rect
    decreases bound - rank[id],
{
    let parent = tree::at(shapes, id).parent();
    if id == root || !(rank[id] < rank[parent] <= bound) {
        area
    } else {
        match tree::at(shapes, parent) {
            Shape::Container { layout, children, weights, .. } => slot(
                place(shapes, rank, bound, root, area, parent),
                layout,
                weights,
                children.index_of(id),
            ),
            Shape::View { .. } => area,
        }
    }
}

pub open spec fn with_area(node: Node, area: Rect) -> Node {
    match node.content {
        Content::View(view) => Node {
            parent: node.parent,
            content: Content::View(tree::EditorView { doc: view.doc, area }),
        },
        Content::Container(container) => Node {
            parent: node.parent,
            content: Content::Container(
                tree::Container {
                    layout: container.layout,
                    children: container.children,
                    weights: container.weights,
                    area,
                },
            ),
        },
    }
}

/// Whether the nodes differ at most in where they are drawn.
pub open spec fn moved(new: Seq<Option<Node>>, old: Seq<Option<Node>>) -> bool {
    &&& new.len() == old.len()
    &&& forall|i: int|
        0 <= i < new.len() ==> match (#[trigger] old[i]) {
            Some(node) => new[i] == Some(with_area(node, new[i]->0.area())),
            None => new[i] is None,
        }
}

/// Whether every node that is left is drawn where it was.
pub open spec fn areas_kept(new: Seq<Option<Node>>, old: Seq<Option<Node>>) -> bool {
    &&& new.len() == old.len()
    &&& forall|i: int| 0 <= i < new.len() && (#[trigger] new[i]) is Some ==> old[i] is Some && new[i]->0.area() == old[i]->0.area()
}

/// Draws a node in another area.
fn set_area(nodes: &mut Vec<Option<Node>>, id: ViewId, area: Rect)
    requires
        tree::live(tree::shapes_of(old(nodes)@), id),
    ensures
        final(nodes)@ == old(nodes)@.update(id.0 as int, Some(with_area(old(nodes)@[id.0 as int]->0, area))),
        tree::shapes_of(final(nodes)@) == tree::shapes_of(old(nodes)@),
{
    let ghost before = nodes@;
    if let Some(node) = &mut nodes[id.0] {
        match &mut node.content {
            Content::View(view) => {
                view.area = area;
            },
            Content::Container(container) => {
                container.area = area;
            },
        }
    }
    proof {
        assert(nodes@ =~= before.update(id.0 as int, Some(with_area(before[id.0 as int]->0, area))));
        assert(tree::shapes_of(nodes@) =~= tree::shapes_of(before));
    }
}

/// Places the children of the node `id`, which is drawn in `area`.
fn place_children(nodes: &mut Vec<Option<Node>>, id: ViewId, children: &Vec<ViewId>, areas: &Vec<Rect>)
    requires
        children@.len() == areas@.len(),
        children@.no_duplicates(),
        forall|i: int| 0 <= i < children@.len() ==> tree::live(tree::shapes_of(old(nodes)@), #[trigger] children@[i]),
    ensures
        tree::shapes_of(final(nodes)@) == tree::shapes_of(old(nodes)@),
        moved(final(nodes)@, old(nodes)@),
        forall|x: ViewId|
            x.0 < old(nodes)@.len() && !children@.contains(x) ==> #[trigger] final(nodes)@[x.0 as int] == old(
                nodes,
            )@[x.0 as int],
        forall|i: int|
            0 <= i < children@.len() ==> final(nodes)@[(#[trigger] children@[i]).0 as int]->0.area() == areas@[i],
{
    let mut i: usize = 0;
    while i < children.len()
        invariant
            i <= children@.len(),
            children@.len() == areas@.len(),
            children@.no_duplicates(),
            tree::shapes_of(nodes@) == tree::shapes_of(old(nodes)@),
            moved(nodes@, old(nodes)@),
            forall|k: int| 0 <= k < children@.len() ==> tree::live(tree::shapes_of(old(nodes)@), #[trigger] children@[k]),
            forall|x: ViewId|
                x.0 < old(nodes)@.len() && !children@.contains(x) ==> #[trigger] nodes@[x.0 as int] == old(nodes)@[x.0 as int],
            forall|k: int| 0 <= k < i ==> nodes@[(#[trigger] children@[k]).0 as int]->0.area() == areas@[k],
        decreases children.len() - i,
    {
        let child = children[i];
        let ghost before = nodes@;
        set_area(nodes, child, areas[i]);
        proof {
            assert forall|x: ViewId| x.0 < old(nodes)@.len() && !children@.contains(x) implies #[trigger] nodes@[x.0 as int] == old(
                nodes,
            )@[x.0 as int] by {
                assert(children@[i as int] == child);
                assert(x != child);
                assert(x.0 != child.0);
                assert(nodes@[x.0 as int] == before[x.0 as int]);
            }
            assert forall|k: int| 0 <= k < i + 1 implies nodes@[(#[trigger] children@[k]).0 as int]->0.area() == areas@[k] by {
                if k < i {
                    assert(children@[k] != children@[i as int]);
                    assert(children@[k].0 != child.0);
                }
            }
        }
        i += 1;
    }
}

impl Tree {
    /// Whether every node of the active layout is drawn where it belongs.
    pub open spec fn drawn(&self) -> bool {
        forall|id: ViewId| #[trigger]
            self.active(id) ==> self.nodes@[id.0 as int]->0.area() == (if self.fullscreen == Some(id) {
                self.area
            } else {
                place(self.shapes(), self.rank@, self.bound@, self.root, self.area, id)
            })
    }

    /// Where the view of this id is drawn.
    pub open spec fn area_of(&self, id: ViewId) -> Rect {
        self.nodes@[id.0 as int]->0.area()
    }

    /// Whether the trees differ at most in where the active layout is drawn.
    pub open spec fn redrawn(&self, from: &Tree) -> bool {
        &&& *self == (Tree { nodes: self.nodes, ..*from })
        &&& self.shapes() == from.shapes()
        &&& moved(self.nodes@, from.nodes@)
        &&& forall|id: ViewId|
            id.0 < self.nodes@.len() && !self.active(id) ==> #[trigger] self.nodes@[id.0 as int] == from.nodes@[id.0 as int]
    }

    /// Lays the active layout out anew.
    #[verifier::rlimit(40)]
    pub fn recalculate(&mut self)
        requires
            old(self).sound(),
        ensures
            final(self).wf(),
            final(self).redrawn(old(self)),
            final(self).edited(old(self)),
    {
        let ghost before = *self;
        let ghost shapes = self.shapes();
        let ghost home = self.home@;
        let ghost rank = self.rank@;
        let ghost bound = self.bound@;
        let order = self.walk(self.root);
        let root = self.root;
        let area = self.area;
        proof {
            lemma_walk_members(shapes, home, rank, bound, root);
        }
        set_area(&mut self.nodes, root, area);
        proof {
            tree::lemma_forest_node(shapes, home, rank, bound, root);
            assert(before.active(root));
            assert forall|id: ViewId| id.0 < self.nodes@.len() && !before.active(id) implies #[trigger] self.nodes@[id.0 as int]
                == before.nodes@[id.0 as int] by {
                assert(id.0 != root.0);
            }
        }
        let mut k: usize = 0;
        while k < order.len()
            invariant
                k <= order@.len(),
                order@ == tree::walk_node(shapes, rank, root),
                before == *old(self),
                before.sound(),
                shapes == before.shapes(),
                home == before.home@,
                rank == before.rank@,
                bound == before.bound@,
                root == before.root,
                area == before.area,
                area.fits(),
                tree::forest(shapes, home, rank, bound),
                tree::live(shapes, root),
                tree::at(shapes, root).parent() == root,
                *self == (Tree { nodes: self.nodes, ..before }),
                self.shapes() == shapes,
                moved(self.nodes@, before.nodes@),
                forall|id: ViewId|
                    id.0 < self.nodes@.len() && !before.active(id) ==> #[trigger] self.nodes@[id.0 as int]
                        == before.nodes@[id.0 as int],
                forall|id: ViewId| #[trigger]
                    before.active(id) && (id == root || order@.subrange(0, k as int).contains(tree::at(shapes, id).parent()))
                        ==> self.area_of(id) == place(shapes, rank, bound, root, area, id) && self.area_of(id).fits(),
            decreases order.len() - k,
        {
            let id = order[k];
            proof {
                lemma_walk_members(shapes, home, rank, bound, root);
                assert(order@.contains(order@[k as int]));
                tree::lemma_forest_node(shapes, home, rank, bound, id);
                if k > 0 {
                    assert(parent_before(shapes, order@, k as int) || order@[k as int] == root);
                    if order@[k as int] != root {
                        let j = choose|j: int| 0 <= j < k && #[trigger] order@[j] == tree::at(shapes, order@[k as int]).parent();
                        assert(order@.subrange(0, k as int)[j] == order@[j]);
                    }
                }
                assert(before.active(id));
            }
            let mut children: Vec<ViewId> = Vec::new();
            self.push_children(id, &mut children);
            proof {
                assert(children@ =~= tree::at(shapes, id).children());
                assert forall|i: int| 0 <= i < children@.len() implies tree::live(shapes, #[trigger] children@[i])
                    && home[children@[i]] == root && tree::at(shapes, children@[i]).parent() == id && children@[i] != id by {
                    tree::lemma_forest_child(shapes, home, rank, bound, id, i);
                }
            }
            let areas = match &self.nodes[id.0] {
                Some(node) => match &node.content {
                    Content::Container(container) => child_areas(container.area, container.layout, &container.weights),
                    Content::View(_) => Vec::new(),
                },
                None => Vec::new(),
            };
            let ghost was = *self;
            place_children(&mut self.nodes, id, &children, &areas);
            proof {
                let done = order@.subrange(0, k as int);
                let more = order@.subrange(0, k + 1);
                assert(more =~= done.push(id));
                assert forall|x: ViewId| #[trigger]
                    before.active(x) && (x == root || more.contains(tree::at(shapes, x).parent())) implies self.area_of(x)
                    == place(shapes, rank, bound, root, area, x) && self.area_of(x).fits() by {
                    tree::lemma_forest_node(shapes, home, rank, bound, x);
                    if children@.contains(x) {
                        let i = choose|i: int| 0 <= i < children@.len() && children@[i] == x;
                        assert(children@.index_of(x) == i) by {
                            let j = children@.index_of(x);
                            assert(children@[j] == x);
                        }
                        assert(tree::live(shapes, children@[i]));
                        assert(self.nodes@[children@[i].0 as int]->0.area() == areas@[i]);
                    } else {
                        assert(self.nodes@[x.0 as int] == was.nodes@[x.0 as int]);
                        if x != root {
                            let parent = tree::at(shapes, x).parent();
                            let m = choose|m: int| 0 <= m < more.len() && more[m] == parent;
                            if m < k {
                                assert(done[m] == parent);
                            } else {
                                assert(parent == id);
                                assert(parent != x);
                                assert(false);
                            }
                        }
                    }
                }
                assert forall|x: ViewId| x.0 < self.nodes@.len() && !before.active(x) implies #[trigger] self.nodes@[x.0 as int]
                    == before.nodes@[x.0 as int] by {
                    if children@.contains(x) {
                        let i = choose|i: int| 0 <= i < children@.len() && children@[i] == x;
                        assert(tree::live(shapes, children@[i]));
                    }
                    assert(self.nodes@[x.0 as int] == was.nodes@[x.0 as int]);
                }
            }
            k += 1;
        }
        proof {
            assert(order@.subrange(0, order@.len() as int) =~= order@);
            assert forall|id: ViewId| #[trigger] before.active(id) implies self.area_of(id) == place(
                shapes,
                rank,
                bound,
                root,
                area,
                id,
            ) by {
                tree::lemma_forest_node(shapes, home, rank, bound, id);
                if id != root {
                    assert(order@.contains(tree::at(shapes, id).parent()));
                }
            }
        }
        let ghost placed = *self;
        if let Some(view) = self.fullscreen {
            set_area(&mut self.nodes, view, area);
            proof {
                assert(before.active(view));
                assert forall|id: ViewId| id.0 < self.nodes@.len() && id != view implies #[trigger] self.nodes@[id.0 as int]
                    == placed.nodes@[id.0 as int] by {
                    assert(id.0 != view.0);
                }
            }
        }
        proof {
            assert forall|id: ViewId| #[trigger] self.active(id) implies self.area_of(id) == (if self.fullscreen == Some(id) {
                self.area
            } else {
                place(self.shapes(), self.rank@, self.bound@, self.root, self.area, id)
            }) by {
                assert(before.active(id));
                if self.fullscreen != Some(id) {
                    assert(self.nodes@[id.0 as int] == placed.nodes@[id.0 as int]);
                }
            }
        }
    }
}

/// The place of a node is told by the shapes above it alone.
pub proof fn lemma_same_place(before: Tree, after: Tree, id: ViewId)
    requires
        tree::forest(before.shapes(), before.home@, before.rank@, before.bound@),
        tree::forest(after.shapes(), after.home@, after.rank@, after.bound@),
        before.root == after.root,
        before.area == after.area,
        forall|x: ViewId| #[trigger]
            before.active(x) ==> after.holds(x) && tree::at(after.shapes(), x) == tree::at(before.shapes(), x),
        before.active(id),
    ensures
        place(after.shapes(), after.rank@, after.bound@, after.root, after.area, id) == place(
            before.shapes(),
            before.rank@,
            before.bound@,
            before.root,
            before.area,
            id,
        ),
    decreases before.bound@ - before.rank@[id],
{
    assert(after.holds(id));
    tree::lemma_forest_node(before.shapes(), before.home@, before.rank@, before.bound@, id);
    tree::lemma_forest_node(after.shapes(), after.home@, after.rank@, after.bound@, id);
    let parent = tree::at(before.shapes(), id).parent();
    assert(before.active(parent));
    tree::lemma_forest_node(before.shapes(), before.home@, before.rank@, before.bound@, parent);
    tree::lemma_forest_node(after.shapes(), after.home@, after.rank@, after.bound@, parent);
    if id != before.root && parent != id {
        lemma_same_place(before, after, parent);
    }
}

impl Tree {
    /// Lays the tree out in another area.
    pub fn resize(&mut self, area: Rect)
        requires
            old(self).wf(),
            area.fits(),
        ensures
            final(self).wf(),
            final(self).redrawn(&Tree { area, ..*old(self) }),
            final(self).edited(old(self)),
    {
        self.area = area;
        self.recalculate();
    }
}

} // verus!
