//! The split tree of editor views.
//!
//! Nodes live in an arena and are never renumbered. Beside the active layout
//! the arena holds the layouts that temporary ones have suspended, each under
//! a root of its own.

use vstd::prelude::*;

use crate::graphics::Rect;

pub mod edit;
pub mod forest;
pub mod fullscreen;
pub mod geometry;
pub mod geometry_laws;
pub mod order;
pub mod shape_laws;
pub mod temporary_layout;

verus! {

#[derive(Clone, Copy, Debug, PartialEq, Eq, Structural)]
pub struct ViewId(pub usize);

#[derive(Clone, Copy, Debug, PartialEq, Eq, Structural)]
pub struct DocumentId(pub usize);

#[derive(Clone, Copy, Debug, PartialEq, Eq, Structural)]
pub enum Layout {
    Horizontal,
    Vertical,
}

/// A view of a document.
#[derive(Clone, Copy, Debug, PartialEq, Eq, Structural)]
pub struct EditorView {
    pub doc: DocumentId,
    pub area: Rect,
}

#[derive(Debug)]
pub struct Container {
    pub layout: Layout,
    pub children: Vec<ViewId>,
    /// The share of the space that each child gets.
    pub weights: Vec<u16>,
    pub area: Rect,
}

#[derive(Debug)]
pub enum Content {
    View(EditorView),
    Container(Container),
}

#[derive(Debug)]
pub struct Node {
    pub parent: ViewId,
    pub content: Content,
}

/// Opaque identifier for a suspended editor layout.
#[derive(Clone, Copy, Debug, PartialEq, Eq, Structural)]
pub struct TemporaryLayoutToken(pub u64);

/// A layout that a temporary one has suspended.
#[derive(Clone, Copy, Debug, PartialEq, Eq, Structural)]
pub struct TemporaryLayout {
    pub token: TemporaryLayoutToken,
    pub root: ViewId,
    pub focus: ViewId,
    pub fullscreen: Option<ViewId>,
}

/// What a node is, but for where it is drawn.
pub enum Shape {
    View { parent: ViewId, doc: DocumentId },
    Container { parent: ViewId, layout: Layout, children: Seq<ViewId>, weights: Seq<u16> },
}

impl Node {
    pub open spec fn shape(&self) -> Shape {
        match self.content {
            Content::View(view) => Shape::View { parent: self.parent, doc: view.doc },
            Content::Container(container) => Shape::Container {
                parent: self.parent,
                layout: container.layout,
                children: container.children@,
                weights: container.weights@,
            },
        }
    }

    /// Where the node is drawn.
    pub open spec fn area(&self) -> Rect {
        match self.content {
            Content::View(view) => view.area,
            Content::Container(container) => container.area,
        }
    }
}

impl Shape {
    pub open spec fn parent(self) -> ViewId {
        match self {
            Shape::View { parent, .. } => parent,
            Shape::Container { parent, .. } => parent,
        }
    }

    pub open spec fn children(self) -> Seq<ViewId> {
        match self {
            Shape::View { .. } => Seq::empty(),
            Shape::Container { children, .. } => children,
        }
    }

    pub open spec fn weights(self) -> Seq<u16> {
        match self {
            Shape::View { .. } => Seq::empty(),
            Shape::Container { weights, .. } => weights,
        }
    }

    pub open spec fn with_parent(self, new: ViewId) -> Shape {
        match self {
            Shape::View { parent, doc } => Shape::View { parent: new, doc },
            Shape::Container { parent, layout, children, weights } => Shape::Container {
                parent: new,
                layout,
                children,
                weights,
            },
        }
    }

    pub open spec fn with_children(self, new: Seq<ViewId>, shares: Seq<u16>) -> Shape {
        match self {
            Shape::View { .. } => self,
            Shape::Container { parent, layout, children, weights } => Shape::Container {
                parent,
                layout,
                children: new,
                weights: shares,
            },
        }
    }
}

pub open spec fn shapes_of(nodes: Seq<Option<Node>>) -> Seq<Option<Shape>> {
    Seq::new(
        nodes.len(),
        |i: int|
            match nodes[i] {
                Some(node) => Some(node.shape()),
                None => None,
            },
    )
}

/// Whether there is a node of this id.
pub open spec fn live(shapes: Seq<Option<Shape>>, id: ViewId) -> bool {
    id.0 < shapes.len() && shapes[id.0 as int] is Some
}

/// What the node of this id is.
pub open spec fn at(shapes: Seq<Option<Shape>>, id: ViewId) -> Shape {
    shapes[id.0 as int]->0
}

/// Whether a node agrees with its parent, its layout and its rank.
pub open spec fn node_ok(
    shapes: Seq<Option<Shape>>,
    home: Map<ViewId, ViewId>,
    rank: Map<ViewId, nat>,
    bound: nat,
    id: ViewId,
) -> bool {
    let parent = at(shapes, id).parent();
    &&& rank[id] <= bound
    &&& live(shapes, parent)
    &&& at(shapes, parent) is Container
    &&& home[parent] == home[id]
    &&& parent == id ==> home[id] == id
    &&& parent != id ==> rank[id] < rank[parent] && at(shapes, parent).children().contains(id)
    &&& at(shapes, id).children().no_duplicates()
    &&& at(shapes, id).weights().len() == at(shapes, id).children().len()
}

/// Whether the child at `i` is a node that has this one as its parent.
pub open spec fn child_ok(shapes: Seq<Option<Shape>>, id: ViewId, i: int) -> bool {
    let child = at(shapes, id).children()[i];
    live(shapes, child) && at(shapes, child).parent() == id && child != id
}

/// The forest of layouts: `home` names the root of the layout that holds a
/// node, and `rank` falls from a node to its children.
pub open spec fn forest(
    shapes: Seq<Option<Shape>>,
    home: Map<ViewId, ViewId>,
    rank: Map<ViewId, nat>,
    bound: nat,
) -> bool {
    &&& forall|id: ViewId| live(shapes, id) ==> #[trigger] node_ok(shapes, home, rank, bound, id)
    &&& forall|id: ViewId, i: int|
        live(shapes, id) && 0 <= i < at(shapes, id).children().len() ==> #[trigger] child_ok(shapes, id, i)
}

pub proof fn lemma_forest_node(
    shapes: Seq<Option<Shape>>,
    home: Map<ViewId, ViewId>,
    rank: Map<ViewId, nat>,
    bound: nat,
    id: ViewId,
)
    requires
        forest(shapes, home, rank, bound),
        live(shapes, id),
    ensures
        rank[id] <= bound,
        live(shapes, at(shapes, id).parent()),
        at(shapes, at(shapes, id).parent()) is Container,
        home[at(shapes, id).parent()] == home[id],
        at(shapes, id).parent() == id ==> home[id] == id,
        at(shapes, id).parent() != id ==> rank[id] < rank[at(shapes, id).parent()] && at(
            shapes,
            at(shapes, id).parent(),
        ).children().contains(id),
        at(shapes, id).children().no_duplicates(),
        at(shapes, id).weights().len() == at(shapes, id).children().len(),
{
    assert(node_ok(shapes, home, rank, bound, id));
}

pub proof fn lemma_forest_child(
    shapes: Seq<Option<Shape>>,
    home: Map<ViewId, ViewId>,
    rank: Map<ViewId, nat>,
    bound: nat,
    id: ViewId,
    i: int,
)
    requires
        forest(shapes, home, rank, bound),
        live(shapes, id),
        0 <= i < at(shapes, id).children().len(),
    ensures
        live(shapes, at(shapes, id).children()[i]),
        at(shapes, at(shapes, id).children()[i]).parent() == id,
        at(shapes, id).children()[i] != id,
        home[at(shapes, id).children()[i]] == home[id],
        rank[at(shapes, id).children()[i]] < rank[id],
        rank[at(shapes, id).children()[i]] <= bound,
{
    assert(child_ok(shapes, id, i));
    assert(node_ok(shapes, home, rank, bound, at(shapes, id).children()[i]));
}

/// Whether a layout's focus and fullscreen view are among its nodes.
pub open spec fn layout_ok(
    shapes: Seq<Option<Shape>>,
    home: Map<ViewId, ViewId>,
    root: ViewId,
    focus: ViewId,
    fullscreen: Option<ViewId>,
) -> bool {
    &&& live(shapes, root)
    &&& at(shapes, root).parent() == root
    &&& live(shapes, focus)
    &&& home[focus] == root
    &&& at(shapes, focus) is View || focus == root && at(shapes, root).children().len() == 0
    &&& fullscreen matches Some(view) ==> live(shapes, view) && home[view] == root && at(shapes, view) is View
}

pub struct Tree {
    pub root: ViewId,
    pub focus: ViewId,
    pub fullscreen: Option<ViewId>,
    pub area: Rect,
    pub nodes: Vec<Option<Node>>,
    pub temporary_layouts: Vec<TemporaryLayout>,
    pub next_temporary_layout_token: u64,
    pub home: Ghost<Map<ViewId, ViewId>>,
    pub rank: Ghost<Map<ViewId, nat>>,
    pub bound: Ghost<nat>,
}

impl Tree {
    pub open spec fn shapes(&self) -> Seq<Option<Shape>> {
        shapes_of(self.nodes@)
    }

    /// The ids of the nodes.
    pub open spec fn holds(&self, id: ViewId) -> bool {
        live(self.shapes(), id)
    }

    /// Whether the node belongs to the layout that is shown.
    pub open spec fn active(&self, id: ViewId) -> bool {
        self.holds(id) && self.home@[id] == self.root
    }

    pub open spec fn is_view(&self, id: ViewId) -> bool {
        self.holds(id) && at(self.shapes(), id) is View
    }

    /// Whether the layouts are in order and the one that is shown is drawn where
    /// it belongs.
    pub open spec fn wf(&self) -> bool {
        self.sound() && self.drawn()
    }

    /// Whether the layouts are in order, wherever they are drawn.
    pub open spec fn sound(&self) -> bool {
        &&& self.area.fits()
        &&& forest(self.shapes(), self.home@, self.rank@, self.bound@)
        &&& forest::bushy(self.shapes())
        &&& layout_ok(self.shapes(), self.home@, self.root, self.focus, self.fullscreen)
        &&& forall|i: int|
            0 <= i < self.temporary_layouts@.len() ==> {
                let layout = #[trigger] self.temporary_layouts@[i];
                layout_ok(self.shapes(), self.home@, layout.root, layout.focus, layout.fullscreen) && layout.root != self.root
            }
        &&& forall|i: int, j: int|
            0 <= i < j < self.temporary_layouts@.len() ==> (#[trigger] self.temporary_layouts@[i]).root != (
            #[trigger] self.temporary_layouts@[j]).root
        &&& forall|id: ViewId|
            #[trigger] live(self.shapes(), id) && at(self.shapes(), id).parent() == id && id != self.root ==> exists|i: int|
                0 <= i < self.temporary_layouts@.len() && (#[trigger] self.temporary_layouts@[i]).root == id
    }

    /// An empty tree that fills the area.
    pub fn new(area: Rect) -> (out: Tree)
        requires
            area.fits(),
        ensures
            out.wf(),
            out.area == area,
            out.root == out.focus,
            out.fullscreen is None,
            out.temporary_layouts@.len() == 0,
            out.next_temporary_layout_token == 0,
            out.nodes@.len() == 1,
            out.nodes@[0]->0.area() == area,
            out.root == ViewId(0),
            out.shapes() == seq![
                Some(
                    Shape::Container {
                        parent: ViewId(0),
                        layout: Layout::Vertical,
                        children: Seq::empty(),
                        weights: Seq::empty(),
                    },
                ),
            ],
    {
        let root = ViewId(0);
        let mut nodes: Vec<Option<Node>> = Vec::new();
        nodes.push(
            Some(
                Node {
                    parent: root,
                    content: Content::Container(
                        Container { layout: Layout::Vertical, children: Vec::new(), weights: Vec::new(), area },
                    ),
                },
            ),
        );
        let out = Tree {
            root,
            focus: root,
            fullscreen: None,
            area,
            nodes,
            temporary_layouts: Vec::new(),
            next_temporary_layout_token: 0,
            home: Ghost(Map::<ViewId, ViewId>::empty().insert(root, root)),
            rank: Ghost(Map::<ViewId, nat>::empty().insert(root, 1)),
            bound: Ghost(1),
        };
        proof {
            assert(at(out.shapes(), root).children() =~= Seq::<ViewId>::empty());
            assert(at(out.shapes(), root).weights() =~= Seq::<u16>::empty());
            assert(out.shapes() =~= seq![Some(at(out.shapes(), root))]);
            assert forall|id: ViewId| #[trigger] out.active(id) implies id == root by {
                assert(id.0 == 0);
            }
        }
        out
    }

    pub fn contains(&self, id: ViewId) -> (out: bool)
        ensures
            out == self.holds(id),
    {
        id.0 < self.nodes.len() && self.nodes[id.0].is_some()
    }
}

/// The nodes below and including one, each before its children, the last
/// child first.
pub open spec fn walk_node(shapes: Seq<Option<Shape>>, rank: Map<ViewId, nat>, id: ViewId) -> Seq<ViewId>
    decreases rank[id], 1nat, 0nat,
{
    seq![id] + walk_list(shapes, rank, at(shapes, id).children(), rank[id])
}

/// The nodes below and including those of a list, the last of them first.
pub open spec fn walk_list(
    shapes: Seq<Option<Shape>>,
    rank: Map<ViewId, nat>,
    list: Seq<ViewId>,
    limit: nat,
) -> Seq<ViewId>
    decreases limit, 0nat, list.len(),
{
    if list.len() == 0 {
        Seq::empty()
    } else if rank[list.last()] < limit {
        walk_node(shapes, rank, list.last()) + walk_list(shapes, rank, list.drop_last(), limit)
    } else {
        walk_list(shapes, rank, list.drop_last(), limit)
    }
}

proof fn lemma_walk_limit(shapes: Seq<Option<Shape>>, rank: Map<ViewId, nat>, list: Seq<ViewId>, a: nat, b: nat)
    requires
        forall|i: int| 0 <= i < list.len() ==> rank[#[trigger] list[i]] < a && rank[list[i]] < b,
    ensures
        walk_list(shapes, rank, list, a) == walk_list(shapes, rank, list, b),
    decreases list.len(),
{
    if list.len() > 0 {
        assert(list.last() == list[list.len() - 1]);
        assert forall|i: int| 0 <= i < list.drop_last().len() implies rank[#[trigger] list.drop_last()[i]] < a
            && rank[list.drop_last()[i]] < b by {
            assert(list.drop_last()[i] == list[i]);
        }
        lemma_walk_limit(shapes, rank, list.drop_last(), a, b);
    }
}

proof fn lemma_walk_append(
    shapes: Seq<Option<Shape>>,
    rank: Map<ViewId, nat>,
    first: Seq<ViewId>,
    second: Seq<ViewId>,
    limit: nat,
)
    ensures
        walk_list(shapes, rank, first + second, limit) == walk_list(shapes, rank, second, limit) + walk_list(
            shapes,
            rank,
            first,
            limit,
        ),
    decreases second.len(),
{
    if second.len() == 0 {
        assert(first + second =~= first);
        assert(Seq::<ViewId>::empty() + walk_list(shapes, rank, first, limit) =~= walk_list(shapes, rank, first, limit));
    } else {
        let all = first + second;
        assert(all.last() == second.last());
        assert(all.drop_last() =~= first + second.drop_last());
        lemma_walk_append(shapes, rank, first, second.drop_last(), limit);
        let head = walk_node(shapes, rank, second.last());
        let middle = walk_list(shapes, rank, second.drop_last(), limit);
        let tail = walk_list(shapes, rank, first, limit);
        assert(head + (middle + tail) =~= (head + middle) + tail);
    }
}

proof fn lemma_walk_step(
    shapes: Seq<Option<Shape>>,
    home: Map<ViewId, ViewId>,
    rank: Map<ViewId, nat>,
    bound: nat,
    stack: Seq<ViewId>,
    done: Seq<ViewId>,
)
    requires
        forest(shapes, home, rank, bound),
        stack.len() > 0,
        forall|i: int| 0 <= i < stack.len() ==> live(shapes, #[trigger] stack[i]),
    ensures
        ({
            let id = stack.last();
            let next = stack.drop_last() + at(shapes, id).children();
            let limit = bound + 1;
            &&& forall|i: int| 0 <= i < next.len() ==> live(shapes, #[trigger] next[i])
            &&& done.push(id) + walk_list(shapes, rank, next, limit) == done + walk_list(shapes, rank, stack, limit)
            &&& walk_list(shapes, rank, next, limit).len() < walk_list(shapes, rank, stack, limit).len()
        }),
{
    let id = stack.last();
    let rest = stack.drop_last();
    let children = at(shapes, id).children();
    let limit = bound + 1;
    assert(live(shapes, stack[stack.len() - 1]));
    lemma_forest_node(shapes, home, rank, bound, id);
    assert forall|i: int| 0 <= i < children.len() implies live(shapes, #[trigger] children[i]) && rank[children[i]] < rank[id]
        && rank[children[i]] < limit by {
        lemma_forest_child(shapes, home, rank, bound, id, i);
    }
    let next = rest + children;
    assert forall|i: int| 0 <= i < next.len() implies live(shapes, #[trigger] next[i]) by {
        if i < rest.len() {
            assert(next[i] == stack[i]);
        } else {
            assert(next[i] == children[i - rest.len()]);
        }
    }
    lemma_walk_limit(shapes, rank, children, rank[id], limit);
    lemma_walk_append(shapes, rank, rest, children, limit);
    let below = walk_list(shapes, rank, children, limit);
    let after = walk_list(shapes, rank, rest, limit);
    assert(walk_node(shapes, rank, id) == seq![id] + walk_list(shapes, rank, children, rank[id]));
    assert(walk_list(shapes, rank, stack, limit) == walk_node(shapes, rank, id) + after);
    assert(done + ((seq![id] + below) + after) =~= done.push(id) + (below + after));
}

impl Tree {
    /// Appends the children of a node to a list.
    pub(crate) fn push_children(&self, id: ViewId, list: &mut Vec<ViewId>)
        requires
            self.holds(id),
        ensures
            final(list)@ == old(list)@ + at(self.shapes(), id).children(),
    {
        let ghost children = at(self.shapes(), id).children();
        let ghost before = list@;
        if let Some(node) = &self.nodes[id.0] {
            match &node.content {
                Content::Container(container) => {
                    let mut i: usize = 0;
                    while i < container.children.len()
                        invariant
                            i <= container.children.len(),
                            children == container.children@,
                            list@ == before + children.subrange(0, i as int),
                        decreases container.children.len() - i,
                    {
                        list.push(container.children[i]);
                        i += 1;
                        proof {
                            assert(before + children.subrange(0, i as int) =~= (before + children.subrange(0, i - 1)).push(
                                children[i - 1],
                            ));
                        }
                    }
                    proof {
                        assert(children.subrange(0, children.len() as int) =~= children);
                    }
                },
                Content::View(_) => {
                    proof {
                        assert(before + children =~= before);
                    }
                },
            }
        }
    }

    /// The nodes of the layout below `root`, each before its children, the
    /// last child first.
    pub fn walk(&self, root: ViewId) -> (out: Vec<ViewId>)
        requires
            forest(self.shapes(), self.home@, self.rank@, self.bound@),
            self.holds(root),
        ensures
            out@ == walk_node(self.shapes(), self.rank@, root),
    {
        let ghost shapes = self.shapes();
        let ghost rank = self.rank@;
        let ghost limit = self.bound@ + 1;
        let mut stack: Vec<ViewId> = Vec::new();
        stack.push(root);
        let mut out: Vec<ViewId> = Vec::new();
        proof {
            lemma_forest_node(shapes, self.home@, rank, self.bound@, root);
            assert(stack@.drop_last() =~= Seq::<ViewId>::empty());
            assert(walk_list(shapes, rank, Seq::<ViewId>::empty(), limit) =~= Seq::<ViewId>::empty());
            assert(walk_list(shapes, rank, stack@, limit) =~= walk_node(shapes, rank, root));
            assert(out@ + walk_list(shapes, rank, stack@, limit) =~= walk_node(shapes, rank, root));
        }
        while stack.len() > 0
            invariant
                forest(shapes, self.home@, rank, self.bound@),
                shapes == self.shapes(),
                rank == self.rank@,
                limit == self.bound@ + 1,
                forall|i: int| 0 <= i < stack@.len() ==> live(shapes, #[trigger] stack@[i]),
                out@ + walk_list(shapes, rank, stack@, limit) == walk_node(shapes, rank, root),
            decreases walk_list(shapes, rank, stack@, limit).len(),
        {
            proof {
                lemma_walk_step(shapes, self.home@, rank, self.bound@, stack@, out@);
                assert(live(shapes, stack@[stack@.len() - 1]));
            }
            let ghost before = stack@;
            let id = stack.pop().unwrap();
            proof {
                assert(stack@ =~= before.drop_last());
            }
            self.push_children(id, &mut stack);
            out.push(id);
        }
        proof {
            assert(out@ + Seq::<ViewId>::empty() =~= out@);
        }
        out
    }
}

} // verus!
