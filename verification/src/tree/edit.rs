//! Adding views to a layout and removing them.

use vstd::prelude::*;

use crate::tree::forest::{
    adopt, bushy, collapse, fresh, graft, lemma_collapse, lemma_graft, lemma_plant, lemma_prune, lemma_wrap, plant,
    prune, raised, rewire, spread, wrap,
};
use crate::tree::geometry::{areas_kept, lemma_same_place, lemma_walk_members};
use crate::tree::order::{
    lemma_other_view, lemma_root_has_children, lemma_views_in, lemma_walk_no_duplicates, views_in,
};
use crate::tree::{
    self, at, child_ok, live, node_ok, shapes_of, Container, Content, DocumentId, EditorView, Layout, Node, Shape, Tree, ViewId,
};

verus! {

/// Gives a container other children.
fn set_children(nodes: &mut Vec<Option<Node>>, id: ViewId, children: Vec<ViewId>, weights: Vec<u16>)
    requires
        live(shapes_of(old(nodes)@), id),
        at(shapes_of(old(nodes)@), id) is Container,
    ensures
        shapes_of(final(nodes)@) == rewire(shapes_of(old(nodes)@), id, children@, weights@),
        areas_kept(final(nodes)@, old(nodes)@),
{
    let ghost before = nodes@;
    if let Some(node) = &mut nodes[id.0] {
        if let Content::Container(container) = &mut node.content {
            container.children = children;
            container.weights = weights;
        }
    }
    proof {
        assert(shapes_of(nodes@) =~= rewire(shapes_of(before), id, children@, weights@));
    }
}

/// Gives a node another parent.
fn set_parent(nodes: &mut Vec<Option<Node>>, id: ViewId, parent: ViewId)
    requires
        live(shapes_of(old(nodes)@), id),
    ensures
        shapes_of(final(nodes)@) == adopt(shapes_of(old(nodes)@), id, parent),
        areas_kept(final(nodes)@, old(nodes)@),
{
    let ghost before = nodes@;
    if let Some(node) = &mut nodes[id.0] {
        node.parent = parent;
    }
    proof {
        assert(shapes_of(nodes@) =~= adopt(shapes_of(before), id, parent));
    }
}

/// Removes a node, whatever names it.
fn drop_node(nodes: &mut Vec<Option<Node>>, id: ViewId)
    requires
        live(shapes_of(old(nodes)@), id),
    ensures
        shapes_of(final(nodes)@) == shapes_of(old(nodes)@).update(id.0 as int, None),
        final(nodes)@ == old(nodes)@.update(id.0 as int, None),
        areas_kept(final(nodes)@, old(nodes)@),
{
    let ghost before = nodes@;
    nodes.set(id.0, None);
    proof {
        assert(shapes_of(nodes@) =~= shapes_of(before).update(id.0 as int, None));
    }
}

/// The place of an id in a list that holds it.
fn index_in(list: &Vec<ViewId>, id: ViewId) -> (out: usize)
    requires
        list@.contains(id),
        list@.no_duplicates(),
    ensures
        out == list@.index_of(id),
        out < list@.len(),
        list@[out as int] == id,
{
    let mut i: usize = 0;
    while i < list.len()
        invariant
            i <= list@.len(),
            list@.contains(id),
            list@.no_duplicates(),
            forall|k: int| 0 <= k < i ==> list@[k] != id,
        decreases list.len() - i,
    {
        if list[i] == id {
            return i;
        }
        i += 1;
    }
    proof {
        let k = choose|k: int| 0 <= k < list@.len() && list@[k] == id;
        assert(false);
    }
    0
}

impl Tree {
    /// The children of a node.
    pub fn children_of(&self, id: ViewId) -> (out: Vec<ViewId>)
        requires
            self.holds(id),
        ensures
            out@ == at(self.shapes(), id).children(),
    {
        let mut out: Vec<ViewId> = Vec::new();
        self.push_children(id, &mut out);
        proof {
            assert(out@ =~= at(self.shapes(), id).children());
        }
        out
    }

    /// The weights of the children of a node.
    pub fn weights_of(&self, id: ViewId) -> (out: Vec<u16>)
        requires
            self.holds(id),
        ensures
            out@ == at(self.shapes(), id).weights(),
    {
        let mut out: Vec<u16> = Vec::new();
        let ghost all = at(self.shapes(), id).weights();
        if let Some(node) = &self.nodes[id.0] {
            if let Content::Container(container) = &node.content {
                let mut i: usize = 0;
                while i < container.weights.len()
                    invariant
                        i <= container.weights@.len(),
                        all == container.weights@,
                        out@ == all.subrange(0, i as int),
                    decreases container.weights.len() - i,
                {
                    out.push(container.weights[i]);
                    i += 1;
                    proof {
                        assert(all.subrange(0, i as int) =~= all.subrange(0, i - 1).push(all[i - 1]));
                    }
                }
                proof {
                    assert(all.subrange(0, all.len() as int) =~= all);
                }
                return out;
            }
        }
        proof {
            assert(out@ =~= all);
        }
        out
    }

    /// The layout of a container.
    fn layout_of(&self, id: ViewId) -> (out: Layout)
        requires
            self.holds(id),
        ensures
            at(self.shapes(), id) matches Shape::Container { layout, .. } ==> out == layout,
    {
        match &self.nodes[id.0] {
            Some(node) => match &node.content {
                Content::Container(container) => container.layout,
                Content::View(_) => Layout::Vertical,
            },
            None => Layout::Vertical,
        }
    }

    /// Whether the tree differs from another at most in its nodes.
    pub open spec fn only_nodes(&self, from: &Tree) -> bool {
        *self == (Tree { nodes: self.nodes, home: self.home, rank: self.rank, bound: self.bound, ..*from })
    }

    /// Whether the tree differs from another only in the layout that is shown.
    /// What is suspended is as it was.
    pub open spec fn edited(&self, from: &Tree) -> bool {
        &&& self.root == from.root
        &&& self.temporary_layouts@ == from.temporary_layouts@
        &&& elsewhere(from.shapes(), self.shapes(), from.home@, self.home@, from.root)
    }

    /// Adds a view of the document below `parent`, before the child at `pos`.
    pub(crate) fn graft_view(&mut self, parent: ViewId, pos: usize, doc: DocumentId) -> (out: ViewId)
        requires
            tree::forest(old(self).shapes(), old(self).home@, old(self).rank@, old(self).bound@),
            old(self).nodes@.len() < usize::MAX,
            old(self).holds(parent),
            at(old(self).shapes(), parent) is Container,
            pos <= at(old(self).shapes(), parent).children().len(),
        ensures
            out == fresh(old(self).shapes()),
            final(self).shapes() == graft(old(self).shapes(), parent, pos as int, doc),
            final(self).home@ == old(self).home@.insert(out, old(self).home@[parent]),
            final(self).rank@ == raised(old(self).rank@, out),
            final(self).bound@ == old(self).bound@ + 1,
            final(self).only_nodes(old(self)),
            tree::forest(final(self).shapes(), final(self).home@, final(self).rank@, final(self).bound@),
    {
        let ghost before = self.shapes();
        let id = ViewId(self.nodes.len());
        let mut children = self.children_of(parent);
        let mut weights = self.weights_of(parent);
        proof {
            lemma_graft(before, self.home@, self.rank@, self.bound@, parent, pos as int, doc);
            assert(node_ok(before, self.home@, self.rank@, self.bound@, parent));
        }
        children.insert(pos, id);
        weights.insert(pos, 1);
        set_children(&mut self.nodes, parent, children, weights);
        let ghost middle = self.shapes();
        let ghost nodes = self.nodes@;
        let area = self.area;
        self.nodes.push(Some(Node { parent, content: Content::View(EditorView { doc, area }) }));
        proof {
            self.home@ = self.home@.insert(id, self.home@[parent]);
            self.rank@ = raised(self.rank@, id);
            self.bound@ = self.bound@ + 1;
            assert(self.shapes() =~= middle.push(Some(Shape::View { parent, doc })));
        }
        id
    }

    /// Adds the root of another layout.
    pub(crate) fn plant_root(&mut self) -> (out: ViewId)
        requires
            tree::forest(old(self).shapes(), old(self).home@, old(self).rank@, old(self).bound@),
            old(self).nodes@.len() < usize::MAX,
        ensures
            out == fresh(old(self).shapes()),
            final(self).shapes() == plant(old(self).shapes(), Layout::Vertical),
            final(self).home@ == old(self).home@.insert(out, out),
            final(self).rank@ == old(self).rank@.insert(out, 0),
            final(self).bound@ == old(self).bound@,
            final(self).only_nodes(old(self)),
            tree::forest(final(self).shapes(), final(self).home@, final(self).rank@, final(self).bound@),
    {
        let ghost before = self.shapes();
        let id = ViewId(self.nodes.len());
        let area = self.area;
        let children: Vec<ViewId> = Vec::new();
        let weights: Vec<u16> = Vec::new();
        self.nodes.push(
            Some(
                Node { parent: id, content: Content::Container(Container { layout: Layout::Vertical, children, weights, area }) },
            ),
        );
        proof {
            lemma_plant(before, self.home@, self.rank@, self.bound@, Layout::Vertical);
            self.home@ = self.home@.insert(id, id);
            self.rank@ = self.rank@.insert(id, 0);
            assert(self.shapes() =~= plant(before, Layout::Vertical));
        }
        id
    }

    /// Puts a container in the place of a node and the node into the container.
    fn wrap_node(&mut self, id: ViewId, layout: Layout) -> (out: ViewId)
        requires
            tree::forest(old(self).shapes(), old(self).home@, old(self).rank@, old(self).bound@),
            old(self).nodes@.len() < usize::MAX,
            old(self).holds(id),
            at(old(self).shapes(), id).parent() != id,
        ensures
            out == fresh(old(self).shapes()),
            final(self).shapes() == wrap(old(self).shapes(), id, layout),
            final(self).home@ == old(self).home@.insert(out, old(self).home@[id]),
            final(self).rank@ == spread(old(self).rank@, id, out),
            final(self).bound@ == 2 * old(self).bound@ + 1,
            final(self).only_nodes(old(self)),
            tree::forest(final(self).shapes(), final(self).home@, final(self).rank@, final(self).bound@),
    {
        let ghost before = self.shapes();
        let new = ViewId(self.nodes.len());
        let parent = self.parent_of(id);
        proof {
            lemma_wrap(before, self.home@, self.rank@, self.bound@, id, layout);
            assert(node_ok(before, self.home@, self.rank@, self.bound@, id));
            assert(node_ok(before, self.home@, self.rank@, self.bound@, parent));
        }
        let mut siblings = self.children_of(parent);
        let weights = self.weights_of(parent);
        let pos = index_in(&siblings, id);
        siblings.set(pos, new);
        set_children(&mut self.nodes, parent, siblings, weights);
        set_parent(&mut self.nodes, id, new);
        let ghost middle = self.shapes();
        let mut children: Vec<ViewId> = Vec::new();
        children.push(id);
        let mut shares: Vec<u16> = Vec::new();
        shares.push(1);
        let area = self.area;
        proof {
            assert(children@ =~= seq![id]);
            assert(shares@ =~= seq![1u16]);
        }
        self.nodes.push(
            Some(Node { parent, content: Content::Container(Container { layout, children, weights: shares, area }) }),
        );
        proof {
            self.home@ = self.home@.insert(new, self.home@[id]);
            self.rank@ = spread(self.rank@, id, new);
            self.bound@ = 2 * self.bound@ + 1;
            assert(self.shapes() =~= wrap(before, id, layout));
        }
        new
    }

    /// Removes a node without children.
    fn prune_node(&mut self, id: ViewId)
        requires
            tree::forest(old(self).shapes(), old(self).home@, old(self).rank@, old(self).bound@),
            old(self).holds(id),
            at(old(self).shapes(), id).parent() != id,
            at(old(self).shapes(), id).children().len() == 0,
        ensures
            final(self).shapes() == prune(old(self).shapes(), id),
            areas_kept(final(self).nodes@, old(self).nodes@),
            *final(self) == (Tree { nodes: final(self).nodes, ..*old(self) }),
            tree::forest(final(self).shapes(), final(self).home@, final(self).rank@, final(self).bound@),
    {
        let ghost before = self.shapes();
        let parent = self.parent_of(id);
        proof {
            lemma_prune(before, self.home@, self.rank@, self.bound@, id);
            assert(node_ok(before, self.home@, self.rank@, self.bound@, id));
            assert(node_ok(before, self.home@, self.rank@, self.bound@, parent));
        }
        let mut siblings = self.children_of(parent);
        let mut weights = self.weights_of(parent);
        let pos = index_in(&siblings, id);
        siblings.remove(pos);
        weights.remove(pos);
        set_children(&mut self.nodes, parent, siblings, weights);
        drop_node(&mut self.nodes, id);
    }

    /// Puts the only child of a container in the place of the container.
    fn collapse_node(&mut self, id: ViewId)
        requires
            tree::forest(old(self).shapes(), old(self).home@, old(self).rank@, old(self).bound@),
            old(self).holds(id),
            at(old(self).shapes(), id).parent() != id,
            at(old(self).shapes(), id).children().len() == 1,
        ensures
            final(self).shapes() == collapse(old(self).shapes(), id),
            areas_kept(final(self).nodes@, old(self).nodes@),
            *final(self) == (Tree { nodes: final(self).nodes, ..*old(self) }),
            tree::forest(final(self).shapes(), final(self).home@, final(self).rank@, final(self).bound@),
    {
        let ghost before = self.shapes();
        let parent = self.parent_of(id);
        let own = self.children_of(id);
        let child = own[0];
        proof {
            lemma_collapse(before, self.home@, self.rank@, self.bound@, id);
            assert(node_ok(before, self.home@, self.rank@, self.bound@, id));
            assert(node_ok(before, self.home@, self.rank@, self.bound@, parent));
            assert(child_ok(before, id, 0));
        }
        let mut siblings = self.children_of(parent);
        let weights = self.weights_of(parent);
        let pos = index_in(&siblings, id);
        siblings.set(pos, child);
        set_children(&mut self.nodes, parent, siblings, weights);
        set_parent(&mut self.nodes, child, parent);
        drop_node(&mut self.nodes, id);
    }
}

/// Whether every node outside the layout of `root` is as it was.
pub open spec fn elsewhere(
    old_shapes: Seq<Option<Shape>>,
    new_shapes: Seq<Option<Shape>>,
    old_home: Map<ViewId, ViewId>,
    new_home: Map<ViewId, ViewId>,
    root: ViewId,
) -> bool {
    &&& forall|id: ViewId|
        live(old_shapes, id) && old_home[id] != root ==> #[trigger] live(new_shapes, id) && at(new_shapes, id) == at(
            old_shapes,
            id,
        ) && new_home[id] == old_home[id]
    &&& forall|id: ViewId| #[trigger] live(new_shapes, id) && new_home[id] != root ==> live(old_shapes, id)
        && old_home[id] == new_home[id]
}

/// Edits one after the other are edits.
pub proof fn law_edits_add_up(first: Tree, second: Tree, third: Tree)
    requires
        second.edited(&first),
        third.edited(&second),
    ensures
        third.edited(&first),
{
    let a = first.shapes();
    let b = second.shapes();
    let c = third.shapes();
    assert forall|id: ViewId| live(a, id) && first.home@[id] != first.root implies #[trigger] live(c, id) && at(c, id) == at(a, id)
        && third.home@[id] == first.home@[id] by {
        assert(live(b, id));
        assert(second.home@[id] != second.root);
        assert(live(c, id));
    }
    assert forall|id: ViewId| #[trigger] live(c, id) && third.home@[id] != first.root implies live(a, id) && first.home@[id]
        == third.home@[id] by {
        assert(live(b, id));
    }
}

/// Whether two stacks of suspended layouts agree but for the layout of `root`.
pub open spec fn same_layouts(old: Seq<tree::TemporaryLayout>, new: Seq<tree::TemporaryLayout>, root: ViewId) -> bool {
    &&& old.len() == new.len()
    &&& forall|i: int|
        0 <= i < new.len() ==> (#[trigger] new[i]).root == old[i].root && (old[i].root != root ==> new[i] == old[i])
}

/// A change of one layout keeps the layouts in order.
pub(crate) proof fn lemma_sound(before: Tree, after: Tree, root: ViewId)
    requires
        before.sound(),
        live(before.shapes(), root),
        at(before.shapes(), root).parent() == root,
        after.area == before.area,
        after.root == before.root,
        tree::forest(after.shapes(), after.home@, after.rank@, after.bound@),
        bushy(after.shapes()),
        elsewhere(before.shapes(), after.shapes(), before.home@, after.home@, root),
        same_layouts(before.temporary_layouts@, after.temporary_layouts@, root),
        after.root != root ==> after.focus == before.focus && after.fullscreen == before.fullscreen,
        after.root == root ==> tree::layout_ok(after.shapes(), after.home@, after.root, after.focus, after.fullscreen),
        forall|i: int|
            0 <= i < after.temporary_layouts@.len() && (#[trigger] after.temporary_layouts@[i]).root == root ==> tree::layout_ok(
                after.shapes(),
                after.home@,
                root,
                after.temporary_layouts@[i].focus,
                after.temporary_layouts@[i].fullscreen,
            ),
    ensures
        after.sound(),
{
    let a = before.shapes();
    let b = after.shapes();
    assert(node_ok(a, before.home@, before.rank@, before.bound@, before.root));
    if after.root != root {
        assert(live(b, before.root));
        assert(live(b, before.focus));
        if let Some(view) = before.fullscreen {
            assert(live(b, view));
        }
    }
    assert forall|i: int| 0 <= i < after.temporary_layouts@.len() implies {
        let layout = #[trigger] after.temporary_layouts@[i];
        tree::layout_ok(b, after.home@, layout.root, layout.focus, layout.fullscreen) && layout.root != after.root
    } by {
        let was = before.temporary_layouts@[i];
        let layout = after.temporary_layouts@[i];
        if layout.root != root {
            assert(node_ok(a, before.home@, before.rank@, before.bound@, was.root));
            assert(live(b, was.root));
            assert(live(b, was.focus));
            if let Some(view) = was.fullscreen {
                assert(live(b, view));
            }
        }
    }
    assert forall|i: int, j: int| 0 <= i < j < after.temporary_layouts@.len() implies (#[trigger] after.temporary_layouts@[i]).root != (
    #[trigger] after.temporary_layouts@[j]).root by {
        assert(before.temporary_layouts@[i].root != before.temporary_layouts@[j].root);
    }
    assert forall|id: ViewId| #[trigger] live(b, id) && at(b, id).parent() == id && id != after.root implies exists|i: int|
        0 <= i < after.temporary_layouts@.len() && (#[trigger] after.temporary_layouts@[i]).root == id by {
        assert(node_ok(b, after.home@, after.rank@, after.bound@, id));
        if id == root {
            let i = choose|i: int| 0 <= i < before.temporary_layouts@.len() && (#[trigger] before.temporary_layouts@[i]).root == id;
            assert(after.temporary_layouts@[i].root == id);
        } else {
            assert(live(a, id));
            let i = choose|i: int| 0 <= i < before.temporary_layouts@.len() && (#[trigger] before.temporary_layouts@[i]).root == id;
            assert(after.temporary_layouts@[i].root == id);
        }
    }
}

/// A change of a layout that is not shown leaves the one that is shown where it
/// is drawn.
proof fn lemma_drawn_elsewhere(before: Tree, after: Tree, root: ViewId)
    requires
        before.wf(),
        after.sound(),
        after.root == before.root,
        after.area == before.area,
        after.fullscreen == before.fullscreen,
        root != before.root,
        elsewhere(before.shapes(), after.shapes(), before.home@, after.home@, root),
        areas_kept(after.nodes@, before.nodes@),
    ensures
        after.wf(),
{
    assert forall|x: ViewId| #[trigger] before.active(x) implies after.holds(x) && at(after.shapes(), x) == at(before.shapes(), x) by {
        assert(live(after.shapes(), x));
    }
    assert forall|id: ViewId| #[trigger] after.active(id) implies after.area_of(id) == (if after.fullscreen == Some(id) {
        after.area
    } else {
        crate::tree::geometry::place(after.shapes(), after.rank@, after.bound@, after.root, after.area, id)
    }) by {
        assert(live(after.shapes(), id));
        assert(before.active(id));
        lemma_same_place(before, after, id);
        assert(after.nodes@[id.0 as int] is Some);
    }
}

/// Where a new view goes: the parent and the place among its children.
pub open spec fn insertion(shapes: Seq<Option<Shape>>, focus: ViewId) -> (ViewId, int) {
    let parent = at(shapes, focus).parent();
    if at(shapes, parent).children().len() == 0 {
        (parent, 0)
    } else {
        (parent, at(shapes, parent).children().index_of(focus) + 1)
    }
}

/// The shapes after the focused node was split.
pub open spec fn split_shapes(shapes: Seq<Option<Shape>>, focus: ViewId, layout: Layout, doc: DocumentId) -> Seq<Option<Shape>> {
    let parent = at(shapes, focus).parent();
    if at(shapes, parent)->layout == layout {
        graft(shapes, insertion(shapes, focus).0, insertion(shapes, focus).1, doc)
    } else {
        graft(wrap(shapes, focus, layout), fresh(shapes), 1, doc)
    }
}

/// The shapes after a view was removed: a container that is left with one
/// child gives its place to that child.
pub open spec fn removed(shapes: Seq<Option<Shape>>, id: ViewId) -> Seq<Option<Shape>> {
    let parent = at(shapes, id).parent();
    let after = prune(shapes, id);
    if at(after, parent).children().len() == 1 && at(shapes, parent).parent() != parent {
        collapse(after, parent)
    } else {
        after
    }
}

impl Tree {
    fn insertion_place(&self) -> (out: (ViewId, usize))
        requires
            self.wf(),
        ensures
            (out.0, out.1 as int) == insertion(self.shapes(), self.focus),
            self.holds(out.0),
            at(self.shapes(), out.0) is Container,
            self.home@[out.0] == self.root,
            out.1 <= at(self.shapes(), out.0).children().len(),
    {
        let parent = self.parent_of(self.focus);
        proof {
            assert(node_ok(self.shapes(), self.home@, self.rank@, self.bound@, self.focus));
            assert(node_ok(self.shapes(), self.home@, self.rank@, self.bound@, parent));
        }
        let children = self.children_of(parent);
        if children.len() == 0 {
            return (parent, 0);
        }
        let pos = index_in(&children, self.focus);
        (parent, pos + 1)
    }

    /// Adds a view of the document after the focused one and focuses it.
    pub fn insert(&mut self, doc: DocumentId) -> (out: ViewId)
        requires
            old(self).wf(),
            old(self).nodes@.len() < usize::MAX,
        ensures
            final(self).wf(),
            out == fresh(old(self).shapes()),
            final(self).focus == out,
            final(self).fullscreen is None,
            final(self).shapes() == graft(
                old(self).shapes(),
                insertion(old(self).shapes(), old(self).focus).0,
                insertion(old(self).shapes(), old(self).focus).1,
                doc,
            ),
            final(self).home@ == old(self).home@.insert(out, old(self).root),
            final(self).edited(old(self)),
            final(self).root == old(self).root,
            final(self).area == old(self).area,
            final(self).temporary_layouts == old(self).temporary_layouts,
            final(self).next_temporary_layout_token == old(self).next_temporary_layout_token,
    {
        let ghost before = *self;
        let (parent, pos) = self.insertion_place();
        let id = self.graft_view(parent, pos, doc);
        self.focus = id;
        self.fullscreen = None;
        proof {
            let a = before.shapes();
            let b = self.shapes();
            assert(node_ok(a, before.home@, before.rank@, before.bound@, before.root));
            assert forall|x: ViewId| #[trigger] live(b, x) implies x == id || live(a, x) by {
                if x != id {
                    assert(x.0 != id.0);
                }
            }
            assert forall|x: ViewId| live(a, x) implies #[trigger] live(b, x) by {}
            assert(live(b, id));
            lemma_sound(before, *self, before.root);
        }
        self.recalculate();
        id
    }

    /// Splits the focused view in the given direction and focuses the new view.
    pub fn split(&mut self, doc: DocumentId, layout: Layout) -> (out: ViewId)
        requires
            old(self).wf(),
            old(self).nodes@.len() + 2 <= usize::MAX,
            old(self).focus == old(self).root ==> at(old(self).shapes(), old(self).root)->layout == layout,
        ensures
            final(self).wf(),
            final(self).holds(out),
            out.0 + 1 == final(self).nodes@.len(),
            final(self).focus == out,
            final(self).fullscreen is None,
            final(self).shapes() == split_shapes(old(self).shapes(), old(self).focus, layout, doc),
            final(self).active(out),
            final(self).edited(old(self)),
            final(self).root == old(self).root,
            final(self).area == old(self).area,
            final(self).temporary_layouts == old(self).temporary_layouts,
            final(self).next_temporary_layout_token == old(self).next_temporary_layout_token,
    {
        let ghost before = *self;
        let ghost a = before.shapes();
        let focus = self.focus;
        let parent = self.parent_of(focus);
        proof {
            assert(node_ok(a, before.home@, before.rank@, before.bound@, before.root));
            assert(node_ok(a, before.home@, before.rank@, before.bound@, focus));
            assert(node_ok(a, before.home@, before.rank@, before.bound@, parent));
        }
        let same = self.layout_of(parent) == layout;
        let id = if same {
            let (parent, pos) = self.insertion_place();
            self.graft_view(parent, pos, doc)
        } else {
            let container = self.wrap_node(focus, layout);
            proof {
                assert(self.shapes().len() == self.nodes@.len());
                assert(a.len() == before.nodes@.len());
            }
            self.graft_view(container, 1, doc)
        };
        self.focus = id;
        self.fullscreen = None;
        proof {
            let b = self.shapes();
            assert forall|x: ViewId| #[trigger] live(b, x) implies x == id || live(a, x) || !same && x == fresh(a) by {
                if x != id {
                    assert(x.0 != id.0);
                    if x != fresh(a) {
                        assert(x.0 != fresh(a).0);
                    }
                }
            }
            assert forall|x: ViewId| live(a, x) implies #[trigger] live(b, x) by {}
            assert(live(b, id));
            lemma_sound(before, *self, before.root);
        }
        self.recalculate();
        id
    }

    /// Removes a view from its layout.
    fn remove_from_layout(&mut self, index: ViewId)
        requires
            tree::forest(old(self).shapes(), old(self).home@, old(self).rank@, old(self).bound@),
            bushy(old(self).shapes()),
            old(self).is_view(index),
        ensures
            final(self).shapes() == removed(old(self).shapes(), index),
            *final(self) == (Tree { nodes: final(self).nodes, ..*old(self) }),
            areas_kept(final(self).nodes@, old(self).nodes@),
            tree::forest(final(self).shapes(), final(self).home@, final(self).rank@, final(self).bound@),
            bushy(final(self).shapes()),
            elsewhere(
                old(self).shapes(),
                final(self).shapes(),
                old(self).home@,
                old(self).home@,
                old(self).home@[index],
            ),
            !live(final(self).shapes(), index),
            forall|x: ViewId|
                old(self).is_view(x) && x != index ==> #[trigger] live(final(self).shapes(), x) && at(
                    final(self).shapes(),
                    x,
                ) is View,
            forall|x: ViewId| live(final(self).shapes(), x) ==> #[trigger] live(old(self).shapes(), x),
            forall|x: ViewId| #[trigger]
                live(final(self).shapes(), x) && at(final(self).shapes(), x) is View ==> at(old(self).shapes(), x) is View,
            forall|x: ViewId|
                #[trigger] live(old(self).shapes(), x) && at(old(self).shapes(), x).parent() == x ==> live(
                    final(self).shapes(),
                    x,
                ) && at(final(self).shapes(), x).parent() == x && at(final(self).shapes(), x) is Container,
            at(old(self).shapes(), at(old(self).shapes(), index).parent()).children().len() == 1 ==> at(
                final(self).shapes(),
                at(old(self).shapes(), index).parent(),
            ).children().len() == 0,
    {
        let ghost before = *self;
        let ghost a = self.shapes();
        let parent = self.parent_of(index);
        proof {
            assert(node_ok(a, self.home@, self.rank@, self.bound@, index));
            assert(node_ok(a, self.home@, self.rank@, self.bound@, parent));
            assert(at(a, index).children() =~= Seq::<ViewId>::empty());
        }
        let top = self.parent_of(parent);
        self.prune_node(index);
        let ghost middle = self.shapes();
        proof {
            assert(at(middle, parent).parent() == top);
        }
        let left = self.children_of(parent);
        if left.len() == 1 && top != parent {
            proof {
                assert(child_ok(middle, parent, 0));
                assert(node_ok(middle, self.home@, self.rank@, self.bound@, parent));
                assert(node_ok(middle, self.home@, self.rank@, self.bound@, top));
                assert(node_ok(middle, self.home@, self.rank@, self.bound@, left@[0]));
                lemma_collapse(middle, self.home@, self.rank@, self.bound@, parent);
            }
            self.collapse_node(parent);
            proof {
                let b = self.shapes();
                let child = left@[0];
                assert(at(b, child) == at(middle, child).with_parent(top));
                assert(at(middle, child) == at(a, child));
                assert(at(b, top).children().len() == at(middle, top).children().len());
                assert(at(middle, top) == at(a, top));
                assert forall|x: ViewId| #[trigger] live(b, x) && at(b, x) is Container && at(b, x).parent() != x implies at(
                    b,
                    x,
                ).children().len() >= 2 by {
                    assert(live(a, x));
                    if x == child {
                    } else if x == top {
                    } else {
                        assert(at(b, x) == at(a, x));
                    }
                }
            }
        } else {
            proof {
                let b = self.shapes();
                assert forall|x: ViewId| #[trigger] live(b, x) && at(b, x) is Container && at(b, x).parent() != x implies at(
                    b,
                    x,
                ).children().len() >= 2 by {
                    assert(live(a, x));
                    if x == parent {
                        assert(at(a, x).children().len() >= 2);
                    } else {
                        assert(at(b, x) == at(a, x));
                    }
                }
            }
        }
        proof {
            let b = self.shapes();
            assert forall|x: ViewId| #[trigger] live(a, x) && at(a, x).parent() == x implies live(b, x) && at(b, x).parent() == x
                && at(b, x) is Container by {
                assert(node_ok(a, before.home@, before.rank@, before.bound@, x));
            }
        }
    }
}

/// The views of a layout, the last one first.
pub open spec fn layout_views(shapes: Seq<Option<Shape>>, rank: Map<ViewId, nat>, root: ViewId) -> Seq<ViewId> {
    views_in(shapes, tree::walk_node(shapes, rank, root))
}

/// What is focused once the view is gone: the view `step` places further, or
/// the root of a layout that held no other view.
pub open spec fn successor(views: Seq<ViewId>, id: ViewId, step: int, root: ViewId) -> ViewId {
    if views.len() > 1 {
        views[(views.index_of(id) + step) % (views.len() as int)]
    } else {
        root
    }
}

/// The views of a layout are its nodes that are views.
pub proof fn lemma_layout_views(tree: Tree, root: ViewId)
    requires
        tree::forest(tree.shapes(), tree.home@, tree.rank@, tree.bound@),
        tree.holds(root),
        at(tree.shapes(), root).parent() == root,
    ensures
        layout_views(tree.shapes(), tree.rank@, root).no_duplicates(),
        forall|id: ViewId| #[trigger]
            layout_views(tree.shapes(), tree.rank@, root).contains(id) <==> tree.is_view(id) && tree.home@[id] == root,
{
    lemma_walk_members(tree.shapes(), tree.home@, tree.rank@, tree.bound@, root);
    lemma_walk_no_duplicates(tree.shapes(), tree.home@, tree.rank@, tree.bound@, root);
    lemma_views_in(tree.shapes(), tree::walk_node(tree.shapes(), tree.rank@, root));
}

/// Layouts of the same nodes have the same views, in the same order.
pub proof fn lemma_same_views(before: Tree, after: Tree, root: ViewId)
    requires
        tree::forest(before.shapes(), before.home@, before.rank@, before.bound@),
        tree::forest(after.shapes(), after.home@, after.rank@, after.bound@),
        before.holds(root),
        before.home@[root] == root,
        forall|x: ViewId| #[trigger]
            before.holds(x) && before.home@[x] == root ==> after.holds(x) && at(after.shapes(), x) == at(before.shapes(), x),
    ensures
        layout_views(after.shapes(), after.rank@, root) == layout_views(before.shapes(), before.rank@, root),
{
    let a = before.shapes();
    let b = after.shapes();
    let children = at(a, root).children();
    assert forall|i: int| 0 <= i < children.len() implies live(a, #[trigger] children[i]) && before.home@[children[i]] == root
        && before.rank@[children[i]] < before.rank@[root] && after.rank@[children[i]] < after.rank@[root] by {
        tree::lemma_forest_child(a, before.home@, before.rank@, before.bound@, root, i);
        tree::lemma_forest_child(b, after.home@, after.rank@, after.bound@, root, i);
    }
    lemma_same_walk(before, after, children, before.rank@[root], after.rank@[root], root);
    let walk = tree::walk_node(a, before.rank@, root);
    assert(walk == tree::walk_node(b, after.rank@, root));
    assert forall|i: int| 0 <= i < walk.len() implies at(b, #[trigger] walk[i]) == at(a, walk[i]) by {
        if i > 0 {
            assert(walk[i] == tree::walk_list(a, before.rank@, children, before.rank@[root])[i - 1]);
        }
        assert(before.holds(walk[i]));
    }
    lemma_same_filter(a, b, walk);
}

proof fn lemma_same_walk(before: Tree, after: Tree, list: Seq<ViewId>, limit: nat, other: nat, root: ViewId)
    requires
        tree::forest(before.shapes(), before.home@, before.rank@, before.bound@),
        tree::forest(after.shapes(), after.home@, after.rank@, after.bound@),
        forall|x: ViewId| #[trigger]
            before.holds(x) && before.home@[x] == root ==> after.holds(x) && at(after.shapes(), x) == at(before.shapes(), x),
        forall|i: int|
            0 <= i < list.len() ==> live(before.shapes(), #[trigger] list[i]) && before.home@[list[i]] == root
                && before.rank@[list[i]] < limit && after.rank@[list[i]] < other,
    ensures
        tree::walk_list(after.shapes(), after.rank@, list, other) == tree::walk_list(before.shapes(), before.rank@, list, limit),
        forall|i: int|
            0 <= i < tree::walk_list(before.shapes(), before.rank@, list, limit).len() ==> before.holds(
                #[trigger] tree::walk_list(before.shapes(), before.rank@, list, limit)[i],
            ) && before.home@[tree::walk_list(before.shapes(), before.rank@, list, limit)[i]] == root,
    decreases limit, list.len(),
{
    if list.len() > 0 {
        let a = before.shapes();
        let b = after.shapes();
        let last = list.last();
        assert(last == list[list.len() - 1]);
        assert(before.holds(last));
        let children = at(a, last).children();
        assert forall|i: int| 0 <= i < children.len() implies live(a, #[trigger] children[i]) && before.home@[children[i]] == root
            && before.rank@[children[i]] < before.rank@[last] && after.rank@[children[i]] < after.rank@[last] by {
            tree::lemma_forest_child(a, before.home@, before.rank@, before.bound@, last, i);
            tree::lemma_forest_child(b, after.home@, after.rank@, after.bound@, last, i);
        }
        lemma_same_walk(before, after, children, before.rank@[last], after.rank@[last], root);
        let rest = list.drop_last();
        assert forall|i: int| 0 <= i < rest.len() implies live(a, #[trigger] rest[i]) && before.home@[rest[i]] == root
            && before.rank@[rest[i]] < limit && after.rank@[rest[i]] < other by {
            assert(rest[i] == list[i]);
        }
        lemma_same_walk(before, after, rest, limit, other, root);
        let below = tree::walk_list(a, before.rank@, children, before.rank@[last]);
        let beside = tree::walk_list(a, before.rank@, rest, limit);
        let all = tree::walk_list(a, before.rank@, list, limit);
        assert(tree::walk_node(a, before.rank@, last) == seq![last] + below);
        assert(tree::walk_node(b, after.rank@, last) == seq![last] + below);
        assert(all == seq![last] + below + beside);
        assert forall|i: int| 0 <= i < all.len() implies before.holds(#[trigger] all[i]) && before.home@[all[i]] == root by {
            if i == 0 {
            } else if i <= below.len() {
                assert(all[i] == below[i - 1]);
            } else {
                assert(all[i] == beside[i - 1 - below.len()]);
            }
        }
    }
}

proof fn lemma_same_filter(a: Seq<Option<Shape>>, b: Seq<Option<Shape>>, list: Seq<ViewId>)
    requires
        forall|i: int| 0 <= i < list.len() ==> at(b, #[trigger] list[i]) == at(a, list[i]),
    ensures
        views_in(b, list) == views_in(a, list),
    decreases list.len(),
{
    if list.len() > 0 {
        let rest = list.drop_last();
        assert(list.last() == list[list.len() - 1]);
        assert forall|i: int| 0 <= i < rest.len() implies at(b, #[trigger] rest[i]) == at(a, rest[i]) by {
            assert(rest[i] == list[i]);
        }
        lemma_same_filter(a, b, rest);
    }
}

impl Tree {
    /// The views of the layout under `root`, the last one first.
    pub fn views_under(&self, root: ViewId) -> (out: Vec<ViewId>)
        requires
            tree::forest(self.shapes(), self.home@, self.rank@, self.bound@),
            self.holds(root),
            at(self.shapes(), root).parent() == root,
        ensures
            out@ == layout_views(self.shapes(), self.rank@, root),
    {
        let order = self.walk(root);
        let ghost shapes = self.shapes();
        proof {
            lemma_walk_members(shapes, self.home@, self.rank@, self.bound@, root);
        }
        let mut out: Vec<ViewId> = Vec::new();
        let mut i: usize = 0;
        while i < order.len()
            invariant
                i <= order@.len(),
                shapes == self.shapes(),
                order@ == tree::walk_node(shapes, self.rank@, root),
                forall|id: ViewId| #[trigger] order@.contains(id) ==> live(shapes, id),
                out@ == views_in(shapes, order@.subrange(0, i as int)),
            decreases order.len() - i,
        {
            let id = order[i];
            proof {
                assert(order@.contains(order@[i as int]));
                assert(order@.subrange(0, i + 1).drop_last() =~= order@.subrange(0, i as int));
            }
            if self.node_is_view(id) {
                out.push(id);
            }
            i += 1;
        }
        proof {
            assert(order@.subrange(0, order@.len() as int) =~= order@);
        }
        out
    }

    /// The views of the layout that is shown, the first one first.
    pub fn active_view_ids(&self) -> (out: Vec<ViewId>)
        requires
            self.wf(),
        ensures
            out@ == layout_views(self.shapes(), self.rank@, self.root).reverse(),
    {
        let views = self.views_under(self.root);
        let mut out: Vec<ViewId> = Vec::new();
        let mut i: usize = views.len();
        while i > 0
            invariant
                i <= views@.len(),
                out@ == views@.subrange(i as int, views@.len() as int).reverse(),
            decreases i,
        {
            i -= 1;
            out.push(views[i]);
            proof {
                assert(out@ =~= views@.subrange(i as int, views@.len() as int).reverse());
            }
        }
        proof {
            assert(views@.subrange(0, views@.len() as int) =~= views@);
        }
        out
    }

    /// What is focused once the view is gone.
    fn successor_of(&self, id: ViewId, root: ViewId, backward: bool) -> (out: ViewId)
        requires
            self.wf(),
            self.is_view(id),
            self.home@[id] == root,
            self.holds(root),
            at(self.shapes(), root).parent() == root,
        ensures
            out == successor(
                layout_views(self.shapes(), self.rank@, root),
                id,
                if backward {
                    layout_views(self.shapes(), self.rank@, root).len() - 1
                } else {
                    1
                },
                root,
            ),
            out == root ==> at(self.shapes(), id).parent() == root && at(self.shapes(), root).children().len() == 1,
            out != root ==> self.is_view(out) && self.home@[out] == root && out != id,
    {
        let views = self.views_under(root);
        proof {
            lemma_layout_views(*self, root);
            assert(views@.contains(id));
            assert(node_ok(self.shapes(), self.home@, self.rank@, self.bound@, root));
        }
        if views.len() <= 1 {
            proof {
                let ghost shapes = self.shapes();
                assert(node_ok(shapes, self.home@, self.rank@, self.bound@, id));
                let parent = at(shapes, id).parent();
                if at(shapes, parent).children().len() >= 2 {
                    let other = lemma_other_view(shapes, self.home@, self.rank@, self.bound@, id);
                    assert(views@.contains(other));
                    let i = choose|i: int| 0 <= i < views@.len() && views@[i] == other;
                    let j = choose|j: int| 0 <= j < views@.len() && views@[j] == id;
                    assert(false);
                }
                assert(at(shapes, parent).children().contains(id));
                assert(live(shapes, parent));
                assert(node_ok(shapes, self.home@, self.rank@, self.bound@, parent));
            }
            return root;
        }
        let pos = index_in(&views, id);
        let len: usize = views.len();
        let next: usize = if backward {
            if pos == 0 {
                len - 1
            } else {
                pos - 1
            }
        } else {
            if pos == len - 1 {
                0
            } else {
                pos + 1
            }
        };
        proof {
            if backward {
                if pos == 0 {
                    vstd::arithmetic::div_mod::lemma_small_mod((len - 1) as nat, len as nat);
                } else {
                    assert((pos + len - 1) % (len as int) == pos - 1) by {
                        vstd::arithmetic::div_mod::lemma_fundamental_div_mod_converse(pos + len - 1, len as int, 1, pos - 1);
                    }
                }
            } else {
                if pos == len - 1 {
                    vstd::arithmetic::div_mod::lemma_mod_self_0(len as int);
                } else {
                    vstd::arithmetic::div_mod::lemma_small_mod((pos + 1) as nat, len as nat);
                }
            }
            assert(views@[next as int] != views@[pos as int]);
            assert(views@.contains(views@[next as int]));
        }
        views[next]
    }

    /// Removes a view that is suspended with its layout.
    pub fn remove_suspended(&mut self, index: ViewId)
        requires
            old(self).wf(),
            old(self).is_view(index),
            !old(self).active(index),
        ensures
            final(self).wf(),
            final(self).shapes() == removed(old(self).shapes(), index),
            final(self).home == old(self).home,
            forall|id: ViewId| #[trigger] final(self).is_view(id) <==> old(self).is_view(id) && id != index,
            *final(self) == (Tree {
                nodes: final(self).nodes,
                temporary_layouts: final(self).temporary_layouts,
                ..*old(self)
            }),
            final(self).temporary_layouts@.len() == old(self).temporary_layouts@.len(),
            forall|i: int|
                0 <= i < final(self).temporary_layouts@.len() ==> #[trigger] final(self).temporary_layouts@[i] == forget(
                    old(self).temporary_layouts@[i],
                    index,
                    old(self).home@[index],
                    successor(
                        layout_views(old(self).shapes(), old(self).rank@, old(self).home@[index]),
                        index,
                        layout_views(old(self).shapes(), old(self).rank@, old(self).home@[index]).len() - 1,
                        old(self).home@[index],
                    ),
                ),
    {
        let ghost before = *self;
        let ghost shapes = self.shapes();
        let mut root = index;
        loop
            invariant
                self.wf(),
                *self == before,
                shapes == self.shapes(),
                self.holds(root),
                self.home@[root] == self.home@[index],
                self.is_view(index),
            ensures
                *self == before,
                self.holds(root),
                root == self.home@[index],
                at(shapes, root).parent() == root,
            decreases self.bound@ - self.rank@[root],
        {
            proof {
                assert(node_ok(shapes, self.home@, self.rank@, self.bound@, root));
            }
            let parent = self.parent_of(root);
            if parent == root {
                break;
            }
            proof {
                assert(node_ok(shapes, self.home@, self.rank@, self.bound@, parent));
            }
            root = parent;
        }
        let mut position: usize = 0;
        while position < self.temporary_layouts.len() && self.temporary_layouts[position].root != root
            invariant
                *self == before,
                position <= self.temporary_layouts@.len(),
                forall|i: int| 0 <= i < position ==> (#[trigger] self.temporary_layouts@[i]).root != root,
            decreases self.temporary_layouts.len() - position,
        {
            position += 1;
        }
        proof {
            assert(live(shapes, root));
            let i = choose|i: int| 0 <= i < self.temporary_layouts@.len() && (#[trigger] self.temporary_layouts@[i]).root == root;
            assert(position <= i);
        }
        let replacement = self.successor_of(index, root, true);
        self.remove_from_layout(index);
        let ghost layouts = self.temporary_layouts@;
        let mut layout = self.temporary_layouts[position];
        if layout.focus == index {
            layout.focus = replacement;
        }
        let was_fullscreen = match layout.fullscreen {
            Some(view) => view == index,
            None => false,
        };
        if was_fullscreen {
            layout.fullscreen = None;
        }
        self.temporary_layouts.set(position, layout);
        proof {
            let b = self.shapes();
            let was = before.temporary_layouts@[position as int];
            assert(layout == forget(was, index, root, replacement));
            assert forall|i: int| 0 <= i < self.temporary_layouts@.len() implies #[trigger] self.temporary_layouts@[i] == forget(
                before.temporary_layouts@[i],
                index,
                root,
                replacement,
            ) by {
                if i != position {
                    if i < position {
                        assert(before.temporary_layouts@[i].root != before.temporary_layouts@[position as int].root);
                    } else {
                        assert(before.temporary_layouts@[position as int].root != before.temporary_layouts@[i].root);
                    }
                    assert(self.temporary_layouts@[i] == layouts[i]);
                }
            }
            assert(live(shapes, root));
            assert(node_ok(shapes, before.home@, before.rank@, before.bound@, root));
            assert(node_ok(shapes, before.home@, before.rank@, before.bound@, index));
            lemma_root_has_children(shapes, before.home@, before.rank@, before.bound@, index);
            lemma_kept_layout(before, *self, index, root, was.focus, was.fullscreen, replacement, layout.focus, layout.fullscreen);
            lemma_sound(before, *self, root);
            lemma_drawn_elsewhere(before, *self, root);
        }
    }

    /// Removes a view from the tree.
    pub fn remove(&mut self, index: ViewId)
        requires
            old(self).wf(),
            old(self).is_view(index),
        ensures
            final(self).wf(),
            final(self).shapes() == removed(old(self).shapes(), index),
            final(self).home == old(self).home,
            forall|id: ViewId| #[trigger] final(self).is_view(id) <==> old(self).is_view(id) && id != index,
            final(self).root == old(self).root,
            final(self).area == old(self).area,
            final(self).next_temporary_layout_token == old(self).next_temporary_layout_token,
            old(self).active(index) ==> {
                &&& final(self).edited(old(self))
                &&& final(self).fullscreen is None
                &&& final(self).focus == (if old(self).focus == index {
                    successor(layout_views(old(self).shapes(), old(self).rank@, old(self).root), index, 1, old(self).root)
                } else {
                    old(self).focus
                })
                &&& final(self).temporary_layouts == old(self).temporary_layouts
            },
            !old(self).active(index) ==> {
                &&& final(self).focus == old(self).focus
                &&& final(self).fullscreen == old(self).fullscreen
                &&& final(self).temporary_layouts@.len() == old(self).temporary_layouts@.len()
                &&& forall|i: int|
                    0 <= i < final(self).temporary_layouts@.len() ==> #[trigger] final(self).temporary_layouts@[i] == forget(
                        old(self).temporary_layouts@[i],
                        index,
                        old(self).home@[index],
                        successor(
                            layout_views(old(self).shapes(), old(self).rank@, old(self).home@[index]),
                            index,
                            layout_views(old(self).shapes(), old(self).rank@, old(self).home@[index]).len() - 1,
                            old(self).home@[index],
                        ),
                    )
            },
    {
        if !self.node_is_active(index) {
            self.remove_suspended(index);
            return;
        }
        let ghost before = *self;
        let ghost shapes = self.shapes();
        let root = self.root;
        proof {
            assert(node_ok(shapes, self.home@, self.rank@, self.bound@, root));
        }
        let replacement = self.successor_of(index, root, false);
        self.remove_from_layout(index);
        if self.focus == index {
            self.focus = replacement;
        }
        self.fullscreen = None;
        proof {
            assert(node_ok(shapes, before.home@, before.rank@, before.bound@, index));
            lemma_root_has_children(shapes, before.home@, before.rank@, before.bound@, index);
            lemma_kept_layout(before, *self, index, root, before.focus, before.fullscreen, replacement, self.focus, None);
            lemma_sound(before, *self, root);
        }
        self.recalculate();
    }
}

/// A suspended layout once the view is gone.
pub open spec fn forget(
    layout: tree::TemporaryLayout,
    index: ViewId,
    root: ViewId,
    replacement: ViewId,
) -> tree::TemporaryLayout {
    if layout.root == root {
        tree::TemporaryLayout {
            focus: if layout.focus == index {
                replacement
            } else {
                layout.focus
            },
            fullscreen: if layout.fullscreen == Some(index) {
                None
            } else {
                layout.fullscreen
            },
            ..layout
        }
    } else {
        layout
    }
}

proof fn lemma_kept_layout(
    before: Tree,
    after: Tree,
    index: ViewId,
    root: ViewId,
    focus: ViewId,
    fullscreen: Option<ViewId>,
    replacement: ViewId,
    new_focus: ViewId,
    new_fullscreen: Option<ViewId>,
)
    requires
        before.is_view(index),
        before.home@[index] == root,
        before.home@[root] == root,
        after.home@ == before.home@,
        live(before.shapes(), root),
        at(before.shapes(), root).parent() == root,
        tree::layout_ok(before.shapes(), before.home@, root, focus, fullscreen),
        forall|x: ViewId|
            before.is_view(x) && x != index ==> #[trigger] live(after.shapes(), x) && at(after.shapes(), x) is View,
        live(after.shapes(), root),
        at(after.shapes(), root).parent() == root,
        at(before.shapes(), at(before.shapes(), index).parent()).children().len() == 1 ==> at(
            after.shapes(),
            at(before.shapes(), index).parent(),
        ).children().len() == 0,
        replacement == root ==> at(before.shapes(), index).parent() == root && at(before.shapes(), root).children().len() == 1,
        replacement != root ==> before.is_view(replacement) && before.home@[replacement] == root && replacement != index,
        new_focus == (if focus == index {
            replacement
        } else {
            focus
        }),
        new_fullscreen == (if fullscreen == Some(index) {
            None
        } else {
            fullscreen
        }) || new_fullscreen is None,
        at(before.shapes(), at(before.shapes(), index).parent()).children().contains(index),
        at(before.shapes(), root).children().len() > 0,
    ensures
        tree::layout_ok(after.shapes(), after.home@, root, new_focus, new_fullscreen),
{
    assert(live(after.shapes(), new_focus));
    if let Some(view) = new_fullscreen {
        assert(live(after.shapes(), view));
    }
}

} // verus!
