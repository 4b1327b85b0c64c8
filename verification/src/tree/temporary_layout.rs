//! Suspending a layout for a temporary one.

use vstd::prelude::*;

use crate::tree::edit::{layout_views, lemma_layout_views, lemma_same_views};
use crate::tree::forest::{clear, fresh, graft, lemma_clear, plant};
use crate::tree::geometry::{lemma_same_place, lemma_walk_members};
use crate::tree::order::lemma_home_live;
use crate::tree::{
    self, at, live, node_ok, DocumentId, Layout, Node, TemporaryLayout, TemporaryLayoutToken, Tree, ViewId,
};

verus! {

/// Why a layout is not restored.
#[derive(Clone, Copy, Debug, PartialEq, Eq, Structural)]
pub enum RestoreError {
    NoneActive,
    NotLast,
}

impl RestoreError {
    pub open spec fn text(self) -> Seq<char> {
        match self {
            RestoreError::NoneActive => "no temporary layout is active"@,
            RestoreError::NotLast => "temporary layouts must be restored in LIFO order"@,
        }
    }

    pub fn message(self) -> (out: &'static str)
        ensures
            out@ == self.text(),
    {
        match self {
            RestoreError::NoneActive => "no temporary layout is active",
            RestoreError::NotLast => "temporary layouts must be restored in LIFO order",
        }
    }
}

/// Removes all the listed nodes.
fn drop_nodes(nodes: &mut Vec<Option<Node>>, list: &Vec<ViewId>)
    requires
        forall|i: int| 0 <= i < list@.len() ==> (#[trigger] list@[i]).0 < old(nodes)@.len(),
    ensures
        final(nodes)@.len() == old(nodes)@.len(),
        forall|id: ViewId|
            id.0 < old(nodes)@.len() ==> #[trigger] final(nodes)@[id.0 as int] == (if list@.contains(id) {
                None
            } else {
                old(nodes)@[id.0 as int]
            }),
{
    let mut i: usize = list.len();
    while i > 0
        invariant
            i <= list@.len(),
            nodes@.len() == old(nodes)@.len(),
            forall|k: int| 0 <= k < list@.len() ==> (#[trigger] list@[k]).0 < old(nodes)@.len(),
            forall|id: ViewId|
                id.0 < old(nodes)@.len() ==> #[trigger] nodes@[id.0 as int] == (if list@.subrange(
                    i as int,
                    list@.len() as int,
                ).contains(id) {
                    None
                } else {
                    old(nodes)@[id.0 as int]
                }),
        decreases i,
    {
        i -= 1;
        let id = list[i];
        let ghost before = nodes@;
        nodes.set(id.0, None);
        proof {
            let gone = list@.subrange(i as int, list@.len() as int);
            let less = list@.subrange(i + 1, list@.len() as int);
            assert forall|x: ViewId| x.0 < old(nodes)@.len() implies #[trigger] nodes@[x.0 as int] == (if gone.contains(x) {
                None
            } else {
                old(nodes)@[x.0 as int]
            }) by {
                assert(gone[0] == id);
                if gone.contains(x) && x != id {
                    let k = choose|k: int| 0 <= k < gone.len() && gone[k] == x;
                    assert(less[k - 1] == x);
                }
                if less.contains(x) {
                    let k = choose|k: int| 0 <= k < less.len() && less[k] == x;
                    assert(gone[k + 1] == x);
                }
                if x != id {
                    assert(x.0 != id.0);
                    assert(nodes@[x.0 as int] == before[x.0 as int]);
                }
            }
        }
    }
    proof {
        assert(list@.subrange(0, list@.len() as int) =~= list@);
    }
}

impl Tree {
    /// Whether the tree is `from` with its layout suspended under `token` and
    /// with the single view `view` shown instead.
    pub open spec fn entered(&self, from: &Tree, doc: DocumentId, token: TemporaryLayoutToken, view: ViewId) -> bool {
        let root = fresh(from.shapes());
        &&& token == TemporaryLayoutToken(from.next_temporary_layout_token)
        &&& self.next_temporary_layout_token == from.next_temporary_layout_token.wrapping_add(1)
        &&& self.temporary_layouts@ == from.temporary_layouts@.push(
            TemporaryLayout { token, root: from.root, focus: from.focus, fullscreen: from.fullscreen },
        )
        &&& self.root == root
        &&& self.focus == view
        &&& view == fresh(plant(from.shapes(), Layout::Vertical))
        &&& self.fullscreen is None
        &&& self.area == from.area
        &&& self.shapes() == graft(plant(from.shapes(), Layout::Vertical), root, 0, doc)
        &&& self.home@ == from.home@.insert(root, root).insert(view, root)
    }

    /// Whether the tree is `from` with its layout gone and the last suspended
    /// one shown again.
    pub open spec fn restored(&self, from: &Tree) -> bool {
        let layout = from.temporary_layouts@.last();
        &&& self.root == layout.root
        &&& self.focus == layout.focus
        &&& self.fullscreen == layout.fullscreen
        &&& self.area == from.area
        &&& self.temporary_layouts@ == from.temporary_layouts@.drop_last()
        &&& self.next_temporary_layout_token == from.next_temporary_layout_token
        &&& self.shapes() == clear(from.shapes(), from.home@, from.root)
        &&& self.home == from.home
        &&& self.rank == from.rank
        &&& self.bound == from.bound
    }

    /// Suspend the active tree and install a new single-view temporary layout.
    pub fn enter_temporary_layout(&mut self, doc: DocumentId) -> (out: (TemporaryLayoutToken, ViewId))
        requires
            old(self).wf(),
            old(self).nodes@.len() + 2 <= usize::MAX,
        ensures
            final(self).wf(),
            final(self).entered(old(self), doc, out.0, out.1),
            final(self).active(out.1),
            final(self).is_view(out.1),
    {
        let ghost before = *self;
        let ghost a = self.shapes();
        let token = TemporaryLayoutToken(self.next_temporary_layout_token);
        self.next_temporary_layout_token = self.next_temporary_layout_token.wrapping_add(1);
        let suspended = TemporaryLayout { token, root: self.root, focus: self.focus, fullscreen: self.fullscreen };
        self.temporary_layouts.push(suspended);
        self.fullscreen = None;
        let root = self.plant_root();
        let ghost middle = self.shapes();
        let ghost planted = *self;
        proof {
            assert(middle.len() == self.nodes@.len());
            assert(a.len() == before.nodes@.len());
            assert(live(middle, root));
        }
        self.root = root;
        let view = self.graft_view(root, 0, doc);
        self.focus = view;
        proof {
            let b = self.shapes();
            let home = self.home@;
            assert(node_ok(a, before.home@, before.rank@, before.bound@, before.root));
            assert forall|x: ViewId| #[trigger] live(b, x) implies x == root || x == view || live(a, x) && at(b, x) == at(a, x) && home[x]
                == before.home@[x] by {
                if x != view && x != root {
                    assert(x.0 != view.0);
                    assert(x.0 != root.0);
                }
            }
            assert forall|x: ViewId| #[trigger] live(a, x) implies live(b, x) && at(b, x) == at(a, x) && home[x] == before.home@[x] by {}
            assert(live(b, view));
            assert(live(b, root));
            assert forall|i: int| 0 <= i < self.temporary_layouts@.len() implies {
                let layout = #[trigger] self.temporary_layouts@[i];
                tree::layout_ok(b, home, layout.root, layout.focus, layout.fullscreen) && layout.root != self.root
            } by {
                if i < before.temporary_layouts@.len() {
                    assert(self.temporary_layouts@[i] == before.temporary_layouts@[i]);
                }
            }
            assert forall|i: int, j: int| 0 <= i < j < self.temporary_layouts@.len() implies (#[trigger] self.temporary_layouts@[i]).root != (
            #[trigger] self.temporary_layouts@[j]).root by {
                assert(self.temporary_layouts@[i] == before.temporary_layouts@[i]);
                if j < before.temporary_layouts@.len() {
                    assert(self.temporary_layouts@[j] == before.temporary_layouts@[j]);
                }
            }
            assert forall|id: ViewId| #[trigger] live(b, id) && at(b, id).parent() == id && id != self.root implies exists|i: int|
                0 <= i < self.temporary_layouts@.len() && (#[trigger] self.temporary_layouts@[i]).root == id by {
                assert(live(a, id));
                if id == before.root {
                    assert(self.temporary_layouts@[before.temporary_layouts@.len() as int].root == id);
                } else {
                    let i = choose|i: int|
                        0 <= i < before.temporary_layouts@.len() && (#[trigger] before.temporary_layouts@[i]).root == id;
                    assert(self.temporary_layouts@[i] == before.temporary_layouts@[i]);
                }
            }
            assert(self.sound());
        }
        self.recalculate();
        (token, view)
    }

    /// Restore the most recently suspended layout and return discarded view IDs.
    pub fn restore_temporary_layout(&mut self, token: TemporaryLayoutToken) -> (out: Result<Vec<ViewId>, RestoreError>)
        requires
            old(self).wf(),
        ensures
            final(self).wf(),
            old(self).temporary_layouts@.len() == 0 ==> out == Err::<Vec<ViewId>, RestoreError>(RestoreError::NoneActive)
                && *final(self) == *old(self),
            old(self).temporary_layouts@.len() > 0 && old(self).temporary_layouts@.last().token != token ==> out == Err::<
                Vec<ViewId>,
                RestoreError,
            >(RestoreError::NotLast) && *final(self) == *old(self),
            old(self).temporary_layouts@.len() > 0 && old(self).temporary_layouts@.last().token == token ==> {
                &&& out is Ok
                &&& out->Ok_0@ == layout_views(old(self).shapes(), old(self).rank@, old(self).root)
                &&& final(self).restored(old(self))
            },
    {
        let count: usize = self.temporary_layouts.len();
        if count == 0 {
            return Err(RestoreError::NoneActive);
        }
        if self.temporary_layouts[count - 1].token != token {
            return Err(RestoreError::NotLast);
        }
        let ghost before = *self;
        let ghost a = self.shapes();
        let ghost home = self.home@;
        let root = self.root;
        let size: usize = self.nodes.len();
        proof {
            assert(a.len() == size);
            assert(node_ok(a, home, self.rank@, self.bound@, root));
            lemma_walk_members(a, home, self.rank@, self.bound@, root);
            lemma_clear(a, home, self.rank@, self.bound@, root);
        }
        let snapshot = self.temporary_layouts.pop().unwrap();
        let views = self.views_under(root);
        let nodes = self.walk(root);
        proof {
            assert forall|i: int| 0 <= i < nodes@.len() implies (#[trigger] nodes@[i]).0 < self.nodes@.len() by {
                assert(nodes@.contains(nodes@[i]));
            }
        }
        drop_nodes(&mut self.nodes, &nodes);
        self.root = snapshot.root;
        self.focus = snapshot.focus;
        self.fullscreen = snapshot.fullscreen;
        proof {
            let b = self.shapes();
            assert(a.len() == before.nodes@.len());
            assert forall|i: int| 0 <= i < b.len() implies #[trigger] b[i] == clear(a, home, root)[i] by {
                let id = ViewId(i as usize);
                assert(b.len() == size);
                assert(self.nodes@[id.0 as int] == (if nodes@.contains(id) {
                    None
                } else {
                    before.nodes@[id.0 as int]
                }));
                assert(nodes@.contains(id) <==> live(a, id) && home[id] == root);
            }
            assert(b =~= clear(a, home, root));
            let layouts = self.temporary_layouts@;
            assert(layouts =~= before.temporary_layouts@.drop_last());
            let last = before.temporary_layouts@.len() - 1;
            assert(before.temporary_layouts@[last] == snapshot);
            assert forall|r: ViewId, f: ViewId, v: Option<ViewId>|
                tree::layout_ok(a, home, r, f, v) && r != root implies #[trigger] tree::layout_ok(b, home, r, f, v) by {
                assert(node_ok(a, home, before.rank@, before.bound@, r));
                assert(live(b, r));
                assert(live(b, f));
                if let Some(view) = v {
                    assert(live(b, view));
                }
            }
            assert forall|i: int| 0 <= i < layouts.len() implies {
                let layout = #[trigger] layouts[i];
                tree::layout_ok(b, home, layout.root, layout.focus, layout.fullscreen) && layout.root != self.root
            } by {
                assert(layouts[i] == before.temporary_layouts@[i]);
                assert(before.temporary_layouts@[i].root != before.temporary_layouts@[last].root);
            }
            assert forall|i: int, j: int| 0 <= i < j < layouts.len() implies (#[trigger] layouts[i]).root != (#[trigger] layouts[j]).root by {
                assert(layouts[i] == before.temporary_layouts@[i]);
                assert(layouts[j] == before.temporary_layouts@[j]);
            }
            assert forall|id: ViewId| #[trigger] live(b, id) && at(b, id).parent() == id && id != self.root implies exists|i: int|
                0 <= i < layouts.len() && (#[trigger] layouts[i]).root == id by {
                assert(live(a, id));
                assert(node_ok(a, home, before.rank@, before.bound@, id));
                let i = choose|i: int| 0 <= i < before.temporary_layouts@.len() && (#[trigger] before.temporary_layouts@[i]).root == id;
                assert(i != last);
                assert(layouts[i] == before.temporary_layouts@[i]);
            }
            assert forall|id: ViewId|
                #[trigger] live(b, id) && at(b, id) is Container && at(b, id).parent() != id implies at(b, id).children().len() >= 2 by {
                assert(live(a, id));
            }
            assert(self.sound());
        }
        self.recalculate();
        Ok(views)
    }

    pub fn active_temporary_layout_token(&self) -> (out: Option<TemporaryLayoutToken>)
        ensures
            out == (if self.temporary_layouts@.len() == 0 {
                None
            } else {
                Some(self.temporary_layouts@.last().token)
            }),
    {
        let count: usize = self.temporary_layouts.len();
        if count == 0 {
            None
        } else {
            Some(self.temporary_layouts[count - 1].token)
        }
    }
}

/// Whether a tree is another one but for where nodes are drawn, and for layouts
/// that were suspended and restored in between.
pub open spec fn same_layout(before: Tree, after: Tree) -> bool {
    &&& after.root == before.root
    &&& after.focus == before.focus
    &&& after.fullscreen == before.fullscreen
    &&& after.temporary_layouts@ == before.temporary_layouts@
    &&& forall|id: ViewId| #[trigger] after.holds(id) <==> before.holds(id)
    &&& forall|id: ViewId| #[trigger]
        before.holds(id) ==> at(after.shapes(), id) == at(before.shapes(), id) && after.home@[id] == before.home@[id]
}

/// Whatever is done inside a temporary layout, restoring the one that it
/// suspended brings back its nodes, its focus and its fullscreen view, its views
/// in their order and, where the area is the same, the place of each of them.
/// What is discarded are the views of the temporary layout, each once; none of
/// them was there before or is left.
pub proof fn law_temporary_layout_is_undone(
    before: Tree,
    entered: Tree,
    edited: Tree,
    after: Tree,
    doc: DocumentId,
    token: TemporaryLayoutToken,
    view: ViewId,
)
    requires
        before.wf(),
        before.nodes@.len() + 2 <= usize::MAX,
        entered.wf(),
        entered.entered(&before, doc, token, view),
        edited.wf(),
        edited.edited(&entered),
        after.wf(),
        after.restored(&edited),
    ensures
        edited.temporary_layouts@.len() > 0,
        edited.temporary_layouts@.last().token == token,
        same_layout(before, after),
        after.edited(&before),
        layout_views(after.shapes(), after.rank@, after.root) == layout_views(before.shapes(), before.rank@, before.root),
        after.area == before.area ==> forall|id: ViewId| #[trigger]
            before.active(id) ==> after.active(id) && after.area_of(id) == before.area_of(id),
        layout_views(edited.shapes(), edited.rank@, edited.root).no_duplicates(),
        forall|id: ViewId| #[trigger]
            layout_views(edited.shapes(), edited.rank@, edited.root).contains(id) <==> edited.is_view(id) && edited.active(id),
        forall|id: ViewId| #[trigger] edited.active(id) ==> !before.holds(id) && !after.holds(id),
{
    let a = before.shapes();
    let b = entered.shapes();
    let e = edited.shapes();
    let c = after.shapes();
    assert(a.len() == before.nodes@.len());
    assert(entered.temporary_layouts@.drop_last() =~= before.temporary_layouts@);
    assert(e.len() == edited.nodes.len());
    lemma_clear(e, edited.home@, edited.rank@, edited.bound@, edited.root);
    assert forall|id: ViewId| #[trigger] before.holds(id) implies edited.holds(id) && at(e, id) == at(a, id) && edited.home@[id]
        == before.home@[id] && before.home@[id] != entered.root by {
        lemma_home_live(a, before.home@, before.rank@, before.bound@, id);
        assert(live(b, id));
        assert(live(e, id));
    }
    assert forall|id: ViewId| #[trigger] edited.holds(id) && edited.home@[id] != edited.root implies before.holds(id) by {
        assert(live(e, id));
        assert(live(b, id));
        assert(id != entered.root && id != view);
        assert(id.0 != entered.root.0);
        assert(id.0 != view.0);
    }
    assert forall|id: ViewId| #[trigger] after.holds(id) <==> before.holds(id) by {
        if after.holds(id) {
            assert(live(c, id));
            assert(edited.holds(id));
        }
        if before.holds(id) {
            assert(edited.holds(id));
            assert(live(c, id));
        }
    }
    assert forall|id: ViewId| #[trigger] before.holds(id) implies at(c, id) == at(a, id) && after.home@[id] == before.home@[id] by {
        assert(edited.holds(id));
        assert(after.holds(id));
        assert(live(c, id));
    }
    assert forall|id: ViewId| #[trigger] edited.active(id) implies !before.holds(id) && !after.holds(id) by {
        if before.holds(id) {
            assert(edited.home@[id] == before.home@[id]);
        }
    }
    assert forall|id: ViewId| live(a, id) && before.home@[id] != before.root implies #[trigger] live(c, id) && at(c, id) == at(a, id)
        && after.home@[id] == before.home@[id] by {
        assert(before.holds(id));
        assert(after.holds(id));
    }
    assert forall|id: ViewId| #[trigger] live(c, id) && after.home@[id] != before.root implies live(a, id) && before.home@[id]
        == after.home@[id] by {
        assert(after.holds(id));
        assert(before.holds(id));
    }
    assert(node_ok(a, before.home@, before.rank@, before.bound@, before.root));
    lemma_same_views(before, after, before.root);
    lemma_layout_views(edited, edited.root);
    if after.area == before.area {
        assert forall|id: ViewId| #[trigger] before.active(id) implies after.active(id) && after.area_of(id) == before.area_of(id) by {
            assert(before.holds(id));
            assert(after.active(id));
            lemma_same_place(before, after, id);
        }
    }
}

/// Whether the layout that one tree shows is still in another one, with all that
/// was suspended under it: shown, or suspended in its turn.
pub open spec fn keeps_layout(first: Tree, now: Tree) -> bool {
    let depth = first.temporary_layouts@.len() as int;
    &&& forall|id: ViewId| #[trigger]
        first.holds(id) ==> now.holds(id) && at(now.shapes(), id) == at(first.shapes(), id) && now.home@[id] == first.home@[id]
    &&& forall|id: ViewId| #[trigger] now.holds(id) && !first.holds(id) ==> !first.holds(now.home@[id])
    &&& depth <= now.temporary_layouts@.len()
    &&& forall|i: int| 0 <= i < depth ==> #[trigger] now.temporary_layouts@[i] == first.temporary_layouts@[i]
    &&& if now.temporary_layouts@.len() == depth {
        now.root == first.root && now.focus == first.focus && now.fullscreen == first.fullscreen
    } else {
        let layout = now.temporary_layouts@[depth];
        layout.root == first.root && layout.focus == first.focus && layout.fullscreen == first.fullscreen
    }
}

/// The root of a layout that came later is not one of the nodes from before.
proof fn lemma_later_root(first: Tree, now: Tree)
    requires
        first.wf(),
        now.wf(),
        keeps_layout(first, now),
        now.temporary_layouts@.len() > first.temporary_layouts@.len(),
    ensures
        !first.holds(now.root),
{
    let depth = first.temporary_layouts@.len() as int;
    if first.holds(now.root) {
        assert(at(first.shapes(), now.root).parent() == now.root);
        assert(now.temporary_layouts@[depth].root != now.root);
        let i = choose|i: int| 0 <= i < depth && (#[trigger] first.temporary_layouts@[i]).root == now.root;
        assert(now.temporary_layouts@[i].root != now.root);
    }
}

/// A temporary layout leaves the layout that it suspends in the tree.
pub proof fn law_entering_keeps_the_layout(
    first: Tree,
    before: Tree,
    after: Tree,
    doc: DocumentId,
    token: TemporaryLayoutToken,
    view: ViewId,
)
    requires
        first.wf(),
        before.wf(),
        before.nodes@.len() + 2 <= usize::MAX,
        keeps_layout(first, before),
        after.entered(&before, doc, token, view),
    ensures
        keeps_layout(first, after),
{
    let a = before.shapes();
    let b = after.shapes();
    assert(a.len() == before.nodes@.len());
    assert forall|id: ViewId| #[trigger] before.holds(id) implies after.holds(id) && at(b, id) == at(a, id) && after.home@[id]
        == before.home@[id] by {
        tree::lemma_forest_node(a, before.home@, before.rank@, before.bound@, before.root);
    }
    assert forall|id: ViewId| #[trigger] first.holds(id) implies after.holds(id) && at(b, id) == at(first.shapes(), id)
        && after.home@[id] == first.home@[id] by {
        assert(before.holds(id));
    }
    assert forall|id: ViewId| #[trigger] after.holds(id) && !first.holds(id) implies !first.holds(after.home@[id]) by {
        assert(live(b, id));
        if id == after.root || id == view {
            if first.holds(after.root) {
                assert(before.holds(after.root));
            }
        } else {
            assert(id.0 != after.root.0);
            assert(id.0 != view.0);
            assert(before.holds(id));
        }
    }
    assert forall|i: int| 0 <= i < first.temporary_layouts@.len() implies #[trigger] after.temporary_layouts@[i]
        == first.temporary_layouts@[i] by {
        assert(before.temporary_layouts@[i] == first.temporary_layouts@[i]);
    }
}

/// Edits inside a temporary layout leave the layouts below it in the tree.
pub proof fn law_editing_keeps_the_layout(first: Tree, before: Tree, after: Tree)
    requires
        first.wf(),
        before.wf(),
        after.wf(),
        keeps_layout(first, before),
        before.temporary_layouts@.len() > first.temporary_layouts@.len(),
        after.edited(&before),
    ensures
        keeps_layout(first, after),
{
    let a = before.shapes();
    let b = after.shapes();
    lemma_later_root(first, before);
    assert forall|id: ViewId| #[trigger] first.holds(id) implies after.holds(id) && at(b, id) == at(first.shapes(), id)
        && after.home@[id] == first.home@[id] by {
        assert(before.holds(id));
        lemma_home_live(first.shapes(), first.home@, first.rank@, first.bound@, id);
        assert(first.holds(first.home@[id]));
        assert(live(b, id));
    }
    assert forall|id: ViewId| #[trigger] after.holds(id) && !first.holds(id) implies !first.holds(after.home@[id]) by {
        assert(live(b, id));
        if after.home@[id] != before.root {
            assert(live(a, id));
            assert(before.holds(id));
        }
    }
}

/// Restoring a layout leaves the layouts below it in the tree.
pub proof fn law_restoring_keeps_the_layout(first: Tree, before: Tree, after: Tree)
    requires
        first.wf(),
        before.wf(),
        keeps_layout(first, before),
        before.temporary_layouts@.len() > first.temporary_layouts@.len(),
        after.restored(&before),
    ensures
        keeps_layout(first, after),
        after.temporary_layouts@.len() == before.temporary_layouts@.len() - 1,
        forall|id: ViewId| #[trigger] after.holds(id) <==> before.holds(id) && !before.active(id),
        forall|id: ViewId| #[trigger]
            after.holds(id) ==> at(after.shapes(), id) == at(before.shapes(), id) && after.home@[id] == before.home@[id],
{
    let a = before.shapes();
    let b = after.shapes();
    lemma_later_root(first, before);
    assert(a.len() == before.nodes.len());
    tree::lemma_forest_node(a, before.home@, before.rank@, before.bound@, before.root);
    lemma_clear(a, before.home@, before.rank@, before.bound@, before.root);
    assert forall|id: ViewId| #[trigger] after.holds(id) <==> before.holds(id) && !before.active(id) by {
        assert(live(b, id) ==> live(a, id));
    }
    assert forall|id: ViewId| #[trigger] first.holds(id) implies after.holds(id) && at(b, id) == at(first.shapes(), id)
        && after.home@[id] == first.home@[id] by {
        assert(before.holds(id));
        lemma_home_live(first.shapes(), first.home@, first.rank@, first.bound@, id);
        assert(first.holds(first.home@[id]));
        assert(after.holds(id));
    }
    assert forall|id: ViewId| #[trigger] after.holds(id) && !first.holds(id) implies !first.holds(after.home@[id]) by {
        assert(before.holds(id));
    }
    assert forall|i: int| 0 <= i < first.temporary_layouts@.len() implies #[trigger] after.temporary_layouts@[i]
        == first.temporary_layouts@[i] by {
        assert(before.temporary_layouts@[i] == first.temporary_layouts@[i]);
    }
}

/// A layout that is shown again is as it was: its nodes, its focus, its
/// fullscreen view, its views in their order and, where the area is the same,
/// the place of each of them. Nothing else is in the tree.
pub proof fn law_shown_again_as_before(first: Tree, now: Tree)
    requires
        first.wf(),
        now.wf(),
        keeps_layout(first, now),
        now.temporary_layouts@.len() == first.temporary_layouts@.len(),
    ensures
        same_layout(first, now),
        layout_views(now.shapes(), now.rank@, now.root) == layout_views(first.shapes(), first.rank@, first.root),
        now.area == first.area ==> forall|id: ViewId| #[trigger]
            first.active(id) ==> now.active(id) && now.area_of(id) == first.area_of(id),
{
    assert(now.temporary_layouts@ =~= first.temporary_layouts@);
    assert forall|id: ViewId| #[trigger] now.holds(id) <==> first.holds(id) by {
        if now.holds(id) {
            lemma_home_live(now.shapes(), now.home@, now.rank@, now.bound@, id);
            let root = now.home@[id];
            assert(live(now.shapes(), root));
            if root != now.root {
                let i = choose|i: int| 0 <= i < now.temporary_layouts@.len() && (#[trigger] now.temporary_layouts@[i]).root == root;
                assert(first.temporary_layouts@[i].root == root);
            }
            assert(first.holds(root));
        }
    }
    tree::lemma_forest_node(first.shapes(), first.home@, first.rank@, first.bound@, first.root);
    lemma_same_views(first, now, first.root);
    if now.area == first.area {
        assert forall|id: ViewId| #[trigger] first.active(id) implies now.active(id) && now.area_of(id) == first.area_of(id) by {
            assert(first.holds(id));
            assert(now.active(id));
            lemma_same_place(first, now, id);
        }
    }
}

/// A layout that is not the last one suspended is refused, and nothing changes.
pub proof fn law_temporary_layouts_nest(before: Tree, outer: Tree, inner: Tree, doc: DocumentId, first: TemporaryLayoutToken, second: TemporaryLayoutToken, view: ViewId, other: ViewId)
    requires
        outer.entered(&before, doc, first, view),
        inner.entered(&outer, doc, second, other),
    ensures
        inner.temporary_layouts@.last().token == second,
        inner.temporary_layouts@.last().token != first,
        inner.temporary_layouts@.drop_last().last().token == first,
{
    assert(inner.temporary_layouts@.drop_last() =~= outer.temporary_layouts@);
}

} // verus!
