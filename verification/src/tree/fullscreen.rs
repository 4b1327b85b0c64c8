//! Drawing one view over the whole area.

use vstd::prelude::*;

use crate::tree::{self, Content, Tree, ViewId};

verus! {

impl Tree {
    /// Returns the view currently rendered fullscreen, if any.
    pub fn fullscreen_view(&self) -> (out: Option<ViewId>)
        ensures
            out == self.fullscreen,
    {
        self.fullscreen
    }

    /// Whether the node belongs to the layout that is shown.
    pub fn node_is_active(&self, id: ViewId) -> (out: bool)
        requires
            self.wf(),
        ensures
            out == self.active(id),
    {
        if !self.contains(id) {
            return false;
        }
        let mut at = id;
        loop
            invariant
                self.wf(),
                self.holds(at),
                self.holds(id),
                self.home@[at] == self.home@[id],
            decreases self.bound@ - self.rank@[at],
        {
            proof {
                tree::lemma_forest_node(self.shapes(), self.home@, self.rank@, self.bound@, at);
                tree::lemma_forest_node(self.shapes(), self.home@, self.rank@, self.bound@, self.root);
            }
            if at == self.root {
                return true;
            }
            let parent = self.parent_of(at);
            if parent == at || !self.contains(parent) {
                return false;
            }
            proof {
                tree::lemma_forest_node(self.shapes(), self.home@, self.rank@, self.bound@, parent);
            }
            at = parent;
        }
    }

    /// The parent of a node.
    pub fn parent_of(&self, id: ViewId) -> (out: ViewId)
        requires
            self.holds(id),
        ensures
            out == tree::at(self.shapes(), id).parent(),
    {
        match &self.nodes[id.0] {
            Some(node) => node.parent,
            None => id,
        }
    }

    /// Whether the node is a view.
    pub fn node_is_view(&self, id: ViewId) -> (out: bool)
        ensures
            out == self.is_view(id),
    {
        if !self.contains(id) {
            return false;
        }
        match &self.nodes[id.0] {
            Some(node) => match &node.content {
                Content::View(_) => true,
                Content::Container(_) => false,
            },
            None => false,
        }
    }

    /// Returns whether a view should be rendered in the active layout.
    pub fn view_is_visible(&self, view_id: ViewId) -> (out: bool)
        requires
            self.wf(),
        ensures
            out == (self.active(view_id) && (self.fullscreen is None || self.fullscreen == Some(view_id))),
    {
        self.node_is_active(view_id) && match self.fullscreen {
            None => true,
            Some(view) => view == view_id,
        }
    }

    /// Render the requested active view fullscreen without removing its siblings.
    pub fn enter_fullscreen(&mut self, view_id: ViewId) -> (out: bool)
        requires
            old(self).wf(),
        ensures
            final(self).wf(),
            final(self).edited(old(self)),
            out == (old(self).active(view_id) && old(self).is_view(view_id) && old(self).fullscreen != Some(view_id)),
            !out ==> *final(self) == *old(self),
            out ==> final(self).redrawn(&Tree { fullscreen: Some(view_id), ..*old(self) }),
    {
        let already = match self.fullscreen {
            None => false,
            Some(view) => view == view_id,
        };
        if !self.node_is_active(view_id) || !self.node_is_view(view_id) || already {
            return false;
        }
        self.fullscreen = Some(view_id);
        self.recalculate();
        true
    }

    /// Leave fullscreen rendering and restore the stored split geometry.
    pub fn leave_fullscreen(&mut self) -> (out: bool)
        requires
            old(self).wf(),
        ensures
            final(self).wf(),
            final(self).edited(old(self)),
            out == (old(self).fullscreen is Some),
            !out ==> *final(self) == *old(self),
            out ==> final(self).redrawn(&Tree { fullscreen: None, ..*old(self) }),
    {
        if self.fullscreen.is_none() {
            return false;
        }
        self.fullscreen = None;
        self.recalculate();
        true
    }

    /// Toggle fullscreen rendering for the focused view.
    pub fn toggle_fullscreen(&mut self) -> (out: bool)
        requires
            old(self).wf(),
        ensures
            final(self).wf(),
            final(self).edited(old(self)),
            out == (old(self).fullscreen is None && old(self).is_view(old(self).focus)),
            toggled(*old(self), *final(self)),
    {
        if self.fullscreen.is_some() {
            self.leave_fullscreen();
        } else {
            let focus = self.focus;
            self.enter_fullscreen(focus);
        }
        self.fullscreen.is_some()
    }

    /// Keep fullscreen active while focus moves to another active view.
    pub fn transfer_fullscreen(&mut self, view_id: ViewId)
        requires
            old(self).wf(),
            old(self).active(view_id) ==> old(self).is_view(view_id),
        ensures
            final(self).wf(),
            final(self).edited(old(self)),
            old(self).fullscreen is Some && old(self).active(view_id) ==> final(self).redrawn(
                &Tree { fullscreen: Some(view_id), ..*old(self) },
            ),
            !(old(self).fullscreen is Some && old(self).active(view_id)) ==> *final(self) == *old(self),
    {
        if self.fullscreen.is_some() && self.node_is_active(view_id) {
            self.fullscreen = Some(view_id);
            self.recalculate();
        }
    }
}

/// Entering fullscreen and leaving it again puts every view back where it was.
pub proof fn law_fullscreen_restores_geometry(before: Tree, during: Tree, after: Tree, view: ViewId)
    requires
        before.wf(),
        before.fullscreen is None,
        before.active(view),
        during.redrawn(&Tree { fullscreen: Some(view), ..before }),
        after.wf(),
        after.redrawn(&Tree { fullscreen: None, ..during }),
    ensures
        after.shapes() == before.shapes(),
        after.focus == before.focus,
        after.root == before.root,
        after.fullscreen is None,
        forall|id: ViewId| #[trigger] before.holds(id) ==> after.area_of(id) == before.area_of(id),
{
    assert forall|id: ViewId| #[trigger] before.holds(id) implies after.area_of(id) == before.area_of(id) by {
        if before.active(id) {
            assert(after.active(id));
        } else {
            let entered = Tree { fullscreen: Some(view), ..before };
            let left = Tree { fullscreen: None, ..during };
            assert(!during.active(id));
            assert(!after.active(id));
            assert(during.nodes@[id.0 as int] == entered.nodes@[id.0 as int]);
            assert(after.nodes@[id.0 as int] == left.nodes@[id.0 as int]);
        }
    }
}

/// Whether toggling fullscreen makes one tree of another.
pub open spec fn toggled(before: Tree, after: Tree) -> bool {
    &&& after.fullscreen == (if before.fullscreen is None && before.is_view(before.focus) {
        Some(before.focus)
    } else {
        None
    })
    &&& after.redrawn(&Tree { fullscreen: after.fullscreen, ..before })
}

/// Toggling fullscreen twice puts every view back where it was.
pub proof fn law_fullscreen_toggles_back(before: Tree, during: Tree, after: Tree)
    requires
        before.wf(),
        before.fullscreen is None,
        toggled(before, during),
        after.wf(),
        toggled(during, after),
    ensures
        after.fullscreen is None,
        after.shapes() == before.shapes(),
        after.focus == before.focus,
        after.root == before.root,
        during.fullscreen is Some == before.is_view(before.focus),
        forall|id: ViewId| #[trigger] before.holds(id) ==> after.area_of(id) == before.area_of(id),
{
    assert forall|id: ViewId| #[trigger] before.holds(id) implies after.area_of(id) == before.area_of(id) by {
        if before.active(id) {
            assert(after.active(id));
        } else {
            let entered = Tree { fullscreen: during.fullscreen, ..before };
            let left = Tree { fullscreen: after.fullscreen, ..during };
            assert(!during.active(id));
            assert(!after.active(id));
            assert(during.nodes@[id.0 as int] == entered.nodes@[id.0 as int]);
            assert(after.nodes@[id.0 as int] == left.nodes@[id.0 as int]);
        }
    }
}

/// While a view is fullscreen it fills the area and its siblings stay in the
/// tree, hidden.
pub proof fn law_fullscreen_keeps_siblings(before: Tree, during: Tree, view: ViewId)
    requires
        before.wf(),
        before.active(view),
        during.wf(),
        during.redrawn(&Tree { fullscreen: Some(view), ..before }),
    ensures
        during.shapes() == before.shapes(),
        during.area_of(view) == before.area,
        forall|id: ViewId| #[trigger] before.active(id) ==> during.active(id),
        forall|id: ViewId| #[trigger]
            during.active(id) && (during.fullscreen is None || during.fullscreen == Some(id)) ==> id == view,
{
    assert(during.active(view));
}

} // verus!
