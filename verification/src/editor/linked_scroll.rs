//! Links between views that scroll together.

use std::collections::HashMap;

use vstd::prelude::*;

use crate::tree::ViewId;

verus! {

broadcast use vstd::std_specs::hash::group_hash_axioms;

/// Editor-owned, edit-independent links between equal-row views.
///
/// Each view may participate in at most one link. Re-linking either endpoint
/// removes its previous pair first, which keeps lifecycle cleanup local and
/// deterministic.
#[derive(Debug)]
pub struct LinkedScrollLinks {
    pub peers: HashMap<usize, ViewId>,
}

/// Whether every link goes both ways, between two different views.
pub open spec fn mutual(peers: Map<usize, ViewId>) -> bool {
    forall|view: usize| #[trigger]
        peers.dom().contains(view) ==> peers[view].0 != view && peers.dom().contains(peers[view].0) && peers[peers[view].0].0
            == view
}

/// The links without the one of a view.
pub open spec fn without(peers: Map<usize, ViewId>, view: ViewId) -> Map<usize, ViewId> {
    if peers.dom().contains(view.0) {
        peers.remove(view.0).remove(peers[view.0].0)
    } else {
        peers
    }
}

/// The links with one between two views, and none of their links from before.
pub open spec fn linked(peers: Map<usize, ViewId>, first: ViewId, second: ViewId) -> Map<usize, ViewId> {
    without(without(peers, first), second).insert(first.0, second).insert(second.0, first)
}

pub proof fn lemma_without(peers: Map<usize, ViewId>, view: ViewId)
    requires
        mutual(peers),
    ensures
        mutual(without(peers, view)),
        !without(peers, view).dom().contains(view.0),
        peers.dom().contains(view.0) ==> !without(peers, view).dom().contains(peers[view.0].0),
        forall|other: usize| #[trigger] without(peers, view).dom().contains(other) ==> peers.dom().contains(other) && without(
            peers,
            view,
        )[other] == peers[other],
{
    if peers.dom().contains(view.0) {
        let after = without(peers, view);
        assert forall|other: usize| #[trigger] after.dom().contains(other) implies after[other].0 != other && after.dom().contains(
            after[other].0,
        ) && after[after[other].0].0 == other by {
            assert(peers.dom().contains(other));
            let peer = peers[other].0;
            assert(peers.dom().contains(peer));
            assert(peers[peer].0 == other);
            assert(peer != view.0);
            assert(peer != peers[view.0].0);
        }
    }
}

pub proof fn lemma_linked(peers: Map<usize, ViewId>, first: ViewId, second: ViewId)
    requires
        mutual(peers),
        first != second,
    ensures
        mutual(linked(peers, first, second)),
{
    lemma_without(peers, first);
    let middle = without(peers, first);
    lemma_without(middle, second);
    let rest = without(middle, second);
    let after = linked(peers, first, second);
    assert(first.0 != second.0);
    assert(!rest.dom().contains(first.0)) by {
        if rest.dom().contains(first.0) {
            assert(middle.dom().contains(first.0));
        }
    }
    assert forall|other: usize| #[trigger] after.dom().contains(other) implies after[other].0 != other && after.dom().contains(
        after[other].0,
    ) && after[after[other].0].0 == other by {
        if other != first.0 && other != second.0 {
            assert(rest.dom().contains(other));
            let peer = rest[other].0;
            assert(rest.dom().contains(peer));
            assert(peer != first.0 && peer != second.0);
        }
    }
}

impl LinkedScrollLinks {
    pub open spec fn wf(&self) -> bool {
        mutual(self.peers@)
    }

    pub fn link(&mut self, first: ViewId, second: ViewId)
        requires
            old(self).wf(),
            first != second,
        ensures
            final(self).wf(),
            final(self).peers@ == linked(old(self).peers@, first, second),
    {
        proof {
            lemma_linked(self.peers@, first, second);
        }
        self.remove(first);
        self.remove(second);
        self.peers.insert(first.0, second);
        self.peers.insert(second.0, first);
    }

    pub fn peer(&self, view: ViewId) -> (out: Option<ViewId>)
        ensures
            out == (if self.peers@.dom().contains(view.0) {
                Some(self.peers@[view.0])
            } else {
                None
            }),
    {
        match self.peers.get(&view.0) {
            Some(peer) => Some(*peer),
            None => None,
        }
    }

    pub fn remove(&mut self, view: ViewId) -> (out: bool)
        requires
            old(self).wf(),
        ensures
            final(self).wf(),
            out == old(self).peers@.dom().contains(view.0),
            final(self).peers@ == without(old(self).peers@, view),
    {
        proof {
            lemma_without(self.peers@, view);
        }
        match self.peers.remove(&view.0) {
            Some(peer) => {
                self.peers.remove(&peer.0);
                true
            },
            None => false,
        }
    }
}

impl Default for LinkedScrollLinks {
    /// No links.
    fn default() -> (out: LinkedScrollLinks)
        ensures
            out.wf(),
            out.peers@ == Map::<usize, ViewId>::empty(),
    {
        LinkedScrollLinks { peers: HashMap::new() }
    }
}

/// A link is found from both of its ends.
pub proof fn law_links_are_bidirectional(peers: Map<usize, ViewId>, first: ViewId, second: ViewId)
    requires
        mutual(peers),
        first != second,
    ensures
        linked(peers, first, second).dom().contains(first.0) && linked(peers, first, second)[first.0] == second,
        linked(peers, first, second).dom().contains(second.0) && linked(peers, first, second)[second.0] == first,
{
    assert(first.0 != second.0);
}

/// A link goes from whichever end it is removed.
pub proof fn law_links_go_from_either_end(peers: Map<usize, ViewId>, first: ViewId, second: ViewId, end: ViewId)
    requires
        mutual(peers),
        first != second,
        end == first || end == second,
    ensures
        !without(linked(peers, first, second), end).dom().contains(first.0),
        !without(linked(peers, first, second), end).dom().contains(second.0),
{
    assert(first.0 != second.0);
    lemma_linked(peers, first, second);
    lemma_without(linked(peers, first, second), end);
}

/// Linking a view again leaves its former peer without a link, and every link
/// of other views as it is.
pub proof fn law_relinking_leaves_no_stale_peers(peers: Map<usize, ViewId>, first: ViewId, second: ViewId, view: usize)
    requires
        mutual(peers),
        first != second,
        view != first.0,
        view != second.0,
        peers.dom().contains(view),
    ensures
        peers[view].0 == first.0 || peers[view].0 == second.0 ==> !linked(peers, first, second).dom().contains(view),
        peers[view].0 != first.0 && peers[view].0 != second.0 ==> linked(peers, first, second).dom().contains(view)
            && linked(peers, first, second)[view] == peers[view],
{
    let middle = without(peers, first);
    lemma_without(peers, first);
    lemma_without(middle, second);
    let peer = peers[view].0;
    assert(peers.dom().contains(peer) && peers[peer].0 == view);
    if peer == second.0 && middle.dom().contains(second.0) {
        assert(middle[second.0] == peers[second.0]);
    }
    if peer == second.0 && !middle.dom().contains(second.0) {
        assert(peers.dom().contains(first.0) && peers[first.0].0 == second.0);
    }
    if peer != first.0 && peer != second.0 {
        if peers.dom().contains(first.0) {
            assert(peers[first.0].0 != view) by {
                if peers[first.0].0 == view {
                    assert(peers[view].0 == first.0);
                }
            }
        }
        assert(middle.dom().contains(view));
        if middle.dom().contains(second.0) {
            assert(middle[second.0].0 != view) by {
                if middle[second.0].0 == view {
                    assert(middle.dom().contains(second.0));
                    assert(middle[view].0 == second.0);
                }
            }
        }
    }
}

} // verus!
