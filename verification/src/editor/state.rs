//! The state of the editor.

use vstd::prelude::*;

use super::document::{Document, ViewPosition};
use super::linked_scroll::{linked, without, LinkedScrollLinks};
use crate::diagnostics::model::Diagnostics;
use crate::line_map::LineMap;
use crate::text::{decimal, decimal_text};
use crate::tree::{at, live, Content, DocumentId, Tree, ViewId};

verus! {

pub struct Editor {
    pub tree: Tree,
    pub documents: Vec<Document>,
    pub linked_scroll_links: LinkedScrollLinks,
    pub diagnostics: Diagnostics,
    pub needs_redraw: bool,
    pub normal_mode: bool,
    /// The document that got the focus last.
    pub last_focused: Option<DocumentId>,
}

/// The first place of a document at or after `from`.
pub open spec fn find_document(documents: Seq<Document>, id: DocumentId, from: int) -> Option<int>
    decreases documents.len() - from,
{
    if from < 0 || from >= documents.len() {
        None
    } else if documents[from].id == id {
        Some(from)
    } else {
        find_document(documents, id, from + 1)
    }
}

pub proof fn lemma_find_document(documents: Seq<Document>, id: DocumentId, from: int)
    requires
        0 <= from,
    ensures
        match find_document(documents, id, from) {
            Some(i) => from <= i < documents.len() && documents[i].id == id && forall|k: int|
                from <= k < i ==> (#[trigger] documents[k]).id != id,
            None => forall|k: int| from <= k < documents.len() ==> (#[trigger] documents[k]).id != id,
        },
    decreases documents.len() - from,
{
    if from < documents.len() && documents[from].id != id {
        lemma_find_document(documents, id, from + 1);
    }
}

pub open spec fn same_ids(a: Seq<Document>, b: Seq<Document>) -> bool {
    a.len() == b.len() && forall|i: int| 0 <= i < a.len() ==> (#[trigger] a[i]).id == b[i].id
}

pub proof fn lemma_same_ids(a: Seq<Document>, b: Seq<Document>, id: DocumentId)
    requires
        same_ids(a, b),
    ensures
        find_document(a, id, 0) == find_document(b, id, 0),
{
    lemma_find_document(a, id, 0);
    lemma_find_document(b, id, 0);
    let x = find_document(a, id, 0);
    let y = find_document(b, id, 0);
    if x is Some {
        assert(a[x->0].id == b[x->0].id);
    }
    if y is Some {
        assert(a[y->0].id == b[y->0].id);
    }
}

/// Why two views are not linked.
#[derive(Clone, Copy, Debug, PartialEq, Eq, Structural)]
pub enum LinkError {
    SameView,
    NotLive,
    UnequalRows { left: usize, right: usize },
}

impl LinkError {
    /// What the user is told.
    pub open spec fn text(self) -> Seq<char> {
        match self {
            LinkError::SameView => "linked scrolling requires two different views"@,
            LinkError::NotLive => "linked scrolling requires two live views"@,
            LinkError::UnequalRows { left, right } => "linked scrolling requires equal-row buffers (left: "@ + decimal_text(
                left as nat,
            ) + ", right: "@ + decimal_text(right as nat) + ")"@,
        }
    }

    /// What the user is told.
    pub fn message(self) -> (out: String)
        ensures
            out@ == self.text(),
    {
        match self {
            LinkError::SameView => "linked scrolling requires two different views".to_owned(),
            LinkError::NotLive => "linked scrolling requires two live views".to_owned(),
            LinkError::UnequalRows { left, right } => "linked scrolling requires equal-row buffers (left: ".to_owned().concat(
                decimal(left as u64).as_str(),
            ).concat(", right: ").concat(decimal(right as u64).as_str()).concat(")"),
        }
    }
}

/// Where a view stands that scrolls with another one: on the same row, or on
/// its last one, with its own columns.
pub open spec fn followed(source: LineMap, from: ViewPosition, target: LineMap, now: ViewPosition) -> ViewPosition {
    let anchor = if from.anchor < source.len_chars {
        from.anchor
    } else {
        source.len_chars
    };
    let row = source.line_of(anchor as int);
    let last = target.starts@.len() - 1;
    ViewPosition {
        anchor: target.start_of(
            if row < last {
                row
            } else {
                last
            },
        ),
        vertical_offset: from.vertical_offset,
        horizontal_offset: now.horizontal_offset,
    }
}

impl Editor {
    /// Where the document of this id stands.
    pub open spec fn document_at(&self, id: DocumentId) -> Option<int> {
        find_document(self.documents@, id, 0)
    }

    /// The document of a view.
    pub open spec fn document_of(&self, view: ViewId) -> DocumentId {
        at(self.tree.shapes(), view)->doc
    }

    pub open spec fn wf(&self) -> bool {
        &&& self.tree.wf()
        &&& self.linked_scroll_links.wf()
        &&& self.diagnostics.wf()
        &&& forall|i: int| 0 <= i < self.documents@.len() ==> (#[trigger] self.documents@[i]).wf()
        &&& forall|i: int, j: int|
            0 <= i < j < self.documents@.len() ==> (#[trigger] self.documents@[i]).id != (#[trigger] self.documents@[j]).id
        &&& forall|view: ViewId| #[trigger]
            live(self.tree.shapes(), view) && at(self.tree.shapes(), view) is View ==> self.document_at(
                at(self.tree.shapes(), view)->doc,
            ) is Some
        &&& forall|view: usize| #[trigger]
            self.linked_scroll_links.peers@.dom().contains(view) ==> view < self.tree.nodes@.len() && (self.tree.holds(
                ViewId(view),
            ) ==> self.tree.is_view(ViewId(view)))
    }

    /// Whether all but the documents, the links and the redrawing is the same.
    pub open spec fn same_rest(&self, other: &Editor) -> bool {
        &&& self.tree == other.tree
        &&& self.diagnostics == other.diagnostics
        &&& self.normal_mode == other.normal_mode
        &&& self.last_focused == other.last_focused
    }

    /// Whether the documents differ at most in where one view stands in one of them.
    pub open spec fn moved(&self, other: &Editor, document: DocumentId, view: ViewId, position: ViewPosition) -> bool {
        &&& same_ids(self.documents@, other.documents@)
        &&& forall|i: int| 0 <= i < self.documents@.len() ==> (#[trigger] self.documents@[i]).same_but_views(
            &other.documents@[i],
        )
        &&& forall|i: int, v: ViewId|
            0 <= i < self.documents@.len() ==> #[trigger] self.documents@[i].position(v) == (if self.documents@[i].id == document
                && v == view {
                position
            } else {
                other.documents@[i].position(v)
            })
        &&& forall|i: int, v: ViewId|
            0 <= i < self.documents@.len() ==> #[trigger] self.documents@[i].selected(v) == other.documents@[i].selected(v)
    }

    /// Where a document stands.
    pub fn document_index(&self, id: DocumentId) -> (out: Option<usize>)
        ensures
            match out {
                Some(i) => i < self.documents@.len() && self.document_at(id) == Some(i as int),
                None => self.document_at(id) is None,
            },
    {
        let mut i: usize = 0;
        while i < self.documents.len()
            invariant
                i <= self.documents@.len(),
                find_document(self.documents@, id, 0) == find_document(self.documents@, id, i as int),
            decreases self.documents.len() - i,
        {
            if self.documents[i].id == id {
                return Some(i);
            }
            i += 1;
        }
        None
    }

    /// The document of a view.
    pub fn view_document(&self, view: ViewId) -> (out: DocumentId)
        requires
            self.tree.is_view(view),
        ensures
            out == self.document_of(view),
    {
        match &self.tree.nodes[view.0] {
            Some(node) => match &node.content {
                Content::View(shown) => shown.doc,
                Content::Container(_) => DocumentId(0),
            },
            None => DocumentId(0),
        }
    }

    pub(crate) fn document_index_of(&self, view: ViewId) -> (out: usize)
        requires
            self.wf(),
            self.tree.is_view(view),
        ensures
            out < self.documents@.len(),
            self.document_at(self.document_of(view)) == Some(out as int),
            self.documents@[out as int].id == self.document_of(view),
    {
        let id = self.view_document(view);
        proof {
            assert(live(self.tree.shapes(), view));
            lemma_find_document(self.documents@, id, 0);
        }
        match self.document_index(id) {
            Some(i) => i,
            None => 0,
        }
    }

    /// The view linked to this one, if both are still there. A link of which one
    /// end is gone is removed.
    pub fn linked_scroll_peer(&mut self, view: ViewId) -> (out: Option<ViewId>)
        requires
            old(self).wf(),
        ensures
            final(self).wf(),
            final(self).same_rest(old(self)),
            final(self).documents == old(self).documents,
            final(self).needs_redraw == old(self).needs_redraw,
            ({
                let peers = old(self).linked_scroll_links.peers@;
                if !peers.dom().contains(view.0) {
                    out is None && final(self).linked_scroll_links.peers@ == peers
                } else if old(self).tree.holds(view) && old(self).tree.holds(peers[view.0]) {
                    out == Some(peers[view.0]) && final(self).linked_scroll_links.peers@ == peers
                } else {
                    out is None && final(self).linked_scroll_links.peers@ == without(peers, view)
                }
            }),
    {
        let peer = match self.linked_scroll_links.peer(view) {
            Some(peer) => peer,
            None => {
                return None;
            },
        };
        if self.tree.contains(view) && self.tree.contains(peer) {
            Some(peer)
        } else {
            self.remove_linked_scroll(view);
            None
        }
    }

    /// Removes the link of a view.
    pub fn remove_linked_scroll(&mut self, view: ViewId) -> (out: bool)
        requires
            old(self).wf(),
        ensures
            final(self).wf(),
            final(self).same_rest(old(self)),
            final(self).documents == old(self).documents,
            final(self).needs_redraw == old(self).needs_redraw,
            out == old(self).linked_scroll_links.peers@.dom().contains(view.0),
            final(self).linked_scroll_links.peers@ == without(old(self).linked_scroll_links.peers@, view),
    {
        let ghost before = *self;
        proof {
            super::linked_scroll::lemma_without(self.linked_scroll_links.peers@, view);
        }
        let out = self.linked_scroll_links.remove(view);
        proof {
            assert(self.tree == before.tree);
            assert forall|other: ViewId| #[trigger]
                live(self.tree.shapes(), other) && at(self.tree.shapes(), other) is View implies self.document_at(
                at(self.tree.shapes(), other)->doc,
            ) is Some by {
                assert(live(before.tree.shapes(), other));
            }
            assert forall|other: usize| #[trigger]
                self.linked_scroll_links.peers@.dom().contains(other) implies other < self.tree.nodes@.len() && (
            self.tree.holds(ViewId(other)) ==> self.tree.is_view(ViewId(other))) by {
                assert(before.linked_scroll_links.peers@.dom().contains(other));
            }
        }
        out
    }

    /// Copies the row of a view to the one linked to it.
    fn synchronize_linked_scroll_from(&mut self, source: ViewId)
        requires
            old(self).wf(),
        ensures
            final(self).wf(),
            final(self).same_rest(old(self)),
            final(self).needs_redraw == old(self).needs_redraw,
            final(self).synchronized(old(self), source),
    {
        let target = match self.linked_scroll_peer(source) {
            Some(target) => target,
            None => {
                return;
            },
        };
        let ghost before = *self;
        proof {
            assert(old(self).linked_scroll_links.peers@.dom().contains(source.0));
            assert(old(self).linked_scroll_links.peers@.dom().contains(target.0));
            assert(self.linked_scroll_links.peers@.dom().contains(source.0));
            assert(self.linked_scroll_links.peers@.dom().contains(target.0));
            assert(ViewId(source.0) == source && ViewId(target.0) == target);
        }
        let source_index: usize = self.document_index_of(source);
        let target_index: usize = self.document_index_of(target);
        proof {
            assert(self.documents@[source_index as int].wf());
            assert(self.documents@[target_index as int].wf());
        }
        let source_offset = self.documents[source_index].view_offset(source);
        let length: usize = self.documents[source_index].lines.len_chars;
        let anchor: usize = if source_offset.anchor < length {
            source_offset.anchor
        } else {
            length
        };
        let source_row: usize = self.documents[source_index].lines.char_to_line(anchor);
        let last: usize = self.documents[target_index].lines.len_lines() - 1;
        let target_row: usize = if source_row < last {
            source_row
        } else {
            last
        };
        let target_offset = self.documents[target_index].view_offset(target);
        let next = ViewPosition {
            anchor: self.documents[target_index].lines.line_to_char(target_row),
            vertical_offset: source_offset.vertical_offset,
            horizontal_offset: target_offset.horizontal_offset,
        };
        if target_offset != next {
            self.documents[target_index].set_view_offset(target, next);
        }
        proof {
            assert(self.documents@ =~= before.documents@.update(
                target_index as int,
                self.documents@[target_index as int],
            ));
            lemma_one_document(before, *self, target_index as int, target, next);
        }
    }

    /// Whether the view linked to `source` has been brought to its row, and
    /// nothing else moved.
    pub open spec fn synchronized(&self, before: &Editor, source: ViewId) -> bool {
        let peers = before.linked_scroll_links.peers@;
        if !peers.dom().contains(source.0) {
            self.linked_scroll_links.peers@ == peers && self.documents == before.documents
        } else if !before.tree.holds(source) || !before.tree.holds(peers[source.0]) {
            self.linked_scroll_links.peers@ == without(peers, source) && self.documents == before.documents
        } else {
            let target = peers[source.0];
            let source_id = before.document_of(source);
            let target_id = before.document_of(target);
            let source_document = before.documents@[before.document_at(source_id)->0];
            let target_document = before.documents@[before.document_at(target_id)->0];
            &&& self.linked_scroll_links.peers@ == peers
            &&& self.moved(
                before,
                target_id,
                target,
                followed(
                    source_document.lines,
                    source_document.position(source),
                    target_document.lines,
                    target_document.position(target),
                ),
            )
        }
    }

    /// Copies the row of the focused view to the one linked to it. Columns,
    /// selections, documents and edits stay independent.
    pub fn synchronize_linked_scroll(&mut self)
        requires
            old(self).wf(),
        ensures
            final(self).wf(),
            final(self).same_rest(old(self)),
            final(self).needs_redraw == old(self).needs_redraw,
            final(self).synchronized(old(self), old(self).tree.focus),
    {
        let focus = self.tree.focus;
        self.synchronize_linked_scroll_from(focus);
    }

    /// The number of rows of a view's document.
    pub open spec fn rows_of(&self, view: ViewId) -> nat {
        self.documents@[self.document_at(self.document_of(view))->0].lines.starts@.len()
    }

    /// Why two views are not linked, if they are not.
    pub open spec fn link_refusal(&self, first: ViewId, second: ViewId) -> Option<LinkError> {
        if first == second {
            Some(LinkError::SameView)
        } else if !self.tree.holds(first) || !self.tree.holds(second) {
            Some(LinkError::NotLive)
        } else if self.rows_of(first) != self.rows_of(second) {
            Some(LinkError::UnequalRows { left: self.rows_of(first) as usize, right: self.rows_of(second) as usize })
        } else {
            None
        }
    }

    /// Whether two views were linked, and one of them brought to the row of the
    /// other: to that of the second where it has the focus.
    pub open spec fn link_made(&self, before: &Editor, first: ViewId, second: ViewId) -> bool {
        let (source, target) = if before.tree.focus == second {
            (second, first)
        } else {
            (first, second)
        };
        let source_document = before.documents@[before.document_at(before.document_of(source))->0];
        let target_document = before.documents@[before.document_at(before.document_of(target))->0];
        &&& self.needs_redraw
        &&& self.linked_scroll_links.peers@ == linked(before.linked_scroll_links.peers@, first, second)
        &&& self.moved(
            before,
            before.document_of(target),
            target,
            followed(
                source_document.lines,
                source_document.position(source),
                target_document.lines,
                target_document.position(target),
            ),
        )
    }

    /// Links the scrolling of two views. The one that has the focus gives the
    /// row, or else the first.
    pub fn create_linked_scroll(&mut self, first: ViewId, second: ViewId) -> (out: Result<(), LinkError>)
        requires
            old(self).wf(),
            old(self).tree.holds(first) ==> old(self).tree.is_view(first),
            old(self).tree.holds(second) ==> old(self).tree.is_view(second),
        ensures
            final(self).wf(),
            final(self).same_rest(old(self)),
            match old(self).link_refusal(first, second) {
                Some(error) => out == Err::<(), LinkError>(error) && *final(self) == *old(self),
                None => out is Ok && final(self).link_made(old(self), first, second),
            },
    {
        if first == second {
            return Err(LinkError::SameView);
        }
        if !self.tree.contains(first) || !self.tree.contains(second) {
            return Err(LinkError::NotLive);
        }
        let first_index: usize = self.document_index_of(first);
        let second_index: usize = self.document_index_of(second);
        let left: usize = self.documents[first_index].lines.len_lines();
        let right: usize = self.documents[second_index].lines.len_lines();
        if left != right {
            return Err(LinkError::UnequalRows { left, right });
        }
        let ghost before = *self;
        proof {
            super::linked_scroll::lemma_without(before.linked_scroll_links.peers@, first);
            super::linked_scroll::lemma_without(without(before.linked_scroll_links.peers@, first), second);
            super::linked_scroll::law_links_are_bidirectional(before.linked_scroll_links.peers@, first, second);
        }
        self.linked_scroll_links.link(first, second);
        proof {
            assert forall|view: ViewId| #[trigger]
                live(self.tree.shapes(), view) && at(self.tree.shapes(), view) is View implies self.document_at(
                at(self.tree.shapes(), view)->doc,
            ) is Some by {
                assert(live(before.tree.shapes(), view));
            }
            assert forall|view: usize| #[trigger]
                self.linked_scroll_links.peers@.dom().contains(view) implies view < self.tree.nodes@.len() && (
            self.tree.holds(ViewId(view)) ==> self.tree.is_view(ViewId(view))) by {
                if view != first.0 && view != second.0 {
                    assert(without(without(before.linked_scroll_links.peers@, first), second).dom().contains(view));
                    assert(without(before.linked_scroll_links.peers@, first).dom().contains(view));
                    assert(before.linked_scroll_links.peers@.dom().contains(view));
                } else if view == first.0 {
                    assert(ViewId(view) == first);
                } else {
                    assert(ViewId(view) == second);
                }
            }
        }
        let source = if self.tree.focus == second {
            second
        } else {
            first
        };
        self.synchronize_linked_scroll_from(source);
        self.needs_redraw = true;
        proof {
            assert forall|view: ViewId| #[trigger]
                live(self.tree.shapes(), view) && at(self.tree.shapes(), view) is View implies self.document_at(
                at(self.tree.shapes(), view)->doc,
            ) is Some by {
                assert(live(before.tree.shapes(), view));
                lemma_same_ids(self.documents@, before.documents@, at(self.tree.shapes(), view)->doc);
            }
        }
        Ok(())
    }
}

/// An editor with another document in the place of one of the same id is
/// still in order.
pub proof fn lemma_replaced_document(before: Editor, after: Editor, index: int)
    requires
        before.wf(),
        0 <= index < before.documents@.len(),
        after.tree == before.tree,
        after.linked_scroll_links == before.linked_scroll_links,
        after.diagnostics == before.diagnostics,
        after.documents@ == before.documents@.update(index, after.documents@[index]),
        after.documents@[index].wf(),
        after.documents@[index].id == before.documents@[index].id,
    ensures
        after.wf(),
        same_ids(after.documents@, before.documents@),
{
    let old_documents = before.documents@;
    let new_documents = after.documents@;
    assert forall|i: int| 0 <= i < new_documents.len() implies (#[trigger] new_documents[i]).id == old_documents[i].id by {}
    assert forall|i: int| 0 <= i < new_documents.len() implies (#[trigger] new_documents[i]).wf() by {
        if i != index {
            assert(old_documents[i].wf());
        }
    }
    assert forall|i: int, j: int| 0 <= i < j < new_documents.len() implies (#[trigger] new_documents[i]).id != (
    #[trigger] new_documents[j]).id by {
        assert(old_documents[i].id != old_documents[j].id);
    }
    assert forall|v: ViewId| #[trigger]
        live(after.tree.shapes(), v) && at(after.tree.shapes(), v) is View implies after.document_at(
        at(after.tree.shapes(), v)->doc,
    ) is Some by {
        assert(live(before.tree.shapes(), v));
        lemma_same_ids(new_documents, old_documents, at(after.tree.shapes(), v)->doc);
    }
    assert forall|v: usize| #[trigger]
        after.linked_scroll_links.peers@.dom().contains(v) implies v < after.tree.nodes@.len() && (after.tree.holds(ViewId(v))
        ==> after.tree.is_view(ViewId(v))) by {
        assert(before.linked_scroll_links.peers@.dom().contains(v));
    }
}

/// An editor in which one view has moved in one document is still in order.
proof fn lemma_one_document(before: Editor, after: Editor, index: int, view: ViewId, position: ViewPosition)
    requires
        before.wf(),
        0 <= index < before.documents@.len(),
        after.tree == before.tree,
        after.linked_scroll_links == before.linked_scroll_links,
        after.diagnostics == before.diagnostics,
        after.documents@ == before.documents@.update(index, after.documents@[index]),
        after.documents@[index].wf(),
        after.documents@[index].same_but_views(&before.documents@[index]),
        after.documents@[index].position(view) == position,
        after.documents@[index].selected(view) == before.documents@[index].selected(view),
        forall|other: ViewId|
            other != view ==> #[trigger] after.documents@[index].data(other) == before.documents@[index].data(other),
    ensures
        after.wf(),
        after.moved(&before, before.documents@[index].id, view, position),
{
    let old_documents = before.documents@;
    let new_documents = after.documents@;
    assert forall|i: int| 0 <= i < new_documents.len() implies (#[trigger] new_documents[i]).id == old_documents[i].id by {}
    lemma_replaced_document(before, after, index);
    assert forall|i: int, v: ViewId| 0 <= i < new_documents.len() implies #[trigger] new_documents[i].position(v) == (
    if new_documents[i].id == before.documents@[index].id && v == view {
        position
    } else {
        old_documents[i].position(v)
    }) by {
        if i != index {
            if i < index {
                assert(old_documents[i].id != old_documents[index].id);
            } else {
                assert(old_documents[index].id != old_documents[i].id);
            }
        } else if v != view {
            assert(new_documents[i].data(v) == old_documents[i].data(v));
        }
    }
    assert forall|i: int, v: ViewId| 0 <= i < new_documents.len() implies #[trigger] new_documents[i].selected(v)
        == old_documents[i].selected(v) by {
        if i == index && v != view {
            assert(new_documents[i].data(v) == old_documents[i].data(v));
        }
    }
}

/// Views of equal rows stand on the same row once one follows the other.
pub proof fn law_linked_views_share_their_row(source: LineMap, from: ViewPosition, target: LineMap, now: ViewPosition)
    requires
        source.wf(),
        target.wf(),
        source.starts@.len() == target.starts@.len(),
    ensures
        ({
            let anchor = if from.anchor < source.len_chars {
                from.anchor as int
            } else {
                source.len_chars as int
            };
            let next = followed(source, from, target, now);
            &&& target.line_holds(source.line_of(anchor), next.anchor as int)
            &&& next.vertical_offset == from.vertical_offset
            &&& next.horizontal_offset == now.horizontal_offset
        }),
{
    let anchor = if from.anchor < source.len_chars {
        from.anchor as int
    } else {
        source.len_chars as int
    };
    crate::line_map::lemma_last_start_bounds(source.starts@, anchor, source.starts@.len() as int);
}

} // verus!
