//! Temporary layouts.

use vstd::prelude::*;

use super::document::{top, Document, ViewData};
use super::linked_scroll::without;
use super::state::{lemma_find_document, lemma_same_ids, same_ids, Editor};
use crate::tree::edit::layout_views;
use crate::tree::temporary_layout::RestoreError;
use crate::tree::{at, live, DocumentId, TemporaryLayoutToken, ViewId};

verus! {

/// Why a layout is not entered or not restored.
#[derive(Clone, Copy, Debug, PartialEq, Eq, Structural)]
pub enum LayoutError {
    NoDocument,
    Restore(RestoreError),
}

impl LayoutError {
    /// What the user is told.
    pub open spec fn text(self) -> Seq<char> {
        match self {
            LayoutError::NoDocument => "temporary layout document does not exist"@,
            LayoutError::Restore(error) => error.text(),
        }
    }

    /// What the user is told.
    pub fn message(self) -> (out: &'static str)
        ensures
            out@ == self.text(),
    {
        match self {
            LayoutError::NoDocument => "temporary layout document does not exist",
            LayoutError::Restore(error) => error.message(),
        }
    }
}

/// The links without those of the first `n` views.
pub open spec fn without_all(peers: Map<usize, ViewId>, views: Seq<ViewId>, n: int) -> Map<usize, ViewId>
    decreases n,
{
    if n <= 0 {
        peers
    } else {
        without(without_all(peers, views, n - 1), views[n - 1])
    }
}

/// Whether a document has forgotten the first `n` views and nothing else.
pub open spec fn forgot(after: Document, before: Document, views: Seq<ViewId>, n: int) -> bool {
    &&& after.wf()
    &&& after.id == before.id
    &&& after.lines == before.lines
    &&& after.modified == before.modified
    &&& forall|view: ViewId| #[trigger]
        after.data(view) == (if views.subrange(0, n).contains(view) {
            None
        } else {
            before.data(view)
        })
    &&& forall|view: ViewId| #[trigger]
        after.custom_text_annotations.has(view) == (!views.subrange(0, n).contains(view)
            && before.custom_text_annotations.has(view))
    &&& forall|view: ViewId, name: Seq<char>|
        !views.subrange(0, n).contains(view) ==> #[trigger] after.custom_text_annotations.entry(view, name)
            == before.custom_text_annotations.entry(view, name)
}

/// A document forgets views.
fn forget_views(document: &mut Document, views: &Vec<ViewId>)
    requires
        old(document).wf(),
    ensures
        forgot(*final(document), *old(document), views@, views@.len() as int),
{
    let ghost before = *document;
    let mut i: usize = 0;
    proof {
        assert(views@.subrange(0, 0) =~= Seq::<ViewId>::empty());
    }
    while i < views.len()
        invariant
            i <= views@.len(),
            forgot(*document, before, views@, i as int),
        decreases views.len() - i,
    {
        let view = views[i];
        let ghost middle = *document;
        let ghost less = views@.subrange(0, i as int);
        document.remove_view(view);
        i += 1;
        proof {
            let done = views@.subrange(0, i as int);
            assert(done =~= less.push(view));
            assert forall|v: ViewId| done.contains(v) == (less.contains(v) || v == view) by {
                if less.contains(v) {
                    let k = choose|k: int| 0 <= k < less.len() && less[k] == v;
                    assert(done[k] == v);
                }
                assert(done[i - 1] == view);
            }
            assert forall|v: ViewId| #[trigger] document.data(v) == (if done.contains(v) {
                None
            } else {
                before.data(v)
            }) by {
                assert(middle.data(v) == (if less.contains(v) {
                    None
                } else {
                    before.data(v)
                }));
            }
            assert forall|v: ViewId| #[trigger] document.custom_text_annotations.has(v) == (!done.contains(v)
                && before.custom_text_annotations.has(v)) by {
                assert(middle.custom_text_annotations.has(v) == (!less.contains(v) && before.custom_text_annotations.has(v)));
            }
            assert forall|v: ViewId, name: Seq<char>| !done.contains(v) implies #[trigger] document.custom_text_annotations.entry(
                v,
                name,
            ) == before.custom_text_annotations.entry(v, name) by {
                assert(middle.custom_text_annotations.entry(v, name) == before.custom_text_annotations.entry(v, name));
            }
        }
    }
}

/// What a document knows of a view once another one of `id` is shown as well.
pub open spec fn introduced(document: Document, id: DocumentId, new: ViewId, view: ViewId) -> Option<ViewData> {
    if document.id == id && view == new && document.data(view) is None {
        Some(ViewData { view, position: top(), selection: None })
    } else {
        document.data(view)
    }
}

impl Editor {
    /// Whether every document has forgotten the views and nothing else.
    pub open spec fn forgot_views(&self, before: &Editor, views: Seq<ViewId>) -> bool {
        &&& same_ids(self.documents@, before.documents@)
        &&& forall|i: int|
            0 <= i < self.documents@.len() ==> forgot(
                #[trigger] self.documents@[i],
                before.documents@[i],
                views,
                views.len() as int,
            )
    }

    /// Whether the layout is suspended and a single view of a document is shown
    /// instead.
    pub open spec fn layout_entered(&self, before: &Editor, document_id: DocumentId, token: TemporaryLayoutToken) -> bool {
        &&& self.tree.entered(&before.tree, document_id, token, self.tree.focus)
        &&& self.tree.drawn()
        &&& self.normal_mode
        &&& self.needs_redraw
        &&& self.last_focused == Some(document_id)
        &&& self.linked_scroll_links == before.linked_scroll_links
        &&& self.diagnostics == before.diagnostics
        &&& same_ids(self.documents@, before.documents@)
        &&& forall|i: int| 0 <= i < self.documents@.len() ==> (#[trigger] self.documents@[i]).same_but_views(&before.documents@[i])
        &&& forall|i: int, view: ViewId|
            0 <= i < self.documents@.len() ==> #[trigger] self.documents@[i].data(view) == introduced(
                before.documents@[i],
                document_id,
                self.tree.focus,
                view,
            )
    }

    /// Suspends the layout and shows a single view of a document instead.
    pub fn enter_temporary_layout(&mut self, document_id: DocumentId) -> (out: Result<TemporaryLayoutToken, LayoutError>)
        requires
            old(self).wf(),
            old(self).tree.nodes@.len() + 2 <= usize::MAX,
        ensures
            final(self).wf(),
            old(self).document_at(document_id) is None ==> out == Err::<TemporaryLayoutToken, LayoutError>(
                LayoutError::NoDocument,
            ) && *final(self) == *old(self),
            old(self).document_at(document_id) is Some ==> out is Ok && final(self).layout_entered(
                old(self),
                document_id,
                out->Ok_0,
            ),
    {
        let ghost before = *self;
        let index: usize = match self.document_index(document_id) {
            Some(index) => index,
            None => {
                return Err(LayoutError::NoDocument);
            },
        };
        proof {
            assert(self.documents@[index as int].wf());
            lemma_find_document(self.documents@, document_id, 0);
        }
        self.normal_mode = true;
        let (token, view) = self.tree.enter_temporary_layout(document_id);
        self.documents[index].ensure_view_init(view);
        self.last_focused = Some(document_id);
        self.needs_redraw = true;
        proof {
            let old_documents = before.documents@;
            let new_documents = self.documents@;
            assert(new_documents =~= old_documents.update(index as int, new_documents[index as int]));
            assert(same_ids(new_documents, old_documents));
            assert forall|i: int| 0 <= i < new_documents.len() implies (#[trigger] new_documents[i]).wf() by {
                assert(old_documents[i].wf());
            }
            assert forall|i: int, j: int| 0 <= i < j < new_documents.len() implies (#[trigger] new_documents[i]).id != (
            #[trigger] new_documents[j]).id by {
                assert(old_documents[i].id != old_documents[j].id);
            }
            let a = before.tree.shapes();
            let b = self.tree.shapes();
            let root = self.tree.root;
            assert(a.len() == before.tree.nodes@.len());
            assert(b.len() == self.tree.nodes@.len());
            assert forall|x: ViewId| #[trigger] live(b, x) implies x == root || x == view || live(a, x) && at(b, x) == at(a, x) by {
                if x != view && x != root {
                    assert(x.0 != view.0);
                    assert(x.0 != root.0);
                }
            }
            assert forall|x: ViewId| #[trigger] live(b, x) && at(b, x) is View implies self.document_at(at(b, x)->doc) is Some by {
                lemma_same_ids(new_documents, old_documents, at(b, x)->doc);
                if x != view {
                    assert(x != root);
                    assert(live(a, x));
                }
            }
            assert forall|v: usize| #[trigger]
                self.linked_scroll_links.peers@.dom().contains(v) implies v < self.tree.nodes@.len() && (self.tree.holds(
                ViewId(v),
            ) ==> self.tree.is_view(ViewId(v))) by {
                assert(before.linked_scroll_links.peers@.dom().contains(v));
                let x = ViewId(v);
                if live(b, x) {
                    assert(x.0 < a.len());
                    assert(before.tree.holds(x));
                }
            }
        }
        Ok(token)
    }

    fn forget_in_documents(&mut self, views: &Vec<ViewId>)
        requires
            forall|i: int| 0 <= i < old(self).documents@.len() ==> (#[trigger] old(self).documents@[i]).wf(),
        ensures
            final(self).forgot_views(old(self), views@),
            final(self).tree == old(self).tree,
            final(self).linked_scroll_links == old(self).linked_scroll_links,
            final(self).diagnostics == old(self).diagnostics,
            final(self).needs_redraw == old(self).needs_redraw,
            final(self).normal_mode == old(self).normal_mode,
            final(self).last_focused == old(self).last_focused,
    {
        let ghost before = *self;
        let mut i: usize = 0;
        while i < self.documents.len()
            invariant
                i <= self.documents@.len(),
                self.documents@.len() == before.documents@.len(),
                self.tree == before.tree,
                self.linked_scroll_links == before.linked_scroll_links,
                self.diagnostics == before.diagnostics,
                self.needs_redraw == before.needs_redraw,
                self.normal_mode == before.normal_mode,
                self.last_focused == before.last_focused,
                forall|k: int| 0 <= k < before.documents@.len() ==> (#[trigger] before.documents@[k]).wf(),
                forall|k: int|
                    0 <= k < i ==> forgot(#[trigger] self.documents@[k], before.documents@[k], views@, views@.len() as int),
                forall|k: int| i <= k < self.documents@.len() ==> #[trigger] self.documents@[k] == before.documents@[k],
            decreases self.documents.len() - i,
        {
            proof {
                assert(self.documents@[i as int] == before.documents@[i as int]);
                assert(before.documents@[i as int].wf());
            }
            forget_views(&mut self.documents[i], views);
            i += 1;
        }
    }

    fn forget_links(&mut self, views: &Vec<ViewId>)
        requires
            old(self).linked_scroll_links.wf(),
        ensures
            final(self).linked_scroll_links.wf(),
            final(self).linked_scroll_links.peers@ == without_all(
                old(self).linked_scroll_links.peers@,
                views@,
                views@.len() as int,
            ),
            final(self).linked_scroll_links.peers@.dom().subset_of(old(self).linked_scroll_links.peers@.dom()),
            final(self).tree == old(self).tree,
            final(self).documents == old(self).documents,
            final(self).diagnostics == old(self).diagnostics,
            final(self).needs_redraw == old(self).needs_redraw,
            final(self).normal_mode == old(self).normal_mode,
            final(self).last_focused == old(self).last_focused,
    {
        let ghost first = self.linked_scroll_links.peers@;
        let ghost before = *self;
        let mut i: usize = 0;
        while i < views.len()
            invariant
                i <= views@.len(),
                self.linked_scroll_links.wf(),
                self.linked_scroll_links.peers@ == without_all(first, views@, i as int),
                self.linked_scroll_links.peers@.dom().subset_of(first.dom()),
                self.tree == before.tree,
                self.documents == before.documents,
                self.diagnostics == before.diagnostics,
                self.needs_redraw == before.needs_redraw,
                self.normal_mode == before.normal_mode,
                self.last_focused == before.last_focused,
            decreases views.len() - i,
        {
            proof {
                super::linked_scroll::lemma_without(self.linked_scroll_links.peers@, views@[i as int]);
            }
            let ghost middle = self.linked_scroll_links.peers@;
            self.linked_scroll_links.remove(views[i]);
            proof {
                assert forall|v: usize| #[trigger] self.linked_scroll_links.peers@.dom().contains(v) implies first.dom().contains(v) by {
                    assert(middle.dom().contains(v));
                }
            }
            i += 1;
        }
    }

    /// Whether the layout suspended last is shown again, and nothing is left of
    /// the views that were shown instead.
    pub open spec fn layout_restored(&self, before: &Editor) -> bool {
        let removed = layout_views(before.tree.shapes(), before.tree.rank@, before.tree.root);
        &&& self.tree.restored(&before.tree)
        &&& self.tree.wf()
        &&& self.tree.drawn()
        &&& self.forgot_views(before, removed)
        &&& self.linked_scroll_links.peers@ == without_all(
            before.linked_scroll_links.peers@,
            removed,
            removed.len() as int,
        )
        &&& self.diagnostics == before.diagnostics
        &&& self.normal_mode == before.normal_mode
        &&& self.needs_redraw
        &&& self.last_focused == (if self.tree.is_view(self.tree.focus) {
            Some(self.document_of(self.tree.focus))
        } else {
            before.last_focused
        })
    }

    /// Whether the last `n` suspended layouts are shown again, one after the
    /// other.
    pub open spec fn layouts_restored(before: Editor, n: int, after: Editor) -> bool
        decreases n,
    {
        if n <= 0 {
            after == before
        } else {
            exists|middle: Editor| #[trigger]
                after.layout_restored(&middle) && Editor::layouts_restored(before, n - 1, middle)
        }
    }

    /// Restores the layout that was suspended last. Its views are forgotten in
    /// all documents, and their links are removed.
    pub fn restore_temporary_layout(&mut self, token: TemporaryLayoutToken) -> (out: Result<(), LayoutError>)
        requires
            old(self).wf(),
        ensures
            final(self).wf(),
            ({
                let layouts = old(self).tree.temporary_layouts@;
                if layouts.len() == 0 {
                    out == Err::<(), LayoutError>(LayoutError::Restore(RestoreError::NoneActive)) && *final(self) == *old(self)
                } else if layouts.last().token != token {
                    out == Err::<(), LayoutError>(LayoutError::Restore(RestoreError::NotLast)) && *final(self) == *old(self)
                } else {
                    out is Ok && final(self).layout_restored(old(self))
                }
            }),
    {
        let ghost before = *self;
        let removed = match self.tree.restore_temporary_layout(token) {
            Ok(removed) => removed,
            Err(error) => {
                proof {
                    assert(*self == before);
                }
                return Err(LayoutError::Restore(error));
            },
        };
        self.forget_in_documents(&removed);
        self.forget_links(&removed);
        let focus = self.tree.focus;
        if self.tree.node_is_view(focus) {
            self.last_focused = Some(self.view_document(focus));
        }
        self.needs_redraw = true;
        proof {
            let old_documents = before.documents@;
            let new_documents = self.documents@;
            assert forall|i: int| 0 <= i < new_documents.len() implies (#[trigger] new_documents[i]).wf() by {
                assert(forgot(new_documents[i], old_documents[i], removed@, removed@.len() as int));
            }
            assert forall|i: int, j: int| 0 <= i < j < new_documents.len() implies (#[trigger] new_documents[i]).id != (
            #[trigger] new_documents[j]).id by {
                assert(old_documents[i].id != old_documents[j].id);
            }
            let a = before.tree.shapes();
            let b = self.tree.shapes();
            assert(b.len() == a.len());
            assert(a.len() == before.tree.nodes@.len());
            assert(b.len() == self.tree.nodes@.len());
            assert forall|x: ViewId| #[trigger] live(b, x) implies live(a, x) && at(b, x) == at(a, x) by {}
            assert forall|x: ViewId| #[trigger] live(b, x) && at(b, x) is View implies self.document_at(at(b, x)->doc) is Some by {
                lemma_same_ids(new_documents, old_documents, at(b, x)->doc);
                assert(live(a, x));
            }
            assert forall|v: usize| #[trigger]
                self.linked_scroll_links.peers@.dom().contains(v) implies v < self.tree.nodes@.len() && (self.tree.holds(
                ViewId(v),
            ) ==> self.tree.is_view(ViewId(v))) by {
                assert(before.linked_scroll_links.peers@.dom().contains(v));
                if live(b, ViewId(v)) {
                    assert(before.tree.holds(ViewId(v)));
                }
            }
        }
        Ok(())
    }

    pub fn active_temporary_layout_token(&self) -> (out: Option<TemporaryLayoutToken>)
        ensures
            out == (if self.tree.temporary_layouts@.len() == 0 {
                None
            } else {
                Some(self.tree.temporary_layouts@.last().token)
            }),
    {
        self.tree.active_temporary_layout_token()
    }

    /// Restores all suspended layouts, so that the first one is shown again.
    pub fn restore_all_temporary_layouts(&mut self)
        requires
            old(self).wf(),
        ensures
            final(self).wf(),
            Editor::layouts_restored(*old(self), old(self).tree.temporary_layouts@.len() as int, *final(self)),
            final(self).tree.temporary_layouts@.len() == 0,
            old(self).tree.temporary_layouts@.len() == 0 ==> *final(self) == *old(self),
            old(self).tree.temporary_layouts@.len() > 0 ==> final(self).tree.root == old(self).tree.temporary_layouts@[0].root
                && final(self).tree.focus == old(self).tree.temporary_layouts@[0].focus && final(self).tree.fullscreen == old(
                self,
            ).tree.temporary_layouts@[0].fullscreen,
            same_ids(final(self).documents@, old(self).documents@),
            final(self).diagnostics == old(self).diagnostics,
    {
        let ghost first = *self;
        let ghost layouts = self.tree.temporary_layouts@;
        loop
            invariant
                self.wf(),
                first == *old(self),
                layouts == first.tree.temporary_layouts@,
                self.tree.temporary_layouts@.len() <= layouts.len(),
                forall|i: int|
                    0 <= i < self.tree.temporary_layouts@.len() ==> #[trigger] self.tree.temporary_layouts@[i] == layouts[i],
                self.tree.temporary_layouts@.len() == layouts.len() ==> *self == first,
                Editor::layouts_restored(first, layouts.len() - self.tree.temporary_layouts@.len(), *self),
                self.tree.temporary_layouts@.len() < layouts.len() ==> ({
                    let shown = layouts[self.tree.temporary_layouts@.len() as int];
                    self.tree.root == shown.root && self.tree.focus == shown.focus && self.tree.fullscreen == shown.fullscreen
                }),
                same_ids(self.documents@, first.documents@),
                self.diagnostics == first.diagnostics,
            decreases self.tree.temporary_layouts@.len(),
        {
            let token = match self.active_temporary_layout_token() {
                Some(token) => token,
                None => {
                    return;
                },
            };
            let ghost before = *self;
            let result = self.restore_temporary_layout(token);
            proof {
                assert(self.layout_restored(&before));
                assert(self.tree.temporary_layouts@ =~= before.tree.temporary_layouts@.drop_last());
                let n = self.tree.temporary_layouts@.len() as int;
                assert(before.tree.temporary_layouts@[n] == layouts[n]);
                assert forall|i: int| 0 <= i < n implies #[trigger] self.tree.temporary_layouts@[i] == layouts[i] by {
                    assert(before.tree.temporary_layouts@[i] == layouts[i]);
                }
                assert(same_ids(self.documents@, before.documents@));
                assert forall|i: int| 0 <= i < self.documents@.len() implies (#[trigger] self.documents@[i]).id
                    == first.documents@[i].id by {
                    assert(self.documents@[i].id == before.documents@[i].id);
                    assert(before.documents@[i].id == first.documents@[i].id);
                }
            }
        }
    }
}

} // verus!
