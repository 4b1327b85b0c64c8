//! What temporary layouts leave behind in the editor: nothing.

use vstd::prelude::*;

use super::document::Document;
use super::linked_scroll::{lemma_without, mutual};
use super::plugin_layout::{forgot, introduced, without_all};
use super::state::{same_ids, Editor};
use crate::tree::edit::{layout_views, lemma_layout_views};
use crate::tree::temporary_layout::{
    keeps_layout, law_editing_keeps_the_layout, law_entering_keeps_the_layout, law_restoring_keeps_the_layout, law_shown_again_as_before, law_temporary_layout_is_undone, same_layout,
};
use crate::tree::{at, DocumentId, TemporaryLayoutToken, ViewId};

verus! {

/// Whether nothing is left of a view: no document knows it or has annotations
/// for it, and no view scrolls with it.
pub open spec fn is_forgotten(editor: Editor, view: ViewId) -> bool {
    &&& !editor.tree.holds(view)
    &&& forall|i: int|
        0 <= i < editor.documents@.len() ==> (#[trigger] editor.documents@[i]).data(view) is None
            && !editor.documents@[i].custom_text_annotations.has(view)
    &&& !editor.linked_scroll_links.peers@.dom().contains(view.0)
    &&& forall|other: usize| #[trigger]
        editor.linked_scroll_links.peers@.dom().contains(other) ==> editor.linked_scroll_links.peers@[other] != view
}

/// Whether a document is another one as far as a view is concerned.
pub open spec fn knows_as(after: Document, before: Document, view: ViewId) -> bool {
    &&& after.data(view) == before.data(view)
    &&& after.custom_text_annotations.has(view) == before.custom_text_annotations.has(view)
    &&& forall|name: Seq<char>| #[trigger]
        after.custom_text_annotations.entry(view, name) == before.custom_text_annotations.entry(view, name)
}

/// Whether all documents are the same but for what they know of views.
pub open spec fn same_texts(after: Seq<Document>, before: Seq<Document>) -> bool {
    &&& same_ids(after, before)
    &&& forall|i: int|
        0 <= i < after.len() ==> (#[trigger] after[i]).lines == before[i].lines && after[i].modified == before[i].modified
}

/// Whether all documents know the same of a view: where it stands, what it has
/// selected, and its annotations.
pub open spec fn all_know_as(after: Editor, before: Editor, view: ViewId) -> bool {
    forall|i: int| 0 <= i < after.documents@.len() ==> knows_as(#[trigger] after.documents@[i], before.documents@[i], view)
}

/// Whether a view scrolls with another one as it did, where it did.
pub open spec fn linked_as(after: Editor, before: Editor, view: ViewId) -> bool {
    let was = before.linked_scroll_links.peers@;
    let now = after.linked_scroll_links.peers@;
    &&& now.dom().contains(view.0) ==> was.dom().contains(view.0) && now[view.0] == was[view.0]
    &&& was.dom().contains(view.0) && after.tree.holds(was[view.0]) ==> now.dom().contains(view.0)
}

proof fn lemma_without_all(peers: Map<usize, ViewId>, views: Seq<ViewId>, n: int)
    requires
        mutual(peers),
        0 <= n <= views.len(),
    ensures
        mutual(without_all(peers, views, n)),
        forall|i: int| 0 <= i < n ==> !without_all(peers, views, n).dom().contains((#[trigger] views[i]).0),
        forall|other: usize| #[trigger]
            without_all(peers, views, n).dom().contains(other) ==> peers.dom().contains(other) && without_all(peers, views, n)[other]
                == peers[other],
        forall|other: usize|
            peers.dom().contains(other) && !views.contains(ViewId(other)) && !views.contains(peers[other])
                ==> #[trigger] without_all(peers, views, n).dom().contains(other),
    decreases n,
{
    if n > 0 {
        lemma_without_all(peers, views, n - 1);
        let before = without_all(peers, views, n - 1);
        let view = views[n - 1];
        lemma_without(before, view);
        let after = without_all(peers, views, n);
        assert forall|i: int| 0 <= i < n implies !after.dom().contains((#[trigger] views[i]).0) by {
            if i < n - 1 && after.dom().contains(views[i].0) {
                assert(before.dom().contains(views[i].0));
            }
        }
        assert forall|other: usize| #[trigger] after.dom().contains(other) implies peers.dom().contains(other) && after[other]
            == peers[other] by {
            assert(before.dom().contains(other));
        }
        assert forall|other: usize|
            peers.dom().contains(other) && !views.contains(ViewId(other)) && !views.contains(peers[other]) implies #[trigger] after.dom().contains(
            other,
        ) by {
            assert(before.dom().contains(other));
            assert(views.contains(view));
            assert(ViewId(other) != view);
            assert(peers[other] != view);
            if before.dom().contains(view.0) {
                assert(before[before[view.0].0].0 == view.0);
                assert(before[view.0].0 != other);
            }
        }
    }
}

/// What one restored layout leaves behind.
proof fn lemma_one_restored(first: Editor, before: Editor, after: Editor)
    requires
        first.tree.wf(),
        before.tree.wf(),
        mutual(before.linked_scroll_links.peers@),
        keeps_layout(first.tree, before.tree),
        before.tree.temporary_layouts@.len() > first.tree.temporary_layouts@.len(),
        after.layout_restored(&before),
    ensures
        keeps_layout(first.tree, after.tree),
        after.tree.temporary_layouts@.len() == before.tree.temporary_layouts@.len() - 1,
        mutual(after.linked_scroll_links.peers@),
        same_texts(after.documents@, before.documents@),
        forall|view: ViewId| #[trigger]
            after.tree.holds(view) ==> before.tree.holds(view) && at(after.tree.shapes(), view) == at(before.tree.shapes(), view),
        forall|view: ViewId| #[trigger] before.tree.is_view(view) && !after.tree.holds(view) ==> is_forgotten(after, view),
        forall|view: ViewId| #[trigger] after.tree.holds(view) ==> all_know_as(after, before, view) && linked_as(after, before, view),
        forall|view: ViewId| !before.tree.holds(view) && #[trigger] is_forgotten(before, view) ==> is_forgotten(after, view),
{
    law_restoring_keeps_the_layout(first.tree, before.tree, after.tree);
    let removed = layout_views(before.tree.shapes(), before.tree.rank@, before.tree.root);
    crate::tree::lemma_forest_node(
        before.tree.shapes(),
        before.tree.home@,
        before.tree.rank@,
        before.tree.bound@,
        before.tree.root,
    );
    lemma_layout_views(before.tree, before.tree.root);
    let was = before.linked_scroll_links.peers@;
    let now = after.linked_scroll_links.peers@;
    lemma_without_all(was, removed, removed.len() as int);
    assert(removed.subrange(0, removed.len() as int) =~= removed);
    assert forall|i: int| 0 <= i < after.documents@.len() implies (#[trigger] after.documents@[i]).lines == before.documents@[i].lines
        && after.documents@[i].modified == before.documents@[i].modified by {
        assert(forgot(after.documents@[i], before.documents@[i], removed, removed.len() as int));
    }
    assert forall|view: ViewId| #[trigger] before.tree.is_view(view) && !after.tree.holds(view) implies is_forgotten(after, view) by {
        assert(before.tree.holds(view));
        assert(before.tree.active(view));
        assert(removed.contains(view));
        let k = choose|k: int| 0 <= k < removed.len() && removed[k] == view;
        assert(!now.dom().contains(removed[k].0));
        assert forall|i: int| 0 <= i < after.documents@.len() implies (#[trigger] after.documents@[i]).data(view) is None
            && !after.documents@[i].custom_text_annotations.has(view) by {
            assert(forgot(after.documents@[i], before.documents@[i], removed, removed.len() as int));
        }
        assert forall|other: usize| #[trigger] now.dom().contains(other) implies now[other] != view by {
            assert(now.dom().contains(now[other].0));
        }
    }
    assert forall|view: ViewId| #[trigger] after.tree.holds(view) implies all_know_as(after, before, view) && linked_as(
        after,
        before,
        view,
    ) by {
        assert(!before.tree.active(view));
        assert(!removed.contains(view));
        assert forall|i: int| 0 <= i < after.documents@.len() implies knows_as(
            #[trigger] after.documents@[i],
            before.documents@[i],
            view,
        ) by {
            assert(forgot(after.documents@[i], before.documents@[i], removed, removed.len() as int));
        }
        assert(ViewId(view.0) == view);
        if was.dom().contains(view.0) && after.tree.holds(was[view.0]) {
            assert(!before.tree.active(was[view.0]));
            assert(!removed.contains(was[view.0]));
            assert(now.dom().contains(view.0));
        }
    }
    assert forall|view: ViewId| !before.tree.holds(view) && #[trigger] is_forgotten(before, view) implies is_forgotten(after, view) by {
        assert(!after.tree.holds(view));
        assert forall|i: int| 0 <= i < after.documents@.len() implies (#[trigger] after.documents@[i]).data(view) is None
            && !after.documents@[i].custom_text_annotations.has(view) by {
            assert(forgot(after.documents@[i], before.documents@[i], removed, removed.len() as int));
            assert(before.documents@[i].data(view) is None);
        }
        assert forall|other: usize| #[trigger] now.dom().contains(other) implies now[other] != view by {
            assert(was.dom().contains(other));
        }
    }
}

/// Whatever is done inside a temporary layout, restoring the one that it
/// suspended brings back its views, their order, the focus, the fullscreen view
/// and, where the area is the same, the place of every view. The texts are those
/// of before the restoration, with their modifications, and so are where every
/// view stands, what it has selected, its annotations and its link. Nothing is
/// left of the views of the temporary layout.
pub proof fn law_temporary_layout_leaves_no_trace(
    before: Editor,
    entered: Editor,
    edited: Editor,
    after: Editor,
    document_id: DocumentId,
    token: TemporaryLayoutToken,
)
    requires
        before.wf(),
        before.tree.nodes@.len() + 2 <= usize::MAX,
        entered.wf(),
        entered.layout_entered(&before, document_id, token),
        edited.wf(),
        edited.tree.edited(&entered.tree),
        after.layout_restored(&edited),
    ensures
        edited.tree.temporary_layouts@.len() > 0,
        edited.tree.temporary_layouts@.last().token == token,
        same_layout(before.tree, after.tree),
        layout_views(after.tree.shapes(), after.tree.rank@, after.tree.root) == layout_views(
            before.tree.shapes(),
            before.tree.rank@,
            before.tree.root,
        ),
        after.tree.area == before.tree.area ==> forall|view: ViewId| #[trigger]
            before.tree.active(view) ==> after.tree.active(view) && after.tree.area_of(view) == before.tree.area_of(view),
        same_texts(entered.documents@, before.documents@),
        same_texts(after.documents@, edited.documents@),
        forall|view: ViewId| #[trigger]
            before.tree.holds(view) ==> all_know_as(entered, before, view) && all_know_as(after, edited, view) && linked_as(
                after,
                edited,
                view,
            ),
        forall|view: ViewId| #[trigger] edited.tree.is_view(view) && !before.tree.holds(view) ==> is_forgotten(after, view),
{
    law_temporary_layout_is_undone(
        before.tree,
        entered.tree,
        edited.tree,
        after.tree,
        document_id,
        token,
        entered.tree.focus,
    );
    assert(keeps_layout(before.tree, before.tree));
    law_entering_keeps_the_layout(before.tree, before.tree, entered.tree, document_id, token, entered.tree.focus);
    law_editing_keeps_the_layout(before.tree, entered.tree, edited.tree);
    lemma_one_restored(before, edited, after);
    assert forall|view: ViewId| #[trigger] before.tree.holds(view) implies all_know_as(entered, before, view) && all_know_as(
        after,
        edited,
        view,
    ) && linked_as(after, edited, view) by {
        assert(after.tree.holds(view));
        assert(view != entered.tree.focus) by {
            assert(before.tree.shapes().len() == before.tree.nodes@.len());
        }
        assert forall|i: int| 0 <= i < entered.documents@.len() implies knows_as(
            #[trigger] entered.documents@[i],
            before.documents@[i],
            view,
        ) by {
            assert(entered.documents@[i].same_but_views(&before.documents@[i]));
            assert(entered.documents@[i].data(view) == introduced(before.documents@[i], document_id, entered.tree.focus, view));
        }
    }
    assert forall|view: ViewId| #[trigger] edited.tree.is_view(view) && !before.tree.holds(view) implies is_forgotten(after, view) by {
        assert(!after.tree.holds(view));
    }
    assert forall|i: int| 0 <= i < entered.documents@.len() implies (#[trigger] entered.documents@[i]).lines
        == before.documents@[i].lines && entered.documents@[i].modified == before.documents@[i].modified by {
        assert(entered.documents@[i].same_but_views(&before.documents@[i]));
    }
}

proof fn lemma_restored_up_to(first: Editor, before: Editor, n: int, after: Editor)
    requires
        first.tree.wf(),
        before.wf(),
        keeps_layout(first.tree, before.tree),
        0 <= n <= before.tree.temporary_layouts@.len() - first.tree.temporary_layouts@.len(),
        Editor::layouts_restored(before, n, after),
    ensures
        after.tree.wf(),
        keeps_layout(first.tree, after.tree),
        after.tree.temporary_layouts@.len() == before.tree.temporary_layouts@.len() - n,
        after.tree.area == before.tree.area,
        mutual(after.linked_scroll_links.peers@),
        same_texts(after.documents@, before.documents@),
        forall|view: ViewId| #[trigger]
            after.tree.holds(view) ==> before.tree.holds(view) && at(after.tree.shapes(), view) == at(before.tree.shapes(), view)
                && all_know_as(after, before, view) && linked_as(after, before, view),
        forall|view: ViewId| #[trigger] before.tree.is_view(view) && !after.tree.holds(view) ==> is_forgotten(after, view),
    decreases n,
{
    if n > 0 {
        let middle = choose|middle: Editor| #[trigger]
            after.layout_restored(&middle) && Editor::layouts_restored(before, n - 1, middle);
        lemma_restored_up_to(first, before, n - 1, middle);
        lemma_one_restored(first, middle, after);
        assert forall|i: int| 0 <= i < after.documents@.len() implies (#[trigger] after.documents@[i]).id == before.documents@[i].id
            && after.documents@[i].lines == before.documents@[i].lines && after.documents@[i].modified
            == before.documents@[i].modified by {
            assert(middle.documents@[i].id == before.documents@[i].id);
            assert(middle.documents@[i].lines == before.documents@[i].lines);
        }
        assert forall|view: ViewId| #[trigger] after.tree.holds(view) implies before.tree.holds(view) && at(
            after.tree.shapes(),
            view,
        ) == at(before.tree.shapes(), view) && all_know_as(after, before, view) && linked_as(after, before, view) by {
            assert(middle.tree.holds(view));
            assert forall|i: int| 0 <= i < after.documents@.len() implies knows_as(
                #[trigger] after.documents@[i],
                before.documents@[i],
                view,
            ) by {
                assert(knows_as(after.documents@[i], middle.documents@[i], view));
                assert(knows_as(middle.documents@[i], before.documents@[i], view));
                assert forall|name: Seq<char>| #[trigger]
                    after.documents@[i].custom_text_annotations.entry(view, name)
                        == before.documents@[i].custom_text_annotations.entry(view, name) by {
                    assert(middle.documents@[i].custom_text_annotations.entry(view, name)
                        == before.documents@[i].custom_text_annotations.entry(view, name));
                }
            }
            let was = before.linked_scroll_links.peers@;
            if was.dom().contains(view.0) && after.tree.holds(was[view.0]) {
                assert(middle.tree.holds(was[view.0]));
            }
        }
        assert forall|view: ViewId| #[trigger] before.tree.is_view(view) && !after.tree.holds(view) implies is_forgotten(
            after,
            view,
        ) by {
            if middle.tree.holds(view) {
                assert(middle.tree.is_view(view));
            } else {
                assert(is_forgotten(middle, view));
            }
        }
    }
}

/// Restoring all layouts brings back the first one: its views, their order, the
/// focus, the fullscreen view and, where the area is the same, the place of
/// every view. The texts stay, with their modifications, and so do where every
/// view of the first layout stands, what it has selected, its annotations and its
/// link. Nothing is left of any other view. Where no layout is suspended nothing
/// changes.
pub proof fn law_all_temporary_layouts_leave_no_trace(first: Editor, before: Editor, after: Editor)
    requires
        first.tree.wf(),
        first.tree.temporary_layouts@.len() == 0,
        before.wf(),
        keeps_layout(first.tree, before.tree),
        Editor::layouts_restored(before, before.tree.temporary_layouts@.len() as int, after),
    ensures
        before.tree.temporary_layouts@.len() == 0 ==> after == before,
        same_layout(first.tree, after.tree),
        layout_views(after.tree.shapes(), after.tree.rank@, after.tree.root) == layout_views(
            first.tree.shapes(),
            first.tree.rank@,
            first.tree.root,
        ),
        before.tree.area == first.tree.area ==> forall|view: ViewId| #[trigger]
            first.tree.active(view) ==> after.tree.active(view) && after.tree.area_of(view) == first.tree.area_of(view),
        same_texts(after.documents@, before.documents@),
        forall|view: ViewId| #[trigger]
            first.tree.holds(view) ==> all_know_as(after, before, view) && linked_as(after, before, view),
        forall|view: ViewId| #[trigger] before.tree.is_view(view) && !first.tree.holds(view) ==> is_forgotten(after, view),
{
    lemma_restored_up_to(first, before, before.tree.temporary_layouts@.len() as int, after);
    law_shown_again_as_before(first.tree, after.tree);
    assert forall|view: ViewId| #[trigger] first.tree.holds(view) implies all_know_as(after, before, view) && linked_as(
        after,
        before,
        view,
    ) by {
        assert(after.tree.holds(view));
    }
    assert forall|view: ViewId| #[trigger] before.tree.is_view(view) && !first.tree.holds(view) implies is_forgotten(after, view) by {
        assert(!after.tree.holds(view));
    }
}

} // verus!
