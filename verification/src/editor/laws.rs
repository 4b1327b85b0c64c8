//! Jumps, links between views and layouts, as the user sees them.

use vstd::prelude::*;

use super::commands::target_line;
use super::document::{Document, ViewPosition};
use super::linked_scroll::{linked, without};
use super::plugin_layout::{forgot, introduced, without_all};
use super::state::{followed, Editor, LinkError};
use crate::line_map::LineMap;
use crate::tree::{DocumentId, ViewId};

verus! {

/// A jump to a line of the text, counted from 1, goes to that line; one past the
/// end goes to the last line, and line 0 is taken as the first.
pub proof fn law_jumps_go_to_their_line(line: usize, len_lines: int)
    requires
        len_lines > 0,
    ensures
        1 <= line <= len_lines ==> target_line(line, len_lines) + 1 == line,
        line > len_lines ==> target_line(line, len_lines) == len_lines - 1,
        line == 0 ==> target_line(line, len_lines) == 0,
        0 <= target_line(line, len_lines) < len_lines,
{
}

/// A view that follows another one stands at the start of the row of the other
/// one, or of its own last row where it has fewer.
pub proof fn law_following_views_stand_at_a_row(
    source: LineMap,
    from: ViewPosition,
    target: LineMap,
    now: ViewPosition,
    row: int,
)
    requires
        source.wf(),
        target.wf(),
        source.line_holds(row, from.anchor as int),
        from.anchor <= source.len_chars,
    ensures
        followed(source, from, target, now).anchor == target.starts@[if row < target.starts@.len() {
            row
        } else {
            target.starts@.len() - 1
        }],
        followed(source, from, target, now).vertical_offset == from.vertical_offset,
        followed(source, from, target, now).horizontal_offset == now.horizontal_offset,
{
    let anchor = from.anchor as int;
    lemma_line_of(source, anchor, source.starts@.len() as int);
    crate::line_map::law_one_line_holds_a_character(source, row, source.line_of(anchor), anchor);
}

proof fn lemma_line_of(map: LineMap, char_idx: int, n: int)
    requires
        map.wf(),
        0 < n <= map.starts@.len(),
        0 <= char_idx,
        n < map.starts@.len() ==> char_idx < map.starts@[n],
    ensures
        map.line_holds(crate::line_map::last_start(map.starts@, char_idx, n), char_idx),
    decreases n,
{
    if n > 1 && map.starts@[n - 1] > char_idx {
        lemma_line_of(map, char_idx, n - 1);
    }
}

/// Two views can be linked exactly where they are two, both are there, and their
/// documents have as many rows as each other.
pub proof fn law_links_are_refused_for_a_reason(editor: Editor, first: ViewId, second: ViewId)
    ensures
        editor.link_refusal(first, second) is None <==> first != second && editor.tree.holds(first) && editor.tree.holds(second)
            && editor.rows_of(first) == editor.rows_of(second),
        first == second ==> editor.link_refusal(first, second) == Some(LinkError::SameView),
        first != second && !(editor.tree.holds(first) && editor.tree.holds(second)) ==> editor.link_refusal(first, second) == Some(
            LinkError::NotLive,
        ),
        editor.link_refusal(first, second) matches Some(LinkError::UnequalRows { left, right }) ==> editor.rows_of(first) as usize
            == left && editor.rows_of(second) as usize == right,
{
}

/// A new link moves the view that has no focus; the one with the focus stays.
pub proof fn law_the_focused_view_leads(before: Editor, after: Editor, first: ViewId, second: ViewId, i: int)
    requires
        after.link_made(&before, first, second),
        first != second,
        before.tree.focus == first || before.tree.focus == second,
        0 <= i < after.documents@.len(),
    ensures
        after.documents@[i].position(before.tree.focus) == before.documents@[i].position(before.tree.focus),
        after.documents@[i].lines == before.documents@[i].lines,
        after.needs_redraw,
        after.linked_scroll_links.peers@.dom().contains(first.0),
        after.linked_scroll_links.peers@.dom().contains(second.0),
{
    assert(after.documents@[i].same_but_views(&before.documents@[i]));
}

/// A view without a link moves no other view.
pub proof fn law_views_without_links_move_nothing(before: Editor, after: Editor, source: ViewId)
    requires
        after.synchronized(&before, source),
        !before.linked_scroll_links.peers@.dom().contains(source.0),
    ensures
        after.documents == before.documents,
        after.linked_scroll_links.peers@ == before.linked_scroll_links.peers@,
{
}

/// A view that scrolls moves the view linked to it and no other one, and changes
/// no text.
pub proof fn law_scrolling_moves_only_the_peer(before: Editor, after: Editor, source: ViewId, i: int, view: ViewId)
    requires
        after.synchronized(&before, source),
        before.linked_scroll_links.peers@.dom().contains(source.0),
        before.tree.holds(source) && before.tree.holds(before.linked_scroll_links.peers@[source.0]),
        0 <= i < after.documents@.len(),
        view != before.linked_scroll_links.peers@[source.0],
    ensures
        after.documents@[i].position(view) == before.documents@[i].position(view),
        after.documents@[i].lines == before.documents@[i].lines,
        after.documents@[i].modified == before.documents@[i].modified,
        after.linked_scroll_links.peers@ == before.linked_scroll_links.peers@,
{
    assert(after.documents@[i].same_but_views(&before.documents@[i]));
}

/// A link without both of its views is dropped when one of them scrolls.
pub proof fn law_dead_links_are_dropped(before: Editor, after: Editor, source: ViewId)
    requires
        after.synchronized(&before, source),
        before.linked_scroll_links.wf(),
        before.linked_scroll_links.peers@.dom().contains(source.0),
        !before.tree.holds(source) || !before.tree.holds(before.linked_scroll_links.peers@[source.0]),
    ensures
        !after.linked_scroll_links.peers@.dom().contains(source.0),
        !after.linked_scroll_links.peers@.dom().contains(before.linked_scroll_links.peers@[source.0].0),
        after.documents == before.documents,
{
}

/// Once the links of views are gone, none of these views has one, and no link is
/// new.
pub proof fn law_removed_views_have_no_links(peers: Map<usize, ViewId>, views: Seq<ViewId>, n: int, view: usize)
    requires
        0 <= n <= views.len(),
    ensures
        forall|k: int| 0 <= k < n ==> !without_all(peers, views, n).dom().contains((#[trigger] views[k]).0),
        without_all(peers, views, n).dom().contains(view) ==> peers.dom().contains(view) && without_all(peers, views, n)[view]
            == peers[view],
        peers.dom().contains(view) && !without_all(peers, views, n).dom().contains(view) ==> exists|k: int|
            0 <= k < n && ((#[trigger] views[k]).0 == view || peers.dom().contains(views[k].0) && peers[views[k].0].0 == view),
    decreases n,
{
    if n > 0 {
        law_removed_views_have_no_links(peers, views, n - 1, view);
        let before = without_all(peers, views, n - 1);
        law_removed_views_have_no_links(peers, views, n - 1, views[n - 1].0);
        if peers.dom().contains(view) && !without_all(peers, views, n).dom().contains(view) {
            if before.dom().contains(view) {
                assert(views[n - 1].0 == view || before.dom().contains(views[n - 1].0) && before[views[n - 1].0].0 == view);
            } else {
                let k = choose|k: int|
                    0 <= k < n - 1 && ((#[trigger] views[k]).0 == view || peers.dom().contains(views[k].0) && peers[views[k].0].0
                        == view);
                assert(0 <= k < n && (views[k].0 == view || peers[views[k].0].0 == view));
            }
        }
    }
}

/// A document that has forgotten views knows nothing of them, and knows of every
/// other view what it knew.
pub proof fn law_forgotten_views_are_gone(after: Document, before: Document, views: Seq<ViewId>, view: ViewId, name: Seq<char>)
    requires
        forgot(after, before, views, views.len() as int),
    ensures
        views.contains(view) ==> after.data(view) is None && !after.custom_text_annotations.has(view),
        !views.contains(view) ==> after.data(view) == before.data(view) && after.custom_text_annotations.entry(view, name)
            == before.custom_text_annotations.entry(view, name),
        after.id == before.id,
        after.lines == before.lines,
        after.modified == before.modified,
{
    assert(views.subrange(0, views.len() as int) =~= views);
}

/// A view that is shown first stands at the top with nothing selected; one that a
/// document knows stays as it is, and no other document hears of it.
pub proof fn law_new_views_start_at_the_top(document: Document, id: DocumentId, new: ViewId, view: ViewId)
    ensures
        document.data(view) is Some ==> introduced(document, id, new, view) == document.data(view),
        document.id != id || view != new ==> introduced(document, id, new, view) == document.data(view),
        document.id == id && document.data(new) is None ==> {
            let data = introduced(document, id, new, new)->0;
            &&& introduced(document, id, new, new) is Some
            &&& data.view == new
            &&& data.position.anchor == 0
            &&& data.position.horizontal_offset == 0
            &&& data.position.vertical_offset == 0
            &&& data.selection is None
        },
{
}

/// Linking two views says nothing of a view that is not linked to either.
pub proof fn law_linking_adds_one_link(peers: Map<usize, ViewId>, first: ViewId, second: ViewId, view: usize)
    requires
        view != first.0,
        view != second.0,
        linked(peers, first, second).dom().contains(view),
    ensures
        peers.dom().contains(view),
        linked(peers, first, second)[view] == peers[view],
        !without(peers, first).dom().contains(first.0),
{
}

} // verus!
