//! What becomes of views and containers when a layout is edited.

use vstd::prelude::*;

use super::edit::{forget, insertion, removed, split_shapes, successor};
use super::forest::{clear, collapse, fresh, graft, plant, prune, wrap};
use super::{at, forest, live, node_ok, DocumentId, Layout, Shape, TemporaryLayout, ViewId};

verus! {

/// Whether every view of one layout is in another one, with its document.
pub open spec fn keeps_views(before: Seq<Option<Shape>>, after: Seq<Option<Shape>>, gone: ViewId) -> bool {
    forall|id: ViewId| #[trigger]
        live(before, id) && at(before, id) is View && id != gone ==> live(after, id) && at(after, id) is View && at(after, id)->doc
            == at(before, id)->doc
}

/// Whether a layout has no views but those of another one and a given one.
pub open spec fn only_new_view(before: Seq<Option<Shape>>, after: Seq<Option<Shape>>, new: ViewId) -> bool {
    forall|id: ViewId| #[trigger]
        live(after, id) && at(after, id) is View && id != new ==> live(before, id) && at(before, id) is View
}

/// A view that is added stands at its place among the children of its parent,
/// with the weight of one; it shows its document, and every other node stays as
/// it is.
pub proof fn law_added_views_stand_at_their_place(
    shapes: Seq<Option<Shape>>,
    parent: ViewId,
    pos: int,
    doc: DocumentId,
    other: ViewId,
)
    requires
        live(shapes, parent),
        at(shapes, parent) is Container,
        0 <= pos <= at(shapes, parent).children().len(),
        at(shapes, parent).weights().len() == at(shapes, parent).children().len(),
        shapes.len() < usize::MAX,
    ensures
        ({
            let after = graft(shapes, parent, pos, doc);
            let new = ViewId(shapes.len() as usize);
            let children = at(after, parent).children();
            &&& live(after, new) && at(after, new) == (Shape::View { parent, doc })
            &&& !live(shapes, new)
            &&& children.len() == at(shapes, parent).children().len() + 1
            &&& children[pos] == new
            &&& children.remove(pos) == at(shapes, parent).children()
            &&& at(after, parent).weights()[pos] == 1
            &&& at(after, parent).weights().remove(pos) == at(shapes, parent).weights()
            &&& at(after, parent)->layout == at(shapes, parent)->layout
            &&& at(after, parent).parent() == at(shapes, parent).parent()
            &&& other != parent && other != new ==> (live(after, other) <==> live(shapes, other)) && (live(shapes, other) ==> at(
                after,
                other,
            ) == at(shapes, other))
        }),
{
    let after = graft(shapes, parent, pos, doc);
    let children = at(shapes, parent).children();
    let weights = at(shapes, parent).weights();
    assert(children.insert(pos, fresh(shapes)).remove(pos) =~= children);
    assert(weights.insert(pos, 1u16).remove(pos) =~= weights);
    assert(at(after, parent).children() == children.insert(pos, fresh(shapes)));
}

/// A new view goes behind the focused one among the children of its parent; into
/// an empty layout it goes as the first.
pub proof fn law_new_views_go_behind_the_focus(shapes: Seq<Option<Shape>>, focus: ViewId)
    ensures
        insertion(shapes, focus).0 == at(shapes, focus).parent(),
        at(shapes, at(shapes, focus).parent()).children().len() == 0 ==> insertion(shapes, focus).1 == 0,
        at(shapes, at(shapes, focus).parent()).children().contains(focus) ==> {
            let children = at(shapes, at(shapes, focus).parent()).children();
            0 < insertion(shapes, focus).1 <= children.len() && children[insertion(shapes, focus).1 - 1] == focus
        },
{
    let children = at(shapes, at(shapes, focus).parent()).children();
    if children.contains(focus) {
        let k = children.index_of(focus);
        assert(0 <= k < children.len() && children[k] == focus);
    }
}

/// A split along the layout of the parent puts the new view behind the focused
/// one, in the same container.
pub proof fn law_splits_along_the_layout_add_a_sibling(
    shapes: Seq<Option<Shape>>,
    focus: ViewId,
    layout: Layout,
    doc: DocumentId,
)
    requires
        live(shapes, focus),
        at(shapes, focus) is View,
        live(shapes, at(shapes, focus).parent()),
        at(shapes, at(shapes, focus).parent()) is Container,
        at(shapes, at(shapes, focus).parent()).children().contains(focus),
        at(shapes, at(shapes, focus).parent()).weights().len() == at(shapes, at(shapes, focus).parent()).children().len(),
        at(shapes, at(shapes, focus).parent())->layout == layout,
        shapes.len() < usize::MAX,
    ensures
        ({
            let after = split_shapes(shapes, focus, layout, doc);
            let new = ViewId(shapes.len() as usize);
            let parent = at(shapes, focus).parent();
            let children = at(after, parent).children();
            &&& at(after, new) == (Shape::View { parent, doc })
            &&& exists|k: int| 0 <= k && k + 1 < children.len() && #[trigger] children[k] == focus && children[k + 1] == new
            &&& keeps_views(shapes, after, new)
            &&& only_new_view(shapes, after, new)
        }),
{
    let parent = at(shapes, focus).parent();
    let pos = insertion(shapes, focus).1;
    law_new_views_go_behind_the_focus(shapes, focus);
    law_added_views_stand_at_their_place(shapes, parent, pos, doc, focus);
    let after = split_shapes(shapes, focus, layout, doc);
    let old = at(shapes, parent).children();
    let children = at(after, parent).children();
    assert(children == old.insert(pos, fresh(shapes)));
    assert(children[pos - 1] == focus);
    assert(children[pos - 1 + 1] == fresh(shapes));
    assert forall|id: ViewId| #[trigger] live(shapes, id) && at(shapes, id) is View implies live(after, id) && at(after, id) is View
        && at(after, id)->doc == at(shapes, id)->doc by {
        law_added_views_stand_at_their_place(shapes, parent, pos, doc, id);
    }
    assert forall|id: ViewId| #[trigger] live(after, id) && at(after, id) is View && id != fresh(shapes) implies live(shapes, id)
        && at(shapes, id) is View by {
        law_added_views_stand_at_their_place(shapes, parent, pos, doc, id);
    }
}

/// A split across the layout of the parent puts a container of the other layout
/// in the place of the focused view, which holds that view and the new one behind
/// it.
pub proof fn law_splits_across_the_layout_nest(shapes: Seq<Option<Shape>>, focus: ViewId, layout: Layout, doc: DocumentId)
    requires
        live(shapes, focus),
        at(shapes, focus) is View,
        live(shapes, at(shapes, focus).parent()),
        at(shapes, at(shapes, focus).parent()) is Container,
        at(shapes, at(shapes, focus).parent()).children().contains(focus),
        at(shapes, at(shapes, focus).parent())->layout != layout,
        shapes.len() + 1 < usize::MAX,
    ensures
        ({
            let after = split_shapes(shapes, focus, layout, doc);
            let holder = ViewId(shapes.len() as usize);
            let new = ViewId((shapes.len() + 1) as usize);
            let parent = at(shapes, focus).parent();
            let place = at(shapes, parent).children().index_of(focus);
            &&& at(after, holder) == (Shape::Container { parent, layout, children: seq![focus, new], weights: seq![1u16, 1u16] })
            &&& at(after, new) == (Shape::View { parent: holder, doc })
            &&& at(after, focus) == (Shape::View { parent: holder, doc: at(shapes, focus)->doc })
            &&& at(after, parent).children() == at(shapes, parent).children().update(place, holder)
            &&& at(after, parent).weights() == at(shapes, parent).weights()
            &&& at(after, parent)->layout == at(shapes, parent)->layout
            &&& keeps_views(shapes, after, new)
            &&& only_new_view(shapes, after, new)
        }),
{
    let parent = at(shapes, focus).parent();
    let middle = wrap(shapes, focus, layout);
    let holder = fresh(shapes);
    assert(parent != focus);
    assert(middle.len() == shapes.len() + 1);
    assert(at(middle, holder).children() == seq![focus]);
    let after = graft(middle, holder, 1, doc);
    assert(seq![focus].insert(1, fresh(middle)) =~= seq![focus, fresh(middle)]);
    assert(seq![1u16].insert(1, 1u16) =~= seq![1u16, 1u16]);
}

/// A view that is removed is gone from its parent; every other view stays, with
/// its document.
pub proof fn law_removed_views_are_gone(
    shapes: Seq<Option<Shape>>,
    home: Map<ViewId, ViewId>,
    rank: Map<ViewId, nat>,
    bound: nat,
    id: ViewId,
)
    requires
        forest(shapes, home, rank, bound),
        live(shapes, id),
        at(shapes, id) is View,
        shapes.len() < usize::MAX,
    ensures
        ({
            let after = removed(shapes, id);
            &&& !live(after, id)
            &&& keeps_views(shapes, after, id)
            &&& only_new_view(shapes, after, id)
            &&& after.len() == shapes.len()
        }),
{
    let parent = at(shapes, id).parent();
    assert(node_ok(shapes, home, rank, bound, id));
    assert(node_ok(shapes, home, rank, bound, parent));
    assert(parent != id);
    let pos = at(shapes, parent).children().index_of(id);
    assert(at(shapes, parent).children().contains(id));
    assert(0 <= pos < at(shapes, parent).children().len());
    let middle = prune(shapes, id);
    let left = at(shapes, parent).children().remove(pos);
    assert(at(middle, parent).children() == left);
    if left.len() == 1 && at(shapes, parent).parent() != parent {
        let grand = at(shapes, parent).parent();
        let k: int = if pos == 0 { 1 } else { 0 };
        let child = left[0];
        assert(child == at(shapes, parent).children()[k]);
        assert(super::child_ok(shapes, parent, k));
        assert(child != id);
        assert(grand != id);
        assert(node_ok(shapes, home, rank, bound, child));
        assert(node_ok(shapes, home, rank, bound, grand));
        assert(at(middle, child) == at(shapes, child));
        assert(child != grand);
    }
}

/// A container that is left with one child gives its place to that child.
pub proof fn law_lonely_children_move_up(shapes: Seq<Option<Shape>>, id: ViewId)
    requires
        live(shapes, id),
        at(shapes, id) is Container,
        at(shapes, id).children().len() == 1,
        live(shapes, at(shapes, id).children()[0]),
        live(shapes, at(shapes, id).parent()),
        at(shapes, at(shapes, id).parent()) is Container,
        at(shapes, at(shapes, id).parent()).children().contains(id),
        at(shapes, id).parent() != id,
        at(shapes, id).children()[0] != id,
        at(shapes, id).children()[0] != at(shapes, id).parent(),
    ensures
        ({
            let after = collapse(shapes, id);
            let parent = at(shapes, id).parent();
            let child = at(shapes, id).children()[0];
            &&& !live(after, id)
            &&& at(after, child) == at(shapes, child).with_parent(parent)
            &&& at(after, child).parent() == parent
            &&& at(after, parent).children() == at(shapes, parent).children().update(
                at(shapes, parent).children().index_of(id),
                child,
            )
            &&& at(after, parent).weights() == at(shapes, parent).weights()
        }),
{
}

/// A view that is gone hands the focus to another view of its layout, or to the
/// root where there was none.
pub proof fn law_the_focus_goes_to_another_view(views: Seq<ViewId>, id: ViewId, step: int, root: ViewId)
    requires
        views.no_duplicates(),
        views.contains(id),
        0 < step < views.len() || views.len() == 1,
    ensures
        views.len() > 1 ==> views.contains(successor(views, id, step, root)) && successor(views, id, step, root) != id,
        views.len() == 1 ==> successor(views, id, step, root) == root,
{
    if views.len() > 1 {
        let n = views.len() as int;
        let k = views.index_of(id);
        assert(0 <= k < n && views[k] == id);
        let next = (k + step) % n;
        assert(next == (if k + step < n { k + step } else { k + step - n })) by {
            if k + step < n {
                vstd::arithmetic::div_mod::lemma_small_mod((k + step) as nat, n as nat);
            } else {
                vstd::arithmetic::div_mod::lemma_small_mod((k + step - n) as nat, n as nat);
                vstd::arithmetic::div_mod::lemma_mod_sub_multiples_vanish(k + step, n);
            }
        }
        assert(views[next] != views[k]);
    }
}

/// A suspended layout forgets a view that is gone: its focus passes on, and it is
/// not shown alone any more. Other layouts stay as they are.
pub proof fn law_suspended_layouts_forget_a_view(layout: TemporaryLayout, gone: ViewId, root: ViewId, replacement: ViewId)
    ensures
        ({
            let after = forget(layout, gone, root, replacement);
            &&& layout.root != root ==> after == layout
            &&& after.root == layout.root
            &&& after.token == layout.token
            &&& layout.root == root && layout.focus == gone ==> after.focus == replacement
            &&& layout.focus != gone ==> after.focus == layout.focus
            &&& layout.root == root && layout.fullscreen == Some(gone) ==> after.fullscreen is None
            &&& layout.fullscreen != Some(gone) ==> after.fullscreen == layout.fullscreen
        }),
{
}

/// A new layout starts as an empty container that is its own parent; a layout
/// that is dropped takes its nodes with it and no others.
pub proof fn law_layouts_come_and_go_whole(
    shapes: Seq<Option<Shape>>,
    home: Map<ViewId, ViewId>,
    layout: Layout,
    root: ViewId,
    id: ViewId,
)
    requires
        shapes.len() < usize::MAX,
        id.0 < shapes.len(),
    ensures
        plant(shapes, layout).len() == shapes.len() + 1,
        plant(shapes, layout)[id.0 as int] == shapes[id.0 as int],
        at(plant(shapes, layout), ViewId(shapes.len() as usize)) == (Shape::Container {
            parent: ViewId(shapes.len() as usize),
            layout,
            children: Seq::empty(),
            weights: Seq::empty(),
        }),
        home[id] == root ==> !live(clear(shapes, home, root), id),
        home[id] != root ==> clear(shapes, home, root)[id.0 as int] == shapes[id.0 as int],
{
    assert(ViewId(id.0 as int as usize) == id);
}

} // verus!
