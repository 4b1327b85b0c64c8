use helix_extensions::graphics::Rect;
use helix_extensions::tree::geometry::child_areas;
use helix_extensions::tree::{Content, DocumentId, Layout, TemporaryLayoutToken, Tree, ViewId};

fn area_of(tree: &Tree, view: ViewId) -> Rect {
    match &tree.nodes[view.0] {
        Some(node) => match &node.content {
            Content::View(view) => view.area,
            Content::Container(container) => container.area,
        },
        None => panic!("no such view"),
    }
}

fn two_view_tree() -> (Tree, ViewId, ViewId) {
    let mut tree = Tree::new(Rect::new(0, 0, 100, 40));
    let left = tree.insert(DocumentId(1));
    let right = tree.split(DocumentId(1), Layout::Vertical);
    (tree, left, right)
}

#[test]
fn fullscreen_preserves_siblings_and_restores_geometry() {
    let (mut tree, left, right) = two_view_tree();
    let left_area = area_of(&tree, left);
    let right_area = area_of(&tree, right);

    assert!(tree.enter_fullscreen(right));
    assert_eq!(tree.views_under(tree.root).len(), 2);
    assert!(!tree.view_is_visible(left));
    assert!(tree.view_is_visible(right));
    assert_eq!(area_of(&tree, right), tree.area);

    assert!(tree.leave_fullscreen());
    assert_eq!(area_of(&tree, left), left_area);
    assert_eq!(area_of(&tree, right), right_area);
}

#[test]
fn fullscreen_follows_focus_and_resize() {
    let (mut tree, left, right) = two_view_tree();
    tree.enter_fullscreen(right);
    tree.transfer_fullscreen(left);
    assert_eq!(tree.fullscreen_view(), Some(left));

    let resized = Rect::new(2, 3, 77, 19);
    tree.resize(resized);
    assert_eq!(area_of(&tree, left), resized);
}

#[test]
fn splitting_and_closing_leave_fullscreen() {
    let (mut tree, _left, right) = two_view_tree();
    tree.enter_fullscreen(right);
    let third = tree.split(DocumentId(1), Layout::Horizontal);
    assert_eq!(tree.fullscreen_view(), None);
    assert_eq!(tree.active_view_ids().len(), 3);

    tree.enter_fullscreen(third);
    tree.remove(third);
    assert_eq!(tree.fullscreen_view(), None);
    assert_eq!(tree.active_view_ids().len(), 2);
}

#[test]
fn toggling_goes_in_and_out() {
    let (mut tree, left, right) = two_view_tree();
    assert!(tree.toggle_fullscreen());
    assert_eq!(tree.fullscreen_view(), Some(right));
    assert!(!tree.view_is_visible(left));
    assert!(!tree.toggle_fullscreen());
    assert!(tree.view_is_visible(left));
    assert!(!tree.leave_fullscreen());
    assert!(!tree.enter_fullscreen(tree.root));
}

#[test]
fn toggling_twice_restores_every_area() {
    let (mut tree, left, right) = two_view_tree();
    let areas = (area_of(&tree, left), area_of(&tree, right));
    tree.toggle_fullscreen();
    assert_eq!(area_of(&tree, right), tree.area);
    tree.toggle_fullscreen();
    assert_eq!(tree.fullscreen_view(), None);
    assert_eq!((area_of(&tree, left), area_of(&tree, right)), areas);
}

#[test]
fn edits_inside_a_temporary_layout_are_undone() {
    let (mut tree, left, right) = two_view_tree();
    let areas = (area_of(&tree, left), area_of(&tree, right));
    let (token, shown) = tree.enter_temporary_layout(DocumentId(1));
    let second = tree.split(DocumentId(1), Layout::Horizontal);
    let third = tree.split(DocumentId(1), Layout::Vertical);
    tree.remove(second);
    tree.enter_fullscreen(third);
    let mut discarded = tree.restore_temporary_layout(token).unwrap();
    discarded.sort_by_key(|view| view.0);
    assert_eq!(discarded, vec![shown, third]);
    assert_eq!(tree.focus, right);
    assert_eq!(tree.fullscreen_view(), None);
    assert_eq!(tree.active_view_ids(), vec![left, right]);
    assert_eq!((area_of(&tree, left), area_of(&tree, right)), areas);
    for view in [shown, second, third] {
        assert!(!tree.contains(view));
    }
}

#[test]
fn removing_a_suspended_view_moves_nothing_that_is_shown() {
    let (mut tree, _left, right) = two_view_tree();
    let (_token, shown) = tree.enter_temporary_layout(DocumentId(1));
    let area = area_of(&tree, shown);
    tree.remove(right);
    assert_eq!(area_of(&tree, shown), area);
}

#[test]
fn temporary_layout_restores_exact_tree_and_supports_nesting() {
    let mut tree = Tree::new(Rect::new(0, 0, 90, 30));
    let original = tree.insert(DocumentId(1));
    let original_area = area_of(&tree, original);

    let (outer, outer_view) = tree.enter_temporary_layout(DocumentId(1));
    assert!(tree.node_is_active(outer_view));
    assert!(!tree.node_is_active(original));

    let (inner, inner_view) = tree.enter_temporary_layout(DocumentId(1));
    assert_eq!(
        tree.restore_temporary_layout(outer).unwrap_err().message(),
        "temporary layouts must be restored in LIFO order"
    );
    assert_eq!(tree.restore_temporary_layout(inner).unwrap(), vec![inner_view]);
    assert!(tree.node_is_active(outer_view));
    assert_eq!(tree.restore_temporary_layout(outer).unwrap(), vec![outer_view]);
    assert!(tree.node_is_active(original));
    assert_eq!(tree.focus, original);
    assert_eq!(area_of(&tree, original), original_area);
}

#[test]
fn removing_a_suspended_view_keeps_the_snapshot_restorable() {
    let mut tree = Tree::new(Rect::new(0, 0, 90, 30));
    let left = tree.insert(DocumentId(1));
    let right = tree.split(DocumentId(1), Layout::Vertical);
    let (token, temporary) = tree.enter_temporary_layout(DocumentId(1));

    tree.remove(right);
    assert!(tree.node_is_active(temporary));
    tree.restore_temporary_layout(token).unwrap();
    assert!(tree.node_is_active(left));
    assert!(!tree.contains(right));
    assert_eq!(tree.active_view_ids().len(), 1);
}

#[test]
fn temporary_layout_keeps_uneven_shares() {
    let mut tree = Tree::new(Rect::new(0, 0, 101, 30));
    let left = tree.insert(DocumentId(1));
    let right = tree.split(DocumentId(1), Layout::Vertical);
    let root = tree.root.0;
    if let Some(node) = &mut tree.nodes[root] {
        if let Content::Container(container) = &mut node.content {
            container.weights = vec![70, 30];
        }
    }
    tree.recalculate();
    let left_area = area_of(&tree, left);
    let right_area = area_of(&tree, right);
    assert!(left_area.width > right_area.width);

    let (token, _) = tree.enter_temporary_layout(DocumentId(1));
    tree.restore_temporary_layout(token).unwrap();
    assert_eq!(area_of(&tree, left), left_area);
    assert_eq!(area_of(&tree, right), right_area);
}

#[test]
fn nothing_to_restore_is_an_error() {
    let (mut tree, _, _) = two_view_tree();
    assert_eq!(tree.active_temporary_layout_token(), None);
    assert!(tree.restore_temporary_layout(TemporaryLayoutToken(9)).is_err());
    let (token, _) = tree.enter_temporary_layout(DocumentId(1));
    assert_eq!(tree.active_temporary_layout_token(), Some(token));
}

#[test]
fn shares_fill_the_area() {
    let area = Rect::new(0, 0, 100, 40);
    assert_eq!(
        child_areas(area, Layout::Horizontal, &vec![1, 1]),
        vec![Rect::new(0, 0, 100, 20), Rect::new(0, 20, 100, 20)]
    );
    let split = child_areas(area, Layout::Vertical, &vec![1, 1]);
    assert_eq!(split.len(), 2);
    assert_eq!(split[0].x, 0);
    assert_eq!(split[1].x + split[1].width, 100);
    assert!(split[0].x + split[0].width <= split[1].x);
}

#[test]
fn nested_splits_collapse_when_closed() {
    let (mut tree, left, right) = two_view_tree();
    let lower = tree.split(DocumentId(2), Layout::Horizontal);
    assert_eq!(tree.walk(tree.root).len(), 5);
    assert_eq!(tree.active_view_ids(), vec![left, right, lower]);
    tree.remove(right);
    assert_eq!(tree.active_view_ids(), vec![left, lower]);
    assert_eq!(tree.walk(tree.root).len(), 3);
    assert_eq!(tree.focus, lower);
    assert_eq!(tree.parent_of(lower), tree.root);
    assert_eq!(tree.children_of(tree.root), vec![left, lower]);
    assert_eq!(tree.weights_of(tree.root).len(), 2);
}
