use helix_extensions::custom_text::store::CustomTextAnnotationStore;
use helix_extensions::diagnostics::external::{ExternalDiagnostic, Severity};
use helix_extensions::diagnostics::model::Diagnostics;
use helix_extensions::editor::commands::{
    column_walk, create, move_to_column, move_to_line, peer, remove, resize_axis, ColumnWalk, ResizeAxis,
};
use helix_extensions::editor::document::{Document, Selection, SelectionRange, ViewPosition};
use helix_extensions::editor::linked_scroll::LinkedScrollLinks;
use helix_extensions::editor::state::{Editor, LinkError};
use helix_extensions::graphics::Rect;
use helix_extensions::line_map::LineMap;
use helix_extensions::tree::{Content, DocumentId, Layout, Tree, ViewId};
use helix_extensions::value::ScriptValue;

fn lines(text: &str) -> LineMap {
    let mut starts = vec![0];
    for (index, character) in text.chars().enumerate() {
        if character == '\n' {
            starts.push(index + 1);
        }
    }
    LineMap { starts, len_chars: text.chars().count() }
}

fn document(id: usize, text: &str) -> Document {
    Document {
        id: DocumentId(id),
        lines: lines(text),
        modified: false,
        view_data: vec![],
        custom_text_annotations: CustomTextAnnotationStore::default(),
    }
}

fn editor(left: &str, right: &str) -> (Editor, ViewId, ViewId) {
    let mut tree = Tree::new(Rect::new(0, 0, 100, 40));
    let first = tree.insert(DocumentId(1));
    let second = tree.split(DocumentId(2), Layout::Vertical);
    let editor = Editor {
        tree,
        documents: vec![document(1, left), document(2, right)],
        linked_scroll_links: LinkedScrollLinks::default(),
        diagnostics: Diagnostics::new(),
        needs_redraw: false,
        normal_mode: false,
        last_focused: None,
    };
    (editor, first, second)
}

fn at(anchor: usize) -> ViewPosition {
    ViewPosition { anchor, horizontal_offset: 0, vertical_offset: 0 }
}

#[test]
fn links_are_bidirectional_and_removable_from_either_endpoint() {
    let ids = [ViewId(0), ViewId(1)];
    let mut links = LinkedScrollLinks::default();
    links.link(ids[0], ids[1]);
    assert_eq!(links.peer(ids[0]), Some(ids[1]));
    assert_eq!(links.peer(ids[1]), Some(ids[0]));
    assert!(links.remove(ids[1]));
    assert_eq!(links.peer(ids[0]), None);
    assert_eq!(links.peer(ids[1]), None);
}

#[test]
fn relinking_replaces_both_previous_pairs_without_stale_peers() {
    let ids = [ViewId(0), ViewId(1), ViewId(2), ViewId(3)];
    let mut links = LinkedScrollLinks::default();
    links.link(ids[0], ids[1]);
    links.link(ids[2], ids[3]);
    links.link(ids[1], ids[2]);
    assert_eq!(links.peer(ids[0]), None);
    assert_eq!(links.peer(ids[1]), Some(ids[2]));
    assert_eq!(links.peer(ids[2]), Some(ids[1]));
    assert_eq!(links.peer(ids[3]), None);
}

#[test]
fn linked_views_share_their_row_and_keep_their_columns() {
    let (mut editor, first, second) = editor("a\nbb\nccc\n", "1\n22\n3\n");
    assert_eq!(create(&mut editor, first, second), Ok(true));
    assert!(editor.needs_redraw);
    assert_eq!(peer(&mut editor, first), Some(second));
    editor.documents[1].set_view_offset(second, ViewPosition { anchor: 5, horizontal_offset: 3, vertical_offset: 1 });
    editor.documents[0].set_view_offset(first, ViewPosition { anchor: 0, horizontal_offset: 7, vertical_offset: 0 });
    assert_eq!(editor.tree.focus, second);
    editor.synchronize_linked_scroll();
    let moved = editor.documents[0].view_offset(first);
    assert_eq!(moved.anchor, 5);
    assert_eq!(moved.horizontal_offset, 7);
    assert!(remove(&mut editor, first));
    assert!(!remove(&mut editor, first));
    assert_eq!(peer(&mut editor, second), None);
}

#[test]
fn unequal_or_unknown_views_are_not_linked() {
    let (mut editor, first, second) = editor("a\nb\n", "a\n");
    assert_eq!(create(&mut editor, first, first), Err(LinkError::SameView));
    assert_eq!(create(&mut editor, first, ViewId(99)), Err(LinkError::NotLive));
    assert_eq!(create(&mut editor, first, second), Err(LinkError::UnequalRows { left: 3, right: 2 }));
    assert_eq!(
        LinkError::UnequalRows { left: 3, right: 2 }.message(),
        "linked scrolling requires equal-row buffers (left: 3, right: 2)"
    );
    assert!(!editor.needs_redraw);
}

#[test]
fn a_link_to_a_closed_view_is_forgotten() {
    let (mut editor, first, second) = editor("a\n", "b\n");
    editor.create_linked_scroll(first, second).unwrap();
    editor.tree.remove(second);
    assert_eq!(editor.linked_scroll_peer(first), None);
    assert_eq!(editor.linked_scroll_links.peer(first), None);
}

#[test]
fn visible_lines_start_at_the_anchor() {
    let (mut editor, _, second) = editor("", "a\nb\nc\nd\n");
    assert_eq!(editor.current_visible_line_range(2), (0, 2));
    editor.documents[1].set_view_offset(second, at(4));
    assert_eq!(editor.current_visible_line_range(2), (2, 4));
    assert_eq!(editor.current_visible_line_range(usize::MAX), (2, 5));
    editor.documents[1].set_view_offset(second, at(400));
    assert_eq!(editor.current_visible_line_range(9), (4, 5));
}

#[test]
fn annotations_go_to_the_focused_view() {
    let (mut editor, first, second) = editor("abc", "abc\ndef");
    let none = ScriptValue::List(vec![]);
    let row = ScriptValue::List(vec![ScriptValue::List(vec![
        ScriptValue::Int(1),
        ScriptValue::Text("row".to_string()),
        ScriptValue::Text("scope".to_string()),
    ])]);
    assert!(editor.set_custom_text_annotations("a".to_string(), &none, &none, &row));
    assert!(editor.documents[0].custom_text_annotations(first).is_none());
    let found = editor.documents[1].custom_text_annotations(second).unwrap();
    assert_eq!(found[0].annotations.virtual_lines.len(), 1);
    let tint = ScriptValue::List(vec![ScriptValue::List(vec![
        ScriptValue::Int(1),
        ScriptValue::Text("scope".to_string()),
        ScriptValue::Int(20),
    ])]);
    assert!(editor.set_custom_text_annotations_v2("a".to_string(), &none, &none, &none, &tint));
    let found = editor.documents[1].custom_text_annotations(second).unwrap();
    assert!(found[0].annotations.virtual_lines.is_empty());
    assert_eq!(found[0].annotations.line_backgrounds[0].opacity, 20);
    assert!(editor.clear_custom_text_annotations("a"));
    assert!(editor.documents[1].custom_text_annotations(second).is_none());
}

#[test]
fn publishing_asks_for_a_redraw() {
    let (mut editor, _, _) = editor("", "");
    let problem = ExternalDiagnostic {
        path: "x.rs".to_string(),
        start_line: 1,
        start_column: 1,
        end_line: 1,
        end_column: 1,
        severity: Severity::Hint,
        message: "m".to_string(),
        code: None,
        source: None,
    };
    assert!(editor.publish_external_diagnostics("", vec![]).is_err());
    assert!(!editor.needs_redraw);
    editor.publish_external_diagnostics("a", vec![problem]).unwrap();
    assert!(editor.needs_redraw);
    assert_eq!(editor.diagnostics.files.len(), 1);
    editor.needs_redraw = false;
    editor.clear_external_diagnostics("a");
    assert!(editor.needs_redraw);
    assert!(editor.diagnostics.files.is_empty());
}

fn area_of(editor: &Editor, view: ViewId) -> Rect {
    match &editor.tree.nodes[view.0] {
        Some(node) => match &node.content {
            Content::View(view) => view.area,
            Content::Container(container) => container.area,
        },
        None => panic!("no such view"),
    }
}

#[test]
fn a_temporary_layout_is_entered_and_restored() {
    let (mut editor, first, second) = editor("a", "b");
    let areas = (area_of(&editor, first), area_of(&editor, second));
    editor.documents[0].set_view_offset(first, at(1));
    assert!(editor.enter_temporary_layout(DocumentId(9)).is_err());
    let outer = editor.enter_temporary_layout(DocumentId(1)).unwrap();
    assert!(editor.normal_mode);
    assert_eq!(editor.active_temporary_layout_token(), Some(outer));
    let shown = editor.tree.focus;
    assert_eq!(area_of(&editor, shown), editor.tree.area);
    let inner = editor.enter_temporary_layout(DocumentId(2)).unwrap();
    assert!(editor.restore_temporary_layout(outer).is_err());
    editor.restore_temporary_layout(inner).unwrap();
    assert_eq!(area_of(&editor, shown), editor.tree.area);
    editor.restore_all_temporary_layouts();
    assert_eq!(editor.active_temporary_layout_token(), None);
    assert_eq!(editor.tree.focus, second);
    assert_eq!((area_of(&editor, first), area_of(&editor, second)), areas);
    assert_eq!(editor.documents[0].view_offset(first), at(1));
}

#[test]
fn a_temporary_layout_leaves_no_trace() {
    let (mut editor, first, second) = editor("a\nb\n", "c\nd\n");
    editor.documents[0].modified = true;
    editor.documents[0].set_view_offset(first, at(2));
    editor.documents[0].set_selection(
        first,
        Selection { ranges: vec![SelectionRange { anchor: 1, head: 2 }], primary: 0 },
    );
    editor.tree.enter_fullscreen(second);
    let areas = (area_of(&editor, first), area_of(&editor, second));

    let token = editor.enter_temporary_layout(DocumentId(1)).unwrap();
    let shown = editor.tree.focus;
    let split = editor.tree.split(DocumentId(1), Layout::Horizontal);
    editor.documents[0].set_view_offset(split, at(4));
    editor.create_linked_scroll(shown, split).unwrap();
    editor.tree.enter_fullscreen(split);
    let none = ScriptValue::List(vec![]);
    assert!(editor.set_custom_text_annotations("a".to_string(), &none, &none, &none));
    assert!(editor.documents[0].custom_text_annotations(split).is_some());
    assert_eq!(editor.documents[0].view_data.len(), 3);
    editor.restore_temporary_layout(token).unwrap();

    assert_eq!(editor.tree.focus, second);
    assert_eq!(editor.tree.fullscreen_view(), Some(second));
    assert_eq!(editor.tree.active_view_ids(), vec![first, second]);
    assert_eq!((area_of(&editor, first), area_of(&editor, second)), areas);
    assert!(!editor.tree.contains(shown));
    assert!(!editor.tree.contains(split));
    assert!(editor.documents[0].modified);
    assert_eq!(editor.documents[0].view_data.len(), 1);
    assert_eq!(editor.documents[0].view_offset(first), at(2));
    assert_eq!(editor.documents[0].selection(first).unwrap().ranges, vec![SelectionRange { anchor: 1, head: 2 }]);
    assert!(editor.documents[0].selection(split).is_none());
    assert!(editor.documents[0].custom_text_annotations(split).is_none());
    assert_eq!(editor.linked_scroll_links.peer(shown), None);
    assert_eq!(editor.linked_scroll_links.peer(split), None);
}

#[test]
fn restoring_without_a_temporary_layout_changes_nothing() {
    let (mut editor, first, second) = editor("a", "b");
    let areas = (area_of(&editor, first), area_of(&editor, second));
    editor.restore_all_temporary_layouts();
    assert!(!editor.needs_redraw);
    assert_eq!(editor.tree.focus, second);
    assert_eq!((area_of(&editor, first), area_of(&editor, second)), areas);
}

#[test]
fn jumps_stay_in_the_document() {
    let map = lines("ab\ncd\ne");
    assert_eq!(move_to_line(&map, 0), 0);
    assert_eq!(move_to_line(&map, 1), 0);
    assert_eq!(move_to_line(&map, 2), 3);
    assert_eq!(move_to_line(&map, 99), 6);
    assert_eq!(move_to_column(4, 9), 4);
    assert_eq!(move_to_column(12, 9), 9);
    assert_eq!(column_walk(&map, 1, 1, 1), ColumnWalk { start: 4, graphemes: 0 });
    assert_eq!(column_walk(&map, 2, 0, 3), ColumnWalk { start: 6, graphemes: 2 });
}

#[test]
fn lines_hold_their_characters() {
    let map = lines("ab\ncd\n");
    assert_eq!(map.len_lines(), 3);
    assert_eq!(map.char_to_line(0), 0);
    assert_eq!(map.char_to_line(2), 0);
    assert_eq!(map.char_to_line(3), 1);
    assert_eq!(map.char_to_line(6), 2);
    assert_eq!(map.line_to_char(3), 6);
}

#[test]
fn axes_have_names() {
    assert_eq!(resize_axis("width"), Ok(ResizeAxis::Width));
    assert_eq!(resize_axis("height"), Ok(ResizeAxis::Height));
    assert_eq!(resize_axis("depth"), Err("view resize axis must be width or height"));
}
