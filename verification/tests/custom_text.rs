use std::ops::Range;

use helix_extensions::custom_text::annotations::{
    highlight_style, parse_annotations, CustomHighlightStyle, CustomTextAnnotations, CustomVirtualLine,
};
use helix_extensions::custom_text::edits::{parse_edits, EditError};
use helix_extensions::custom_text::ranges::{merge_ranges, ConcreteStyleHighlighter, ConcreteStyleRange};
use helix_extensions::custom_text::store::{insert_virtual_lines, CustomTextAnnotationStore, NamedAnnotations};
use helix_extensions::custom_text::tint::{ansi256_rgb, background_style, blend_rgb, color_rgb, indexed_color};
use helix_extensions::graphics::{Color, Style};
use helix_extensions::theme::Theme;
use helix_extensions::tree::ViewId;
use helix_extensions::value::{integer, percentage, string as text_of, word, ScriptValue};

fn list(values: Vec<ScriptValue>) -> ScriptValue {
    ScriptValue::List(values)
}

fn string(value: &str) -> ScriptValue {
    ScriptValue::Text(value.to_string())
}

fn number(value: isize) -> ScriptValue {
    ScriptValue::Int(value)
}

fn holds(list: &[NamedAnnotations], namespace: &str) -> bool {
    list.iter().any(|item| item.namespace == namespace)
}

#[test]
fn parses_valid_annotations() {
    let annotations = parse_annotations(
        20,
        4,
        &list(vec![list(vec![number(4), string(" blame"), string("ui.virtual")])]),
        &list(vec![list(vec![number(2), number(8), string("diff.plus")])]),
        &list(vec![list(vec![number(3), string("deleted"), string("diff.minus"), number(20)])]),
        &list(vec![list(vec![number(1), string("diff.plus"), number(20)])]),
    );

    assert_eq!(annotations.inline.len(), 1);
    assert_eq!(annotations.highlights[0].range, 2..8);
    assert_eq!(annotations.virtual_lines[0].line, 3);
    assert_eq!(annotations.virtual_lines[0].background_opacity, Some(20));
    assert_eq!(annotations.line_backgrounds[0].line, 1);
    assert_eq!(annotations.line_backgrounds[0].opacity, 20);
}

#[test]
fn ignores_malformed_and_out_of_range_annotations() {
    let annotations = parse_annotations(
        5,
        1,
        &list(vec![
            list(vec![number(-1), string("bad"), string("scope")]),
            list(vec![number(6), string("bad"), string("scope")]),
            ScriptValue::Other,
        ]),
        &list(vec![
            list(vec![number(3), number(3), string("scope")]),
            list(vec![number(1), number(6), string("scope")]),
        ]),
        &list(vec![list(vec![number(2), string("bad"), string("scope")])]),
        &list(vec![
            list(vec![number(2), string("scope"), number(20)]),
            list(vec![number(1), string("scope"), number(101)]),
            list(vec![number(1), string("scope")]),
        ]),
    );

    assert!(annotations.inline.is_empty());
    assert!(annotations.highlights.is_empty());
    assert!(annotations.virtual_lines.is_empty());
    assert!(annotations.line_backgrounds.is_empty());
}

#[test]
fn v1_virtual_rows_remain_valid_without_backgrounds() {
    let annotations = parse_annotations(
        5,
        1,
        &list(vec![]),
        &list(vec![]),
        &list(vec![list(vec![number(1), string("old"), string("diff.minus")])]),
        &list(vec![]),
    );

    assert_eq!(annotations.virtual_lines.len(), 1);
    assert_eq!(annotations.virtual_lines[0].background_opacity, None);
    assert!(annotations.line_backgrounds.is_empty());
}

#[test]
fn a_highlight_follows_a_scope_or_carries_a_style() {
    assert!(matches!(highlight_style(&string("a.b")), Some(CustomHighlightStyle::Scope(scope)) if scope == "a.b"));
    let red = Style::default().fg(Color::Red);
    assert!(matches!(highlight_style(&ScriptValue::Style(red)), Some(CustomHighlightStyle::Concrete(style)) if style == red));
    assert!(highlight_style(&number(1)).is_none());
    assert!(highlight_style(&ScriptValue::Other).is_none());
}

#[test]
fn values_are_told_apart() {
    assert_eq!(integer(&number(3)), Some(3));
    assert_eq!(integer(&number(-3)), None);
    assert_eq!(percentage(&number(255)), Some(255));
    assert_eq!(percentage(&number(256)), None);
    assert_eq!(word(&ScriptValue::Symbol("a".to_string())), Some("a".to_string()));
    assert_eq!(text_of(&ScriptValue::Symbol("a".to_string())), None);
    assert_eq!(text_of(&string("a")), Some("a".to_string()));
}

#[test]
fn parses_valid_unicode_character_edits() {
    let edits = parse_edits(
        8,
        &list(vec![list(vec![number(1), number(1), string("λ")]), list(vec![number(4), number(7), string("")])]),
    )
    .unwrap();

    assert_eq!(edits.len(), 2);
    assert_eq!((edits[0].start, edits[0].end), (1, 1));
    assert_eq!(edits[0].replacement.as_ref().unwrap().chars().count(), 1);
    assert!(edits[1].replacement.is_none());
}

#[test]
fn rejects_invalid_or_overlapping_edits() {
    let overlapping = list(vec![list(vec![number(1), number(4), string("a")]), list(vec![number(3), number(5), string("b")])]);
    assert!(parse_edits(8, &overlapping).is_err());

    let out_of_bounds = list(vec![list(vec![number(2), number(9), string("a")])]);
    assert!(parse_edits(8, &out_of_bounds).is_err());
}

#[test]
fn edits_of_the_wrong_shape_are_named() {
    assert!(matches!(parse_edits(8, &number(1)), Err(EditError::NotAList)));
    assert!(matches!(parse_edits(8, &list(vec![number(1)])), Err(EditError::RowNotAList)));
    assert!(matches!(parse_edits(8, &list(vec![list(vec![number(1)])])), Err(EditError::RowLength)));
    assert!(matches!(
        parse_edits(8, &list(vec![list(vec![number(-1), number(1), string("")])])),
        Err(EditError::Start)
    ));
    assert!(matches!(
        parse_edits(8, &list(vec![list(vec![number(1), string(""), string("")])])),
        Err(EditError::End)
    ));
    assert!(matches!(
        parse_edits(8, &list(vec![list(vec![number(1), number(1), number(1)])])),
        Err(EditError::Replacement)
    ));
    assert!(matches!(
        parse_edits(8, &list(vec![list(vec![number(5), number(4), string("")])])),
        Err(EditError::OutOfRange { start: 5, end: 4, length: 8 })
    ));
    assert!(!EditError::NotAList.message().is_empty());
}

#[test]
fn touching_edits_are_accepted_in_order() {
    let edits = parse_edits(8, &list(vec![list(vec![number(0), number(2), string("a")]), list(vec![number(2), number(3), string("b")])]));
    assert_eq!(edits.unwrap().len(), 2);
}

#[test]
fn namespaces_and_views_are_isolated() {
    let first_view = ViewId(0);
    let second_view = ViewId(1);
    let mut store = CustomTextAnnotationStore::default();

    store.set(first_view, "git.blame".to_string(), CustomTextAnnotations::default());
    store.set(first_view, "git.diff".to_string(), CustomTextAnnotations::default());
    store.set(second_view, "git.blame".to_string(), CustomTextAnnotations::default());
    store.clear(first_view, "git.blame");

    assert!(!holds(store.get(first_view).unwrap(), "git.blame"));
    assert!(holds(store.get(first_view).unwrap(), "git.diff"));
    assert!(holds(store.get(second_view).unwrap(), "git.blame"));
}

#[test]
fn replacing_and_removing_annotations_cleans_up_the_store() {
    let view = ViewId(0);
    let mut store = CustomTextAnnotationStore::default();
    let replacement = CustomTextAnnotations {
        virtual_lines: vec![CustomVirtualLine {
            line: 2,
            text: "replacement".to_string(),
            scope: "ui.text".to_string(),
            background_opacity: None,
        }],
        ..Default::default()
    };

    store.set(view, "git.diff".to_string(), CustomTextAnnotations::default());
    store.set(view, "git.diff".to_string(), replacement);
    let found = store.get(view).unwrap().iter().find(|item| item.namespace == "git.diff").unwrap();
    assert_eq!(found.annotations.virtual_lines[0].text, "replacement");
    assert_eq!(store.get(view).unwrap().len(), 1);

    store.clear(view, "git.diff");
    assert!(store.get(view).is_none());

    store.set(view, "git.diff".to_string(), CustomTextAnnotations::default());
    store.remove_view(view);
    assert!(store.get(view).is_none());
}

#[test]
fn rows_after_a_line_are_counted() {
    let row = |line: usize| CustomVirtualLine {
        line,
        text: "x".to_string(),
        scope: "s".to_string(),
        background_opacity: None,
    };
    let rows = vec![row(2), row(3), row(2)];
    assert_eq!(insert_virtual_lines(&rows, 2), 2);
    assert_eq!(insert_virtual_lines(&rows, 3), 1);
    assert_eq!(insert_virtual_lines(&rows, 4), 0);
}

#[test]
fn equal_styles_are_sorted_and_coalesced() {
    assert_eq!(merge_ranges(vec![20..25, 0..5, 4..12, 12..15]), vec![0..15, 20..25]);
}

#[test]
fn merged_ranges_cover_what_they_covered() {
    let ranges: Vec<Range<usize>> = vec![3..5, 1..2, 4..9, 1..1, 2..2];
    let merged = merge_ranges(ranges.clone());
    for at in 0..12 {
        let before = ranges.iter().any(|range| range.contains(&at));
        let after = merged.iter().any(|range| range.contains(&at));
        assert_eq!(before, after);
    }
    for pair in merged.windows(2) {
        assert!(pair[0].end < pair[1].start);
    }
    assert!(merge_ranges(vec![]).is_empty());
}

#[test]
fn concrete_styles_begin_and_end_with_their_ranges() {
    let red = Style::default().fg(Color::Red);
    let blue = Style::default().bg(Color::Blue);
    let ranges = vec![
        ConcreteStyleRange { range: 4..6, style: blue, behind_overlays: false },
        ConcreteStyleRange { range: 1..5, style: red, behind_overlays: false },
    ];
    let mut highlighter = ConcreteStyleHighlighter::new_at(ranges, 0);
    assert_eq!(highlighter.style, Style::default());
    highlighter.advance_to(1);
    assert_eq!(highlighter.style, red);
    highlighter.advance_to(4);
    assert_eq!(highlighter.style, red.bg(Color::Blue));
    highlighter.advance_to(5);
    assert_eq!(highlighter.style, blue);
    highlighter.advance_to(6);
    assert_eq!(highlighter.style, Style::default());
}

#[test]
fn blends_foreground_over_dark_and_light_backgrounds() {
    assert_eq!(blend_rgb([100, 200, 50], [0, 0, 0], 20), [20, 40, 10]);
    assert_eq!(blend_rgb([100, 200, 50], [255, 255, 255], 20), [224, 244, 214]);
}

#[test]
fn a_blend_lies_between_its_colors() {
    assert_eq!(blend_rgb([1, 2, 3], [9, 9, 9], 100), [1, 2, 3]);
    assert_eq!(blend_rgb([1, 2, 3], [9, 9, 9], 0), [9, 9, 9]);
    assert_eq!(blend_rgb([1, 2, 3], [9, 9, 9], 255), [1, 2, 3]);
}

#[test]
fn palette_colors_have_channels() {
    assert_eq!(ansi256_rgb(16), [0, 0, 0]);
    assert_eq!(ansi256_rgb(231), [255, 255, 255]);
    assert_eq!(ansi256_rgb(232), [8, 8, 8]);
    assert_eq!(ansi256_rgb(255), [238, 238, 238]);
    assert_eq!(color_rgb(Some(Color::Rgb(1, 2, 3)), [9, 9, 9]), [1, 2, 3]);
    assert_eq!(color_rgb(None, [9, 9, 9]), [9, 9, 9]);
    assert!(matches!(indexed_color([0, 0, 0]), Color::Indexed(_)));
}

#[test]
fn explicit_diff_background_wins() {
    let mut theme = Theme::default();
    theme.set("diff.plus".to_string(), Style::default().fg(Color::Rgb(0, 255, 0)).bg(Color::Rgb(1, 2, 3)));
    theme.set("ui.background".to_string(), Style::default().bg(Color::Rgb(20, 20, 20)));
    assert_eq!(background_style(&theme, "diff.plus", 20).bg, Some(Color::Rgb(1, 2, 3)));
}

#[test]
fn rgb_and_palette_themes_resolve_tints() {
    let mut rgb = Theme::default();
    rgb.set("diff.minus".to_string(), Style::default().fg(Color::Rgb(200, 0, 0)));
    rgb.set("ui.background".to_string(), Style::default().bg(Color::Rgb(250, 250, 250)));
    assert_eq!(background_style(&rgb, "diff.minus", 20).bg, Some(Color::Rgb(240, 200, 200)));

    let mut palette = Theme::default();
    palette.set("diff.minus".to_string(), Style::default().fg(Color::Indexed(9)));
    palette.set("ui.background".to_string(), Style::default().bg(Color::Indexed(0)));
    assert!(matches!(background_style(&palette, "diff.minus", 20).bg, Some(Color::Indexed(_))));
}

#[test]
fn a_scope_falls_back_to_the_one_around_it() {
    let mut theme = Theme::default();
    theme.set("diff".to_string(), Style::default().fg(Color::Red));
    theme.set("diff.plus".to_string(), Style::default().fg(Color::Green));
    theme.set("diff".to_string(), Style::default().fg(Color::Blue));
    assert_eq!(theme.get("diff.minus").fg, Some(Color::Blue));
    assert_eq!(theme.get("diff.plus.gutter").fg, Some(Color::Green));
    assert_eq!(theme.try_get_exact("diff.minus"), None);
    assert_eq!(theme.try_get("ui"), None);
    assert_eq!(theme.get("ui"), Style::default());
    assert_eq!(theme.find_highlight("diff.plus.gutter"), Some(1));
    assert!(theme.is_16_color());
    theme.set("ui".to_string(), Style::default().bg(Color::Rgb(0, 0, 0)));
    assert!(!theme.is_16_color());
}

#[test]
fn a_plain_style_changes_nothing() {
    let red = Style::default().fg(Color::Red).bg(Color::Blue);
    assert_eq!(red.patch(Style::default()), red);
    assert_eq!(Style::default().patch(red), red);
    assert_eq!(red.patch(Style::default().fg(Color::Green)), Style::default().fg(Color::Green).bg(Color::Blue));
}
