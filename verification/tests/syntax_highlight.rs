use helix_extensions::graphics::{Color, Style};
use helix_extensions::syntax_highlight::{spans, HighlightChange, Span, SpanCollector};

fn ranges(spans: &[Span]) -> Vec<(usize, usize)> {
    spans.iter().map(|span| (span.start, span.end)).collect()
}

fn styled() -> Style {
    Style::default().fg(Color::Red)
}

#[test]
fn converts_byte_offsets_to_character_indices() {
    let mut collector = SpanCollector::new("a界b界c");
    collector.advance_to(4);
    collector.style = styled();
    collector.advance_to(8);
    collector.style = Style::default();
    assert_eq!(ranges(&collector.finish()), vec![(2, 4)]);
}

#[test]
fn rounds_an_interior_byte_offset_up_to_a_character() {
    let mut collector = SpanCollector::new("界界");
    collector.style = styled();
    collector.advance_to(1);
    assert_eq!(ranges(&collector.finish()), vec![(0, 1), (1, 2)]);
}

#[test]
fn drops_unstyled_and_empty_regions() {
    let mut collector = SpanCollector::new("abcdef");
    collector.advance_to(2);
    collector.style = styled();
    collector.advance_to(2);
    collector.advance_to(4);
    collector.style = Style::default();
    assert_eq!(ranges(&collector.finish()), vec![(2, 4)]);
}

#[test]
fn spans_are_sorted_and_non_overlapping() {
    let mut collector = SpanCollector::new("abcdefgh");
    collector.style = styled();
    collector.advance_to(2);
    collector.style = Style::default().fg(Color::Blue);
    collector.advance_to(5);
    collector.style = Style::default().fg(Color::Green);
    let spans = collector.finish();
    let ranges = ranges(&spans);
    assert_eq!(ranges, vec![(0, 2), (2, 5), (5, 8)]);
    for pair in ranges.windows(2) {
        assert!(pair[0].1 <= pair[1].0);
    }
}

#[test]
fn a_style_never_extends_past_the_end_of_the_source() {
    let mut collector = SpanCollector::new("ab");
    collector.style = styled();
    collector.advance_to(64);
    assert_eq!(ranges(&collector.finish()), vec![(0, 2)]);
}

#[test]
fn changes_replace_or_add_styles() {
    let changes = vec![
        HighlightChange { offset: 1, refresh: true, styles: vec![styled()] },
        HighlightChange { offset: 2, refresh: false, styles: vec![Style::default().bg(Color::Blue)] },
        HighlightChange { offset: 4, refresh: true, styles: vec![] },
    ];
    let found = spans("abcdef", Some(&changes));
    assert_eq!(ranges(&found), vec![(1, 2), (2, 4)]);
    assert_eq!(found[0].style, styled());
    assert_eq!(found[1].style, styled().bg(Color::Blue));
}

#[test]
fn a_text_without_a_highlighter_has_no_spans() {
    assert!(spans("abc", None).is_empty());
}

#[test]
fn a_text_over_the_budget_has_no_spans() {
    let changes = vec![HighlightChange { offset: 0, refresh: true, styles: vec![styled()] }];
    assert_eq!(ranges(&spans("abc", Some(&changes))), vec![(0, 3)]);
    let long = "a".repeat(helix_extensions::syntax_highlight::HIGHLIGHT_BYTE_BUDGET + 1);
    assert!(spans(&long, Some(&changes)).is_empty());
}
