use helix_extensions::custom_text::annotations::{
    CustomHighlight, CustomHighlightStyle, CustomInlineAnnotation, CustomLineBackground, CustomTextAnnotations,
    CustomVirtualLine, InlineAnnotation,
};
use helix_extensions::custom_text::store::{insert_virtual_lines, CustomTextAnnotationStore, NamedAnnotations};
use helix_extensions::editor::document::ViewPosition;
use helix_extensions::graphics::{Color, Rect, Style};
use helix_extensions::line_map::LineMap;
use helix_extensions::render::drawing::{Draw, Position};
use helix_extensions::render::graphemes::{text_display_width, Grapheme};
use helix_extensions::render::highlights::{
    inline_highlights, step_position, HighlightEvent, HighlightStep, HighlightTrack,
};
use helix_extensions::render::plan::{add_custom_text_annotations, AnnotationPlan};
use helix_extensions::render::renderer::{RenderSettings, TextRenderer};
use helix_extensions::render::walk::{render_document, FormattedGrapheme, GraphemeSource};
use helix_extensions::theme::Theme;
use helix_extensions::tree::ViewId;

struct Cell {
    symbol: String,
    style: Style,
}

struct Surface {
    width: usize,
    cells: Vec<Cell>,
}

impl Surface {
    fn empty(width: usize, height: usize) -> Surface {
        let cells = (0..width * height).map(|_| Cell { symbol: " ".to_string(), style: Style::default() }).collect();
        Surface { width, cells }
    }

    fn cell(&self, x: usize, y: usize) -> &Cell {
        &self.cells[y * self.width + x]
    }

    fn background(&self, x: usize, y: usize) -> Color {
        self.cell(x, y).style.bg.unwrap_or(Color::Reset)
    }

    fn row(&self, y: usize) -> String {
        (0..self.width).map(|x| self.cell(x, y).symbol.as_str()).collect()
    }

    fn put(&mut self, x: usize, y: usize, symbol: &str, style: Style) {
        if x < self.width {
            let at = y * self.width + x;
            let before = self.cells[at].style;
            self.cells[at] = Cell { symbol: symbol.to_string(), style: before.patch(style) };
        }
    }

    fn put_text(&mut self, x: u16, y: u16, text: &str, style: Style) {
        let mut column = x as usize;
        for character in text.chars() {
            let symbol = character.to_string();
            self.put(column, y as usize, &symbol, style);
            column += text_display_width(&symbol);
        }
    }

    fn apply(&mut self, draws: &[Draw]) {
        for draw in draws {
            match draw {
                Draw::Text { x, y, text, style } => self.put_text(*x, *y, text, *style),
                Draw::Limited { x, y, text, width, style } => {
                    let shown: String = text.chars().take(*width).collect();
                    self.put_text(*x, *y, &shown, *style);
                },
                Draw::Truncated { x, y, text, width, styles, .. } => {
                    let shown: String = text.chars().take(*width).collect();
                    self.put_text(*x, *y, &shown, styles.first().map_or(Style::default(), |style| style.1));
                },
                Draw::Grapheme { x, y, text, width, style } => {
                    self.put(*x as usize, *y as usize, text, *style);
                    for next in 1..*width {
                        self.put(*x as usize + next, *y as usize, "", *style);
                    }
                },
                Draw::Tab { x, y, text, style } => {
                    for (index, character) in text.chars().enumerate() {
                        self.put(*x as usize + index, *y as usize, &character.to_string(), *style);
                    }
                },
                Draw::Fill { area, style } => {
                    for y in area.y..area.y + area.height {
                        for x in area.x..area.x + area.width {
                            let at = y as usize * self.width + x as usize;
                            let before = self.cells[at].style;
                            self.cells[at].style = before.patch(*style);
                        }
                    }
                },
            }
        }
    }
}

fn settings(whitespace: bool) -> RenderSettings {
    RenderSettings {
        tab_width: 4,
        indent_width: 4,
        show_tabs: whitespace,
        show_newlines: whitespace,
        show_spaces: whitespace,
        show_nbsp: whitespace,
        show_nnbsp: whitespace,
        tab: '→',
        tab_pad: ' ',
        newline: '⏎',
        space: '·',
        nbsp: '⍽',
        nnbsp: '␣',
        indent_guides: false,
        indent_guide: '│',
        skipped_levels: 0,
    }
}

fn lines(text: &str) -> LineMap {
    let mut starts = vec![0];
    for (index, character) in text.chars().enumerate() {
        if character == '\n' {
            starts.push(index + 1);
        }
    }
    LineMap { starts, len_chars: text.chars().count() }
}

fn formatted(text: &str, virtual_lines: &Vec<CustomVirtualLine>) -> Vec<FormattedGrapheme> {
    let mut items = Vec::new();
    let mut position = Position { row: 0, col: 0 };
    let mut line = 0;
    for (index, character) in text.chars().enumerate() {
        let grapheme = Grapheme::new(character.to_string(), position.col, 4);
        let width = grapheme.width();
        items.push(FormattedGrapheme {
            grapheme,
            source: GraphemeSource::Document,
            is_eof: false,
            visual_pos: position,
            line_idx: line,
            char_idx: index,
        });
        if character == '\n' {
            position = Position { row: position.row + 1 + insert_virtual_lines(virtual_lines, line), col: 0 };
            line += 1;
        } else {
            position.col += width;
        }
    }
    items.push(FormattedGrapheme {
        grapheme: Grapheme::new(" ".to_string(), position.col, 4),
        source: GraphemeSource::Document,
        is_eof: true,
        visual_pos: position,
        line_idx: line,
        char_idx: text.chars().count(),
    });
    items
}

fn plan_of(text: &str, annotations: CustomTextAnnotations, theme: &Theme) -> AnnotationPlan {
    let mut store = CustomTextAnnotationStore::default();
    store.set(ViewId(0), "test".to_string(), annotations);
    add_custom_text_annotations(store.get(ViewId(0)).unwrap(), theme, &lines(text))
}

fn drawn(
    surface: &mut Surface,
    text: &str,
    viewport: Rect,
    offset: ViewPosition,
    plan: &AnnotationPlan,
    theme: &Theme,
    overlays: Vec<HighlightStep>,
) {
    let items = formatted(text, &plan.decorations.virtual_lines);
    let draws = render_document(
        &settings(false),
        viewport,
        offset,
        &items,
        0,
        vec![],
        overlays,
        &plan.concrete,
        theme,
        &plan.decorations,
    );
    surface.apply(&draws);
}

#[test]
fn text_display_width_uses_terminal_cells() {
    assert_eq!(text_display_width("abc"), 3);
    assert_eq!(text_display_width("a界b"), 4);
    assert_eq!(text_display_width("e\u{301}"), 1);
}

#[test]
fn renderer_translates_and_clips_styles_to_visible_rows() {
    let theme = Theme::default();
    let mut surface = Surface::empty(10, 5);
    surface.put_text(0, 4, "STATUS", Style::default());
    let mut renderer =
        TextRenderer::new(&settings(false), &theme, Position { row: 2, col: 0 }, Rect::new(2, 1, 6, 3));
    let tint = Style::default().bg(Color::Rgb(1, 2, 3));

    renderer.set_style(Rect::new(2, 3, 6, 1), tint);
    renderer.set_style(Rect::new(2, 5, 6, 1), tint);
    surface.apply(&renderer.draws);

    assert_eq!(surface.background(2, 2), Color::Rgb(1, 2, 3));
    assert_eq!(surface.background(2, 4), Color::Reset);
    assert_eq!(surface.cell(0, 4).symbol.as_str(), "S");
}

#[test]
fn custom_text_honors_tabs_horizontal_scroll_unicode_and_whitespace() {
    let mut theme = Theme::default();
    theme.set("diff.minus".to_string(), Style::default().fg(Color::Rgb(200, 20, 20)));
    let mut surface = Surface::empty(6, 1);
    let mut renderer = TextRenderer::new(&settings(true), &theme, Position { row: 0, col: 2 }, Rect::new(0, 0, 6, 1));

    renderer.draw_custom_text_line(0, "a\t界 x", theme.get("diff.minus"));
    surface.apply(&renderer.draws);

    assert_eq!(surface.cell(0, 0).symbol.as_str(), " ");
    assert_eq!(surface.cell(1, 0).symbol.as_str(), " ");
    assert_eq!(surface.cell(2, 0).symbol.as_str(), "界");
    assert_eq!(surface.cell(4, 0).symbol.as_str(), "·");
    assert_eq!(surface.cell(5, 0).symbol.as_str(), "x");
    assert_eq!(surface.cell(5, 0).style.fg, Some(Color::Rgb(200, 20, 20)));
}

#[test]
fn viewport_can_begin_inside_consecutive_virtual_lines() {
    let text = "anchor\nnext\n";
    let mut theme = Theme::default();
    theme.set("diff.minus".to_string(), Style::default().fg(Color::Rgb(200, 20, 20)));
    let annotations = CustomTextAnnotations {
        virtual_lines: ["- one", "- two", "- three", "- four"]
            .into_iter()
            .map(|text| CustomVirtualLine {
                line: 0,
                text: text.to_string(),
                scope: "diff.minus".to_string(),
                background_opacity: None,
            })
            .collect(),
        ..Default::default()
    };
    let plan = plan_of(text, annotations, &theme);
    let mut surface = Surface::empty(10, 3);
    surface.put_text(0, 2, "STATUS", Style::default());

    drawn(
        &mut surface,
        text,
        Rect::new(0, 0, 10, 2),
        ViewPosition { anchor: 0, horizontal_offset: 0, vertical_offset: 2 },
        &plan,
        &theme,
        vec![],
    );

    assert!(surface.row(0).starts_with("- two"));
    assert!(surface.row(1).starts_with("- three"));
    assert!(surface.row(2).starts_with("STATUS"));
}

#[test]
fn selection_background_stays_above_full_row_tint() {
    let text = "added\n";
    let mut theme = Theme::default();
    let tint = Color::Rgb(10, 40, 10);
    let selection = Color::Rgb(30, 60, 180);
    theme.set("diff.plus".to_string(), Style::default().bg(tint));
    theme.set("ui.selection".to_string(), Style::default().bg(selection));
    let selection_scope = theme.find_highlight("ui.selection").unwrap();
    let annotations = CustomTextAnnotations {
        line_backgrounds: vec![CustomLineBackground { line: 0, scope: "diff.plus".to_string(), opacity: 20 }],
        ..Default::default()
    };
    let plan = plan_of(text, annotations, &theme);
    let mut surface = Surface::empty(10, 1);
    let overlays = vec![
        HighlightStep { at: 0, event: HighlightEvent::Push, highlights: vec![selection_scope] },
        HighlightStep { at: 5, event: HighlightEvent::Refresh, highlights: vec![] },
    ];

    drawn(
        &mut surface,
        text,
        Rect::new(0, 0, 10, 1),
        ViewPosition { anchor: 0, horizontal_offset: 0, vertical_offset: 0 },
        &plan,
        &theme,
        overlays,
    );

    assert_eq!(surface.background(0, 0), selection);
    assert_eq!(surface.background(9, 0), tint);
}

#[test]
fn stale_line_background_is_ignored_after_document_replacement() {
    let text = "short\n";
    let mut theme = Theme::default();
    theme.set("diff.plus".to_string(), Style::default().bg(Color::Rgb(10, 40, 10)));
    let annotations = CustomTextAnnotations {
        line_backgrounds: vec![CustomLineBackground { line: 8, scope: "diff.plus".to_string(), opacity: 20 }],
        ..Default::default()
    };
    let plan = plan_of(text, annotations, &theme);
    assert!(plan.decorations.line_backgrounds.is_empty());
    let mut surface = Surface::empty(10, 1);

    drawn(
        &mut surface,
        text,
        Rect::new(0, 0, 10, 1),
        ViewPosition { anchor: 0, horizontal_offset: 0, vertical_offset: 0 },
        &plan,
        &theme,
        vec![],
    );

    assert!(surface.row(0).starts_with("short"));
    assert_eq!(surface.background(9, 0), Color::Reset);
}

#[test]
fn highlights_with_one_scope_are_merged() {
    let mut theme = Theme::default();
    theme.set("diff".to_string(), Style::default().fg(Color::Red));
    let highlight = |start: usize, end: usize, scope: &str| CustomHighlight {
        range: start..end,
        style: CustomHighlightStyle::Scope(scope.to_string()),
    };
    let red = Style::default().fg(Color::Red);
    let annotations = CustomTextAnnotations {
        highlights: vec![
            highlight(3, 5, "diff.plus"),
            highlight(0, 3, "diff.minus"),
            highlight(0, 1, "unknown"),
            CustomHighlight { range: 1..2, style: CustomHighlightStyle::Concrete(red) },
        ],
        ..Default::default()
    };
    let plan = plan_of("abcdef", annotations, &theme);
    assert_eq!(plan.overlays.len(), 1);
    assert_eq!(plan.overlays[0].ranges, vec![0..5]);
    assert_eq!(plan.concrete.len(), 1);
    assert_eq!(plan.concrete[0].range, 1..2);
}

#[test]
fn indent_guides_stand_at_every_level() {
    let theme = Theme::default();
    let guided = RenderSettings { indent_guides: true, ..settings(false) };
    let mut surface = Surface::empty(12, 1);
    let mut renderer = TextRenderer::new(&guided, &theme, Position { row: 0, col: 0 }, Rect::new(0, 0, 12, 1));
    renderer.draw_indent_guides(9, 0);
    surface.apply(&renderer.draws);
    assert_eq!(surface.row(0), "│   │       ");
}

#[test]
fn refreshed_highlights_replace_and_pushed_ones_add() {
    let mut theme = Theme::default();
    theme.set("a".to_string(), Style::default().fg(Color::Red));
    theme.set("b".to_string(), Style::default().bg(Color::Blue));
    let steps = vec![
        HighlightStep { at: 1, event: HighlightEvent::Refresh, highlights: vec![0] },
        HighlightStep { at: 2, event: HighlightEvent::Push, highlights: vec![1] },
        HighlightStep { at: 2, event: HighlightEvent::Refresh, highlights: vec![1] },
    ];
    let mut track = HighlightTrack::new(steps, &theme, Style::default());
    track.advance_to(&theme, 0);
    assert_eq!(track.style, Style::default());
    track.advance(&theme);
    assert_eq!(track.style, Style::default().fg(Color::Red));
    track.advance(&theme);
    assert_eq!(track.style, Style::default().fg(Color::Red).bg(Color::Blue));
    track.advance_to(&theme, 9);
    assert_eq!(track.style, Style::default().bg(Color::Blue));
}

#[test]
fn a_change_inside_a_character_waits_for_the_next() {
    assert_eq!(step_position("a界b", 0), 0);
    assert_eq!(step_position("a界b", 2), 2);
    assert_eq!(step_position("a界b", 4), 2);
    assert_eq!(step_position("a界b", 99), 3);
    assert_eq!(step_position("a界b", u32::MAX), usize::MAX);
}

#[test]
fn inline_annotations_get_the_highlight_of_their_scope() {
    let mut theme = Theme::default();
    theme.set("ui".to_string(), Style::default().fg(Color::Red));
    let inline = |scope: &str| CustomInlineAnnotation {
        annotation: InlineAnnotation { char_idx: 0, text: "x".to_string() },
        scope: scope.to_string(),
    };
    let list = vec![NamedAnnotations {
        namespace: "test".to_string(),
        annotations: CustomTextAnnotations { inline: vec![inline("ui.virtual"), inline("other")], ..Default::default() },
    }];
    assert_eq!(inline_highlights(&list, Some(&theme)), vec![vec![Some(0), None]]);
    assert_eq!(inline_highlights(&list, None), vec![vec![None, None]]);
}

#[test]
fn texts_keep_to_the_rows_of_the_viewport() {
    let theme = Theme::default();
    let mut renderer = TextRenderer::new(&settings(false), &theme, Position { row: 1, col: 0 }, Rect::new(0, 0, 6, 2));
    let mut surface = Surface::empty(6, 2);
    renderer.set_string(0, 0, "hidden", Style::default());
    renderer.set_string(1, 1, "top", Style::default());
    renderer.set_stringn(0, 2, "bottom", 3, Style::default());
    renderer.set_string(0, 3, "below", Style::default());
    surface.apply(&renderer.draws);
    assert_eq!(surface.row(0), " top  ");
    assert_eq!(surface.row(1), "bot   ");
}

#[test]
fn a_decoration_outside_the_columns_is_not_drawn() {
    let theme = Theme::default();
    let mut renderer = TextRenderer::new(&settings(false), &theme, Position { row: 0, col: 2 }, Rect::new(0, 0, 4, 1));
    let grapheme = |text: &str| Grapheme::new(text.to_string(), 0, 4);
    assert!(renderer.draw_decoration_grapheme(grapheme("b"), Style::default(), 0, 1));
    assert!(!renderer.draw_decoration_grapheme(grapheme("c"), Style::default(), 0, 4));
    assert!(!renderer.draw_decoration_grapheme(grapheme("d"), Style::default(), 1, 0));
    let mut surface = Surface::empty(4, 1);
    surface.apply(&renderer.draws);
    assert_eq!(surface.row(0), " b  ");
}

#[test]
fn a_truncated_text_on_a_hidden_row_ends_where_it_starts() {
    let theme = Theme::default();
    let mut renderer = TextRenderer::new(&settings(false), &theme, Position { row: 1, col: 0 }, Rect::new(0, 0, 6, 1));
    let red = vec![(0, Style::default().fg(Color::Red))];
    assert_eq!(renderer.set_string_truncated(2, 0, "hidden", 4, red.clone(), true, false), Some((2, 0)));
    assert_eq!(renderer.set_string_truncated(0, 1, "shown", 4, red, true, false), None);
    let mut surface = Surface::empty(6, 1);
    surface.apply(&renderer.draws);
    assert_eq!(surface.row(0), "show  ");
    assert_eq!(surface.cell(0, 0).style.fg, Some(Color::Red));
}

#[test]
fn characters_before_the_anchor_have_the_styles_of_the_anchor() {
    let theme = Theme::default();
    let red = Style::default().fg(Color::Red);
    let annotations = CustomTextAnnotations {
        highlights: vec![CustomHighlight { range: 2..4, style: CustomHighlightStyle::Concrete(red) }],
        ..Default::default()
    };
    let plan = plan_of("abcdef", annotations, &theme);
    let mut surface = Surface::empty(6, 1);
    drawn(
        &mut surface,
        "abcdef",
        Rect::new(0, 0, 6, 1),
        ViewPosition { anchor: 3, horizontal_offset: 0, vertical_offset: 0 },
        &plan,
        &theme,
        vec![],
    );
    assert_eq!(surface.row(0), "abcdef");
    assert_eq!(surface.cell(0, 0).style.fg, Some(Color::Red));
    assert_eq!(surface.cell(3, 0).style.fg, Some(Color::Red));
    assert_ne!(surface.cell(4, 0).style.fg, Some(Color::Red));
}

#[test]
fn steps_of_both_highlighters_reach_the_text() {
    let mut theme = Theme::default();
    theme.set("keyword".to_string(), Style::default().fg(Color::Red));
    theme.set("selection".to_string(), Style::default().bg(Color::Blue));
    let plan = plan_of("abc", CustomTextAnnotations::default(), &theme);
    let mut items = formatted("abc", &vec![]);
    items.insert(
        3,
        FormattedGrapheme {
            grapheme: Grapheme::new("v".to_string(), 3, 4),
            source: GraphemeSource::VirtualText(Some(0)),
            is_eof: false,
            visual_pos: Position { row: 0, col: 3 },
            line_idx: 0,
            char_idx: 3,
        },
    );
    items[4].visual_pos = Position { row: 0, col: 4 };
    let draws = render_document(
        &settings(false),
        Rect::new(0, 0, 6, 1),
        ViewPosition { anchor: 0, horizontal_offset: 0, vertical_offset: 0 },
        &items,
        0,
        vec![
            HighlightStep { at: 1, event: HighlightEvent::Push, highlights: vec![0] },
            HighlightStep { at: 2, event: HighlightEvent::Refresh, highlights: vec![] },
        ],
        vec![HighlightStep { at: 1, event: HighlightEvent::Refresh, highlights: vec![1] }],
        &plan.concrete,
        &theme,
        &plan.decorations,
    );
    let mut surface = Surface::empty(6, 1);
    surface.apply(&draws);
    assert!(surface.row(0).starts_with("abcv"));
    assert_ne!(surface.cell(0, 0).style.fg, Some(Color::Red));
    assert_eq!(surface.cell(1, 0).style.fg, Some(Color::Red));
    assert_eq!(surface.background(1, 0), Color::Blue);
    assert_ne!(surface.cell(2, 0).style.fg, Some(Color::Red));
    assert_eq!(surface.background(2, 0), Color::Blue);
    assert_eq!(surface.cell(3, 0).style.fg, Some(Color::Red));
    assert_ne!(surface.background(3, 0), Color::Blue);
}
