use review_ui::wrap::{viewport_rows, viewport_sources, GuideBlock, ViewportSource, WrapSegment};
use review_ui::guide_layout::{GuideRowLayout, GuideStatus, PlacedGuide};
use review_ui::ordering::GuideCounter;
use review_ui::presentation::{DiffPresentation, PresentedRow};
use review_ui::highlight::Token;
use review_ui::wrap::{
    find_wrap_end, wrap_grapheme, wrap_segments, DiffViewport, ViewportRow, WrapGrapheme,
};
use ratatui::style::Color;
use unicode_segmentation::UnicodeSegmentation;
use unicode_width::UnicodeWidthStr;

fn wrapped(text: &str, width: u16, continuation_indent: usize) -> Vec<String> {
    let symbols: Vec<&str> = text.graphemes(true).collect();
    let graphemes: Vec<WrapGrapheme> = symbols.iter().map(|symbol| wrap_grapheme(symbol)).collect();
    wrap_segments(&graphemes, width, continuation_indent)
        .iter()
        .map(|segment| {
            let mut row = String::new();
            if segment.marker {
                row.push_str(symbols[0]);
            }
            row.push_str(&" ".repeat(segment.blank_width));
            for symbol in &symbols[segment.start..segment.end] {
                row.push_str(symbol);
            }
            row
        })
        .collect()
}

#[test]
fn continuation_indent_leaves_room_for_a_wide_grapheme() {
    let rows = wrapped("abcd🙂", 5, 4);

    assert_eq!(rows.len(), 2);
    assert_eq!(rows[1].width(), 5);
    assert_eq!(rows[1], "   🙂");
}

#[test]
fn lines_wrap_after_spaces_instead_of_inside_words() {
    let rows = wrapped("prefix alpha beta gamma", 13, 4);

    assert_eq!(rows, ["prefix alpha ", "    beta ", "    gamma"]);
}

#[test]
fn lines_wrap_after_tabs_instead_of_inside_words() {
    let rows = wrapped("alpha\tbeta gamma", 10, 2);

    assert_eq!(rows, ["alpha\t", "  beta ", "  gamma"]);
}

#[test]
fn words_wider_than_the_viewport_use_hard_breaks() {
    let rows = wrapped("abcdefgh", 5, 2);

    assert_eq!(rows, ["abcde", "  fgh"]);
}

#[test]
fn continuation_rows_repeat_the_change_marker() {
    let rows = wrapped("▌ 1 alpha beta gamma", 10, 4);

    assert!(rows.len() > 1);
    assert!(rows.iter().skip(1).all(|row| row.starts_with("▌ ")));
}

#[test]
fn an_empty_line_is_one_empty_row() {
    assert_eq!(wrapped("", 10, 2), [""]);
}

#[test]
fn wrap_segments_record_the_source_display_offsets() {
    let graphemes: Vec<WrapGrapheme> = "  abcdef"
        .graphemes(true)
        .map(wrap_grapheme)
        .collect();
    let segments = wrap_segments(&graphemes, 4, 2);
    let offsets: Vec<usize> = segments
        .iter()
        .map(|segment| segment.source_display_offset)
        .collect();
    assert_eq!(offsets, vec![0, 2, 4]);
    assert_eq!(segments[1].visible_indent, 2);
}

#[test]
fn find_wrap_end_takes_at_least_one_grapheme() {
    let wide = WrapGrapheme {
        display_width: 2,
        is_whitespace: false,
        is_marker: false,
    };
    assert_eq!(find_wrap_end(&[wide, wide], 0, 1, 0, 0), (1, 2));
    assert_eq!(find_wrap_end(&[wide, wide], 0, 4, 0, 0), (2, 4));
}

#[test]
fn wrap_grapheme_reads_width_whitespace_and_the_marker() {
    assert_eq!(
        wrap_grapheme("🙂"),
        WrapGrapheme {
            display_width: 2,
            is_whitespace: false,
            is_marker: false,
        }
    );
    assert!(wrap_grapheme(" ").is_whitespace);
    assert!(wrap_grapheme("\t").is_whitespace);
    assert!(wrap_grapheme("▌").is_marker);
}

fn row(source_row: usize, source_display_offset: usize) -> ViewportRow {
    ViewportRow {
        source_row,
        source_display_offset,
        is_source_row: true,
    }
}

fn one_line(text: &str) -> DiffPresentation {
    DiffPresentation {
        rows: vec![PresentedRow::Expanded {
            line: 1,
            tokens: vec![Token {
                text: text.to_owned(),
                color: Color::White,
            }],
        }],
        ..DiffPresentation::default()
    }
}

#[test]
fn the_cursor_row_follows_the_display_column() {
    let viewport = DiffViewport {
        rows: vec![row(0, 0), row(0, 4), row(0, 8), row(1, 0)],
    };
    let diff = one_line("abcdefghij");

    assert_eq!(viewport.cursor_visual_row(&diff, 0, 0), 0);
    assert_eq!(viewport.cursor_visual_row(&diff, 0, 5), 1);
    assert_eq!(viewport.cursor_visual_row(&diff, 0, 9), 2);
    assert_eq!(viewport.cursor_visual_row(&diff, 1, 0), 3);
    assert_eq!(viewport.cursor_visual_row(&diff, 7, 0), 0);
}

#[test]
fn scrolling_keeps_the_cursor_visible() {
    let viewport = DiffViewport {
        rows: (0..10).map(|index| row(index, 0)).collect(),
    };
    let diff = DiffPresentation::default();

    assert_eq!(viewport.scroll(20), 9);
    assert_eq!(viewport.scroll_with_cursor_visible(0, &diff, 7, 0, 3), 5);
    assert_eq!(viewport.scroll_with_cursor_visible(6, &diff, 2, 0, 3), 2);
    assert_eq!(viewport.scroll_with_cursor_visible(4, &diff, 5, 0, 3), 4);
    assert_eq!(viewport.source_row_at(3), Some(3));
    assert_eq!(viewport.source_row_at(10), None);
    assert_eq!(viewport.source_column_at(2, 10, 3), Some(4));
    assert_eq!(
        viewport.source_position_after_visual_delta(&diff, 4, 0, -2),
        Some((2, 0))
    );
    assert_eq!(
        viewport.source_position_after_visual_delta(&diff, 4, 0, 20),
        Some((9, 0))
    );
    assert_eq!(
        viewport.source_position_after_visual_delta(&diff, 4, 0, -20),
        Some((0, 0))
    );
    assert_eq!(viewport.len(), 10);
}

#[test]
fn wrapped_rows_take_every_grapheme_once_in_order() {
    let text = "▌ alpha beta gamma delta 🙂🙂 epsilon";
    let symbols: Vec<&str> = text.graphemes(true).collect();
    let graphemes: Vec<WrapGrapheme> = symbols.iter().map(|symbol| wrap_grapheme(symbol)).collect();
    for width in [1u16, 3, 7, 12, 40] {
        let segments = wrap_segments(&graphemes, width, 4);
        assert_eq!(segments[0].start, 0);
        assert_eq!(segments.last().unwrap().end, graphemes.len());
        for pair in segments.windows(2) {
            assert_eq!(pair[0].end, pair[1].start);
        }
        for segment in &segments {
            assert!(segment.start < segment.end);
            let used: usize = graphemes[segment.start..segment.end]
                .iter()
                .map(|grapheme| grapheme.display_width)
                .sum();
            assert!(used + segment.visible_indent <= usize::from(width.max(1)) || segment.end == segment.start + 1);
        }
    }
}

#[test]
fn pointers_find_the_row_and_column_under_them() {
    let viewport = DiffViewport {
        rows: vec![row(0, 0), row(0, 4), row(0, 8), row(1, 0)],
    };
    assert_eq!(viewport.pointer_position(0, 2, 10, 3), Some((0, Some(4))));
    assert_eq!(viewport.pointer_position(1, 2, 10, 3), Some((0, Some(8))));
    assert_eq!(viewport.pointer_position(0, 5, 2, 3), Some((1, Some(0))));
    assert_eq!(viewport.pointer_position(0, 6, 2, 3), None);
    assert_eq!(viewport.pointer_position(9, 0, 7, 3), Some((1, Some(1))));
}

#[test]
fn viewport_rows_put_guides_around_the_rows_they_target() {
    let segment = |offset: usize| WrapSegment {
        start: 0,
        end: 0,
        visible_indent: 0,
        marker: false,
        blank_width: 0,
        source_display_offset: offset,
    };
    let sources = vec![
        ViewportSource { starts: Vec::new(), segments: Vec::new(), ends: Vec::new() },
        ViewportSource {
            starts: vec![GuideBlock { target_row: 1, text_rows: 1 }],
            segments: vec![segment(0), segment(12)],
            ends: vec![1],
        },
    ];
    let row = |source_row: usize, offset: usize, own: bool| ViewportRow {
        source_row,
        source_display_offset: offset,
        is_source_row: own,
    };
    assert_eq!(
        viewport_rows(&sources).rows,
        vec![
            row(0, 0, true),
            row(1, 0, false),
            row(1, 0, false),
            row(1, 0, false),
            row(1, 0, true),
            row(1, 12, true),
            row(1, 0, false),
        ]
    );
}

#[test]
fn viewport_sources_wrap_rows_inside_guide_frames() {
    let graphemes_of = |text: &str| -> Vec<WrapGrapheme> {
        text.graphemes(true).map(wrap_grapheme).collect()
    };
    let guide = PlacedGuide {
        item: 0,
        first_row: 0,
        last_row: 0,
        file_target: false,
        status: GuideStatus::Matched,
        counter: GuideCounter { number: 1, total: 1 },
    };
    let layouts = vec![
        GuideRowLayout { starts: vec![0], enclosing: Some(GuideStatus::Matched), ends: vec![0] },
        GuideRowLayout { starts: Vec::new(), enclosing: None, ends: Vec::new() },
    ];
    let rows = vec![graphemes_of("abcdefghij"), graphemes_of("")];
    let guide_text = vec![graphemes_of("     a guide text that wraps")];
    let sources = viewport_sources(&rows, &layouts, &vec![guide], &guide_text, 10, 1);
    assert_eq!(sources.len(), 2);
    assert_eq!(sources[0].segments, wrap_segments(&rows[0], 9, 4));
    assert_eq!(sources[0].segments.len(), 2);
    assert_eq!(
        sources[0].starts,
        vec![GuideBlock { target_row: 0, text_rows: wrap_segments(&guide_text[0], 9, 6).len() }]
    );
    assert_eq!(sources[0].ends, vec![0]);
    assert!(sources[1].starts.is_empty() && sources[1].ends.is_empty());
    let viewport = viewport_rows(&sources);
    assert!(viewport.rows.iter().any(|row| row.is_source_row && row.source_row == 1));
}
