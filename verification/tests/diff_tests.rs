use review_ui::diff::{diff_line_kind, row_tone, DiffLineKind, RowTone};
use review_ui::diff_row::NoticeKind;
use review_ui::diff::token_boundaries;
use review_ui::diff_row::DiffRow;

#[test]
fn token_boundaries_clip_overlapping_ranges_and_select_the_cursor_character() {
    assert_eq!(
        token_boundaries(
            2..8,
            &[0..3, 4..6, 7..10, 8..12],
            Some(&(1..5)),
            Some(6),
            "012345é6789",
        ),
        vec![2, 3, 4, 5, 6, 7, 8]
    );
}

#[test]
fn token_boundaries_ignore_adjacent_ranges_and_invalid_cursor_columns() {
    assert_eq!(
        token_boundaries(
            2..8,
            &[0..1, 0..2, 8..10, 9..10],
            Some(&(8..9)),
            Some(7),
            "012345é6789",
        ),
        vec![2, 8]
    );
}

#[test]
fn token_boundaries_add_only_cursor_columns_inside_the_token() {
    assert_eq!(
        token_boundaries(2..8, &[], None, Some(6), "012345é6789"),
        vec![2, 6, 8]
    );
    for column in [0, 1, 8, 9] {
        assert_eq!(
            token_boundaries(2..8, &[], None, Some(column), "012345é6789"),
            vec![2, 8]
        );
    }
}

use ratatui::style::Color;
use review_ui::diff::code_span_style;

#[test]
fn code_span_style_distinguishes_selection_cursor_and_plain_text() {
    let selection_match = 2..6;
    let plain = code_span_style(Color::Blue, 3..5, &[], None, None);
    let selected = code_span_style(
        Color::Blue,
        3..5,
        std::slice::from_ref(&selection_match),
        None,
        None,
    );
    let source_selected = code_span_style(Color::Blue, 3..5, &[], Some(&(3..5)), None);
    let cursor = code_span_style(Color::Blue, 3..5, &[], None, Some(3));

    assert_eq!(plain.fg, Some(Color::Blue));
    assert!(!plain.reversed);
    assert!(selected.reversed);
    assert!(source_selected.reversed);
    assert!(cursor.reversed);
    assert!(cursor.bold);
}

#[test]
fn code_span_style_does_not_select_partial_overlaps() {
    for selection_match in [2..4, 4..6] {
        let style = code_span_style(
            Color::Blue,
            3..5,
            std::slice::from_ref(&selection_match),
            None,
            None,
        );
        assert!(!style.reversed);
    }
    for selection in [2..4, 4..6] {
        let style = code_span_style(Color::Blue, 3..5, &[], Some(&selection), None);
        assert!(!style.reversed);
    }
}

use review_ui::diff::{code_spans, SpanStyle, StyledText};
use review_ui::highlight::Token;

fn styled(text: &str, fg: Option<Color>, reversed: bool, bold: bool) -> StyledText {
    StyledText {
        text: text.to_owned(),
        style: SpanStyle { fg, reversed, bold },
    }
}

fn code_tokens() -> Vec<Token> {
    vec![
        Token {
            text: "let ".to_owned(),
            color: Color::Red,
        },
        Token {
            text: "x\t= 1".to_owned(),
            color: Color::Blue,
        },
    ]
}

#[test]
fn code_spans_cut_tokens_at_matches_and_expand_tabs() {
    assert_eq!(
        code_spans(&code_tokens(), "x", None, None),
        vec![
            styled("let ", Some(Color::Red), false, false),
            styled("x", Some(Color::Blue), true, false),
            styled("    = 1", Some(Color::Blue), false, false),
        ]
    );
}

#[test]
fn code_spans_show_the_cursor_inside_and_past_the_text() {
    assert_eq!(
        code_spans(&code_tokens(), "x", Some(6), None),
        vec![
            styled("let ", Some(Color::Red), false, false),
            styled("x", Some(Color::Blue), true, false),
            styled("    ", Some(Color::Blue), false, false),
            styled("=", Some(Color::Blue), true, true),
            styled(" 1", Some(Color::Blue), false, false),
        ]
    );
    assert_eq!(
        code_spans(&code_tokens(), "", Some(9), Some(&(0..3))),
        vec![
            styled("let", Some(Color::Red), true, false),
            styled(" ", Some(Color::Red), false, false),
            styled("x    = 1", Some(Color::Blue), false, false),
            styled(" ", None, true, true),
        ]
    );
}

#[test]
fn rows_take_the_tone_of_their_change() {
    let add = DiffRow::Add { new_line: 3, text: "x".to_owned() };
    let delete = DiffRow::Delete { old_line: 2, text: "y".to_owned() };
    let binary = DiffRow::Notice { kind: NoticeKind::Binary, text: "bin".to_owned() };
    let conflict = DiffRow::Notice { kind: NoticeKind::Conflict, text: "c".to_owned() };
    let meta = DiffRow::Meta { text: "index".to_owned() };
    assert_eq!(row_tone(&add, true), RowTone::Insertion);
    assert_eq!(row_tone(&delete, true), RowTone::Deletion);
    assert_eq!(row_tone(&binary, true), RowTone::Focus);
    assert_eq!(row_tone(&conflict, true), RowTone::Warning);
    assert_eq!(row_tone(&meta, true), RowTone::Dim);
    assert_eq!(row_tone(&add, false), RowTone::Text);
}

#[test]
fn diff_lines_number_by_the_side_of_the_change() {
    let add = DiffRow::Add { new_line: 3, text: "x".to_owned() };
    let delete = DiffRow::Delete { old_line: 2, text: "y".to_owned() };
    let context = DiffRow::Context { old_line: 4, new_line: 5, text: "z".to_owned() };
    assert_eq!(
        diff_line_kind(&add, true),
        DiffLineKind::Code { line: 3, bar: Some(RowTone::Insertion) }
    );
    assert_eq!(diff_line_kind(&delete, false), DiffLineKind::Code { line: 2, bar: None });
    assert_eq!(diff_line_kind(&context, true), DiffLineKind::Code { line: 5, bar: None });
    assert_eq!(
        diff_line_kind(&DiffRow::Hunk { old_start: 1, old_count: 1, new_start: 1, new_count: 1 }, true),
        DiffLineKind::Blank
    );
}
