use ratatui::style::Color;
use review_ui::diff_row::DiffRow;
use review_ui::highlight::{
    highlight_rows, line_tokens, plain_diff_line, HighlightedFile, Token,
};

fn token(text: &str, color: Color) -> Token {
    Token {
        text: text.to_owned(),
        color,
    }
}

fn file(lines: &[&str]) -> Vec<Vec<Token>> {
    lines
        .iter()
        .map(|line| vec![token(line, Color::Green)])
        .collect()
}

#[test]
fn plain_rows_lose_their_marker() {
    assert_eq!(
        plain_diff_line("+let answer = 42;", Color::White),
        vec![token("let answer = 42;", Color::White)]
    );
    assert_eq!(
        plain_diff_line(" context", Color::White),
        vec![token("context", Color::White)]
    );
    assert_eq!(
        plain_diff_line("-", Color::White),
        vec![token("", Color::White)]
    );
    assert_eq!(
        plain_diff_line("no marker", Color::White),
        vec![token("no marker", Color::White)]
    );
}

#[test]
fn line_tokens_are_one_based() {
    let lines = file(&["one", "two"]);
    assert_eq!(
        line_tokens(Some(&lines), 2),
        Some(vec![token("two", Color::Green)])
    );
    assert_eq!(line_tokens(Some(&lines), 0), None);
    assert_eq!(line_tokens(Some(&lines), 3), None);
    assert_eq!(line_tokens(None, 1), None);
}

#[test]
fn rows_take_the_tokens_of_their_side_of_the_change() {
    let highlighted = highlight_rows(
        vec![
            DiffRow::Hunk {
                old_start: 1,
                old_count: 2,
                new_start: 1,
                new_count: 2,
            },
            DiffRow::Context {
                old_line: 1,
                new_line: 1,
                text: " same".to_owned(),
            },
            DiffRow::Delete {
                old_line: 2,
                text: "-old".to_owned(),
            },
            DiffRow::Add {
                new_line: 2,
                text: "+new".to_owned(),
            },
            DiffRow::Add {
                new_line: 9,
                text: "+beyond".to_owned(),
            },
        ],
        Some(file(&["same", "old"])),
        Some(file(&["same", "new"])),
        true,
        Color::White,
    );

    let tokens: Vec<Vec<Token>> = highlighted
        .rows
        .iter()
        .map(|row| row.tokens.clone())
        .collect();
    assert_eq!(
        tokens,
        vec![
            Vec::new(),
            vec![token("same", Color::Green)],
            vec![token("old", Color::Green)],
            vec![token("new", Color::Green)],
            vec![token("beyond", Color::White)],
        ]
    );
    assert_eq!(
        highlighted.file,
        Some(HighlightedFile::AfterChange(file(&["same", "new"])))
    );
}

#[test]
fn without_new_content_the_file_before_the_change_is_kept() {
    let highlighted = highlight_rows(Vec::new(), Some(file(&["old"])), None, false, Color::White);
    assert_eq!(
        highlighted.file,
        Some(HighlightedFile::BeforeChange(file(&["old"])))
    );
    let binary = highlight_rows(Vec::new(), Some(file(&["old"])), None, true, Color::White);
    assert_eq!(binary.file, None);
}
