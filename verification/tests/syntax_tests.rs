use ratatui::style::Color;
use review_ui::diff_row::DiffRow;
use review_ui::syntax::{lines_with_endings, trimmed_line, SyntaxHighlighter};
use two_face::theme::EmbeddedThemeName;

fn highlighter() -> SyntaxHighlighter {
    SyntaxHighlighter::new(EmbeddedThemeName::Base16.as_name(), Color::White)
}

#[test]
fn uses_syntax_state_from_lines_before_the_hunk() {
    let rows = vec![DiffRow::Add {
        new_line: 2,
        text: "+let answer = 42;".to_owned(),
    }];
    let highlighted = highlighter().highlight(
        "src/lib.rs",
        rows,
        None,
        Some(b"/* comment\nlet answer = 42;\n*/\n"),
    );

    assert_eq!(
        highlighted.rows[0]
            .tokens
            .iter()
            .map(|token| token.text.as_str())
            .collect::<String>(),
        "let answer = 42;"
    );
    assert_eq!(highlighted.rows[0].tokens.len(), 1);
}

#[test]
fn preserves_tabs_for_source_coordinates() {
    let highlighted = highlighter().highlight(
        "Makefile",
        vec![DiffRow::Add {
            new_line: 1,
            text: "+\tcargo build".to_owned(),
        }],
        None,
        Some(b"\tcargo build\n"),
    );

    assert_eq!(
        highlighted.rows[0]
            .tokens
            .iter()
            .map(|token| token.text.as_str())
            .collect::<String>(),
        "\tcargo build"
    );
}

#[test]
fn does_not_show_before_change_contents_when_after_change_content_is_binary() {
    let highlighted = highlighter().highlight(
        "src/lib.rs",
        Vec::new(),
        Some(b"old contents\n"),
        Some(b"\xff"),
    );

    assert!(highlighted.file.is_none());
}

#[test]
fn files_without_a_known_syntax_stay_plain() {
    let lines = highlighter()
        .highlight_file("notes.unknown-extension", Some(b"one\r\ntwo"))
        .unwrap();
    assert_eq!(lines.len(), 2);
    assert_eq!(lines[0][0].text, "one");
    assert_eq!(lines[0][0].color, Color::White);
    assert_eq!(lines[1][0].text, "two");
    assert_eq!(highlighter().highlight_file("a.rs", None), None);
}

#[test]
fn snippets_are_highlighted_line_by_line() {
    let lines = highlighter()
        .highlight_snippet("rs", "fn main() {}\nlet x = 1;\n")
        .unwrap();
    assert_eq!(lines.len(), 2);
    assert_eq!(
        lines[1]
            .iter()
            .map(|token| token.text.as_str())
            .collect::<String>(),
        "let x = 1;"
    );
}

#[test]
fn lines_keep_their_line_feeds() {
    assert_eq!(
        lines_with_endings("foo\nbar\n\nbaz"),
        vec!["foo\n", "bar\n", "\n", "baz"]
    );
    assert!(lines_with_endings("").is_empty());
    assert_eq!(trimmed_line("text\r\n\n"), "text");
    assert_eq!(trimmed_line("\r\n"), "");
}

#[test]
fn syntaxes_are_found_ignoring_ascii_case() {
    let by_extension = highlighter()
        .highlight_file("SRC/MAIN.RS", Some(b"fn main() {}\n"))
        .unwrap();
    assert!(by_extension[0].len() > 1);
    let by_name = highlighter()
        .highlight_snippet("rust", "fn main() {}")
        .unwrap();
    assert!(by_name[0].len() > 1);
    let plain = highlighter()
        .highlight_snippet("no-such-language", "fn main() {}")
        .unwrap();
    assert_eq!(plain[0].len(), 1);
    assert_eq!(plain[0][0].text, "fn main() {}");
}

#[test]
fn whole_file_names_come_before_extensions() {
    let lines = highlighter()
        .highlight_file("CMakeLists.txt", Some(b"project(demo)\n"))
        .unwrap();
    assert_eq!(lines.len(), 1);
    assert!(lines[0].len() > 1);
}

#[test]
fn syntax_colors_differ_within_a_line() {
    let lines = highlighter()
        .highlight_file("main.rs", Some(b"fn main() { let x = 1; }\n"))
        .unwrap();
    let first = lines[0][0].color;
    assert!(lines[0].iter().any(|token| token.color != first));
    assert_eq!(
        lines[0].iter().map(|token| token.text.as_str()).collect::<String>(),
        "fn main() { let x = 1; }"
    );
}

#[test]
fn empty_files_with_a_known_syntax_have_no_lines() {
    assert_eq!(highlighter().highlight_file("main.rs", Some(b"")), Some(Vec::new()));
}

#[test]
fn extensions_follow_the_file_name() {
    let lines = highlighter()
        .highlight_file("dir.rs/.hidden", Some(b"fn main() {}\n"))
        .unwrap();
    assert_eq!(lines[0].len(), 1);
    let lines = highlighter()
        .highlight_file("src/a.b.rs", Some(b"fn main() {}\n"))
        .unwrap();
    assert!(lines[0].len() > 1);
}
