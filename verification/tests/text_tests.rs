use review_ui::app::{display_column_to_byte, text_display_width};
use review_ui::diff::source_display_width;
use review_ui::presentation::matching_ranges;
use review_ui::render::shorten;

#[test]
fn tabs_span_four_columns_and_wide_graphemes_two() {
    assert_eq!(text_display_width("\t"), 4);
    assert_eq!(text_display_width("a"), 1);
    assert_eq!(text_display_width("é"), 1);
    assert_eq!(text_display_width("🙂"), 2);
}

#[test]
fn display_columns_map_to_the_covering_grapheme() {
    assert_eq!(display_column_to_byte("a\tb", 0), 0);
    assert_eq!(display_column_to_byte("a\tb", 1), 1);
    assert_eq!(display_column_to_byte("a\tb", 4), 1);
    assert_eq!(display_column_to_byte("a\tb", 5), 2);
    assert_eq!(display_column_to_byte("a\tb", 6), 3);
    assert_eq!(display_column_to_byte("é🙂x", 2), 2);
    assert_eq!(display_column_to_byte("é🙂x", 3), 6);
}

#[test]
fn byte_columns_map_to_display_columns_of_whole_graphemes() {
    assert_eq!(source_display_width("a\tb", 0), 0);
    assert_eq!(source_display_width("a\tb", 2), 5);
    assert_eq!(source_display_width("é🙂x", 1), 0);
    assert_eq!(source_display_width("é🙂x", 6), 3);
    assert_eq!(source_display_width("é🙂x", 100), 4);
}

#[test]
fn lowercase_queries_match_ascii_text_in_any_case() {
    assert_eq!(matching_ranges("Hello hello", "hello"), vec![0..5, 6..11]);
    assert_eq!(matching_ranges("aaaa", "aa"), vec![0..2, 2..4]);
    assert!(matching_ranges("abc", "").is_empty());
}

#[test]
fn uppercase_queries_match_case_sensitively() {
    assert_eq!(matching_ranges("Hello hello", "Hello"), vec![0..5]);
    assert!(matching_ranges("hello", "Hello").is_empty());
}

#[test]
fn unicode_text_matches_by_lowercase_form() {
    assert_eq!(
        matching_ranges("ÉCOLE école", "école"),
        vec![0..6, 7..13]
    );
}

#[test]
fn shorten_keeps_both_ends_around_an_ellipsis() {
    assert_eq!(shorten("abcdefgh", 5), "ab…gh");
    assert_eq!(shorten("abcdefgh", 4), "a…gh");
    assert_eq!(shorten("abc", 3), "abc");
    assert_eq!(shorten("abc", 2), "..");
    assert_eq!(shorten("abcdef", 0), "");
}

#[test]
fn pane_titles_mark_the_focus() {
    assert_eq!(review_ui::render::pane_title("Files", true), " Files (focus) ");
    assert_eq!(review_ui::render::pane_title("Files", false), " Files ");
}

#[test]
fn searches_ignore_case_unless_the_query_has_capitals() {
    assert_eq!(matching_ranges("Hello hello", "Hello"), vec![0..5]);
    let text = "Ünï ünï ÜNÏ";
    let matches = matching_ranges(text, "ünï");
    assert_eq!(matches.len(), 3);
    assert_eq!(&text[matches[2].clone()], "ÜNÏ");
    assert_eq!(matching_ranges(text, "ÜNÏ"), vec![12..17]);
}

#[test]
fn display_columns_lead_back_to_grapheme_starts() {
    let line = "a\tb😀c";
    let starts = [0usize, 1, 2, 3, 7, 8];
    for &start in &starts {
        let column = source_display_width(line, start);
        assert_eq!(display_column_to_byte(line, column), start);
    }
    let mut previous = 0;
    for column in 0..12 {
        let byte = display_column_to_byte(line, column);
        assert!(byte >= previous && byte <= line.len() && line.is_char_boundary(byte));
        assert!(source_display_width(line, byte) <= column);
        previous = byte;
    }
}

#[test]
fn case_sensitive_search_matches_match_indices() {
    let text = "AbAbAAb xAb";
    let found = matching_ranges(text, "Ab");
    let expected = text
        .match_indices("Ab")
        .map(|(start, matched)| start..start + matched.len())
        .collect::<Vec<_>>();
    assert_eq!(found, expected);
    assert_eq!(matching_ranges("AAA", "AA"), vec![0..2]);
    assert!(matching_ranges("text", "").is_empty());
}
