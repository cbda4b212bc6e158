use review_ui::motion::{
    character_column, column_at_boundary, current_word, is_word_character, word_column,
};

#[test]
fn word_characters_are_alphanumeric_or_underscores() {
    assert!(is_word_character('a'));
    assert!(is_word_character('7'));
    assert!(is_word_character('_'));
    assert!(is_word_character('é'));
    assert!(!is_word_character('-'));
    assert!(!is_word_character(' '));
}

#[test]
fn the_current_word_surrounds_the_cursor() {
    let line = "let answer = 42;";
    assert_eq!(current_word(line, 5), Some("answer".to_owned()));
    assert_eq!(current_word(line, 4), Some("answer".to_owned()));
    assert_eq!(current_word(line, 3), None);
    assert_eq!(current_word(line, 13), Some("42".to_owned()));
    assert_eq!(current_word(line, 100), None);
    assert_eq!(current_word("éa b", 1), None);
    assert_eq!(current_word("éa b", 2), Some("éa".to_owned()));
}

#[test]
fn word_motion_moves_between_word_starts() {
    let line = "alpha  beta, gamma";
    assert_eq!(word_column(line, 0, true), 7);
    assert_eq!(word_column(line, 2, true), 7);
    assert_eq!(word_column(line, 7, true), 13);
    assert_eq!(word_column(line, 13, true), line.len());
    assert_eq!(word_column(line, 13, false), 7);
    assert_eq!(word_column(line, 9, false), 7);
    assert_eq!(word_column(line, 7, false), 0);
    assert_eq!(word_column(line, 0, false), 0);
}

#[test]
fn character_motion_steps_over_whole_characters() {
    let line = "é🙂x";
    assert_eq!(character_column(line, 0, true), 2);
    assert_eq!(character_column(line, 2, true), 6);
    assert_eq!(character_column(line, 6, true), 7);
    assert_eq!(character_column(line, 7, true), 7);
    assert_eq!(character_column(line, 6, false), 2);
    assert_eq!(character_column(line, 0, false), 0);
    assert_eq!(character_column(line, 100, false), 6);
}

#[test]
fn columns_fall_back_to_the_previous_character_boundary() {
    let line = "é🙂x";
    assert_eq!(column_at_boundary(line, 1), 0);
    assert_eq!(column_at_boundary(line, 4), 2);
    assert_eq!(column_at_boundary(line, 6), 6);
    assert_eq!(column_at_boundary(line, 100), 7);
}
