use ratatui::style::Color;
use review_ui::diff_row::DiffRow;
use review_ui::highlight::{HighlightedDiff, HighlightedFile, HighlightedRow, Token};
use review_ui::moves::{
    all_matches, clamp_to_last, half_page, next_file_to_review, next_place, offset_by,
    scroll_by, scroll_to_show, search_target, ReviewPlace,
};
use review_ui::presentation::{DiffPresentation, SearchDirection};

fn place(file: usize, row: Option<usize>) -> ReviewPlace {
    ReviewPlace { file, row }
}

fn diff_of(lines: &[&str]) -> DiffPresentation {
    let rows = lines
        .iter()
        .enumerate()
        .map(|(index, text)| HighlightedRow {
            diff: DiffRow::Add {
                new_line: index as u32 + 1,
                text: (*text).to_owned(),
            },
            tokens: vec![Token {
                text: (*text).to_owned(),
                color: Color::Reset,
            }],
        })
        .collect();
    DiffPresentation::new(HighlightedDiff {
        rows,
        file: None::<HighlightedFile>,
    })
}

#[test]
fn forward_jumps_take_the_next_place_and_wrap() {
    let places = vec![place(0, Some(3)), place(1, None), place(2, Some(0))];
    assert_eq!(next_place(&places, 0, 1, SearchDirection::Forward), Some(place(0, Some(3))));
    assert_eq!(next_place(&places, 0, 3, SearchDirection::Forward), Some(place(1, None)));
    assert_eq!(next_place(&places, 1, 0, SearchDirection::Forward), Some(place(2, Some(0))));
    assert_eq!(next_place(&places, 2, 0, SearchDirection::Forward), Some(place(0, Some(3))));
    assert_eq!(next_place(&Vec::new(), 0, 0, SearchDirection::Forward), None);
}

#[test]
fn backward_jumps_take_the_previous_place_and_wrap() {
    let places = vec![place(0, Some(3)), place(1, None), place(2, Some(0))];
    assert_eq!(next_place(&places, 2, 5, SearchDirection::Backward), Some(place(2, Some(0))));
    assert_eq!(next_place(&places, 2, 0, SearchDirection::Backward), Some(place(1, None)));
    assert_eq!(next_place(&places, 1, 7, SearchDirection::Backward), Some(place(0, Some(3))));
    assert_eq!(next_place(&places, 0, 3, SearchDirection::Backward), Some(place(2, Some(0))));
}

#[test]
fn search_matches_run_file_by_file() {
    let files = vec![
        diff_of(&["let a = 1;", "let b = 2;"]),
        diff_of(&["fn main() {}", "let c = 3;"]),
    ];
    assert_eq!(
        all_matches(&files, "let"),
        vec![place(0, Some(0)), place(0, Some(1)), place(1, Some(1))]
    );
    assert_eq!(
        search_target(&files, "let", 0, 1, SearchDirection::Forward),
        Some(place(1, Some(1)))
    );
    assert_eq!(
        search_target(&files, "let", 1, 1, SearchDirection::Forward),
        Some(place(0, Some(0)))
    );
    assert_eq!(
        search_target(&files, "let", 0, 0, SearchDirection::Backward),
        Some(place(1, Some(1)))
    );
    assert_eq!(search_target(&files, "absent", 0, 0, SearchDirection::Forward), None);
}

#[test]
fn offsets_saturate_at_both_ends() {
    assert_eq!(offset_by(5, -2), 3);
    assert_eq!(offset_by(1, -4), 0);
    assert_eq!(offset_by(usize::MAX - 1, 5), usize::MAX);
    assert_eq!(offset_by(3, isize::MIN), 0);
    assert_eq!(clamp_to_last(9, 4), 3);
    assert_eq!(clamp_to_last(2, 4), 2);
    assert_eq!(clamp_to_last(2, 0), 0);
}

#[test]
fn scrolling_keeps_the_selected_row_on_the_page() {
    assert_eq!(scroll_to_show(Some(3), 5, 10), 3);
    assert_eq!(scroll_to_show(Some(7), 5, 10), 5);
    assert_eq!(scroll_to_show(Some(20), 5, 10), 11);
    assert_eq!(scroll_to_show(None, 5, 10), 0);
    assert_eq!(half_page(9), 5);
    assert_eq!(half_page(10), 5);
    assert_eq!(half_page(0), 0);
    assert_eq!(scroll_by(4, 3, 20, 10), 7);
    assert_eq!(scroll_by(8, 5, 20, 10), 10);
    assert_eq!(scroll_by(2, -5, 20, 10), 0);
    assert_eq!(scroll_by(2, 1, 5, 10), 0);
}

#[test]
fn the_next_file_to_review_follows_the_selected_one() {
    let visible = vec![2, 0, 1, 3];
    let needs = vec![true, false, true, true];
    assert_eq!(next_file_to_review(&visible, 0, &needs), Some(3));
    assert_eq!(next_file_to_review(&visible, 2, &needs), Some(0));
    assert_eq!(next_file_to_review(&visible, 3, &needs), None);
    assert_eq!(next_file_to_review(&visible, 7, &needs), None);
}
