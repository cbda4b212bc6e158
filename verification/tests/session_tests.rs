use review_ui::files::ReviewStatus;
use review_ui::navigation::{LocationHistory, ReviewLocation, SourceLocation};
use review_ui::review_file::ReviewFile;
use review_ui::session::{FileSelection, PendingReview};
use review_ui::app::{Focus, Selection};

fn files(paths: &[&str]) -> Vec<ReviewFile> {
    paths
        .iter()
        .map(|path| ReviewFile::new(path, ReviewStatus::Unreviewed))
        .collect()
}

#[test]
fn selecting_another_file_forgets_the_source_position() {
    let mut selection = FileSelection::new(files(&["a.rs", "b.rs"]), Vec::new());
    selection.files[0].source_location = Some(SourceLocation {
        path: "a.rs".to_owned(),
        line: 1,
        byte_column: 0,
        end_line: 1,
        end_byte_column: 0,
    });
    selection.select(0);
    assert!(selection.files[0].source_location.is_some());
    selection.select(1);
    assert_eq!(selection.selected, 1);
    assert!(selection.files[0].source_location.is_none());
}

#[test]
fn visible_positions_select_files_in_tree_order() {
    let mut selection = FileSelection::new(files(&["src/b.rs", "src/a.rs", "top.rs"]), Vec::new());
    assert_eq!(selection.select_visible(1), Some(1));
    assert_eq!(selection.select_visible(9), Some(2));
    assert_eq!(selection.selected, 2);
    let mut folded = FileSelection::new(files(&["src/b.rs", "top.rs"]), vec!["src".to_owned()]);
    assert_eq!(folded.select_visible(0), Some(1));
    let mut empty = FileSelection::new(Vec::new(), Vec::new());
    assert_eq!(empty.select_visible(0), None);
}

#[test]
fn hidden_selections_move_to_the_nearest_visible_file() {
    let mut selection = FileSelection::new(files(&["src/a.rs", "src/b.rs", "z.rs"]), vec!["src".to_owned()]);
    assert!(selection.ensure_selected_visible());
    assert_eq!(selection.selected, 2);
    assert!(!selection.ensure_selected_visible());
}

#[test]
fn the_tree_scrolls_to_the_selected_file() {
    let paths: Vec<String> = (0..30).map(|index| format!("f{index:02}.rs")).collect();
    let names: Vec<&str> = paths.iter().map(String::as_str).collect();
    let mut selection = FileSelection::new(files(&names), Vec::new());
    selection.select(25);
    selection.keep_selected_visible(10);
    assert_eq!(selection.scroll, 16);
    selection.select(3);
    selection.keep_selected_visible(10);
    assert_eq!(selection.scroll, 3);
}

#[test]
fn temporary_files_leave_and_the_selection_stays_in_range() {
    let mut list = files(&["a.rs", "b.rs"]);
    let mut temporary = ReviewFile::new("/tmp/x.rs", ReviewStatus::Unreviewed);
    temporary.temporary = true;
    list.push(temporary);
    let mut selection = FileSelection::new(list, Vec::new());
    selection.select(2);
    selection.remove_temporary_files();
    assert_eq!(selection.files.len(), 2);
    assert_eq!(selection.selected, 1);
    assert_eq!(selection.tree.visible_file_count(), 2);
}

#[test]
fn moving_the_selection_follows_the_tree() {
    let mut selection = FileSelection::new(files(&["a.rs", "b.rs", "c.rs"]), Vec::new());
    assert_eq!(selection.move_by(1), Some(1));
    assert_eq!(selection.move_by(5), Some(2));
    assert_eq!(selection.move_by(-9), Some(0));
}

#[test]
fn clicking_a_fold_marker_folds_and_opens_the_directory() {
    let mut selection = FileSelection::new(files(&["src/a.rs", "top.rs"]), Vec::new());
    assert!(!selection.click_directory(0, 3));
    assert!(!selection.click_directory(1, 1));
    assert!(selection.click_directory(0, 1));
    assert_eq!(selection.collapsed, vec!["src".to_owned()]);
    assert_eq!(selection.selected, 1);
    assert_eq!(selection.tree.visible_file_count(), 1);
    assert!(selection.click_directory(0, 1));
    assert!(selection.collapsed.is_empty());
    assert_eq!(selection.tree.visible_file_count(), 2);
}

#[test]
fn revealing_a_path_opens_its_parents() {
    let mut selection = FileSelection::new(
        files(&["src/ui/a.rs", "b.rs"]),
        vec!["src".to_owned(), "src/ui".to_owned()],
    );
    assert!(selection.reveal_path("src/ui/a.rs"));
    assert!(selection.collapsed.is_empty());
    assert_eq!(selection.tree.visible_file_count(), 2);
}

#[test]
fn the_current_location_is_a_row_of_the_selected_file() {
    let mut selection = FileSelection::new(files(&["a.rs", "b.rs"]), Vec::new());
    selection.files[1].cursor = 0;
    selection.files[1].column = 4;
    selection.select(1);
    assert_eq!(
        selection.current_location("change"),
        Some(ReviewLocation::ReviewFile {
            review_unit: "change".to_owned(),
            path: "b.rs".to_owned(),
            cursor: 0,
            presentation_location: None,
            column: 4,
        })
    );
    let empty = FileSelection::new(Vec::new(), Vec::new());
    assert_eq!(
        empty.current_location("change"),
        Some(ReviewLocation::Revision { review_unit: "change".to_owned() })
    );
    assert_eq!(empty.current_location(""), None);
}

#[test]
fn jumps_from_reviewed_files_are_not_recorded() {
    let mut list = files(&["a.rs", "b.rs"]);
    list[1].status = ReviewStatus::Reviewed;
    let selection = FileSelection::new(list, Vec::new());
    let mut history = LocationHistory::default();
    let at = |path: &str, cursor: usize| ReviewLocation::ReviewFile {
        review_unit: "change".to_owned(),
        path: path.to_owned(),
        cursor,
        presentation_location: None,
        column: 0,
    };
    assert!(selection.record_jump("change", &mut history, Some(at("a.rs", 3)), &at("a.rs", 9), None));
    assert_eq!(history.older, vec![at("a.rs", 3)]);
    assert!(!selection.record_jump("change", &mut history, Some(at("b.rs", 1)), &at("a.rs", 9), None));
    assert!(!selection.record_jump("change", &mut history, None, &at("a.rs", 9), None));
    assert!(!selection.record_jump("change", &mut history, Some(at("a.rs", 9)), &at("a.rs", 9), None));
    assert_eq!(history.older.len(), 1);
    let elsewhere = ReviewLocation::ReviewFile {
        review_unit: "earlier".to_owned(),
        path: "b.rs".to_owned(),
        cursor: 1,
        presentation_location: None,
        column: 0,
    };
    assert!(selection.record_jump("change", &mut history, Some(elsewhere), &at("a.rs", 9), None));
    assert_eq!(history.older.len(), 2);
}

fn diff_of(lines: &[&str]) -> review_ui::presentation::DiffPresentation {
    let rows = lines
        .iter()
        .enumerate()
        .map(|(index, text)| review_ui::highlight::HighlightedRow {
            diff: review_ui::diff_row::DiffRow::Add {
                new_line: index as u32 + 1,
                text: (*text).to_owned(),
            },
            tokens: Vec::new(),
        })
        .collect();
    review_ui::presentation::DiffPresentation::new(review_ui::highlight::HighlightedDiff {
        rows,
        file: None,
    })
}

#[test]
fn loaded_diffs_are_taken_only_for_the_revision_under_review() {
    let mut selection = FileSelection::new(files(&["a.rs", "b.rs"]), Vec::new());
    selection.files[1].cursor = 9;
    selection.files[1].loading = true;
    assert!(selection.load_diff("commit", "other", "b.rs", diff_of(&["x"])).is_none());
    assert!(selection.files[1].loading);
    assert!(selection.load_diff("commit", "commit", "gone.rs", diff_of(&["x"])).is_none());
    let loaded = selection
        .load_diff("commit", "commit", "b.rs", diff_of(&["x", "y"]))
        .unwrap();
    assert!(!loaded.selected);
    assert!(!selection.files[1].loading);
    assert_eq!(selection.files[1].cursor, 1);
    selection.select(1);
    assert!(selection.load_diff("commit", "commit", "b.rs", diff_of(&["z"])).unwrap().selected);
}

#[test]
fn leaving_a_temporary_file_drops_it_and_finds_the_target_again() {
    let mut all = files(&["a.rs", "b.rs"]);
    let mut temporary = ReviewFile::new("/tmp/x.rs", ReviewStatus::Unreviewed);
    temporary.temporary = true;
    all.insert(0, temporary);
    let mut selection = FileSelection::new(all, Vec::new());
    selection.select(0);
    let target = selection.tree.visible_file_position(2).unwrap();
    assert!(selection.navigate_to_file(target));
    assert_eq!(selection.files.len(), 2);
    assert_eq!(selection.files[selection.selected].path, "b.rs");
    let again = selection.tree.visible_file_position(selection.selected).unwrap();
    assert!(!selection.navigate_to_file(again));
}

#[test]
fn failed_diffs_stop_loading_only_for_the_revision_under_review() {
    let mut selection = FileSelection::new(files(&["a.rs", "b.rs"]), Vec::new());
    selection.files[1].loading = true;
    assert!(!selection.fail_diff("commit", "other", "b.rs"));
    assert!(selection.files[1].loading);
    assert!(selection.fail_diff("commit", "commit", "b.rs"));
    assert!(!selection.files[1].loading);
}

#[test]
fn review_results_update_the_file_or_restore_it() {
    let mut selection = FileSelection::new(files(&["src/a.rs", "src/b.rs"]), vec!["src".to_owned()]);
    selection.select(1);
    let pending = |path: &str| PendingReview {
        path: path.to_owned(),
        previous_status: ReviewStatus::Unreviewed,
        optimistic_status: ReviewStatus::Reviewed,
        next_path: Some("src/b.rs".to_owned()),
    };
    let mut in_flight = Some(pending("src/a.rs"));
    assert!(!selection.finish_review(&mut in_flight, "change", "other", "src/a.rs", Some(ReviewStatus::Reviewed)));
    assert!(in_flight.is_some());
    assert!(!selection.finish_review(&mut in_flight, "change", "change", "src/b.rs", Some(ReviewStatus::Reviewed)));
    assert!(in_flight.is_some());
    assert!(selection.finish_review(&mut in_flight, "change", "change", "src/a.rs", Some(ReviewStatus::Reviewed)));
    assert!(in_flight.is_none());
    assert_eq!(selection.files[0].status, ReviewStatus::Reviewed);

    let mut in_flight = Some(pending("src/a.rs"));
    assert!(!selection.finish_review(&mut in_flight, "change", "change", "src/a.rs", None));
    assert_eq!(selection.files[0].status, ReviewStatus::Unreviewed);

    selection.files[1].status = ReviewStatus::Reviewed;
    let mut none = None;
    assert!(selection.finish_review(&mut none, "change", "change", "src/b.rs", Some(ReviewStatus::ChangedSinceReview)));
    assert!(selection.collapsed.is_empty());
}

#[test]
fn navigating_the_diff_moves_the_cursor_and_the_selection_follows() {
    let mut list = files(&["a.rs", "b.rs"]);
    list[0].diff = diff_with_text(&["héllo", "b", "cc"]);
    list[0].column = 3;
    let mut selection = FileSelection::new(list, Vec::new());
    let mut visual = Some(Selection { anchor: 0, cursor: 0, fixed: false });
    assert!(!selection.navigate_to(Focus::Diff, 9, &mut visual, 10));
    assert_eq!(selection.files[0].cursor, 2);
    assert_eq!(selection.files[0].column, 2);
    assert_eq!(visual, Some(Selection { anchor: 0, cursor: 2, fixed: false }));
    assert!(!selection.navigate_to(Focus::Diff, 0, &mut visual, 10));
    assert_eq!(selection.files[0].cursor, 0);
    assert_eq!(selection.files[0].column, 1);
    assert!(selection.navigate_to(Focus::Files, 1, &mut visual, 10));
    assert_eq!(selection.selected, 1);
    assert_eq!(visual, None);
    assert_eq!(selection.load_selected(), Some("b.rs".to_owned()));
    assert!(selection.files[1].loading);
    assert_eq!(selection.load_selected(), None);
}

fn diff_with_text(lines: &[&str]) -> review_ui::presentation::DiffPresentation {
    let rows = lines
        .iter()
        .enumerate()
        .map(|(index, text)| review_ui::highlight::HighlightedRow {
            diff: review_ui::diff_row::DiffRow::Add {
                new_line: index as u32 + 1,
                text: format!("+{text}"),
            },
            tokens: vec![review_ui::highlight::Token {
                text: (*text).to_owned(),
                color: ratatui::style::Color::Reset,
            }],
        })
        .collect();
    review_ui::presentation::DiffPresentation::new(review_ui::highlight::HighlightedDiff {
        rows,
        file: None,
    })
}
