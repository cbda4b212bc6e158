use review_ui::review_file::{FileColor, COMMENT_MARKER};
use review_ui::app::{DiffControl, Selection, SourceLoadMode};
use review_ui::diff_row::{DiffRow, NoticeKind};
use review_ui::files::ReviewStatus;
use review_ui::highlight::{HighlightedDiff, HighlightedFile, HighlightedRow, Token};
use review_ui::navigation::SourceLocation;
use review_ui::presentation::DiffPresentation;
use review_ui::review_file::{
    file_position, keep_temporary_files, needs_parent_expansion, reselected_file, ChangeKind,
    ChangedFile, ReviewFile,
};
use ratatui::style::Color;

fn diff_with_lines(count: u32) -> DiffPresentation {
    let rows = (1..=count)
        .map(|line| HighlightedRow {
            diff: DiffRow::Context {
                old_line: line,
                new_line: line,
                text: format!("line {line}"),
            },
            tokens: vec![Token {
                text: format!("line {line}"),
                color: Color::Reset,
            }],
        })
        .collect();
    DiffPresentation::new(HighlightedDiff {
        rows,
        file: None::<HighlightedFile>,
    })
}

fn location(path: &str, line: u32, column: usize) -> SourceLocation {
    SourceLocation {
        path: path.to_owned(),
        line,
        byte_column: column,
        end_line: line,
        end_byte_column: column,
    }
}

#[test]
fn new_files_wait_for_their_diff() {
    let file = ReviewFile::new("src/lib.rs", ReviewStatus::Unreviewed);
    assert_eq!(file.path, "src/lib.rs");
    assert_eq!(file.display_path, "src/lib.rs");
    assert_eq!(file.review_path.as_deref(), Some("src/lib.rs"));
    assert_eq!(file.change, ChangeKind::Modified);
    assert_eq!(file.marker(), "○");
    assert!(!file.temporary && !file.loading);
}

#[test]
fn changed_files_keep_what_the_repository_reports() {
    let changed = ChangedFile {
        path: "src/new.rs".to_owned(),
        display_path: "src/old.rs → src/new.rs".to_owned(),
        change: ChangeKind::Renamed,
        lines_added: 4,
        lines_removed: 1,
    };
    let file = ReviewFile::from_changed(&changed, ReviewStatus::Reviewed);
    assert_eq!(file.path, "src/new.rs");
    assert_eq!(file.display_path, "src/old.rs → src/new.rs");
    assert_eq!(file.change, ChangeKind::Renamed);
    assert_eq!((file.lines_added, file.lines_removed), (4, 1));
    assert_eq!(file.marker(), "✓");
}

#[test]
fn sources_are_listed_by_name_or_repository_path() {
    let source = location("/repo/src/deep/module.rs", 3, 0);
    let external = ReviewFile::from_source(&source, None, diff_with_lines(1), SourceLoadMode::External);
    assert_eq!(external.path, "module.rs");
    assert_eq!(external.display_path, "/repo/src/deep/module.rs");
    assert!(external.temporary);
    assert_eq!(external.disk_path.as_deref(), Some("/repo/src/deep/module.rs"));

    let preview = ReviewFile::from_source(
        &source,
        Some("src/deep/module.rs"),
        diff_with_lines(1),
        SourceLoadMode::Preview,
    );
    assert_eq!(preview.path, "src/deep/module.rs");
    assert_eq!(preview.display_path, "src/deep/module.rs");
    assert_eq!(preview.review_path.as_deref(), Some("src/deep/module.rs"));

    let outside = ReviewFile::from_source(&source, None, diff_with_lines(1), SourceLoadMode::Preview);
    assert_eq!(outside.path, "/repo/src/deep/module.rs");
}

#[test]
fn revealing_a_location_moves_the_cursor_to_its_row() {
    let mut file = ReviewFile::new("src/lib.rs", ReviewStatus::Unreviewed);
    file.diff = diff_with_lines(30);
    assert!(file.reveal_location(&location("src/lib.rs", 19, 4), 10));
    assert_eq!(file.cursor, 19);
    assert_eq!(file.scroll, 14);
    assert_eq!(file.column, 4);
    assert_eq!(file.source_location, Some(location("src/lib.rs", 19, 4)));

    assert!(!file.reveal_location(&location("src/lib.rs", 99, 1), 10));
    assert_eq!(file.cursor, 19);
    assert_eq!(file.column, 1);
}

#[test]
fn the_cursor_location_names_the_disk_line() {
    let mut file = ReviewFile::new("src/lib.rs", ReviewStatus::Unreviewed);
    file.diff = diff_with_lines(5);
    file.cursor = 2;
    file.column = 3;
    assert_eq!(file.cursor_location(), Some(location("src/lib.rs", 2, 3)));
    file.disk_path = Some("/repo/src/lib.rs".to_owned());
    assert_eq!(file.cursor_location(), Some(location("/repo/src/lib.rs", 2, 3)));
    file.cursor = 40;
    file.source_location = Some(location("/elsewhere.rs", 7, 0));
    assert_eq!(file.cursor_location(), Some(location("/elsewhere.rs", 7, 0)));
}

#[test]
fn restoring_falls_back_to_a_row_within_the_diff() {
    let mut file = ReviewFile::new("src/lib.rs", ReviewStatus::Unreviewed);
    file.diff = diff_with_lines(5);
    file.restore_presentation_location(None, 40, 2);
    assert_eq!(file.cursor, 4);
    assert_eq!(file.column, 2);
    file.restore_presentation_location(None, 1, 0);
    assert_eq!(file.cursor, 1);
}

#[test]
fn diffs_load_once() {
    let mut file = ReviewFile::new("src/lib.rs", ReviewStatus::Unreviewed);
    assert_eq!(file.start_diff_load().as_deref(), Some("src/lib.rs"));
    assert!(file.loading);
    assert_eq!(file.start_diff_load(), None);
    let mut loaded = ReviewFile::new("src/lib.rs", ReviewStatus::Unreviewed);
    loaded.diff = diff_with_lines(1);
    assert_eq!(loaded.start_diff_load(), None);
}

#[test]
fn notices_mark_the_file() {
    let mut file = ReviewFile::new("image.png", ReviewStatus::Reviewed);
    file.diff = DiffPresentation::new(HighlightedDiff {
        rows: vec![HighlightedRow {
            diff: DiffRow::Notice {
                kind: NoticeKind::Binary,
                text: "Binary file".to_owned(),
            },
            tokens: Vec::new(),
        }],
        file: None,
    });
    assert!(file.has_notice());
    assert_eq!(file.marker(), "!");
}

#[test]
fn parents_open_when_a_file_leaves_the_reviewed_state() {
    assert!(needs_parent_expansion(ReviewStatus::ChangedSinceReview, ReviewStatus::Reviewed));
    assert!(!needs_parent_expansion(ReviewStatus::Reviewed, ReviewStatus::Unreviewed));
    assert!(!needs_parent_expansion(ReviewStatus::Unreviewed, ReviewStatus::Unreviewed));
}

fn file_with_lines(lines: u32) -> ReviewFile {
    let mut file = ReviewFile::new("src/lib.rs", ReviewStatus::Unreviewed);
    file.diff = diff_with_lines(lines);
    file
}

#[test]
fn navigation_updates_only_an_open_selection() {
    let mut file = file_with_lines(40);
    let mut selection = Some(Selection {
        anchor: 1,
        cursor: 1,
        fixed: false,
    });

    file.move_cursor_to(1);
    selection.as_mut().unwrap().follow(file.cursor);
    assert_eq!(selection.unwrap().cursor, 1);

    selection = Some(Selection {
        anchor: 8,
        cursor: 8,
        fixed: true,
    });
    file.move_cursor_to(0);
    selection.as_mut().unwrap().follow(file.cursor);
    assert_eq!(selection.unwrap().cursor, 8);
}

#[test]
fn moving_the_cursor_stays_within_the_diff() {
    let mut file = file_with_lines(5);
    file.scroll = 3;
    file.source_location = Some(location("src/lib.rs", 1, 0));
    file.move_cursor_to(9);
    assert_eq!(file.cursor, 4);
    assert_eq!(file.scroll, 3);
    assert_eq!(file.source_location, None);
    file.move_cursor_to(0);
    assert_eq!((file.cursor, file.scroll), (0, 0));
}

#[test]
fn diff_controls_reset_the_cursor_only_when_rows_change() {
    let mut file = file_with_lines(5);
    file.cursor = 3;
    file.scroll = 2;
    assert!(!file.apply_control(DiffControl::ExpandAll));
    assert_eq!((file.cursor, file.scroll), (3, 2));
    assert!(!file.apply_control(DiffControl::CloseFile));
    assert!(!file.apply_control(DiffControl::ShowFile));
    assert_eq!(file.cursor, 3);
}

#[test]
fn refreshed_files_keep_their_cursor_and_same_snapshot_state() {
    let mut earlier = file_with_lines(10);
    earlier.status = ReviewStatus::Reviewed;
    earlier.cursor = 6;
    earlier.scroll = 2;
    earlier.column = 3;
    earlier.loading = true;
    let mut refreshed = ReviewFile::new("src/lib.rs", ReviewStatus::ChangedSinceReview);
    assert!(refreshed.clone().refresh_from(earlier.clone(), false));
    assert!(refreshed.refresh_from(earlier.clone(), true));
    assert_eq!((refreshed.cursor, refreshed.scroll, refreshed.column), (6, 2, 3));
    assert_eq!(refreshed.diff, earlier.diff);
    assert!(refreshed.loading);

    let mut other = ReviewFile::new("src/lib.rs", ReviewStatus::Reviewed);
    assert!(!other.refresh_from(earlier, false));
    assert_eq!(other.diff.len(), 0);
    assert!(!other.loading);
}

#[test]
fn loaded_diffs_keep_the_cursor_inside() {
    let mut file = file_with_lines(10);
    file.cursor = 8;
    file.scroll = 7;
    file.column = 2;
    file.loading = true;
    let previous = file.take_loaded_diff(diff_with_lines(4));
    assert_eq!(previous, Some(location("src/lib.rs", 8, 2)));
    assert_eq!((file.cursor, file.scroll), (3, 3));
    assert!(!file.loading);
}

#[test]
fn reloading_keeps_the_selected_path() {
    let files = vec![
        ReviewFile::new("a.rs", ReviewStatus::Unreviewed),
        ReviewFile::new("b.rs", ReviewStatus::Unreviewed),
        ReviewFile::new("b.rs", ReviewStatus::Reviewed),
    ];
    assert_eq!(file_position(&files, "b.rs"), Some(1));
    assert_eq!(file_position(&files, "c.rs"), None);
    assert_eq!(reselected_file(&files, Some("b.rs")), (1, true));
    assert_eq!(reselected_file(&files, Some("gone.rs")), (0, false));
    assert_eq!(reselected_file(&files, None), (0, false));
    assert_eq!(reselected_file(&Vec::new(), Some("a.rs")), (0, false));
}

#[test]
fn temporary_files_stay_after_a_refresh() {
    let mut temporary = ReviewFile::new("/tmp/x.rs", ReviewStatus::Unreviewed);
    temporary.temporary = true;
    let earlier = vec![
        ReviewFile::new("a.rs", ReviewStatus::Unreviewed),
        temporary.clone(),
        ReviewFile::new("b.rs", ReviewStatus::Unreviewed),
    ];
    let mut files = vec![ReviewFile::new("c.rs", ReviewStatus::Unreviewed)];
    keep_temporary_files(&mut files, earlier);
    assert_eq!(files.len(), 2);
    assert_eq!(files[0].path, "c.rs");
    assert_eq!(files[1], temporary);
}

#[test]
fn the_cursor_follows_a_search_being_typed() {
    let mut file = file_with_lines(20);
    file.cursor = 3;
    file.follow_search("line 1", 3, 10);
    assert_eq!(file.cursor, 9);
    assert_eq!(file.scroll, 4);
    file.follow_search("line 7", 12, 10);
    assert_eq!(file.cursor, 6);
    file.follow_search("absent", 0, 10);
    assert_eq!(file.cursor, 6);
    file.follow_search("", 30, 10);
    assert_eq!(file.cursor, 19);
    assert!(file.matches_search("line 2"));
    assert!(!file.matches_search("absent"));
    assert!(!file.matches_search(""));
}

#[test]
fn visual_mode_starts_and_fixes_a_selection_on_code() {
    let mut file = file_with_lines(5);
    file.cursor = 2;
    let once = file.visual(None);
    assert_eq!(once, Some(Selection { anchor: 2, cursor: 2, fixed: false }));
    let twice = file.visual(once);
    assert_eq!(twice, Some(Selection { anchor: 2, cursor: 2, fixed: true }));
    let again = file.visual(twice);
    assert_eq!(again, Some(Selection { anchor: 2, cursor: 2, fixed: false }));
    file.cursor = 40;
    assert_eq!(file.visual(None), None);
}

#[test]
fn only_selections_over_code_can_be_sent() {
    let file = file_with_lines(5);
    assert!(file.selection_holds_code(Selection { anchor: 4, cursor: 1, fixed: true }));
    assert!(!file.selection_holds_code(Selection { anchor: 7, cursor: 9, fixed: true }));
    let empty = ReviewFile::new("x.rs", ReviewStatus::Unreviewed);
    assert!(!empty.selection_holds_code(Selection { anchor: 0, cursor: 0, fixed: false }));
}

#[test]
fn placing_the_cursor_takes_the_grapheme_under_the_column() {
    let mut file = file_with_lines(3);
    file.column = 7;
    file.place_cursor(1, Some(2));
    assert_eq!((file.cursor, file.column), (1, 2));
    file.place_cursor(2, None);
    assert_eq!((file.cursor, file.column), (2, 2));
    file.place_cursor(2, Some(40));
    assert_eq!(file.column, "line 3".len());
}

#[test]
fn file_rows_take_their_color_name_marker_and_style() {
    let mut file = review_ui::review_file::ReviewFile::new("src/a.rs", review_ui::files::ReviewStatus::Unreviewed);
    file.change = ChangeKind::Added;
    assert_eq!(file.row_color(), FileColor::Insertion);
    file.change = ChangeKind::Renamed;
    assert_eq!(file.row_color(), FileColor::Warning);
    assert_eq!(file.row_name("a.rs"), "a.rs");
    file.temporary = true;
    file.display_path = "../a.rs".to_owned();
    assert_eq!(file.row_color(), FileColor::Dim);
    assert_eq!(file.row_name("a.rs"), "../a.rs");
    let guides = vec!["src/a.rs".to_owned()];
    assert_eq!(file.comment_marker(&guides), Some(COMMENT_MARKER));
    assert_eq!(file.comment_marker(&Vec::new()), None);
    file.status = review_ui::files::ReviewStatus::Reviewed;
    assert_eq!(file.comment_marker(&guides), None);
    let style = file.row_style(true, Some(""));
    assert!(style.cursor_background && !style.bold);
}
