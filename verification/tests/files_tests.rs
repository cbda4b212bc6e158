use review_ui::files::{location_line, location_list_lines, ListedLocation};
use review_ui::files::{file_line_layout, file_marker, ReviewStatus};
use review_ui::files::{decimal, FileStatistics};

#[test]
fn statistics_width_includes_values_and_the_separator() {
    for (added, removed, expected) in [
        (None, None, 0),
        (Some("+12"), None, 3),
        (None, Some("-3"), 2),
        (Some("+12"), Some("-3"), 6),
    ] {
        let statistics = FileStatistics {
            added: added.map(str::to_owned),
            removed: removed.map(str::to_owned),
        };

        assert_eq!(statistics.width(), expected);
    }
}

#[test]
fn statistics_leave_out_zero_counts() {
    let statistics = FileStatistics::new(12, 0);
    assert_eq!(statistics.added.as_deref(), Some("+12"));
    assert_eq!(statistics.removed, None);
    let statistics = FileStatistics::new(0, 3);
    assert_eq!(statistics.added, None);
    assert_eq!(statistics.removed.as_deref(), Some("-3"));
    assert_eq!(statistics.width(), 2);
    let statistics = FileStatistics::new(1205, 70);
    assert_eq!(statistics.width(), 9);
}

#[test]
fn decimal_writes_every_digit() {
    assert_eq!(decimal(0), "0");
    assert_eq!(decimal(7), "7");
    assert_eq!(decimal(10), "10");
    assert_eq!(decimal(u64::MAX), u64::MAX.to_string());
}

#[test]
fn directory_rows_show_the_fold_state_and_a_slash() {
    assert_eq!(review_ui::files::directory_line(0, "src", false), "▾ src/");
    assert_eq!(review_ui::files::directory_line(2, "ui", true), "    ▸ ui/");
}

#[test]
fn file_markers_prefer_notices_over_review_state() {
    assert_eq!(file_marker(true, ReviewStatus::Reviewed), "!");
    assert_eq!(file_marker(false, ReviewStatus::Unreviewed), "○");
    assert_eq!(file_marker(false, ReviewStatus::Reviewed), "✓");
    assert_eq!(file_marker(false, ReviewStatus::ChangedSinceReview), "●");
}

#[test]
fn file_rows_shorten_the_name_and_pad_to_the_statistics() {
    let statistics = FileStatistics::new(12, 3);
    let line = file_line_layout(1, "○", "main.rs", None, &statistics, 20);
    assert_eq!(line.prefix, "  ○ ");
    assert_eq!(line.name, "main.rs");
    assert_eq!(line.padding, 20 - 4 - 7 - 6);

    let line = file_line_layout(0, "✓", "a_rather_long_name.rs", Some(" 💬"), &statistics, 20);
    assert_eq!(line.prefix, "✓ ");
    // 20 - 2 (prefix) - 3 (comment) - 6 (statistics) - 1 (gap) = 8 columns.
    assert_eq!(line.name, "a_r…e.rs");
    assert_eq!(line.name.chars().count(), 8);
    assert_eq!(line.padding, 1);

    let empty = FileStatistics::new(0, 0);
    let line = file_line_layout(0, "!", "x", None, &empty, 3);
    assert_eq!(line.padding, 0);
}

#[test]
fn toggling_the_reviewed_mark() {
    assert!(ReviewStatus::Unreviewed.needs_review());
    assert!(ReviewStatus::ChangedSinceReview.needs_review());
    assert!(!ReviewStatus::Reviewed.needs_review());
    assert_eq!(ReviewStatus::ChangedSinceReview.toggled(), ReviewStatus::Reviewed);
    assert_eq!(ReviewStatus::Reviewed.toggled(), ReviewStatus::Unreviewed);
}

#[test]
fn location_lines_count_from_one_and_mark_the_selection() {
    assert_eq!(location_line("src/lib.rs", 9, 4, 40), "src/lib.rs:10:5");
    assert_eq!(location_line("src/lib.rs", 9, 4, 9), "src/…10:5");
    let locations = (0..5)
        .map(|line| ListedLocation { display_path: "a.rs".to_owned(), line, byte_column: 0 })
        .collect::<Vec<_>>();
    let lines = location_list_lines(&locations, 3, 4, 4, 20);
    assert_eq!(
        lines,
        vec![("a.rs:4:1".to_owned(), false), ("a.rs:5:1".to_owned(), true)]
    );
    assert!(location_list_lines(&locations, 9, 4, 0, 20).is_empty());
}
