use review_ui::diff::{gap_line, line_number_label};
use review_ui::footer::{output_target_at, OutputTarget};
use review_ui::header::{summary, FileSummary};

#[test]
fn output_targets_sit_after_the_prefix() {
    assert_eq!(output_target_at(0), None);
    assert_eq!(output_target_at(7), None);
    assert_eq!(output_target_at(8), Some(OutputTarget::ActiveAgent));
    assert_eq!(output_target_at(21), Some(OutputTarget::ActiveAgent));
    assert_eq!(output_target_at(22), None);
    assert_eq!(output_target_at(23), Some(OutputTarget::Clipboard));
    assert_eq!(output_target_at(33), Some(OutputTarget::Clipboard));
    assert_eq!(output_target_at(34), None);
}

#[test]
fn the_header_counts_reviewed_files_and_changed_lines() {
    let files = [
        FileSummary {
            reviewed: true,
            lines_added: 3,
            lines_removed: 1,
        },
        FileSummary {
            reviewed: false,
            lines_added: 2,
            lines_removed: 0,
        },
    ];
    assert_eq!(summary(&files), "+5 -1 - 1/2 reviewed ");
    assert_eq!(summary(&[]), "+0 -0 - 0/0 reviewed ");
}

#[test]
fn gap_rows_name_the_hidden_line_count() {
    let text = gap_line(12, 3, 30);
    assert_eq!(text, "    … 12 unmodified lines     ");
    assert_eq!(text.chars().count(), 30);
    assert_eq!(gap_line(1, 1, 0), "  … 1 unmodified lines");
}

#[test]
fn line_numbers_are_right_aligned() {
    assert_eq!(line_number_label(Some(7), 3), "  7 ");
    assert_eq!(line_number_label(Some(1234), 2), "1234 ");
    assert_eq!(line_number_label(None, 2), "   ");
}
