use ratatui::style::Color;
use review_ui::diff_row::DiffRow;
use review_ui::highlight::{HighlightedDiff, HighlightedFile, HighlightedRow, Token};
use review_ui::presentation::{
    matching_ranges, DiffPresentation, PresentationLocation, PresentationRows, PresentedRow,
    SearchDirection,
};

fn token(text: &str) -> Token {
    Token {
        text: text.to_owned(),
        color: Color::White,
    }
}

fn row(diff: DiffRow) -> HighlightedRow {
    HighlightedRow {
        diff,
        tokens: Vec::new(),
    }
}

#[test]
fn added_file_shows_only_file_contents() {
    let highlighted = HighlightedDiff {
        rows: vec![
            HighlightedRow {
                diff: DiffRow::Meta {
                    text: "new file mode 100644".to_owned(),
                },
                tokens: Vec::new(),
            },
            HighlightedRow {
                diff: DiffRow::Hunk {
                    old_start: 0,
                    old_count: 0,
                    new_start: 1,
                    new_count: 1,
                },
                tokens: Vec::new(),
            },
            HighlightedRow {
                diff: DiffRow::Add {
                    new_line: 1,
                    text: "+fn main() {}".to_owned(),
                },
                tokens: vec![Token {
                    text: "fn main() {}".to_owned(),
                    color: Color::White,
                }],
            },
        ],
        file: None,
    };

    let presentation = DiffPresentation::new(highlighted);

    assert_eq!(presentation.rows.len(), 1);
    assert!(matches!(presentation.rows[0], PresentedRow::Diff { .. }));
}

fn two_hunks_in_five_lines() -> DiffPresentation {
    DiffPresentation::new(HighlightedDiff {
        rows: vec![
            row(DiffRow::FileHeader {
                old_path: None,
                new_path: None,
                text: "diff --git a/file b/file".to_owned(),
            }),
            row(DiffRow::Hunk {
                old_start: 2,
                old_count: 1,
                new_start: 2,
                new_count: 1,
            }),
            row(DiffRow::Context {
                old_line: 2,
                new_line: 2,
                text: " second".to_owned(),
            }),
            row(DiffRow::Hunk {
                old_start: 4,
                old_count: 1,
                new_start: 4,
                new_count: 1,
            }),
            row(DiffRow::Context {
                old_line: 4,
                new_line: 4,
                text: " fourth".to_owned(),
            }),
        ],
        file: Some(HighlightedFile::AfterChange(
            (1..=5)
                .map(|line| {
                    vec![Token {
                        text: format!("line {line}"),
                        color: Color::White,
                    }]
                })
                .collect(),
        )),
    })
}

#[test]
fn hides_headers_and_expands_gaps_at_each_file_boundary() {
    let mut presentation = two_hunks_in_five_lines();

    let first_gap_location = presentation.presentation_location(0).unwrap();
    assert!(matches!(presentation.rows[0], PresentedRow::Gap { .. }));
    assert!(matches!(presentation.rows[2], PresentedRow::Gap { .. }));
    assert!(matches!(presentation.rows[4], PresentedRow::Gap { .. }));
    assert!(presentation.expand(0));
    assert_eq!(presentation.rows.len(), 5);
    assert!(matches!(
        presentation.rows[0],
        PresentedRow::Expanded { line: 1, .. }
    ));

    assert!(presentation.expand_all());
    assert!(presentation
        .rows
        .iter()
        .all(|row| !matches!(row, PresentedRow::Gap { .. })));
    assert!(presentation.contract_all());
    assert_eq!(
        presentation
            .rows
            .iter()
            .filter(|row| matches!(row, PresentedRow::Gap { .. }))
            .count(),
        3
    );
    assert_eq!(
        presentation.reveal_presentation_location(first_gap_location),
        Some(0)
    );
}

#[test]
fn deleted_line_location_restores_the_diff_view() {
    let mut presentation = DiffPresentation::new(HighlightedDiff {
        rows: vec![HighlightedRow {
            diff: DiffRow::Delete {
                old_line: 2,
                text: "-removed".to_owned(),
            },
            tokens: vec![Token {
                text: "removed".to_owned(),
                color: Color::Red,
            }],
        }],
        file: Some(HighlightedFile::AfterChange(vec![vec![Token {
            text: "remaining".to_owned(),
            color: Color::White,
        }]])),
    });
    let location = presentation.presentation_location(0).unwrap();
    assert_eq!(location, PresentationLocation::OldLine(1));
    assert!(presentation.show_file());

    assert_eq!(presentation.reveal_presentation_location(location), Some(0));
    assert!(!presentation.is_file_view());
    assert!(matches!(presentation.rows[0], PresentedRow::Diff { .. }));
}

#[test]
fn file_view_restores_the_diff_rows() {
    let diff_row = PresentedRow::Gap {
        start: 1,
        lines: Vec::new(),
    };
    let mut presentation = DiffPresentation {
        rows: vec![diff_row.clone()],
        file_rows: Some(vec![PresentedRow::Expanded {
            line: 1,
            tokens: vec![Token {
                text: "fn main() {}".to_owned(),
                color: Color::Blue,
            }],
        }]),
        ..DiffPresentation::default()
    };

    assert!(presentation.show_file());
    assert!(presentation.is_file_view());
    assert!(matches!(
        presentation.rows[0],
        PresentedRow::Expanded { line: 1, .. }
    ));
    assert!(presentation.show_diff());
    assert_eq!(presentation.rows, vec![diff_row]);
}

#[test]
fn finish_does_not_add_an_empty_gap_after_the_last_source_line() {
    let lines = vec![vec![Token {
        text: "only line".to_owned(),
        color: Color::White,
    }]];
    let mut rows = PresentationRows::new(0, None, Some(&lines));
    rows.previous_hunk_end = Some(2);

    rows.finish();

    assert!(rows.rows.is_empty());
}

#[test]
fn finish_adds_the_lines_after_the_last_hunk() {
    let lines = vec![vec![token("one")], vec![token("two")], vec![token("three")]];
    let mut rows = PresentationRows::new(0, None, Some(&lines));
    rows.previous_hunk_end = Some(2);

    rows.finish();

    assert_eq!(
        rows.rows,
        vec![PresentedRow::Gap {
            start: 2,
            lines: vec![vec![token("two")], vec![token("three")]],
        }]
    );
}

#[test]
fn gap_lines_need_a_known_file_and_a_range_inside_it() {
    let lines = vec![vec![token("one")], vec![token("two")]];
    assert_eq!(
        DiffPresentation::gap_lines(Some(&lines), 1, 2),
        Some(vec![vec![token("one")]])
    );
    assert_eq!(DiffPresentation::gap_lines(Some(&lines), 0, 2), None);
    assert_eq!(DiffPresentation::gap_lines(Some(&lines), 2, 4), None);
    assert_eq!(DiffPresentation::gap_lines(None, 1, 2), None);
}

#[test]
fn deleted_file_shows_only_deleted_lines() {
    let presentation = DiffPresentation::new(HighlightedDiff {
        rows: vec![
            row(DiffRow::Meta {
                text: "deleted file mode 100644".to_owned(),
            }),
            row(DiffRow::Hunk {
                old_start: 1,
                old_count: 1,
                new_start: 0,
                new_count: 0,
            }),
            row(DiffRow::Delete {
                old_line: 1,
                text: "-gone".to_owned(),
            }),
        ],
        file: None,
    });

    assert!(presentation.shows_whole_file());
    assert_eq!(presentation.rows, vec![PresentedRow::Diff {
        source: 2,
        tokens: Vec::new(),
    }]);
    assert_eq!(
        presentation.presentation_location(0),
        Some(PresentationLocation::OldLine(0))
    );
}

#[test]
fn expand_all_then_contract_all_restores_the_gaps() {
    let mut presentation = two_hunks_in_five_lines();
    let folded = presentation.rows.clone();

    assert!(presentation.expand_all());
    assert!(!presentation.expand_all());
    assert_eq!(presentation.rows.len(), 5);
    assert!(presentation.contract_all());
    assert!(!presentation.contract_all());
    assert_eq!(presentation.rows, folded);
}

#[test]
fn revealing_a_hidden_line_expands_its_gap() {
    let mut presentation = two_hunks_in_five_lines();

    assert_eq!(presentation.reveal_diff_line(1), Some(1));
    assert_eq!(presentation.reveal_diff_line(4), Some(4));
    assert!(matches!(
        presentation.rows[4],
        PresentedRow::Expanded { line: 5, .. }
    ));
    assert_eq!(presentation.reveal_diff_line(9), None);
    assert!(!presentation.is_file_view());
    assert_eq!(presentation.reveal_line(9), None);
    assert!(presentation.is_file_view());
    assert_eq!(presentation.reveal_line(2), Some(2));
}

#[test]
fn source_positions_and_selection_follow_the_line_rows() {
    let presentation = DiffPresentation::new(HighlightedDiff {
        rows: vec![
            row(DiffRow::Hunk {
                old_start: 1,
                old_count: 2,
                new_start: 1,
                new_count: 2,
            }),
            HighlightedRow {
                diff: DiffRow::Context {
                    old_line: 1,
                    new_line: 1,
                    text: " keep".to_owned(),
                },
                tokens: vec![token("ke"), token("ep")],
            },
            row(DiffRow::Delete {
                old_line: 2,
                text: "-old".to_owned(),
            }),
            row(DiffRow::Notice {
                kind: review_ui::diff_row::NoticeKind::Binary,
                text: "binary".to_owned(),
            }),
        ],
        file: None,
    });

    assert_eq!(presentation.len(), 3);
    assert_eq!(presentation.source_position(0), Some((0, "keep".to_owned())));
    assert_eq!(presentation.source_position(1), None);
    assert!(presentation.is_selectable(0));
    assert!(presentation.is_selectable(1));
    assert!(!presentation.is_selectable(2));
    assert!(!presentation.is_selectable(3));
    assert!(presentation.has_notice());
    assert_eq!(presentation.line_number_width(), 1);
}

#[test]
fn line_number_width_counts_the_digits_of_the_largest_line() {
    let presentation = DiffPresentation::new(HighlightedDiff {
        rows: vec![
            row(DiffRow::Delete {
                old_line: 120,
                text: "-a".to_owned(),
            }),
            row(DiffRow::Add {
                new_line: 9,
                text: "+b".to_owned(),
            }),
        ],
        file: None,
    });
    assert_eq!(presentation.line_number_width(), 3);
    assert_eq!(DiffPresentation::default().line_number_width(), 1);
}

#[test]
fn search_wraps_around_in_both_directions() {
    let presentation = DiffPresentation {
        rows: vec![
            PresentedRow::Expanded {
                line: 1,
                tokens: vec![token("alpha")],
            },
            PresentedRow::Expanded {
                line: 2,
                tokens: vec![token("beta")],
            },
            PresentedRow::Expanded {
                line: 3,
                tokens: vec![token("Alpha"), token(" again")],
            },
        ],
        ..DiffPresentation::default()
    };

    assert_eq!(presentation.matching_rows("alpha"), vec![0, 2]);
    assert_eq!(presentation.matching_rows("Alpha"), vec![2]);
    assert_eq!(
        presentation.find_matching_row("alpha", 0, SearchDirection::Forward),
        Some(2)
    );
    assert_eq!(
        presentation.find_matching_row("alpha", 2, SearchDirection::Forward),
        Some(0)
    );
    assert_eq!(
        presentation.find_matching_row("alpha", 0, SearchDirection::Backward),
        Some(2)
    );
    assert_eq!(
        presentation.find_matching_row("alpha", 9, SearchDirection::Backward),
        Some(0)
    );
    assert_eq!(
        presentation.find_matching_row("gamma", 0, SearchDirection::Forward),
        None
    );
    assert_eq!(
        presentation.find_matching_row("", 0, SearchDirection::Forward),
        None
    );
    assert_eq!(matching_ranges("aXa", "a"), vec![0..1, 2..3]);
}
