use review_ui::navigation::{FileReviewState, LocationHistory, ReviewLocation, SourceLocation};
use review_ui::presentation::PresentationLocation;

const UNIT: &str = "change";

fn revision() -> ReviewLocation {
    ReviewLocation::Revision { review_unit: UNIT.to_owned() }
}

fn review_location(path: &str, cursor: usize) -> ReviewLocation {
    ReviewLocation::ReviewFile {
        review_unit: UNIT.to_owned(),
        path: path.to_owned(),
        cursor,
        presentation_location: None,
        column: 0,
    }
}

#[test]
fn same_line_uses_the_stable_presentation_location_when_available() {
    let plain = review_location("src/lib.rs", 3);
    let mut other_column = review_location("src/lib.rs", 3);
    let ReviewLocation::ReviewFile { column, .. } = &mut other_column else {
        unreachable!();
    };
    *column = 20;
    assert!(plain.same_line(&other_column));
    assert!(!plain.same_line(&review_location("src/lib.rs", 4)));
    assert!(!plain.same_line(&review_location("src/other.rs", 3)));

    let stable = ReviewLocation::ReviewFile {
        review_unit: UNIT.to_owned(),
        path: "src/lib.rs".to_owned(),
        cursor: 3,
        presentation_location: Some(PresentationLocation::NewLine(10)),
        column: 0,
    };
    let moved = ReviewLocation::ReviewFile {
        review_unit: UNIT.to_owned(),
        path: "src/lib.rs".to_owned(),
        cursor: 50,
        presentation_location: Some(PresentationLocation::NewLine(10)),
        column: 8,
    };
    assert!(stable.same_line(&moved));
    assert!(!stable.same_line(&plain));
}

#[test]
fn history_keeps_one_hundred_distinct_origins() {
    let mut history = LocationHistory::default();
    let target = review_location("target.rs", 0);
    for cursor in 0..102 {
        assert!(history.record_jump(review_location("src/lib.rs", cursor), &target));
    }

    assert_eq!(history.older.len(), 100);
    assert_eq!(
        history.older.first(),
        Some(&review_location("src/lib.rs", 2))
    );
    assert_eq!(
        history.older.last(),
        Some(&review_location("src/lib.rs", 101))
    );
    assert!(!history.record_jump(target.clone(), &target));
    assert_eq!(history.older.len(), 100);
}

#[test]
fn history_traversal_skips_unrestorable_locations_and_supports_forward_navigation() {
    let mut history = LocationHistory::default();
    let first = review_location("first.rs", 1);
    let skipped = review_location("skip.rs", 2);
    let current = review_location("current.rs", 3);
    history.older = vec![first.clone(), skipped];

    assert_eq!(
        history.previous(current.clone(), |location| {
            location != &review_location("skip.rs", 2)
        }),
        Some(first.clone())
    );
    assert_eq!(history.newer, vec![current.clone()]);
    assert_eq!(history.next(first, |_| true), Some(current));
}

#[test]
fn jump_to_a_visited_line_moves_it_to_the_end() {
    let mut history = LocationHistory::default();
    let target = review_location("target.rs", 0);
    assert!(history.record_jump(review_location("a.rs", 1), &target));
    assert!(history.record_jump(review_location("b.rs", 1), &target));
    assert!(history.record_jump(review_location("a.rs", 1), &target));
    assert_eq!(
        history.older,
        vec![review_location("b.rs", 1), review_location("a.rs", 1)]
    );
}

#[test]
fn back_after_a_jump_returns_to_the_origin_and_forward_returns() {
    let mut history = LocationHistory::default();
    let origin = review_location("a.rs", 4);
    let target = review_location("b.rs", 9);
    assert!(history.record_jump(origin.clone(), &target));
    assert_eq!(history.previous(target.clone(), |_| true), Some(origin.clone()));
    assert_eq!(history.next(origin, |_| true), Some(target));
}

#[test]
fn source_locations_compare_by_path_and_line() {
    let source = |path: &str, line: u32, column: usize| ReviewLocation::Source {
        review_unit: UNIT.to_owned(),
        location: SourceLocation {
            path: path.to_owned(),
            line,
            byte_column: column,
            end_line: line,
            end_byte_column: column,
        },
    };
    assert!(source("x.rs", 3, 0).same_line(&source("x.rs", 3, 7)));
    assert!(!source("x.rs", 3, 0).same_line(&source("x.rs", 4, 0)));
    assert!(!source("x.rs", 3, 0).same_line(&review_location("x.rs", 3)));
    assert!(revision().same_line(&revision()));
}

#[test]
fn only_files_still_under_review_can_be_returned_to() {
    let files = vec![
        FileReviewState { path: "a.rs".to_owned(), needs_review: true },
        FileReviewState { path: "b.rs".to_owned(), needs_review: false },
    ];
    assert!(review_location("a.rs", 1).is_restorable(UNIT, &files, None));
    assert!(!review_location("b.rs", 1).is_restorable(UNIT, &files, None));
    assert!(!review_location("gone.rs", 1).is_restorable(UNIT, &files, None));
    let source = ReviewLocation::Source {
        review_unit: UNIT.to_owned(),
        location: SourceLocation {
            path: "/repo/b.rs".to_owned(),
            line: 1,
            byte_column: 0,
            end_line: 1,
            end_byte_column: 0,
        },
    };
    assert!(!source.is_restorable(UNIT, &files, Some("b.rs")));
    assert!(source.is_restorable(UNIT, &files, Some("a.rs")));
    assert!(source.is_restorable(UNIT, &files, Some("elsewhere.rs")));
    assert!(source.is_restorable(UNIT, &files, None));
    assert!(revision().is_restorable(UNIT, &files, None));
}

#[test]
fn locations_of_other_review_units_are_other_lines_and_stay_restorable() {
    let here = review_location("a.rs", 1);
    let there = here.for_review_unit("earlier");
    assert_eq!(there.review_unit(), "earlier");
    assert!(!here.same_line(&there));
    assert!(!revision().same_line(&revision().for_review_unit("earlier")));
    let files = vec![FileReviewState { path: "a.rs".to_owned(), needs_review: false }];
    assert!(!here.is_restorable(UNIT, &files, None));
    assert!(there.is_restorable(UNIT, &files, None));
}
