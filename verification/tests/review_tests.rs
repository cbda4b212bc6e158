use ratatui::style::Color;
use review_ui::app::Selection;
use review_ui::diff_row::DiffRow;
use review_ui::files::ReviewStatus;
use review_ui::language::{LanguageEvent, LanguageState, LocationOutcome};
use review_ui::review::{Review, ReviewAction, ReviewMessage};
use review_ui::review_file::ReviewFile;
use review_ui::session::{FileSelection, PendingReview};
use review_ui::syntax::SyntaxHighlighter;
use two_face::theme::EmbeddedThemeName;

fn review() -> Review {
    let files = vec![
        ReviewFile::new("a.rs", ReviewStatus::Unreviewed),
        ReviewFile::new("b.rs", ReviewStatus::Unreviewed),
    ];
    Review {
        change_id: "change".to_owned(),
        commit_id: "commit".to_owned(),
        files: FileSelection::new(files, Vec::new()),
        visual: Some(Selection { anchor: 0, cursor: 0, fixed: false }),
        in_flight: None,
        language: LanguageState {
            commit_id: "commit".to_owned(),
            initialization_toast: None,
            hover: None,
            hover_scroll: 0,
        },
        highlighter: SyntaxHighlighter::new(EmbeddedThemeName::Base16.as_name(), Color::White),
        diff_page: 10,
    }
}

fn loaded(commit: &str, path: &str) -> ReviewMessage {
    ReviewMessage::DiffLoaded {
        commit_id: commit.to_owned(),
        path: path.to_owned(),
        rows: vec![DiffRow::Add { new_line: 1, text: "+fn a() {}".to_owned() }],
        old_content: None,
        new_content: Some(b"fn a() {}\n".to_vec()),
    }
}

#[test]
fn loaded_diffs_of_the_revision_under_review_reach_their_file() {
    let mut review = review();
    review.files.files[0].loading = true;
    assert!(matches!(review.update(loaded("other", "a.rs")), ReviewAction::Nothing));
    assert!(review.files.files[0].loading);
    review.update(loaded("commit", "a.rs"));
    assert!(!review.files.files[0].loading);
    assert_eq!(review.files.files[0].diff.source.len(), 1);
    assert_eq!(review.visual, None);
}

#[test]
fn failed_diffs_and_delivered_output_update_the_review() {
    let mut review = review();
    review.files.files[1].loading = true;
    review.update(ReviewMessage::DiffFailed { commit_id: "commit".to_owned(), path: "b.rs".to_owned() });
    assert!(!review.files.files[1].loading);
    review.update(ReviewMessage::OutputFinished { delivered: false });
    assert!(review.visual.is_some());
    review.update(ReviewMessage::OutputFinished { delivered: true });
    assert!(review.visual.is_none());
}

#[test]
fn a_finished_review_loads_the_file_moved_on_to() {
    let mut review = review();
    review.files.select(1);
    review.in_flight = Some(PendingReview {
        path: "a.rs".to_owned(),
        previous_status: ReviewStatus::Unreviewed,
        optimistic_status: ReviewStatus::Reviewed,
        next_path: Some("b.rs".to_owned()),
    });
    let action = review.update(ReviewMessage::ReviewFinished {
        change_id: "change".to_owned(),
        path: "a.rs".to_owned(),
        result: Some(ReviewStatus::Reviewed),
    });
    match action {
        ReviewAction::LoadDiff { commit_id, path } => {
            assert_eq!(commit_id, "commit");
            assert_eq!(path, "b.rs");
        }
        _ => panic!("expected a diff load"),
    }
    assert!(review.in_flight.is_none());
    assert_eq!(review.files.files[0].status, ReviewStatus::Reviewed);
}

#[test]
fn language_events_reach_the_language_state() {
    let mut review = review();
    let action = review.update(ReviewMessage::Language(LanguageEvent::Locations {
        toast: 1,
        definition: true,
        snapshot: "commit".to_owned(),
        count: 1,
    }));
    match action {
        ReviewAction::Language(step) => assert_eq!(step.locations, LocationOutcome::Open),
        _ => panic!("expected a language step"),
    }
}

#[test]
fn a_reloaded_diff_reveals_where_the_cursor_was_and_uses_both_contents() {
    let mut review = review();
    review.update(loaded("commit", "a.rs"));
    review.files.files[0].column = 3;
    let reload = ReviewMessage::DiffLoaded {
        commit_id: "commit".to_owned(),
        path: "a.rs".to_owned(),
        rows: vec![
            DiffRow::Delete { old_line: 1, text: "-let old = 1;".to_owned() },
            DiffRow::Add { new_line: 1, text: "+fn a() {}".to_owned() },
        ],
        old_content: Some(b"let old = 1;\n".to_vec()),
        new_content: Some(b"fn a() {}\n".to_vec()),
    };
    review.update(reload);
    let file = &review.files.files[0];
    assert_eq!(file.column, 3);
    assert_eq!(file.cursor, 1);
    assert_eq!(file.source_location.as_ref().map(|location| location.line), Some(0));
    let deleted: String = match &file.diff.rows[0] {
        review_ui::presentation::PresentedRow::Diff { tokens, .. } => {
            tokens.iter().map(|token| token.text.as_str()).collect()
        }
        _ => String::new(),
    };
    assert_eq!(deleted, "let old = 1;");
}
