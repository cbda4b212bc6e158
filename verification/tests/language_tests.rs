use review_ui::language::{LanguageEvent, LanguageState, LocationOutcome, ToastChange};

fn state() -> LanguageState {
    LanguageState {
        commit_id: "commit".to_owned(),
        initialization_toast: Some(7),
        hover: Some("old".to_owned()),
        hover_scroll: 3,
    }
}

#[test]
fn starting_replaces_the_starting_toast() {
    let mut state = state();
    let step = state.step(LanguageEvent::Initializing);
    assert_eq!(
        step.toasts,
        vec![
            ToastChange::Finish(7),
            ToastChange::StartLong("Starting rust-analyzer...".to_owned())
        ]
    );
    assert_eq!(state.initialization_toast, None);
    state.started_initialization_toast(9);
    let ready = state.step(LanguageEvent::Ready);
    assert_eq!(
        ready.toasts,
        vec![ToastChange::Finish(9), ToastChange::Info("rust-analyzer ready".to_owned())]
    );
}

#[test]
fn failures_of_other_revisions_show_no_error() {
    let mut state = state();
    let step = state.step(LanguageEvent::Failed {
        toast: Some(2),
        snapshot: Some("other".to_owned()),
        message: "boom".to_owned(),
    });
    assert_eq!(step.toasts, vec![ToastChange::Finish(7), ToastChange::Finish(2)]);
    let step = state.step(LanguageEvent::Failed {
        toast: None,
        snapshot: None,
        message: "boom".to_owned(),
    });
    assert_eq!(step.toasts, vec![ToastChange::Error("boom".to_owned())]);
}

#[test]
fn hovers_are_taken_only_for_the_revision_under_review() {
    let mut state = state();
    state.step(LanguageEvent::Hover {
        toast: 1,
        snapshot: "other".to_owned(),
        markdown: Some("new".to_owned()),
    });
    assert_eq!(state.hover, Some("old".to_owned()));
    assert_eq!(state.hover_scroll, 3);
    let step = state.step(LanguageEvent::Hover {
        toast: 1,
        snapshot: "commit".to_owned(),
        markdown: None,
    });
    assert_eq!(state.hover, None);
    assert_eq!(state.hover_scroll, 0);
    assert_eq!(
        step.toasts,
        vec![ToastChange::Finish(1), ToastChange::Info("No documentation found".to_owned())]
    );
    assert_eq!(state.initialization_toast, Some(7));
}

#[test]
fn found_locations_are_opened_listed_or_dropped() {
    let mut state = state();
    let locations = |definition: bool, snapshot: &str, count: usize| LanguageEvent::Locations {
        toast: 4,
        definition,
        snapshot: snapshot.to_owned(),
        count,
    };
    assert_eq!(state.step(locations(true, "other", 1)).locations, LocationOutcome::Stale);
    let none = state.step(locations(true, "commit", 0));
    assert_eq!(none.locations, LocationOutcome::NoneFound);
    assert_eq!(
        none.toasts,
        vec![ToastChange::Finish(4), ToastChange::Info("No locations found".to_owned())]
    );
    assert_eq!(state.step(locations(true, "commit", 1)).locations, LocationOutcome::Open);
    assert_eq!(state.step(locations(false, "commit", 1)).locations, LocationOutcome::List);
    assert_eq!(state.step(locations(true, "commit", 2)).locations, LocationOutcome::List);
}
