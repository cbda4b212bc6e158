//! What the review does with the events of its language server: which
//! toasts it shows or closes, when a hover is taken, and what becomes of
//! the locations a query found.

use vstd::prelude::*;

verus! {

/// The toast shown while the language server starts.
pub const STARTING_TOAST: &'static str = "Starting rust-analyzer...";

/// The toast shown once the language server is ready.
pub const READY_TOAST: &'static str = "rust-analyzer ready";

/// The toast shown when a hover finds no documentation.
pub const NO_DOCUMENTATION_TOAST: &'static str = "No documentation found";

/// The toast shown when a query finds no location.
pub const NO_LOCATIONS_TOAST: &'static str = "No locations found";

/// An event of the language server, with the revision (snapshot) it
/// answers for and the toast of the request it answers.
#[derive(Clone, Debug, PartialEq, Eq)]
pub enum LanguageEvent {
    Initializing,
    Ready,
    Failed { toast: Option<u64>, snapshot: Option<String>, message: String },
    Hover { toast: u64, snapshot: String, markdown: Option<String> },
    Locations { toast: u64, definition: bool, snapshot: String, count: usize },
}

/// A change to the toasts on screen.
#[derive(Clone, Debug, PartialEq, Eq)]
pub enum ToastChange {
    /// Start a toast that stays until it is finished.
    StartLong(String),
    Info(String),
    Error(String),
    /// Finish the toast with this id.
    Finish(u64),
}

/// What becomes of the locations a query found.
#[derive(Clone, Copy, Debug, PartialEq, Eq, Structural)]
pub enum LocationOutcome {
    /// Not a query of this event.
    NotLocations,
    /// They answer for another revision and are dropped.
    Stale,
    /// None was found.
    NoneFound,
    /// The one definition found is opened.
    Open,
    /// They are listed, the first one previewed.
    List,
}

/// What the review keeps of the language server.
#[derive(Clone, Debug, PartialEq, Eq)]
pub struct LanguageState {
    /// The revision under review.
    pub commit_id: String,
    /// The toast shown while the language server starts.
    pub initialization_toast: Option<u64>,
    /// The documentation of the last hover.
    pub hover: Option<String>,
    pub hover_scroll: usize,
}

/// What one event leads to: the toast changes in order, and what becomes
/// of the locations of a query.
pub struct LanguageStep {
    pub toasts: Vec<ToastChange>,
    pub locations: LocationOutcome,
}

/// A toast change as plain values: its kind (0 long, 1 information, 2
/// error, 3 finish), its text and the id it finishes.
pub open spec fn change_view(change: ToastChange) -> (int, Seq<char>, u64) {
    match change {
        ToastChange::StartLong(text) => (0, text@, 0),
        ToastChange::Info(text) => (1, text@, 0),
        ToastChange::Error(text) => (2, text@, 0),
        ToastChange::Finish(id) => (3, seq![], id),
    }
}

pub open spec fn changes_view(changes: Seq<ToastChange>) -> Seq<(int, Seq<char>, u64)> {
    changes.map_values(|change: ToastChange| change_view(change))
}

/// Finishing the starting toast, when one is shown.
pub open spec fn finish_initialization(toast: Option<u64>) -> Seq<(int, Seq<char>, u64)> {
    match toast {
        Some(id) => seq![(3, seq![], id)],
        None => seq![],
    }
}

/// The toast changes that an event leads to while `commit_id` is under
/// review and `initialization` is the starting toast.
pub open spec fn toast_changes(
    event: LanguageEvent,
    commit_id: Seq<char>,
    initialization: Option<u64>,
) -> Seq<(int, Seq<char>, u64)> {
    match event {
        LanguageEvent::Initializing => finish_initialization(initialization).push(
            (0, STARTING_TOAST@, 0),
        ),
        LanguageEvent::Ready => finish_initialization(initialization).push((1, READY_TOAST@, 0)),
        LanguageEvent::Failed { toast, snapshot, message } => finish_initialization(initialization)
            + match toast {
            Some(id) => seq![(3, seq![], id)],
            None => seq![],
        } + if snapshot matches Some(s) && s@ != commit_id {
            seq![]
        } else {
            seq![(2, message@, 0)]
        },
        LanguageEvent::Hover { toast, snapshot, markdown } => if snapshot@ == commit_id
            && markdown is None {
            seq![(3, seq![], toast), (1, NO_DOCUMENTATION_TOAST@, 0)]
        } else {
            seq![(3, seq![], toast)]
        },
        LanguageEvent::Locations { toast, snapshot, count, .. } => if snapshot@ == commit_id
            && count == 0 {
            seq![(3, seq![], toast), (1, NO_LOCATIONS_TOAST@, 0)]
        } else {
            seq![(3, seq![], toast)]
        },
    }
}

/// What becomes of the locations of an event.
pub open spec fn location_outcome(event: LanguageEvent, commit_id: Seq<char>) -> LocationOutcome {
    match event {
        LanguageEvent::Locations { definition, snapshot, count, .. } => if snapshot@ != commit_id {
            LocationOutcome::Stale
        } else if count == 0 {
            LocationOutcome::NoneFound
        } else if count == 1 && definition {
            LocationOutcome::Open
        } else {
            LocationOutcome::List
        },
        _ => LocationOutcome::NotLocations,
    }
}

fn text_of(text: &str) -> (owned: String)
    ensures
        owned@ == text@,
{
    text.to_owned()
}

impl LanguageState {
    /// Takes one event of the language server: closes the starting toast
    /// on every event about starting, takes a hover of the revision under
    /// review (scrolled to its top), reports errors and empty answers for
    /// that revision, and says what becomes of found locations.
    pub fn step(&mut self, event: LanguageEvent) -> (step: LanguageStep)
        ensures
            changes_view(step.toasts@) == toast_changes(
                event,
                old(self).commit_id@,
                old(self).initialization_toast,
            ),
            step.locations == location_outcome(event, old(self).commit_id@),
            final(self).commit_id == old(self).commit_id,
            final(self).initialization_toast == match event {
                LanguageEvent::Hover { .. } | LanguageEvent::Locations { .. } => old(
                    self,
                ).initialization_toast,
                _ => None,
            },
            match event {
                LanguageEvent::Hover { snapshot, markdown, .. } if snapshot@ == old(self).commit_id@ => {
                    &&& final(self).hover == markdown
                    &&& final(self).hover_scroll == 0
                },
                _ => {
                    &&& final(self).hover == old(self).hover
                    &&& final(self).hover_scroll == old(self).hover_scroll
                },
            },
    {
        let mut toasts: Vec<ToastChange> = Vec::new();
        let ghost initialization = self.initialization_toast;
        match event {
            LanguageEvent::Initializing => {
                self.finish_initialization(&mut toasts);
                toasts.push(ToastChange::StartLong(text_of(STARTING_TOAST)));
                LanguageStep { toasts, locations: LocationOutcome::NotLocations }
            },
            LanguageEvent::Ready => {
                self.finish_initialization(&mut toasts);
                toasts.push(ToastChange::Info(text_of(READY_TOAST)));
                LanguageStep { toasts, locations: LocationOutcome::NotLocations }
            },
            LanguageEvent::Failed { toast, snapshot, message } => {
                self.finish_initialization(&mut toasts);
                if let Some(id) = toast {
                    toasts.push(ToastChange::Finish(id));
                }
                let current = match &snapshot {
                    Some(s) => *s == self.commit_id,
                    None => true,
                };
                if current {
                    toasts.push(ToastChange::Error(message));
                }
                proof {
                    assert(changes_view(toasts@) =~= toast_changes(
                        LanguageEvent::Failed { toast, snapshot, message },
                        self.commit_id@,
                        initialization,
                    ));
                }
                LanguageStep { toasts, locations: LocationOutcome::NotLocations }
            },
            LanguageEvent::Hover { toast, snapshot, markdown } => {
                toasts.push(ToastChange::Finish(toast));
                if snapshot == self.commit_id {
                    let missing = markdown.is_none();
                    self.hover = markdown;
                    self.hover_scroll = 0;
                    if missing {
                        toasts.push(ToastChange::Info(text_of(NO_DOCUMENTATION_TOAST)));
                    }
                }
                proof {
                    assert(changes_view(toasts@) =~= toast_changes(
                        LanguageEvent::Hover { toast, snapshot, markdown },
                        self.commit_id@,
                        initialization,
                    ));
                }
                LanguageStep { toasts, locations: LocationOutcome::NotLocations }
            },
            LanguageEvent::Locations { toast, definition, snapshot, count } => {
                toasts.push(ToastChange::Finish(toast));
                let locations = if snapshot != self.commit_id {
                    LocationOutcome::Stale
                } else if count == 0 {
                    toasts.push(ToastChange::Info(text_of(NO_LOCATIONS_TOAST)));
                    LocationOutcome::NoneFound
                } else if count == 1 && definition {
                    LocationOutcome::Open
                } else {
                    LocationOutcome::List
                };
                proof {
                    assert(changes_view(toasts@) =~= toast_changes(
                        LanguageEvent::Locations { toast, definition, snapshot, count },
                        self.commit_id@,
                        initialization,
                    ));
                }
                LanguageStep { toasts, locations }
            },
        }
    }

    /// Closes the starting toast, when one is shown.
    fn finish_initialization(&mut self, toasts: &mut Vec<ToastChange>)
        requires
            old(toasts)@.len() == 0,
        ensures
            changes_view(final(toasts)@) == finish_initialization(old(self).initialization_toast),
            final(self).initialization_toast is None,
            final(self).commit_id == old(self).commit_id,
            final(self).hover == old(self).hover,
            final(self).hover_scroll == old(self).hover_scroll,
    {
        if let Some(id) = self.initialization_toast {
            toasts.push(ToastChange::Finish(id));
            assert(changes_view(toasts@) =~= seq![(3, Seq::<char>::empty(), id)]);
        } else {
            assert(changes_view(toasts@) =~= Seq::<(int, Seq<char>, u64)>::empty());
        }
        self.initialization_toast = None;
    }

    /// Keeps the id of the starting toast that was shown.
    pub fn started_initialization_toast(&mut self, id: u64)
        ensures
            final(self).initialization_toast == Some(id),
            final(self).commit_id == old(self).commit_id,
            final(self).hover == old(self).hover,
            final(self).hover_scroll == old(self).hover_scroll,
    {
        self.initialization_toast = Some(id);
    }
}

/// A failure of the language server is shown as one error toast with its
/// message, after every toast it closes, unless it answers a request for
/// another revision than the one under review: then it only closes toasts.
/// It closes the toast of its request and the starting toast, when shown.
pub proof fn law_failure_of_reviewed_revision_is_shown(
    toast: Option<u64>,
    snapshot: Option<String>,
    message: String,
    commit_id: Seq<char>,
    initialization: Option<u64>,
)
    ensures
        ({
            let changes = toast_changes(
                LanguageEvent::Failed { toast, snapshot, message },
                commit_id,
                initialization,
            );
            &&& (snapshot is None || snapshot->0@ == commit_id) ==> changes.len() > 0
                && changes.last() == (2int, message@, 0u64)
            &&& (snapshot is Some && snapshot->0@ != commit_id) ==> forall|i: int|
                0 <= i < changes.len() ==> (#[trigger] changes[i]).0 == 3
            &&& forall|i: int| 0 <= i < changes.len() - 1 ==> (#[trigger] changes[i]).0 == 3
            &&& toast is Some ==> changes.contains((3int, Seq::<char>::empty(), toast->0))
            &&& initialization is Some ==> changes.contains(
                (3int, Seq::<char>::empty(), initialization->0),
            )
        }),
{
    let changes = toast_changes(
        LanguageEvent::Failed { toast, snapshot, message },
        commit_id,
        initialization,
    );
    let start = finish_initialization(initialization);
    if let Some(id) = toast {
        let k = start.len() as int;
        assert(changes[k] == (3int, Seq::<char>::empty(), id));
    }
    if let Some(id) = initialization {
        assert(changes[0] == (3int, Seq::<char>::empty(), id));
    }
}

} // verus!
