//! The review as one state machine: each message of the repository, the
//! review-state writer, the output target and the language server changes
//! the state and asks for at most one action.

use vstd::prelude::*;

use crate::app::Selection;
use crate::diff_row::DiffRow;
use crate::files::ReviewStatus;
use crate::language::{LanguageEvent, LanguageState, LanguageStep};
use crate::presentation::{presents, DiffPresentation};
use crate::highlight::HighlightedDiff;
use crate::navigation::SourceLocation;
use crate::review_file::{diff_taken, is_cursor_location, location_revealed};
use crate::syntax::content_view;
use crate::review_file::ReviewFile;
use crate::session::{
    diff_idle, file_with_path, review_finished, selected_has_path, FileSelection, PendingReview,
};
use crate::syntax::SyntaxHighlighter;
use crate::wrap::same_text;

verus! {

/// A message from outside the view.
pub enum ReviewMessage {
    /// A diff of `path` in revision `commit_id`, with the contents of the
    /// file before and after the change.
    DiffLoaded {
        commit_id: String,
        path: String,
        rows: Vec<DiffRow>,
        old_content: Option<Vec<u8>>,
        new_content: Option<Vec<u8>>,
    },
    /// Loading the diff of `path` in revision `commit_id` failed.
    DiffFailed { commit_id: String, path: String },
    /// A review-state write for `path` of change `change_id` ended: the
    /// status written, or none when it failed.
    ReviewFinished { change_id: String, path: String, result: Option<ReviewStatus> },
    /// Whether the selected text reached its output target.
    OutputFinished { delivered: bool },
    /// An event of the language server.
    Language(LanguageEvent),
}

/// What a message asks of the world outside.
pub enum ReviewAction {
    Nothing,
    /// Load the diff of `path` in revision `commit_id`.
    LoadDiff { commit_id: String, path: String },
    /// Show and close toasts and act on found locations.
    Language(LanguageStep),
}

/// The state of a review.
pub struct Review {
    pub change_id: String,
    pub commit_id: String,
    pub files: FileSelection,
    /// The visual selection of diff rows, if any.
    pub visual: Option<Selection>,
    /// The review-state write in flight, if any.
    pub in_flight: Option<PendingReview>,
    pub language: LanguageState,
    pub highlighter: SyntaxHighlighter,
    /// The rows of the diff pane, for centring a revealed line.
    pub diff_page: usize,
}

/// The bytes of optional file contents.
pub open spec fn bytes_view(content: Option<Vec<u8>>) -> Option<Seq<u8>> {
    match content {
        Some(bytes) => Some(bytes@),
        None => None,
    }
}

fn content_slice(content: &Option<Vec<u8>>) -> (slice: Option<&[u8]>)
    ensures
        content_view(slice) == bytes_view(*content),
{
    match content {
        Some(bytes) => Some(bytes.as_slice()),
        None => None,
    }
}

/// Whether loading the selected file's diff when `load` asks for it takes
/// `files` to `after` and asks for `action`: a file whose diff is to be
/// loaded starts loading and its diff is asked for; otherwise nothing
/// changes.
pub open spec fn loaded_after(
    files: Seq<ReviewFile>,
    selected: usize,
    load: bool,
    after: Seq<ReviewFile>,
    action: ReviewAction,
    commit_id: Seq<char>,
) -> bool {
    if load && selected < files.len() && diff_idle(files[selected as int]) {
        &&& after == files.update(
            selected as int,
            ReviewFile { loading: true, ..files[selected as int] },
        )
        &&& action matches ReviewAction::LoadDiff { commit_id: c, path } && c@ == commit_id
            && path@ == files[selected as int].path@
    } else {
        after == files && action is Nothing
    }
}

/// Whether taking a loaded `diff` into file `index` of `files`, where
/// `previous` was the disk position of its cursor, gives `after`: the file
/// takes the diff (see `diff_taken`), and when the selected file has the
/// loaded path and there was a position, that position is revealed in the
/// selected file with `page` rows in the pane.
pub open spec fn diff_shown_after(
    files: Seq<ReviewFile>,
    selected: usize,
    path: Seq<char>,
    index: int,
    diff: DiffPresentation,
    previous: Option<SourceLocation>,
    page: usize,
    after: Seq<ReviewFile>,
) -> bool {
    let taken = files.update(index, diff_taken(files[index], diff));
    if selected_has_path(files, selected, path) && previous is Some {
        &&& after == taken.update(selected as int, after[selected as int])
        &&& location_revealed(taken[selected as int], previous->0, page, after[selected as int])
    } else {
        after == taken
    }
}

/// Whether a diff of `path` in revision `commit_id`, with rows `rows` and
/// file contents `old_content` before and `new_content` after the change,
/// takes the review `before` to `after`: a diff of another revision, or of
/// a path that is not among the files, changes nothing; else the diff,
/// highlighted from the contents, goes to the first file with the path,
/// and when the selected file has that path the visual selection is
/// dropped and the cursor's former disk position is revealed.
pub open spec fn loaded_diff_taken(
    before: Review,
    after: Review,
    commit_id: Seq<char>,
    path: Seq<char>,
    rows: Seq<DiffRow>,
    old_content: Option<Seq<u8>>,
    new_content: Option<Seq<u8>>,
) -> bool {
    &&& after.files.selected == before.files.selected
    &&& after.files.collapsed == before.files.collapsed
    &&& after.files.tree == before.files.tree
    &&& after.files.scroll == before.files.scroll
    &&& after.in_flight == before.in_flight
    &&& after.language == before.language
    &&& after.highlighter == before.highlighter
    &&& after.diff_page == before.diff_page
    &&& if commit_id != before.commit_id@ || file_with_path(
        before.files.files@,
        path,
    ) is None {
        &&& after.files.files == before.files.files
        &&& after.visual == before.visual
    } else {
        let files = before.files.files@;
        let selected = before.files.selected;
        let index = file_with_path(files, path)->0;
        &&& after.visual == if selected_has_path(files, selected, path) {
            None
        } else {
            before.visual
        }
        &&& exists|
            highlighted: HighlightedDiff,
            diff: DiffPresentation,
            previous: Option<SourceLocation>,
        |
            #![trigger presents(highlighted, diff), is_cursor_location(files[index], previous)]
            before.highlighter.highlights_diff(
                path,
                rows,
                old_content,
                new_content,
                highlighted,
            ) && presents(highlighted, diff) && is_cursor_location(
                files[index],
                previous,
            ) && diff_shown_after(
                files,
                selected,
                path,
                index,
                diff,
                previous,
                before.diff_page,
                after.files.files@,
            )
    }
}

impl Review {
    /// Takes a loaded diff (see `loaded_diff_taken`).
    #[verifier::spinoff_prover]
    #[verifier::rlimit(60)]
    fn take_diff(
        &mut self,
        commit_id: String,
        path: String,
        rows: Vec<DiffRow>,
        old_content: Option<Vec<u8>>,
        new_content: Option<Vec<u8>>,
    )
        requires
            old(self).files.well_formed(),
        ensures
            final(self).files.well_formed(),
            final(self).change_id == old(self).change_id,
            final(self).commit_id == old(self).commit_id,
            loaded_diff_taken(
                *old(self),
                *final(self),
                commit_id@,
                path@,
                rows@,
                bytes_view(old_content),
                bytes_view(new_content),
            ),
    {
        if !same_text(commit_id.as_str(), self.commit_id.as_str()) {
            return;
        }
        let ghost before = *self;
        let ghost source = rows@;
        let highlighted = self.highlighter.highlight(
            path.as_str(),
            rows,
            content_slice(&old_content),
            content_slice(&new_content),
        );
        let ghost shown = highlighted;
        let diff = DiffPresentation::new(highlighted);
        let ghost presented = diff;
        let commit = self.commit_id.clone();
        match self.files.load_diff(commit.as_str(), commit.as_str(), path.as_str(), diff) {
            Some(loaded) => {
                let ghost taken_files = self.files.files@;
                let ghost previous = loaded.previous;
                if loaded.selected {
                    self.visual = None;
                    match loaded.previous {
                        Some(location) => {
                            let index = self.files.selected;
                            self.files.reveal_in_file(index, &location, self.diff_page);
                        },
                        None => {},
                    }
                }
                proof {
                    let index = file_with_path(before.files.files@, path@)->0;
                    assert(taken_files =~= before.files.files@.update(
                        index,
                        diff_taken(before.files.files@[index], presented),
                    ));
                    assert(diff_shown_after(
                        before.files.files@,
                        before.files.selected,
                        path@,
                        index,
                        presented,
                        previous,
                        before.diff_page,
                        self.files.files@,
                    ));
                    assert(presents(shown, presented));
                    assert(is_cursor_location(before.files.files@[index], previous));
                }
            },
            None => {},
        }
    }

    /// Takes one message:
    /// - a loaded diff of the revision under review goes, highlighted, to
    ///   the first file with its path, and a visual selection is dropped
    ///   when that is the selected file; other diffs are dropped;
    /// - a failed diff of the revision under review stops that file
    ///   loading;
    /// - a finished review-state write is taken (see
    ///   `FileSelection::finish_review`), and the selected file's diff is
    ///   loaded when that asks for it;
    /// - output that reached its target drops the visual selection;
    /// - an event of the language server goes to the language state, whose
    ///   step is handed out.
    pub fn update(&mut self, message: ReviewMessage) -> (action: ReviewAction)
        requires
            old(self).files.well_formed(),
        ensures
            final(self).files.well_formed(),
            final(self).change_id == old(self).change_id,
            final(self).commit_id == old(self).commit_id,
            final(self).highlighter == old(self).highlighter,
            final(self).diff_page == old(self).diff_page,
            !(message is Language) ==> final(self).language == old(self).language,
            !(message is ReviewFinished) ==> final(self).files.collapsed == old(self).files.collapsed
                && final(self).files.tree == old(self).files.tree,
            final(self).files.scroll == old(self).files.scroll,
            match message {
                ReviewMessage::DiffLoaded { commit_id, path, rows, old_content, new_content } => {
                    &&& action is Nothing
                    &&& loaded_diff_taken(
                        *old(self),
                        *final(self),
                        commit_id@,
                        path@,
                        rows@,
                        bytes_view(old_content),
                        bytes_view(new_content),
                    )
                },
                ReviewMessage::DiffFailed { commit_id, path } => {
                    &&& action is Nothing
                    &&& final(self).visual == old(self).visual
                    &&& final(self).in_flight == old(self).in_flight
                    &&& final(self).files.selected == old(self).files.selected
                    &&& (commit_id@ != old(self).commit_id@ ==> final(self).files.files
                        == old(self).files.files)
                    &&& (commit_id@ == old(self).commit_id@ ==> match file_with_path(
                        old(self).files.files@,
                        path@,
                    ) {
                        Some(i) => final(self).files.files@ == old(self).files.files@.update(
                            i,
                            crate::session::done_loading(old(self).files.files@[i]),
                        ),
                        None => final(self).files.files == old(self).files.files,
                    })
                },
                ReviewMessage::ReviewFinished { change_id, path, result } => {
                    &&& final(self).visual == old(self).visual
                    &&& final(self).files.selected == old(self).files.selected
                    &&& exists|files: Seq<ReviewFile>, load: bool|
                        #![trigger review_finished(
                            old(self).files.files@,
                            old(self).files.collapsed@,
                            old(self).files.selected,
                            old(self).in_flight,
                            old(self).change_id@,
                            change_id@,
                            path@,
                            result,
                            files,
                            final(self).files.collapsed@,
                            final(self).in_flight,
                            load,
                        )]
                        review_finished(
                            old(self).files.files@,
                            old(self).files.collapsed@,
                            old(self).files.selected,
                            old(self).in_flight,
                            old(self).change_id@,
                            change_id@,
                            path@,
                            result,
                            files,
                            final(self).files.collapsed@,
                            final(self).in_flight,
                            load,
                        ) && loaded_after(
                            files,
                            old(self).files.selected,
                            load,
                            final(self).files.files@,
                            action,
                            old(self).commit_id@,
                        )
                },
                ReviewMessage::OutputFinished { delivered } => {
                    &&& action is Nothing
                    &&& final(self).files == old(self).files
                    &&& final(self).in_flight == old(self).in_flight
                    &&& final(self).visual == if delivered {
                        None
                    } else {
                        old(self).visual
                    }
                },
                ReviewMessage::Language(event) => {
                    &&& action matches ReviewAction::Language(step) && step.locations
                        == crate::language::location_outcome(event, old(self).language.commit_id@)
                        && crate::language::changes_view(step.toasts@)
                        == crate::language::toast_changes(
                        event,
                        old(self).language.commit_id@,
                        old(self).language.initialization_toast,
                    )
                    &&& final(self).files == old(self).files
                    &&& final(self).visual == old(self).visual
                    &&& final(self).in_flight == old(self).in_flight
                },
            },
    {
        match message {
            ReviewMessage::DiffLoaded { commit_id, path, rows, old_content, new_content } => {
                self.take_diff(commit_id, path, rows, old_content, new_content);
                ReviewAction::Nothing
            },
            ReviewMessage::DiffFailed { commit_id, path } => {
                self.files.fail_diff(self.commit_id.as_str(), commit_id.as_str(), path.as_str());
                ReviewAction::Nothing
            },
            ReviewMessage::ReviewFinished { change_id, path, result } => {
                let ghost before = *self;
                let load = self.files.finish_review(
                    &mut self.in_flight,
                    self.change_id.as_str(),
                    change_id.as_str(),
                    path.as_str(),
                    result,
                );
                let ghost finished = self.files.files@;
                let action = if !load {
                    ReviewAction::Nothing
                } else {
                    match self.files.load_selected() {
                        Some(path) => ReviewAction::LoadDiff { commit_id: self.commit_id.clone(), path },
                        None => ReviewAction::Nothing,
                    }
                };
                proof {
                    assert(review_finished(
                        before.files.files@,
                        before.files.collapsed@,
                        before.files.selected,
                        before.in_flight,
                        before.change_id@,
                        change_id@,
                        path@,
                        result,
                        finished,
                        self.files.collapsed@,
                        self.in_flight,
                        load,
                    ));
                    assert(loaded_after(
                        finished,
                        before.files.selected,
                        load,
                        self.files.files@,
                        action,
                        before.commit_id@,
                    ));
                }
                action
            },
            ReviewMessage::OutputFinished { delivered } => {
                if delivered {
                    self.visual = None;
                }
                ReviewAction::Nothing
            },
            ReviewMessage::Language(event) => ReviewAction::Language(self.language.step(event)),
        }
    }
}

} // verus!
