//! One file of the review: its review state, its diff and the cursor in it.

use vstd::prelude::*;

use crate::app::{DiffControl, Selection, SourceLoadMode};
use crate::files::{file_marker, marker_of, ReviewStatus};
use crate::navigation::SourceLocation;
use crate::presentation::{
    contract, diff_shown, display_line, file_shown, first_passing, found_row, has_expanded,
    has_gap, index_view, passing_rows, position_of, revealed_line, unfold, DiffPresentation,
    PresentationLocation, RowTest, SearchDirection, selectable_row,
};
use crate::syntax::{file_name_of, path_file_name};

verus! {

/// How a file changed.
#[derive(Clone, Copy, Debug, PartialEq, Eq, Structural)]
pub enum ChangeKind {
    Added,
    Deleted,
    Modified,
    Renamed,
    TypeChanged,
    Conflict,
}

/// A changed file as the repository reports it.
#[derive(Clone, Debug, PartialEq, Eq)]
pub struct ChangedFile {
    /// The repository-relative path used by review operations.
    pub path: String,
    /// The text shown to the user.
    pub display_path: String,
    pub change: ChangeKind,
    pub lines_added: u64,
    pub lines_removed: u64,
}

/// One file of the review.
#[derive(Clone, Debug, PartialEq, Eq)]
pub struct ReviewFile {
    /// The repository-relative path used by review operations.
    pub path: String,
    pub review_path: Option<String>,
    /// The text shown to the user.
    pub display_path: String,
    pub status: ReviewStatus,
    pub change: ChangeKind,
    pub lines_added: u64,
    pub lines_removed: u64,
    pub diff: DiffPresentation,
    pub cursor: usize,
    pub scroll: usize,
    pub column: usize,
    pub source_location: Option<SourceLocation>,
    pub loading: bool,
    pub temporary: bool,
    pub disk_path: Option<String>,
}

/// Whether `location` is the disk position of the cursor of `file`: its
/// line and column on the file's disk path (else its review path), or the
/// position it came from when its row has no line.
pub open spec fn is_cursor_location(file: ReviewFile, location: Option<SourceLocation>) -> bool {
    match (if file.cursor < file.diff.rows@.len() {
        position_of(file.diff.rows_view()[file.cursor as int], file.diff.source@, file.diff.whole_file)
    } else {
        None
    }) {
        Some((line, _)) => location matches Some(l) && l.line == line && l.end_line == line
            && l.byte_column == file.column && l.end_byte_column == file.column && l.path@
            == match file.disk_path {
            Some(p) => p@,
            None => file.path@,
        },
        None => location == file.source_location,
    }
}

/// `file` with a newly loaded `diff`: no longer loading, the cursor kept
/// within the diff and the view not scrolled past the cursor.
pub open spec fn diff_taken(file: ReviewFile, diff: DiffPresentation) -> ReviewFile {
    let count = diff.rows@.len();
    let cursor: int = if file.cursor < count {
        file.cursor as int
    } else if count > 0 {
        count - 1
    } else {
        0
    };
    ReviewFile {
        diff,
        loading: false,
        cursor: cursor as usize,
        scroll: if file.scroll <= cursor {
            file.scroll
        } else {
            cursor as usize
        },
        ..file
    }
}

/// Whether revealing disk position `location` in `before`, with `page`
/// rows in the pane, gives `after`: the column and the position are kept,
/// and the cursor jumps to the line's row, half a page down, when the diff
/// or the whole file shows it.
pub open spec fn location_revealed(
    before: ReviewFile,
    location: SourceLocation,
    page: usize,
    after: ReviewFile,
) -> bool {
    &&& after == (ReviewFile {
        column: location.byte_column,
        source_location: Some(location),
        cursor: after.cursor,
        scroll: after.scroll,
        diff: after.diff,
        ..before
    })
    &&& exists|row: Option<usize>|
        #![trigger index_view(row)]
        revealed_line(before.diff, after.diff, location.line, row) && match row {
            Some(r) => after.cursor == r && after.scroll == (if r >= page / 2 {
                r - page / 2
            } else {
                0
            }),
            None => after.cursor == before.cursor && after.scroll == before.scroll,
        }
}

impl ReviewFile {
    pub open spec fn well_formed(&self) -> bool {
        self.diff.well_formed()
    }

    /// A file of the review before its diff arrives.
    pub fn new(path: &str, status: ReviewStatus) -> (file: Self)
        ensures
            file.well_formed(),
            file.path@ == path@,
            file.display_path@ == path@,
            file.review_path matches Some(p) && p@ == path@,
            file.status == status,
            file.change == ChangeKind::Modified,
            file.lines_added == 0 && file.lines_removed == 0,
            file.diff.source@.len() == 0 && file.diff.rows@.len() == 0,
            file.diff.whole_file is None && file.diff.file_rows is None && file.diff.view is Diff,
            file.cursor == 0 && file.scroll == 0 && file.column == 0,
            file.source_location is None,
            !file.loading && !file.temporary,
            file.disk_path is None,
    {
        let diff = DiffPresentation::default();
        proof {
            assert(diff.rows_view().len() == 0);
        }
        ReviewFile {
            path: path.to_string(),
            review_path: Some(path.to_string()),
            display_path: path.to_string(),
            status,
            change: ChangeKind::Modified,
            lines_added: 0,
            lines_removed: 0,
            diff,
            cursor: 0,
            scroll: 0,
            column: 0,
            source_location: None,
            loading: false,
            temporary: false,
            disk_path: None,
        }
    }

    /// A file of the review from what the repository reports of it.
    pub fn from_changed(file: &ChangedFile, status: ReviewStatus) -> (review: Self)
        ensures
            review.well_formed(),
            review.path@ == file.path@,
            review.review_path matches Some(p) && p@ == file.path@,
            review.display_path@ == file.display_path@,
            review.status == status,
            review.change == file.change,
            review.lines_added == file.lines_added,
            review.lines_removed == file.lines_removed,
            review.diff.source@.len() == 0 && review.diff.rows@.len() == 0,
            review.cursor == 0 && review.scroll == 0 && review.column == 0,
            review.source_location is None,
            !review.loading && !review.temporary,
            review.disk_path is None,
    {
        let mut review = Self::new(file.path.as_str(), status);
        review.display_path = file.display_path.clone();
        review.change = file.change;
        review.lines_added = file.lines_added;
        review.lines_removed = file.lines_removed;
        review
    }

    /// A temporary file that shows a disk source. An external source is
    /// listed by its file name and shown by its whole path; a preview is
    /// listed and shown by its path inside the repository when it has one,
    /// else by its whole path.
    pub fn from_source(
        location: &SourceLocation,
        review_path: Option<&str>,
        diff: DiffPresentation,
        mode: SourceLoadMode,
    ) -> (file: Self)
        requires
            diff.well_formed(),
        ensures
            file.well_formed(),
            file.path@ == (if mode == SourceLoadMode::External {
                match path_file_name(location.path@) {
                    Some(name) => name,
                    None => location.path@,
                }
            } else {
                match review_path {
                    Some(p) => p@,
                    None => location.path@,
                }
            }),
            file.display_path@ == (if mode == SourceLoadMode::External {
                location.path@
            } else {
                match review_path {
                    Some(p) => p@,
                    None => location.path@,
                }
            }),
            match review_path {
                Some(p) => file.review_path matches Some(r) && r@ == p@,
                None => file.review_path is None,
            },
            file.status == ReviewStatus::Unreviewed,
            file.diff == diff,
            file.temporary,
            file.disk_path matches Some(p) && p@ == location.path@,
            file.cursor == 0 && file.scroll == 0 && file.column == 0,
            file.source_location is None,
            !file.loading,
    {
        let external = mode.external();
        let tree_path = if external {
            match file_name_of(location.path.as_str()) {
                Some(name) => name,
                None => location.path.clone(),
            }
        } else {
            match review_path {
                Some(p) => p.to_string(),
                None => location.path.clone(),
            }
        };
        let mut file = Self::new(tree_path.as_str(), ReviewStatus::Unreviewed);
        file.display_path = if external {
            location.path.clone()
        } else {
            match review_path {
                Some(p) => p.to_string(),
                None => location.path.clone(),
            }
        };
        file.diff = diff;
        file.temporary = true;
        file.disk_path = Some(location.path.clone());
        file.review_path = match review_path {
            Some(p) => Some(p.to_string()),
            None => None,
        };
        file
    }

    /// Whether the diff shows a notice in place of lines.
    pub fn has_notice(&self) -> (notice: bool)
        ensures
            notice == exists|i: int| 0 <= i < self.diff.source@.len() && self.diff.source@[i] is Notice,
    {
        self.diff.has_notice()
    }

    /// The marker before the file's name in the file tree.
    pub fn marker(&self) -> (marker: &'static str)
        ensures
            marker@ == marker_of(
                exists|i: int| 0 <= i < self.diff.source@.len() && self.diff.source@[i] is Notice,
                self.status,
            ),
    {
        file_marker(self.has_notice(), self.status)
    }

    /// Puts the cursor on `row` with the row half a page below the top.
    pub fn jump_to_row(&mut self, row: usize, page: usize)
        ensures
            final(self).cursor == row,
            final(self).scroll == (if row >= page / 2 { row - page / 2 } else { 0 }),
            final(self).diff == old(self).diff,
            final(self).column == old(self).column,
            final(self).source_location == old(self).source_location,
            final(self).path == old(self).path,
            final(self).status == old(self).status,
            *final(self) == (ReviewFile {
                cursor: final(self).cursor,
                scroll: final(self).scroll,
                ..*old(self)
            }),
    {
        self.cursor = row;
        self.scroll = row.saturating_sub(page / 2);
    }

    /// Forgets the disk source position the cursor came from.
    pub fn clear_source_location(&mut self)
        ensures
            *final(self) == (ReviewFile { source_location: None, ..*old(self) }),
    {
        self.source_location = None;
    }

    /// Moves the cursor to a disk source position: the column and the
    /// position are kept, and the cursor jumps to the line's row when the
    /// diff or the whole file shows it; says whether it does.
    pub fn reveal_location(&mut self, location: &SourceLocation, page: usize) -> (found: bool)
        requires
            old(self).well_formed(),
        ensures
            final(self).well_formed(),
            final(self).column == location.byte_column,
            final(self).source_location == Some(*location),
            location_revealed(*old(self), *location, page, *final(self)),
            exists|row: Option<usize>|
                #![trigger index_view(row)]
                revealed_line(old(self).diff, final(self).diff, location.line, row) && match row {
                    Some(r) => found && final(self).cursor == r && final(self).scroll == (if r >= page
                        / 2 {
                        r - page / 2
                    } else {
                        0
                    }),
                    None => !found && final(self).cursor == old(self).cursor && final(self).scroll
                        == old(self).scroll,
                },
    {
        self.column = location.byte_column;
        self.source_location = Some(location.duplicate());
        let row = self.diff.reveal_line(location.line);
        match row {
            Some(r) => {
                self.jump_to_row(r, page);
                // `row` witnesses the postcondition's `exists`.
                assert(revealed_line(old(self).diff, self.diff, location.line, row) && index_view(row) == index_view(row));
                true
            },
            None => {
                assert(revealed_line(old(self).diff, self.diff, location.line, row) && index_view(row) == index_view(row));
                false
            },
        }
    }

    /// Puts the cursor back where a location taken earlier was: at the
    /// row it is revealed on, else at `fallback_row` within the diff.
    pub fn restore_presentation_location(
        &mut self,
        location: Option<PresentationLocation>,
        fallback_row: usize,
        column: usize,
    )
        requires
            old(self).well_formed(),
        ensures
            final(self).well_formed(),
            final(self).column == column,
            final(self).source_location is None,
            exists|row: Option<usize>|
                #![trigger index_view(row)]
                match location {
                    Some(PresentationLocation::NewLine(line)) => revealed_line(
                        old(self).diff,
                        final(self).diff,
                        line,
                        row,
                    ),
                    Some(PresentationLocation::OldLine(line)) => diff_shown(old(self).diff, final(self).diff)
                        && index_view(row) == first_passing(
                        final(self).diff.rows_view(),
                        final(self).diff.source@,
                        RowTest::OldLine(display_line(line)),
                        0,
                        final(self).diff.rows_view().len() as int,
                    ),
                    None => row is None && final(self).diff == old(self).diff,
                } && final(self).cursor == match row {
                    Some(r) => r as int,
                    None => if fallback_row < final(self).diff.rows@.len() {
                        fallback_row as int
                    } else if final(self).diff.rows@.len() > 0 {
                        final(self).diff.rows@.len() - 1
                    } else {
                        0
                    },
                },
    {
        let row = match location {
            Some(location) => self.diff.reveal_presentation_location(location),
            None => None,
        };
        let target = match row {
            Some(r) => r,
            None => {
                let last = self.diff.len().saturating_sub(1);
                if fallback_row < last {
                    fallback_row
                } else {
                    last
                }
            },
        };
        // `row` witnesses the postcondition's `exists`.
        assert(index_view(row) == index_view(row));
        self.column = column;
        self.clear_source_location();
        self.cursor = target;
    }

    /// The disk position of the cursor: its line and column on the file's
    /// disk path (else its review path), or the position it came from when
    /// its row has no line.
    pub fn cursor_location(&self) -> (location: Option<SourceLocation>)
        requires
            self.well_formed(),
        ensures
            is_cursor_location(*self, location),
            match (if self.cursor < self.diff.rows@.len() {
                position_of(self.diff.rows_view()[self.cursor as int], self.diff.source@, self.diff.whole_file)
            } else {
                None
            }) {
                Some((line, _)) => location matches Some(l) && l.line == line && l.end_line == line
                    && l.byte_column == self.column && l.end_byte_column == self.column && l.path@
                    == match self.disk_path {
                    Some(p) => p@,
                    None => self.path@,
                },
                None => location == self.source_location,
            },
    {
        match self.diff.source_position(self.cursor) {
            Some((line, _)) => {
                let path = match &self.disk_path {
                    Some(p) => p.clone(),
                    None => self.path.clone(),
                };
                Some(
                    SourceLocation {
                        path,
                        line,
                        byte_column: self.column,
                        end_line: line,
                        end_byte_column: self.column,
                    },
                )
            },
            None => match &self.source_location {
                Some(location) => Some(location.duplicate()),
                None => None,
            },
        }
    }

    /// Marks the diff as loading and names the path to load, unless the
    /// diff is already there, the whole file can be shown, or it is
    /// loading.
    pub fn start_diff_load(&mut self) -> (path: Option<String>)
        ensures
            ({
                let idle = old(self).diff.source@.len() == 0 && !(old(self).diff.file_rows is Some
                    || old(self).diff.view is File) && !old(self).loading;
                &&& idle ==> (path matches Some(p) && p@ == old(self).path@ && *final(self) == (
                ReviewFile { loading: true, ..*old(self) }))
                &&& !idle ==> path is None && *final(self) == *old(self)
            }),
            final(self).diff == old(self).diff,
            final(self).path == old(self).path,
            final(self).cursor == old(self).cursor,
            final(self).status == old(self).status,
    {
        if !self.diff.is_empty() || self.diff.can_show_file() || self.loading {
            return None;
        }
        self.loading = true;
        Some(self.path.clone())
    }

    /// The cursor moved to row `target`, kept within the diff; moving to
    /// the first row also scrolls to the top.
    pub fn move_cursor_to(&mut self, target: usize)
        requires
            old(self).well_formed(),
        ensures
            final(self).well_formed(),
            final(self).cursor == (if target < old(self).diff.rows@.len() {
                target as int
            } else if old(self).diff.rows@.len() > 0 {
                old(self).diff.rows@.len() - 1
            } else {
                0
            }),
            final(self).scroll == (if target == 0 { 0 } else { old(self).scroll }),
            final(self).source_location is None,
            final(self).diff == old(self).diff,
            final(self).column == old(self).column,
            final(self).path == old(self).path,
            final(self).status == old(self).status,
            *final(self) == (ReviewFile {
                cursor: final(self).cursor,
                scroll: final(self).scroll,
                source_location: None,
                ..*old(self)
            }),
    {
        let last = self.diff.len().saturating_sub(1);
        self.cursor = if target < last {
            target
        } else {
            last
        };
        if target == 0 {
            self.scroll = 0;
        }
        self.clear_source_location();
    }

    /// Applies a control of the diff pane; when the rows change, the
    /// cursor and the scroll go back to the top. Says whether they changed.
    pub fn apply_control(&mut self, control: DiffControl) -> (changed: bool)
        requires
            old(self).well_formed(),
        ensures
            final(self).well_formed(),
            changed == match control {
                DiffControl::ExpandAll => has_gap(old(self).diff.rows_view()),
                DiffControl::ContractAll => has_expanded(old(self).diff.rows_view()),
                DiffControl::ShowFile => old(self).diff.view is Diff && old(self).diff.file_rows is Some,
                DiffControl::CloseFile => old(self).diff.view is File,
            },
            match control {
                DiffControl::ExpandAll => final(self).diff.rows_view() == unfold(old(self).diff.rows_view()),
                DiffControl::ContractAll => changed ==> final(self).diff.rows_view() == contract(
                    old(self).diff.rows_view(),
                ),
                DiffControl::ShowFile => file_shown(old(self).diff, final(self).diff),
                DiffControl::CloseFile => diff_shown(old(self).diff, final(self).diff),
            },
            changed ==> final(self).cursor == 0 && final(self).scroll == 0
                && final(self).source_location is None,
            !changed ==> final(self).cursor == old(self).cursor && final(self).scroll == old(
                self,
            ).scroll && final(self).source_location == old(self).source_location,
            final(self).column == old(self).column,
            final(self).path == old(self).path,
            final(self).status == old(self).status,
    {
        let changed = match control {
            DiffControl::ExpandAll => self.diff.expand_all(),
            DiffControl::ContractAll => self.diff.contract_all(),
            DiffControl::ShowFile => self.diff.show_file(),
            DiffControl::CloseFile => self.diff.show_diff(),
        };
        if changed {
            self.cursor = 0;
            self.scroll = 0;
            self.clear_source_location();
        }
        changed
    }
}

impl ReviewFile {
    /// Carries over from the same file before a refresh its cursor, scroll
    /// and column and, when the snapshot did not change, its diff, its
    /// source position and whether it is loading. Says whether the file's
    /// parent directories open: its review state changed, and not to
    /// reviewed.
    pub fn refresh_from(&mut self, previous: ReviewFile, same_snapshot: bool) -> (expand: bool)
        requires
            old(self).well_formed(),
            previous.well_formed(),
        ensures
            final(self).well_formed(),
            expand == (old(self).status != previous.status && old(self).status != ReviewStatus::Reviewed),
            final(self).cursor == previous.cursor,
            final(self).scroll == previous.scroll,
            final(self).column == previous.column,
            same_snapshot ==> final(self).diff == previous.diff && final(self).source_location
                == previous.source_location && final(self).loading == previous.loading,
            !same_snapshot ==> final(self).diff == old(self).diff && final(self).source_location
                == old(self).source_location && final(self).loading == old(self).loading,
            final(self).path == old(self).path,
            final(self).status == old(self).status,
            final(self).temporary == old(self).temporary,
    {
        let expand = needs_parent_expansion(self.status, previous.status);
        self.cursor = previous.cursor;
        self.scroll = previous.scroll;
        self.column = previous.column;
        if same_snapshot {
            self.source_location = previous.source_location;
            self.diff = previous.diff;
            self.loading = previous.loading;
        }
        expand
    }

    /// Takes a newly loaded diff: the cursor stays within it and the view
    /// does not scroll past the cursor. Returns the disk position of the
    /// cursor in the diff it replaced.
    pub fn take_loaded_diff(&mut self, diff: DiffPresentation) -> (previous: Option<SourceLocation>)
        requires
            old(self).well_formed(),
            diff.well_formed(),
        ensures
            final(self).well_formed(),
            final(self).diff == diff,
            !final(self).loading,
            final(self).cursor == (if old(self).cursor < diff.rows@.len() {
                old(self).cursor as int
            } else if diff.rows@.len() > 0 {
                diff.rows@.len() - 1
            } else {
                0
            }),
            final(self).scroll == (if old(self).scroll <= final(self).cursor {
                old(self).scroll
            } else {
                final(self).cursor
            }),
            match (if old(self).cursor < old(self).diff.rows@.len() {
                position_of(
                    old(self).diff.rows_view()[old(self).cursor as int],
                    old(self).diff.source@,
                    old(self).diff.whole_file,
                )
            } else {
                None
            }) {
                Some((line, _)) => previous matches Some(l) && l.line == line && l.byte_column
                    == old(self).column,
                None => previous == old(self).source_location,
            },
            final(self).column == old(self).column,
            final(self).source_location == old(self).source_location,
            final(self).path == old(self).path,
            final(self).display_path == old(self).display_path,
            final(self).status == old(self).status,
            *final(self) == diff_taken(*old(self), diff),
            is_cursor_location(*old(self), previous),
    {
        let previous = self.cursor_location();
        self.diff = diff;
        self.loading = false;
        let last = self.diff.len().saturating_sub(1);
        if self.cursor > last {
            self.cursor = last;
        }
        if self.scroll > self.cursor {
            self.scroll = self.cursor;
        }
        previous
    }
}

impl ReviewFile {
    /// Whether some row of the diff matches a non-empty `query`.
    pub fn matches_search(&self, query: &str) -> (matches: bool)
        ensures
            matches == (query@.len() > 0 && passing_rows(
                self.diff.rows_view(),
                self.diff.source@,
                RowTest::Query(query),
                self.diff.rows@.len() as int,
            ).len() > 0),
    {
        if query.is_empty() {
            return false;
        }
        let rows = self.diff.matching_rows(query);
        rows.len() > 0
    }

    /// The cursor follows a search being typed: with an empty query it
    /// goes back to where the search started, else to the first match
    /// after that row, wrapping around, with the match half a page down.
    pub fn follow_search(&mut self, query: &str, origin: usize, page: usize)
        requires
            old(self).well_formed(),
        ensures
            final(self).well_formed(),
            final(self).diff == old(self).diff,
            final(self).column == old(self).column,
            final(self).path == old(self).path,
            final(self).status == old(self).status,
            query@.len() == 0 ==> final(self).cursor == (if origin < old(self).diff.rows@.len() {
                origin as int
            } else if old(self).diff.rows@.len() > 0 {
                old(self).diff.rows@.len() - 1
            } else {
                0
            }) && final(self).source_location is None && final(self).scroll == old(self).scroll,
            query@.len() > 0 ==> match found_row(
                old(self).diff.rows_view(),
                old(self).diff.source@,
                query,
                origin as int,
                SearchDirection::Forward,
            ) {
                Some(row) => final(self).cursor == row && final(self).scroll == (if row >= page / 2 {
                    row - page / 2
                } else {
                    0
                }) && final(self).source_location is None,
                None => final(self).cursor == old(self).cursor && final(self).scroll == old(
                    self,
                ).scroll && final(self).source_location == old(self).source_location,
            },
    {
        if query.is_empty() {
            let last = self.diff.len().saturating_sub(1);
            self.cursor = if origin < last {
                origin
            } else {
                last
            };
            self.clear_source_location();
            return;
        }
        if let Some(row) = self.diff.find_matching_row(query, origin, SearchDirection::Forward) {
            self.clear_source_location();
            self.jump_to_row(row, page);
        }
    }
}

impl ReviewFile {
    /// `v` on the cursor row: on a row of code it starts a selection at
    /// the cursor, or fixes a selection that still follows the cursor;
    /// elsewhere the selection stays as it is.
    pub open spec fn visual_of(self, selection: Option<Selection>) -> Option<Selection> {
        if self.cursor < self.diff.rows@.len() && selectable_row(
            self.diff.rows_view()[self.cursor as int],
            self.diff.source@,
        ) {
            match selection {
                Some(open) => if !open.fixed {
                    Some(Selection { fixed: true, ..open })
                } else {
                    Some(Selection { anchor: self.cursor, cursor: self.cursor, fixed: false })
                },
                None => Some(Selection { anchor: self.cursor, cursor: self.cursor, fixed: false }),
            }
        } else {
            selection
        }
    }

    /// The selection after `v` on the cursor row.
    pub fn visual(&self, selection: Option<Selection>) -> (after: Option<Selection>)
        requires
            self.well_formed(),
        ensures
            after == self.visual_of(selection),
    {
        if !self.diff.is_selectable(self.cursor) {
            return selection;
        }
        match selection {
            Some(open) => if !open.fixed {
                Some(Selection { anchor: open.anchor, cursor: open.cursor, fixed: true })
            } else {
                Some(Selection { anchor: self.cursor, cursor: self.cursor, fixed: false })
            },
            None => Some(Selection { anchor: self.cursor, cursor: self.cursor, fixed: false }),
        }
    }

    /// Whether a selection holds at least one row of code, so that it can
    /// be sent.
    pub fn selection_holds_code(&self, selection: Selection) -> (holds: bool)
        requires
            self.well_formed(),
        ensures
            holds == exists|index: int|
                #![trigger self.diff.rows_view()[index]]
                (if selection.anchor <= selection.cursor {
                    selection.anchor
                } else {
                    selection.cursor
                }) <= index <= (if selection.anchor <= selection.cursor {
                    selection.cursor
                } else {
                    selection.anchor
                }) && index < self.diff.rows@.len() && selectable_row(
                    self.diff.rows_view()[index],
                    self.diff.source@,
                ),
    {
        let low = if selection.anchor <= selection.cursor {
            selection.anchor
        } else {
            selection.cursor
        };
        let high = if selection.anchor <= selection.cursor {
            selection.cursor
        } else {
            selection.anchor
        };
        let end = if high < self.diff.len() {
            high + 1
        } else {
            self.diff.len()
        };
        let mut index = low;
        while index < end
            invariant
                self.well_formed(),
                low <= index,
                low == (if selection.anchor <= selection.cursor { selection.anchor } else { selection.cursor }),
                high == (if selection.anchor <= selection.cursor { selection.cursor } else { selection.anchor }),
                end <= self.diff.rows@.len(),
                end == (if high < self.diff.rows@.len() { high + 1 } else { self.diff.rows@.len() as int }),
                forall|j: int|
                    #![trigger self.diff.rows_view()[j]]
                    low <= j < index && j < self.diff.rows@.len() ==> !selectable_row(
                        self.diff.rows_view()[j],
                        self.diff.source@,
                    ),
            decreases end - index,
        {
            if self.diff.is_selectable(index) {
                assert(low <= index <= high);
                assert(selectable_row(self.diff.rows_view()[index as int], self.diff.source@));
                return true;
            }
            index += 1;
        }
        false
    }
}

/// `v` twice on a row of code, with no selection following the cursor,
/// leaves that row selected and fixed.
pub proof fn law_visual_twice_fixes_the_row(file: ReviewFile, selection: Option<Selection>)
    requires
        file.cursor < file.diff.rows@.len(),
        selectable_row(file.diff.rows_view()[file.cursor as int], file.diff.source@),
        selection is None || selection->0.fixed,
    ensures
        file.visual_of(file.visual_of(selection)) == Some(
            Selection { anchor: file.cursor, cursor: file.cursor, fixed: true },
        ),
{
}

impl ReviewFile {
    /// Puts the cursor on presented row `row` and, when the row shows a
    /// line, at the grapheme under `display_column` of it.
    pub fn place_cursor(&mut self, row: usize, display_column: Option<usize>)
        requires
            old(self).well_formed(),
        ensures
            final(self).well_formed(),
            final(self).cursor == row,
            final(self).source_location is None,
            final(self).column == match display_column {
                Some(column) => match (if row < old(self).diff.rows@.len() {
                    position_of(old(self).diff.rows_view()[row as int], old(self).diff.source@, old(self).diff.whole_file)
                } else {
                    None
                }) {
                    Some((_, text)) => crate::app::byte_at_display_column(
                        crate::unicode::extended_graphemes(text),
                        column as int,
                    ) as usize,
                    None => old(self).column,
                },
                None => old(self).column,
            },
            final(self).diff == old(self).diff,
            final(self).scroll == old(self).scroll,
            final(self).path == old(self).path,
            final(self).status == old(self).status,
    {
        self.cursor = row;
        self.clear_source_location();
        if let Some(column) = display_column {
            if let Some((_, line)) = self.diff.source_position(row) {
                self.column = crate::app::display_column_to_byte(line.as_str(), column);
            }
        }
    }
}

/// The index of the first file whose path is `path`.
pub fn file_position(files: &Vec<ReviewFile>, path: &str) -> (index: Option<usize>)
    ensures
        match index {
            Some(i) => i < files@.len() && files@[i as int].path@ == path@ && forall|j: int|
                0 <= j < i ==> (#[trigger] files@[j]).path@ != path@,
            None => forall|j: int| 0 <= j < files@.len() ==> (#[trigger] files@[j]).path@ != path@,
        },
{
    let mut i: usize = 0;
    while i < files.len()
        invariant
            i <= files@.len(),
            forall|j: int| 0 <= j < i ==> (#[trigger] files@[j]).path@ != path@,
        decreases files@.len() - i,
    {
        if crate::wrap::same_text(files[i].path.as_str(), path) {
            return Some(i);
        }
        i += 1;
    }
    None
}

/// The file selected after the files were reloaded: the one at the path
/// selected before, else the first; none past the last.
pub fn reselected_file(files: &Vec<ReviewFile>, selected_path: Option<&str>) -> (selection: (
    usize,
    bool,
))
    ensures
        ({
            let found: Option<int> = match selected_path {
                Some(path) => if exists|i: int|
                    0 <= i < files@.len() && (#[trigger] files@[i]).path@ == path@ {
                    Some(
                        choose|i: int|
                            0 <= i < files@.len() && (#[trigger] files@[i]).path@ == path@ && forall|
                                j: int,
                            |
                                0 <= j < i ==> (#[trigger] files@[j]).path@ != path@,
                    )
                } else {
                    None
                },
                None => None,
            };
            let wanted: int = match found {
                Some(i) => i,
                None => 0,
            };
            &&& selection.1 == found is Some
            &&& selection.0 == (if files@.len() == 0 {
                0
            } else if wanted < files@.len() {
                wanted
            } else {
                files@.len() - 1
            })
        }),
{
    let found = match selected_path {
        Some(path) => file_position(files, path),
        None => None,
    };
    proof {
        if let Some(path) = selected_path {
            if let Some(i) = found {
                let chosen = choose|k: int|
                    0 <= k < files@.len() && (#[trigger] files@[k]).path@ == path@ && forall|j: int|
                        0 <= j < k ==> (#[trigger] files@[j]).path@ != path@;
                assert(0 <= i < files@.len() && files@[i as int].path@ == path@);
                if chosen < i {
                    assert(files@[chosen].path@ != path@);
                } else if chosen > i {
                    assert(files@[i as int].path@ != path@);
                }
            }
        }
    }
    let wanted = match found {
        Some(i) => i,
        None => 0,
    };
    let last = files.len().saturating_sub(1);
    (if wanted < last {
        wanted
    } else {
        last
    }, found.is_some())
}

/// Whether a file is a temporary view of a source.
pub open spec fn temporary_file() -> spec_fn(ReviewFile) -> bool {
    |file: ReviewFile| file.temporary
}

/// The temporary files of the review before a refresh of the same
/// snapshot, kept after the refreshed files.
pub fn keep_temporary_files(files: &mut Vec<ReviewFile>, earlier: Vec<ReviewFile>)
    ensures
        final(files)@ == old(files)@ + earlier@.filter(temporary_file()),
{
    let ghost start = files@;
    let mut earlier = earlier;
    let ghost all = earlier@;
    let mut kept: Vec<ReviewFile> = Vec::new();
    while earlier.len() > 0
        invariant
            earlier@ == all.take(earlier@.len() as int),
            kept@.reverse() == all.skip(earlier@.len() as int).filter(temporary_file()),
            earlier@.len() <= all.len(),
        decreases earlier@.len(),
    {
        let ghost n = earlier@.len();
        let file = earlier.pop().unwrap();
        proof {
            assert(file == all[n - 1]);
            assert(earlier@ =~= all.take(n - 1));
            let tail = all.skip(n - 1);
            assert(tail =~= seq![all[n - 1]] + all.skip(n as int));
            Seq::filter_distributes_over_add(seq![all[n - 1]], all.skip(n as int), temporary_file());
            reveal(Seq::filter);
            assert(seq![all[n - 1]].drop_last() =~= Seq::<ReviewFile>::empty());
        }
        if file.temporary {
            let ghost before = kept@;
            kept.push(file);
            proof {
                assert(kept@.reverse() =~= seq![all[n - 1]] + before.reverse());
            }
        } else {
            proof {
                reveal_with_fuel(Seq::filter, 2);
                assert(seq![all[n - 1]].drop_last() =~= Seq::<ReviewFile>::empty());
                assert(!temporary_file()(all[n - 1]));
                assert(seq![all[n - 1]].filter(temporary_file()) =~= Seq::<ReviewFile>::empty());
            }
        }
    }
    assert(all.skip(0) =~= all);
    while kept.len() > 0
        invariant
            files@ == start + (all.filter(temporary_file())).take(
                all.filter(temporary_file()).len() - kept@.len(),
            ),
            kept@.reverse() == all.filter(temporary_file()).skip(
                all.filter(temporary_file()).len() - kept@.len(),
            ),
            kept@.len() <= all.filter(temporary_file()).len(),
        decreases kept@.len(),
    {
        let ghost temporaries = all.filter(temporary_file());
        let ghost n = kept@.len();
        let ghost reversed = kept@.reverse();
        let file = kept.pop().unwrap();
        proof {
            assert(reversed[0] == file);
            assert(temporaries[temporaries.len() - n] == reversed[0]);
            assert(kept@.reverse() =~= reversed.drop_first());
            assert(temporaries.skip(temporaries.len() - n + 1) =~= temporaries.skip(temporaries.len() - n).drop_first());
        }
        files.push(file);
        proof {
            assert(temporaries.take(temporaries.len() - n + 1) =~= temporaries.take(temporaries.len() - n).push(file));
        }
    }
    let ghost temporaries = all.filter(temporary_file());
    assert(temporaries.take(temporaries.len() as int) =~= temporaries);
}

impl Selection {
    /// An open selection follows the cursor to `cursor`; a fixed one
    /// stays.
    pub fn follow(&mut self, cursor: usize)
        ensures
            final(self).cursor == (if old(self).fixed { old(self).cursor } else { cursor }),
            final(self).anchor == old(self).anchor,
            final(self).fixed == old(self).fixed,
    {
        if !self.fixed {
            self.cursor = cursor;
        }
    }
}

/// Whether a new review state opens the file's parent directories: it
/// changed, and not to reviewed.
pub fn needs_parent_expansion(status: ReviewStatus, previous: ReviewStatus) -> (expand: bool)
    ensures
        expand == (status != previous && status != ReviewStatus::Reviewed),
{
    status != previous && !matches!(status, ReviewStatus::Reviewed)
}

} // verus!

verus! {

/// The palette color of a file's row.
#[derive(Clone, Copy, Debug, PartialEq, Eq, Structural)]
pub enum FileColor {
    Dim,
    Insertion,
    Deletion,
    Focus,
    Warning,
}

/// The marker shown after a file that a guide item points at.
pub const COMMENT_MARKER: &'static str = " 💬";

/// How a file's row looks beside its text: on the cursor background when
/// it is the selected file, and bold when it matches the search.
#[derive(Clone, Copy, Debug, PartialEq, Eq, Structural)]
pub struct FileRowStyle {
    pub cursor_background: bool,
    pub bold: bool,
}

/// The color of a file's row: dim for a temporary file, else by how it
/// changed.
pub open spec fn file_color(temporary: bool, change: ChangeKind) -> FileColor {
    if temporary {
        FileColor::Dim
    } else {
        match change {
            ChangeKind::Added => FileColor::Insertion,
            ChangeKind::Deleted => FileColor::Deletion,
            ChangeKind::Modified => FileColor::Focus,
            _ => FileColor::Warning,
        }
    }
}

impl ReviewFile {
    /// The name shown on the file's row: the tree's name, except for a
    /// temporary file shown under another path, which shows that path.
    pub fn row_name(&self, tree_name: &str) -> (name: String)
        ensures
            name@ == if self.temporary && self.path@ != self.display_path@ {
                self.display_path@
            } else {
                tree_name@
            },
    {
        if self.temporary && !crate::wrap::same_text(self.path.as_str(), self.display_path.as_str()) {
            self.display_path.clone()
        } else {
            tree_name.to_owned()
        }
    }

    /// The color of the file's row.
    pub fn row_color(&self) -> (color: FileColor)
        ensures
            color == file_color(self.temporary, self.change),
    {
        if self.temporary {
            return FileColor::Dim;
        }
        match self.change {
            ChangeKind::Added => FileColor::Insertion,
            ChangeKind::Deleted => FileColor::Deletion,
            ChangeKind::Modified => FileColor::Focus,
            _ => FileColor::Warning,
        }
    }

    /// The comment marker of the file's row: shown while the file still
    /// needs review and some guide item points at its path.
    pub fn comment_marker(&self, guide_paths: &Vec<String>) -> (marker: Option<&'static str>)
        ensures
            marker == if self.status != ReviewStatus::Reviewed && exists|i: int|
                0 <= i < guide_paths@.len() && (#[trigger] guide_paths@[i])@ == self.path@ {
                Some(COMMENT_MARKER)
            } else {
                None::<&'static str>
            },
    {
        if self.status == ReviewStatus::Reviewed {
            return None;
        }
        let mut i: usize = 0;
        while i < guide_paths.len()
            invariant
                i <= guide_paths@.len(),
                forall|j: int| 0 <= j < i ==> guide_paths@[j]@ != self.path@,
                self.status != ReviewStatus::Reviewed,
            decreases guide_paths.len() - i,
        {
            if crate::wrap::same_text(guide_paths[i].as_str(), self.path.as_str()) {
                assert(guide_paths@[i as int]@ == self.path@);
                assert(self.status != ReviewStatus::Reviewed);
                return Some(COMMENT_MARKER);
            }
            i += 1;
        }
        None
    }

    /// The style of the file's row, given whether it is the selected file
    /// and the search query, if any.
    pub fn row_style(&self, selected: bool, query: Option<&str>) -> (style: FileRowStyle)
        ensures
            style.cursor_background == selected,
            style.bold == match query {
                Some(q) => q@.len() > 0 && passing_rows(
                    self.diff.rows_view(),
                    self.diff.source@,
                    RowTest::Query(q),
                    self.diff.rows@.len() as int,
                ).len() > 0,
                None => false,
            },
    {
        let bold = match query {
            Some(q) => self.matches_search(q),
            None => false,
        };
        FileRowStyle { cursor_background: selected, bold }
    }
}

} // verus!

verus! {

/// Whether `snapped` is byte `column` of `text` moved back to the nearest
/// character boundary within the text.
pub open spec fn snapped_column(text: Seq<char>, column: usize, snapped: usize) -> bool {
    let bytes = vstd::utf8::encode_utf8(text);
    &&& snapped <= column
    &&& snapped <= bytes.len()
    &&& vstd::utf8::is_char_boundary(bytes, snapped as int)
    &&& forall|b: int|
        snapped < b <= column && b <= bytes.len() ==> !vstd::utf8::is_char_boundary(bytes, b)
}

impl ReviewFile {
    /// Puts the cursor at byte `column` of its row's text, moved back to a
    /// character boundary within the text, and forgets the disk position.
    /// A cursor on a row without text changes nothing. Says whether the
    /// row had text.
    pub fn set_source_column(&mut self, column: usize) -> (placed: bool)
        requires
            old(self).well_formed(),
        ensures
            final(self).well_formed(),
            match (if old(self).cursor < old(self).diff.rows@.len() {
                position_of(
                    old(self).diff.rows_view()[old(self).cursor as int],
                    old(self).diff.source@,
                    old(self).diff.whole_file,
                )
            } else {
                None
            }) {
                Some((_, text)) => {
                    &&& placed
                    &&& *final(self) == (ReviewFile {
                        column: final(self).column,
                        source_location: None,
                        ..*old(self)
                    })
                    &&& snapped_column(text, column, final(self).column)
                },
                None => !placed && *final(self) == *old(self),
            },
    {
        let text = match self.diff.source_position(self.cursor) {
            Some((_, text)) => text,
            None => return false,
        };
        let boundary = crate::motion::column_at_boundary(text.as_str(), column);
        self.column = boundary;
        self.clear_source_location();
        true
    }
}

} // verus!
