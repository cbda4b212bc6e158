//! The files of a review, the selected one and the file tree that lists
//! them.

use vstd::prelude::*;

use crate::file_tree::{
    expand_parents, files_view, first_position, hits_fold_marker, is_parent, nearest_at_or_after,
    toggle_collapsed, tree_rows, visible_files, FileTree, RowView, law_tree_shows_uncollapsed_files,
    lemma_shown_files_ordered, shown_files,
};
use crate::moves::{offset_by, offset_of};
use crate::text::strings_contain;
use crate::moves::scroll_showing;
use crate::navigation::{file_states_view, restorable, unit_of, FileReviewState, LocationHistory, ReviewLocation, older_after_jump, same_line};
use crate::presentation::{location_of, position_of, DiffPresentation};
use crate::app::{Focus, Selection};
use crate::navigation::SourceLocation;
use crate::wrap::same_text;
use crate::review_file::{needs_parent_expansion, snapped_column, diff_taken, is_cursor_location,
    location_revealed, temporary_file, ReviewFile};
use crate::files::ReviewStatus;

verus! {

/// The files of the review as the tree lists them: path and label.
pub open spec fn listed(files: Seq<ReviewFile>) -> Seq<(Seq<char>, Seq<char>)> {
    files.map_values(|file: ReviewFile| (file.path@, file.display_path@))
}

/// The first row of `tree` that shows file `file`.
pub open spec fn first_row_of_file(tree: Seq<RowView>, file: nat) -> Option<int> {
    if exists|r: int| crate::file_tree::is_file_row(tree, r, file) {
        Some(
            choose|r: int|
                crate::file_tree::is_file_row(tree, r, file) && forall|j: int|
                    0 <= j < r ==> !crate::file_tree::is_file_row(tree, j, file),
        )
    } else {
        None
    }
}

/// The scroll of the file tree that shows the row of file `selected` in
/// `page` rows from `scroll`: the least change that shows it, or the top
/// when it has no row.
pub open spec fn selected_row_scroll(tree: Seq<RowView>, selected: usize, scroll: usize, page: usize) -> int {
    match first_row_of_file(tree, selected as nat) {
        Some(r) => scroll_showing(r as usize, scroll, page),
        None => 0,
    }
}

/// The files of a review, the selected one, and the file tree with its
/// scroll.
pub struct FileSelection {
    pub files: Vec<ReviewFile>,
    pub selected: usize,
    pub collapsed: Vec<String>,
    pub tree: FileTree,
    pub scroll: usize,
}

impl FileSelection {
    /// Every file is well formed and the tree lists the files.
    pub open spec fn well_formed(&self) -> bool {
        &&& forall|i: int| 0 <= i < self.files@.len() ==> (#[trigger] self.files@[i]).well_formed()
        &&& self.tree@ == tree_rows(listed(self.files@), self.collapsed@)
    }

    /// `file` unchanged but for its source position, which is forgotten.
    pub open spec fn without_source(file: ReviewFile) -> ReviewFile {
        ReviewFile { source_location: None, ..file }
    }

    /// The files after selecting `file`: the file selected before forgets
    /// its source position when the selection moves.
    pub open spec fn files_after_select(files: Seq<ReviewFile>, selected: usize, file: usize) -> Seq<
        ReviewFile,
    > {
        if file != selected && selected < files.len() {
            files.update(selected as int, Self::without_source(files[selected as int]))
        } else {
            files
        }
    }

    /// A selection of `files` with the first selected and `collapsed`
    /// directories folded.
    pub fn new(files: Vec<ReviewFile>, collapsed: Vec<String>) -> (selection: Self)
        requires
            forall|i: int| 0 <= i < files@.len() ==> (#[trigger] files@[i]).well_formed(),
        ensures
            selection.well_formed(),
            selection.files@ == files@,
            selection.collapsed@ == collapsed@,
            selection.selected == 0,
            selection.scroll == 0,
    {
        let tree = Self::tree_of(&files, &collapsed);
        FileSelection { files, selected: 0, collapsed, tree, scroll: 0 }
    }

    /// The tree that lists `files` with `collapsed` directories folded.
    fn tree_of(files: &Vec<ReviewFile>, collapsed: &Vec<String>) -> (tree: FileTree)
        ensures
            tree@ == tree_rows(listed(files@), collapsed@),
    {
        let mut entries: Vec<(&str, &str)> = Vec::new();
        let mut i: usize = 0;
        while i < files.len()
            invariant
                i <= files@.len(),
                files_view(entries@) == listed(files@).take(i as int),
            decreases files@.len() - i,
        {
            let path = files[i].path.as_str();
            let label = files[i].display_path.as_str();
            let ghost before = entries@;
            assert(files_view(before).len() == before.len());
            assert(before.len() == i);
            entries.push((path, label));
            proof {
                assert forall|k: int| 0 <= k <= i implies #[trigger] files_view(entries@)[k] == listed(
                    files@,
                ).take(i + 1)[k] by {
                    if k < i {
                        assert(entries@[k] == before[k]);
                        assert(files_view(before)[k] == listed(files@).take(i as int)[k]);
                    } else {
                        assert(entries@[k] == (path, label));
                    }
                }
            }
            i += 1;
            assert(files_view(entries@) =~= listed(files@).take(i as int));
        }
        assert(listed(files@).take(files@.len() as int) =~= listed(files@));
        FileTree::new(entries.as_slice(), collapsed.as_slice())
    }

    /// Lists the files again, after they or the folded directories changed.
    pub fn rebuild_tree(&mut self)
        requires
            forall|i: int| 0 <= i < old(self).files@.len() ==> (#[trigger] old(self).files@[i]).well_formed(),
        ensures
            final(self).well_formed(),
            final(self).files == old(self).files,
            final(self).collapsed == old(self).collapsed,
            final(self).selected == old(self).selected,
            final(self).scroll == old(self).scroll,
    {
        self.tree = Self::tree_of(&self.files, &self.collapsed);
    }

    /// Selects `file`; the file selected before forgets its source
    /// position when the selection moves.
    pub fn select(&mut self, file: usize)
        requires
            old(self).well_formed(),
        ensures
            final(self).well_formed(),
            final(self).selected == file,
            final(self).files@ == Self::files_after_select(old(self).files@, old(self).selected, file),
            final(self).collapsed == old(self).collapsed,
            final(self).tree == old(self).tree,
            final(self).scroll == old(self).scroll,
    {
        if file != self.selected && self.selected < self.files.len() {
            let index = self.selected;
            let mut current = self.files.remove(index);
            current.clear_source_location();
            self.files.insert(index, current);
            proof {
                assert(self.files@ =~= Self::files_after_select(old(self).files@, old(self).selected, file));
                assert(listed(self.files@) =~= listed(old(self).files@));
                assert forall|i: int| 0 <= i < self.files@.len() implies (#[trigger] self.files@[i]).well_formed() by {
                    if i != index {
                        assert(self.files@[i] == old(self).files@[i]);
                    } else {
                        assert(self.files@[i].diff == old(self).files@[i].diff);
                    }
                }
            }
        }
        self.selected = file;
    }

    /// The scroll of the file tree that shows the selected file's row: the
    /// least change that shows it, or the top when it has no row.
    pub fn keep_selected_visible(&mut self, page: usize)
        requires
            old(self).scroll + page <= usize::MAX,
        ensures
            final(self).scroll == selected_row_scroll(
                old(self).tree@,
                old(self).selected,
                old(self).scroll,
                page,
            ),
            final(self).files == old(self).files,
            final(self).selected == old(self).selected,
            final(self).tree == old(self).tree,
            final(self).collapsed == old(self).collapsed,
    {
        let row = self.tree.row_for_file(self.selected);
        assert(self.tree.rows.len() == self.tree@.len());
        proof {
            if let Some(r) = row {
                let chosen = choose|k: int|
                    crate::file_tree::is_file_row(self.tree@, k, self.selected as nat) && forall|j: int|
                        0 <= j < k ==> !crate::file_tree::is_file_row(self.tree@, j, self.selected as nat);
                if chosen < r {
                } else if chosen > r {
                    assert(!crate::file_tree::is_file_row(self.tree@, r as int, self.selected as nat));
                }
            }
        }
        self.scroll = crate::moves::scroll_to_show(row, self.scroll, page);
    }

    /// When the selected file is hidden in a folded directory, selects the
    /// nearest visible file instead; says whether it did.
    pub fn ensure_selected_visible(&mut self) -> (moved: bool)
        requires
            old(self).well_formed(),
        ensures
            final(self).well_formed(),
            ({
                let hidden = forall|j: int| !crate::file_tree::is_file_row(
                    old(self).tree@,
                    j,
                    old(self).selected as nat,
                );
                let nearest = nearest_at_or_after(visible_files(old(self).tree@), old(self).selected as nat);
                &&& moved == (hidden && nearest is Some)
                &&& moved ==> final(self).selected == nearest->0 as usize && final(self).files@
                    == Self::files_after_select(old(self).files@, old(self).selected, final(self).selected)
                &&& !moved ==> final(self).selected == old(self).selected && final(self).files
                    == old(self).files
            }),
            final(self).tree == old(self).tree,
            final(self).collapsed == old(self).collapsed,
            final(self).scroll == old(self).scroll,
    {
        if self.tree.row_for_file(self.selected).is_none() {
            if let Some(file) = self.tree.nearest_visible_file(self.selected) {
                self.select(file);
                return true;
            }
        }
        false
    }

    /// Selects the visible file at position `target` of the tree, or the
    /// last visible file past the end. Returns the file selected, unless
    /// no file is visible.
    pub fn select_visible(&mut self, target: usize) -> (file: Option<usize>)
        requires
            old(self).well_formed(),
        ensures
            final(self).well_formed(),
            ({
                let visible = visible_files(old(self).tree@);
                let position = if target < visible.len() {
                    target as int
                } else {
                    visible.len() - 1
                };
                &&& file is None <==> visible.len() == 0
                &&& file matches Some(f) ==> f == visible[position] as usize && final(self).selected == f
                    && final(self).files@ == Self::files_after_select(old(self).files@, old(self).selected, f)
                &&& file is None ==> final(self).selected == old(self).selected && final(self).files
                    == old(self).files
            }),
            final(self).tree == old(self).tree,
            final(self).collapsed == old(self).collapsed,
            final(self).scroll == old(self).scroll,
    {
        let count = self.tree.visible_file_count();
        let last = count.saturating_sub(1);
        let position = if target < last {
            target
        } else {
            last
        };
        match self.tree.visible_file_at(position) {
            Some(file) => {
                self.select(file);
                Some(file)
            },
            None => None,
        }
    }

    /// Drops the temporary files; the selection stays at its index within
    /// the files left, or moves to the last one.
    pub fn remove_temporary_files(&mut self)
        requires
            old(self).well_formed(),
        ensures
            final(self).well_formed(),
            final(self).files@ == old(self).files@.filter(|file: ReviewFile| !file.temporary),
            final(self).selected == (if old(self).selected < final(self).files@.len() {
                old(self).selected as int
            } else if final(self).files@.len() > 0 {
                final(self).files@.len() - 1
            } else {
                0
            }),
            final(self).collapsed == old(self).collapsed,
            final(self).scroll == old(self).scroll,
    {
        let ghost before = self.files@;
        let mut kept: Vec<ReviewFile> = Vec::new();
        let mut files: Vec<ReviewFile> = Vec::new();
        std::mem::swap(&mut files, &mut self.files);
        let mut rest: Vec<ReviewFile> = Vec::new();
        // Move the files out back to front, then keep them front to back.
        while files.len() > 0
            invariant
                files@ == before.take(files@.len() as int),
                rest@.reverse() == before.skip(files@.len() as int),
                files@.len() <= before.len(),
            decreases files@.len(),
        {
            let ghost n = files@.len();
            let file = files.pop().unwrap();
            proof {
                assert(file == before[n - 1]);
            }
            let ghost previous = rest@;
            assert(previous.reverse().len() == before.len() - n);
            rest.push(file);
            proof {
                assert(rest@.len() == before.len() - n + 1);
                assert(files@ =~= before.take(n - 1));
                assert forall|k: int| 0 <= k < rest@.len() implies #[trigger] rest@.reverse()[k] == before.skip(
                    n - 1,
                )[k] by {
                    let len = rest@.len() as int;
                    assert(rest@.reverse()[k] == rest@[len - 1 - k]);
                    if k > 0 {
                        assert(rest@[len - 1 - k] == previous[len - 1 - k]);
                        assert(previous.reverse()[k - 1] == previous[len - 1 - k]);
                        assert(previous.reverse()[k - 1] == before.skip(n as int)[k - 1]);
                        assert(before.skip(n as int)[k - 1] == before[n + k - 1]);
                    } else {
                        assert(rest@[len - 1] == file);
                    }
                    assert(before.skip(n - 1)[k] == before[n - 1 + k]);
                }
                assert(rest@.reverse() =~= before.skip(n - 1));
            }
        }
        assert(before.skip(0) =~= before);
        while rest.len() > 0
            invariant
                rest@.reverse() == before.skip(before.len() - rest@.len()),
                rest@.len() <= before.len(),
                kept@ == before.take(before.len() - rest@.len()).filter(|file: ReviewFile| !file.temporary),
                forall|i: int| 0 <= i < before.len() ==> (#[trigger] before[i]).well_formed(),
            decreases rest@.len(),
        {
            let ghost n = rest@.len();
            let ghost reversed = rest@.reverse();
            let file = rest.pop().unwrap();
            let ghost at = before.len() - n;
            proof {
                assert(reversed[0] == file);
                assert(before.skip(at)[0] == before[at]);
                assert(rest@.reverse() =~= reversed.drop_first());
                assert(before.skip(at).drop_first() =~= before.skip(at + 1));
                let taken = before.take(at + 1);
                assert(taken.drop_last() =~= before.take(at));
                assert(taken.last() == file);
                reveal(Seq::filter);
            }
            if !file.temporary {
                kept.push(file);
            }
        }
        assert(before.take(before.len() as int) =~= before);
        proof {
            broadcast use vstd::seq_lib::group_filter_ensures;
            assert forall|i: int| 0 <= i < kept@.len() implies (#[trigger] kept@[i]).well_formed() by {
                assert(before.filter(|file: ReviewFile| !file.temporary).contains(kept@[i]));
                before.lemma_filter_contains_rev(|file: ReviewFile| !file.temporary, kept@[i]);
            }
        }
        self.files = kept;
        let last = self.files.len().saturating_sub(1);
        if self.selected > last {
            self.selected = last;
        }
        self.rebuild_tree();
    }
}

impl FileSelection {
    /// Moves the selection `delta` files along the tree from the selected
    /// file (from the first when the selected one is hidden).
    pub fn move_by(&mut self, delta: isize) -> (file: Option<usize>)
        requires
            old(self).well_formed(),
        ensures
            final(self).well_formed(),
            ({
                let visible = visible_files(old(self).tree@);
                let current: int = match first_position(visible, old(self).selected as nat) {
                    Some(p) => p as int,
                    None => 0,
                };
                let target = offset_of(current as usize, delta);
                let position = if target < visible.len() {
                    target
                } else {
                    visible.len() - 1
                };
                &&& file is None <==> visible.len() == 0
                &&& file matches Some(f) ==> f == visible[position] as usize && final(self).selected == f
                    && final(self).files@ == Self::files_after_select(old(self).files@, old(self).selected, f)
            }),
            final(self).tree == old(self).tree,
            final(self).collapsed == old(self).collapsed,
            final(self).scroll == old(self).scroll,
    {
        let current = match self.tree.visible_file_position(self.selected) {
            Some(position) => position,
            None => 0,
        };
        let target = offset_by(current, delta);
        self.select_visible(target)
    }

    /// A click at `column` on tree row `row`: on the fold marker of a
    /// directory it folds or opens that directory, lists the files again
    /// and keeps a visible file selected. Says whether it did.
    pub fn click_directory(&mut self, row: usize, column: u16) -> (toggled: bool)
        requires
            old(self).well_formed(),
        ensures
            final(self).well_formed(),
            toggled == (row < old(self).tree@.len() && (old(self).tree@[row as int] matches RowView::Directory {
                depth,
                ..
            } && column == 1 + 2 * depth)),
            toggled ==> (old(self).tree@[row as int] matches RowView::Directory { path, .. } && forall|
                text: Seq<char>,
            |
                #![trigger strings_contain(final(self).collapsed@, text)]
                strings_contain(final(self).collapsed@, text) == if text == path {
                    !strings_contain(old(self).collapsed@, text)
                } else {
                    strings_contain(old(self).collapsed@, text)
                }),
            !toggled ==> final(self).collapsed == old(self).collapsed && final(self).selected
                == old(self).selected && final(self).files == old(self).files && final(self).tree
                == old(self).tree,
            final(self).scroll == old(self).scroll,
    {
        let directory = match self.tree.directory_at(row) {
            Some((path, depth)) => {
                if hits_fold_marker(column, depth) {
                    Some(path.to_string())
                } else {
                    None
                }
            },
            None => None,
        };
        match directory {
            Some(path) => {
                toggle_collapsed(&mut self.collapsed, path.as_str());
                self.rebuild_tree();
                let _ = self.ensure_selected_visible();
                true
            },
            None => false,
        }
    }

    /// Opens the folded parent directories of the file at `path` and lists
    /// the files again; says whether one was folded.
    pub fn reveal_path(&mut self, path: &str) -> (changed: bool)
        requires
            old(self).well_formed(),
        ensures
            final(self).well_formed(),
            forall|text: Seq<char>|
                #![trigger strings_contain(final(self).collapsed@, text)]
                strings_contain(final(self).collapsed@, text) == (strings_contain(
                    old(self).collapsed@,
                    text,
                ) && !is_parent(path@, text)),
            changed == exists|i: int|
                0 <= i < old(self).collapsed@.len() && is_parent(path@, #[trigger] old(self).collapsed@[i]@),
            final(self).files == old(self).files,
            final(self).selected == old(self).selected,
            final(self).scroll == old(self).scroll,
    {
        let changed = expand_parents(&mut self.collapsed, path);
        self.rebuild_tree();
        changed
    }
}

/// What the history knows of each file: its path, and whether it still
/// needs review.
pub open spec fn review_states(files: Seq<ReviewFile>) -> Seq<(Seq<char>, bool)> {
    files.map_values(|file: ReviewFile| (file.path@, file.status != crate::files::ReviewStatus::Reviewed))
}

impl FileSelection {
    /// The place of the cursor in review unit `review_unit`: a row of the
    /// selected file; for a temporary file its disk position, when it has
    /// one; without a selected file, the revision itself when there is a
    /// review unit.
    pub fn current_location(&self, review_unit: &str) -> (location: Option<ReviewLocation>)
        requires
            self.well_formed(),
        ensures
            location matches Some(l) ==> unit_of(l) == review_unit@,
            self.selected >= self.files@.len() ==> (location is Some <==> review_unit@.len() > 0)
                && (location is Some ==> location->0 is Revision),
            self.selected < self.files@.len() && !self.files@[self.selected as int].temporary ==> ({
                let file = self.files@[self.selected as int];
                location matches Some(ReviewLocation::ReviewFile { path, cursor, presentation_location, column, .. })
                    && path@ == file.path@ && cursor == file.cursor && column == file.column
                    && presentation_location == (if file.cursor < file.diff.rows@.len() {
                    location_of(file.diff.rows_view()[file.cursor as int], file.diff.source@, file.diff.whole_file)
                } else {
                    None
                })
            }),
            self.selected < self.files@.len() && self.files@[self.selected as int].temporary ==> ({
                let file = self.files@[self.selected as int];
                match (if file.cursor < file.diff.rows@.len() {
                    crate::presentation::position_of(
                        file.diff.rows_view()[file.cursor as int],
                        file.diff.source@,
                        file.diff.whole_file,
                    )
                } else {
                    None
                }) {
                    Some((line, _)) => location matches Some(ReviewLocation::Source { location: l, .. })
                        && l.line == line && l.end_line == line && l.byte_column == file.column
                        && l.end_byte_column == file.column && l.path@ == match file.disk_path {
                        Some(p) => p@,
                        None => file.path@,
                    },
                    None => match file.source_location {
                        Some(l) => location matches Some(ReviewLocation::Source { location: m, .. }) && m == l,
                        None => location is None,
                    },
                }
            }),
    {
        if self.selected >= self.files.len() {
            return if review_unit.is_empty() {
                None
            } else {
                Some(ReviewLocation::Revision { review_unit: review_unit.to_owned() })
            };
        }
        let file = &self.files[self.selected];
        assert(file.well_formed());
        if file.temporary {
            return match file.cursor_location() {
                Some(location) => Some(
                    ReviewLocation::Source { review_unit: review_unit.to_owned(), location },
                ),
                None => None,
            };
        }
        Some(
            ReviewLocation::ReviewFile {
                review_unit: review_unit.to_owned(),
                path: file.path.clone(),
                cursor: file.cursor,
                presentation_location: file.diff.presentation_location(file.cursor),
                column: file.column,
            },
        )
    }

    /// What the history knows of the files.
    pub fn review_states(&self) -> (states: Vec<FileReviewState>)
        ensures
            file_states_view(states@) == review_states(self.files@),
    {
        let mut states: Vec<FileReviewState> = Vec::new();
        let mut i: usize = 0;
        while i < self.files.len()
            invariant
                i <= self.files@.len(),
                file_states_view(states@) == review_states(self.files@).take(i as int),
            decreases self.files@.len() - i,
        {
            let state = FileReviewState {
                path: self.files[i].path.clone(),
                needs_review: self.files[i].status.needs_review(),
            };
            let ghost before = states@;
            assert(file_states_view(before).len() == before.len());
            assert(before.len() == i);
            states.push(state);
            proof {
                assert forall|k: int| 0 <= k <= i implies #[trigger] file_states_view(states@)[k]
                    == review_states(self.files@).take(i + 1)[k] by {
                    if k < i {
                        assert(states@[k] == before[k]);
                        assert(file_states_view(before)[k] == review_states(self.files@).take(i as int)[k]);
                    }
                }
            }
            i += 1;
            assert(file_states_view(states@) =~= review_states(self.files@).take(i as int));
        }
        assert(review_states(self.files@).take(self.files@.len() as int) =~= review_states(self.files@));
        states
    }

    /// Records a jump from `origin` to `target` in `history`, unless there
    /// is no origin or the history could not return to it while
    /// `review_unit` is under review; says whether it recorded it. `source_review_path` is the origin's path inside the
    /// repository when it is a disk source.
    pub fn record_jump(
        &self,
        review_unit: &str,
        history: &mut LocationHistory,
        origin: Option<ReviewLocation>,
        target: &ReviewLocation,
        source_review_path: Option<&str>,
    ) -> (recorded: bool)
        ensures
            ({
                let path = match source_review_path {
                    Some(p) => Some(p@),
                    None => None,
                };
                match origin {
                    Some(origin) => if restorable(origin, review_unit@, review_states(self.files@), path) {
                        &&& recorded == !same_line(origin, *target)
                        &&& recorded ==> final(history).older@ == older_after_jump(
                            old(history).older@,
                            old(history).newer@,
                            origin,
                        ) && final(history).newer@.len() == 0
                        &&& !recorded ==> final(history).older@ == old(history).older@
                            && final(history).newer@ == old(history).newer@
                    } else {
                        !recorded && final(history).older@ == old(history).older@
                            && final(history).newer@ == old(history).newer@
                    },
                    None => !recorded && final(history).older@ == old(history).older@
                        && final(history).newer@ == old(history).newer@,
                }
            }),
    {
        let origin = match origin {
            Some(origin) => origin,
            None => return false,
        };
        let states = self.review_states();
        if !origin.is_restorable(review_unit, &states, source_review_path) {
            return false;
        }
        history.record_jump(origin, target)
    }
}

} // verus!

verus! {

/// The index of the first file whose path is `path`.
pub open spec fn file_with_path(files: Seq<ReviewFile>, path: Seq<char>) -> Option<int> {
    if exists|i: int| 0 <= i < files.len() && (#[trigger] files[i]).path@ == path {
        Some(
            choose|i: int|
                0 <= i < files.len() && (#[trigger] files[i]).path@ == path && forall|j: int|
                    0 <= j < i ==> files[j].path@ != path,
        )
    } else {
        None
    }
}

/// What taking a loaded diff found: whether the file it belongs to is the
/// selected one, and where the cursor was in the diff it replaced.
pub struct LoadedDiff {
    pub selected: bool,
    pub previous: Option<SourceLocation>,
}

impl FileSelection {
    /// Takes the diff loaded for `path` in revision `loaded_commit` while
    /// `current_commit` is under review, into the first file with that path
    /// (see `ReviewFile::take_loaded_diff`). A diff of another revision, or
    /// of a path that is not among the files, is dropped and changes
    /// nothing.
    pub fn load_diff(
        &mut self,
        current_commit: &str,
        loaded_commit: &str,
        path: &str,
        diff: DiffPresentation,
    ) -> (loaded: Option<LoadedDiff>)
        requires
            old(self).well_formed(),
            diff.well_formed(),
        ensures
            final(self).well_formed(),
            final(self).selected == old(self).selected,
            final(self).collapsed == old(self).collapsed,
            final(self).tree == old(self).tree,
            final(self).scroll == old(self).scroll,
            loaded is None <==> (current_commit@ != loaded_commit@ || file_with_path(
                old(self).files@,
                path@,
            ) is None),
            loaded is None ==> final(self).files == old(self).files,
            loaded matches Some(taken) ==> ({
                let index = file_with_path(old(self).files@, path@)->0;
                let before = old(self).files@[index];
                let after = final(self).files@[index];
                &&& final(self).files@.len() == old(self).files@.len()
                &&& forall|j: int|
                    0 <= j < old(self).files@.len() && j != index ==> final(self).files@[j]
                        == old(self).files@[j]
                &&& 0 <= index < old(self).files@.len()
                &&& after == diff_taken(before, diff)
                &&& is_cursor_location(before, taken.previous)
                &&& after.diff == diff
                &&& !after.loading
                &&& after.path == before.path
                &&& after.display_path == before.display_path
                &&& after.status == before.status
                &&& after.column == before.column
                &&& after.cursor == (if before.cursor < diff.rows@.len() {
                    before.cursor as int
                } else if diff.rows@.len() > 0 {
                    diff.rows@.len() - 1
                } else {
                    0
                })
                &&& after.scroll == (if before.scroll <= after.cursor {
                    before.scroll
                } else {
                    after.cursor
                })
                &&& taken.selected == (old(self).selected < old(self).files@.len() && old(
                    self,
                ).files@[old(self).selected as int].path@ == path@)
            }),
    {
        if !same_text(current_commit, loaded_commit) {
            return None;
        }
        let mut index: usize = 0;
        while index < self.files.len()
            invariant
                index <= self.files@.len(),
                forall|j: int| 0 <= j < index ==> self.files@[j].path@ != path@,
            ensures
                index <= self.files@.len(),
                forall|j: int| 0 <= j < index ==> self.files@[j].path@ != path@,
                index < self.files@.len() ==> self.files@[index as int].path@ == path@,
            decreases self.files.len() - index,
        {
            if same_text(self.files[index].path.as_str(), path) {
                break;
            }
            index += 1;
        }
        if index == self.files.len() {
            assert(!exists|i: int| 0 <= i < self.files@.len() && (#[trigger] self.files@[i]).path@ == path@);
            return None;
        }
        proof {
            assert(self.files@[index as int].path@ == path@);
            let found = file_with_path(self.files@, path@)->0;
            assert(found == index as int) by {
                if found < index {
                } else if found > index {
                }
            }
        }
        let selected = self.selected < self.files.len() && same_text(
            self.files[self.selected].path.as_str(),
            path,
        );
        let mut file = self.files.remove(index);
        assert(old(self).files@[index as int].well_formed());
        let previous = file.take_loaded_diff(diff);
        self.files.insert(index, file);
        proof {
            assert(listed(self.files@) =~= listed(old(self).files@));
            assert forall|j: int| 0 <= j < self.files@.len() && j != index implies self.files@[j]
                == old(self).files@[j] by {
                if j < index {
                    assert(self.files@[j] == old(self).files@[j]);
                } else {
                    assert(self.files@[j] == old(self).files@[j]);
                }
            }
            assert forall|i: int| 0 <= i < self.files@.len() implies (#[trigger] self.files@[i]).well_formed() by {
                if i != index {
                    assert(self.files@[i] == old(self).files@[i]);
                }
            }
        }
        Some(LoadedDiff { selected, previous })
    }
}

} // verus!

verus! {

/// Whether moving the selection to the visible file at position `target`
/// of `tree` (the last one past the end) takes `files` with `selected` to
/// `after_files` with `after_selected`, `changed` telling whether the
/// selected file changed: leaving a temporary file drops the temporary
/// files, and the file moved to is then found again by its path.
pub open spec fn files_navigated(
    tree: Seq<RowView>,
    files: Seq<ReviewFile>,
    selected: usize,
    target: usize,
    changed: bool,
    after_files: Seq<ReviewFile>,
    after_selected: usize,
) -> bool {
    let visible = visible_files(tree);
    let position = if target < visible.len() {
        target as int
    } else {
        visible.len() - 1
    };
    let chosen = visible[position] as usize;
    let was_temporary = selected < files.len() && files[selected as int].temporary;
    let moved = FileSelection::files_after_select(files, selected, chosen);
    &&& changed <==> (visible.len() > 0 && chosen != selected)
    &&& !changed ==> after_files == files && after_selected == selected
    &&& changed && !was_temporary ==> after_files == moved && after_selected == chosen
    &&& changed && was_temporary ==> after_files == moved.filter(
        |file: ReviewFile| !file.temporary,
    ) && after_selected == match file_with_path(after_files, files[chosen as int].path@) {
        Some(i) => i,
        None => 0,
    }
}

impl FileSelection {
    /// The first file with the characters of `path`, if any.
    fn position_of_path(&self, path: &str) -> (index: Option<usize>)
        ensures
            match index {
                Some(i) => file_with_path(self.files@, path@) == Some(i as int) && i
                    < self.files@.len() && self.files@[i as int].path@ == path@,
                None => file_with_path(self.files@, path@) is None,
            },
    {
        let mut index: usize = 0;
        while index < self.files.len()
            invariant
                index <= self.files@.len(),
                forall|j: int| 0 <= j < index ==> self.files@[j].path@ != path@,
            decreases self.files.len() - index,
        {
            if same_text(self.files[index].path.as_str(), path) {
                proof {
                    let found = file_with_path(self.files@, path@)->0;
                    assert(self.files@[index as int].path@ == path@);
                    assert(found == index as int) by {
                        if found < index {
                        } else if found > index {
                        }
                    }
                }
                return Some(index);
            }
            index += 1;
        }
        assert(!exists|i: int| 0 <= i < self.files@.len() && (#[trigger] self.files@[i]).path@ == path@);
        None
    }

    /// Moves the selection to the visible file at position `target` of the
    /// tree (the last one past the end). Leaving a temporary file drops
    /// the temporary files, and the file moved to is then found again by
    /// its path. Returns whether the selected file changed.
    pub fn navigate_to_file(&mut self, target: usize) -> (changed: bool)
        requires
            old(self).well_formed(),
        ensures
            final(self).well_formed(),
            final(self).collapsed == old(self).collapsed,
            final(self).scroll == old(self).scroll,
            files_navigated(
                old(self).tree@,
                old(self).files@,
                old(self).selected,
                target,
                changed,
                final(self).files@,
                final(self).selected,
            ),
    {
        let count = self.tree.visible_file_count();
        let last = count.saturating_sub(1);
        let position = if target < last {
            target
        } else {
            last
        };
        let chosen = match self.tree.visible_file_at(position) {
            Some(file) => file,
            None => return false,
        };
        if chosen == self.selected {
            return false;
        }
        proof {
            law_tree_shows_uncollapsed_files(listed(self.files@), self.collapsed@);
            lemma_shown_files_ordered(listed(self.files@), self.collapsed@);
            assert(shown_files(listed(self.files@), self.collapsed@)[position as int] < listed(
                self.files@,
            ).len());
        }
        assert(chosen < self.files.len());
        let was_temporary = self.selected < self.files.len() && self.files[self.selected].temporary;
        let path = self.files[chosen].path.clone();
        self.select(chosen);
        if was_temporary {
            self.remove_temporary_files();
            self.selected = match self.position_of_path(path.as_str()) {
                Some(index) => index,
                None => 0,
            };
        }
        true
    }
}

} // verus!

verus! {

/// A review state write still in flight: the file written, its status
/// before and the one shown meanwhile, and the file the review moved on
/// to.
#[derive(Clone, Debug, PartialEq, Eq)]
pub struct PendingReview {
    pub path: String,
    pub previous_status: ReviewStatus,
    pub optimistic_status: ReviewStatus,
    pub next_path: Option<String>,
}

/// `file` with review status `status`; marked unreviewed it forgets its
/// diff, which is loaded again.
pub open spec fn with_status(file: ReviewFile, status: ReviewStatus, new_file: ReviewFile) -> bool {
    &&& new_file == ReviewFile { status, diff: new_file.diff, ..file }
    &&& if status == ReviewStatus::Unreviewed {
        new_file.diff.rows@.len() == 0 && new_file.diff.source@.len() == 0
    } else {
        new_file.diff == file.diff
    }
}

/// Whether the selected file of `files` has path `path`.
pub open spec fn selected_has_path(files: Seq<ReviewFile>, selected: usize, path: Seq<char>) -> bool {
    selected < files.len() && files[selected as int].path@ == path
}

/// Whether the result `result` of a review-state write for `path` of
/// change `change`, while `current_change` is under review and `pending`
/// is in flight, takes `files` and `collapsed` (with file `selected`
/// selected) to `after_files`, `after_collapsed` and `after_pending`, and
/// whether the selected file's diff is then to be loaded (`load`): a result
/// of another change, or for another file than the write in flight,
/// changes nothing; a written status is taken (opening the file's folded
/// parent directories when it changed to one that needs review); a failed
/// write restores the status from before.
pub open spec fn review_finished(
    files: Seq<ReviewFile>,
    collapsed: Seq<String>,
    selected: usize,
    pending: Option<PendingReview>,
    current_change: Seq<char>,
    change: Seq<char>,
    path: Seq<char>,
    result: Option<ReviewStatus>,
    after_files: Seq<ReviewFile>,
    after_collapsed: Seq<String>,
    after_pending: Option<PendingReview>,
    load: bool,
) -> bool {
    let ignored = current_change != change || (pending matches Some(p) && p.path@ != path);
    let found = file_with_path(files, path);
    &&& ignored ==> after_pending == pending && after_files == files && after_collapsed == collapsed
        && !load
    &&& !ignored ==> after_pending is None
    &&& !ignored && result is None ==> !load && after_collapsed == collapsed && match (
        pending,
        found,
    ) {
        (Some(p), Some(i)) => with_status(files[i], p.previous_status, after_files[i])
            && after_files.len() == files.len() && forall|j: int|
            0 <= j < files.len() && j != i ==> after_files[j] == files[j],
        _ => after_files == files,
    }
    &&& !ignored ==> match result {
        None => true,
        Some(status) => {
            let expand = found matches Some(i) && status != files[i].status && status
                != ReviewStatus::Reviewed;
            &&& match found {
                Some(i) => with_status(files[i], status, after_files[i]) && after_files.len()
                    == files.len() && forall|j: int|
                    0 <= j < files.len() && j != i ==> after_files[j] == files[j],
                None => after_files == files,
            }
            &&& !expand ==> after_collapsed == collapsed
            &&& expand ==> forall|text: Seq<char>|
                #![trigger strings_contain(after_collapsed, text)]
                strings_contain(after_collapsed, text) == (strings_contain(collapsed, text)
                    && !is_parent(path, text))
            &&& load == (moved_on_to_selected(pending, status, files, selected) || (status
                != ReviewStatus::Reviewed && selected_has_path(files, selected, path)))
        },
    }
}

/// Whether a write marking a file reviewed has finished while the file
/// the review moved on to is selected.
pub open spec fn moved_on_to_selected(
    pending: Option<PendingReview>,
    status: ReviewStatus,
    files: Seq<ReviewFile>,
    selected: usize,
) -> bool {
    match pending {
        Some(p) => p.optimistic_status == ReviewStatus::Reviewed && status == ReviewStatus::Reviewed
            && match p.next_path {
            Some(next) => selected_has_path(files, selected, next@),
            None => false,
        },
        None => false,
    }
}

impl FileSelection {
    /// Gives file `index` review status `status`; marked unreviewed it
    /// forgets its diff.
    fn set_status(&mut self, index: usize, status: ReviewStatus)
        requires
            old(self).well_formed(),
            index < old(self).files@.len(),
        ensures
            final(self).well_formed(),
            final(self).selected == old(self).selected,
            final(self).collapsed == old(self).collapsed,
            final(self).tree == old(self).tree,
            final(self).scroll == old(self).scroll,
            final(self).files@ == old(self).files@.update(index as int, final(self).files@[index as int]),
            with_status(old(self).files@[index as int], status, final(self).files@[index as int]),
    {
        let ghost start_files = self.files@;
        let mut file = self.files.remove(index);
        let ghost taken = file;
        assert(taken == start_files[index as int]);
        file.status = status;
        if status == ReviewStatus::Unreviewed {
            file.diff = DiffPresentation::default();
            assert(file.diff.rows_view() =~= Seq::<crate::presentation::PresentedRowView>::empty());
        }
        assert(file.well_formed());
        self.files.insert(index, file);
        proof {
            assert(self.files@ =~= start_files.update(index as int, file));
            assert(listed(self.files@) =~= listed(start_files));
            assert forall|i: int| 0 <= i < self.files@.len() implies (#[trigger] self.files@[i]).well_formed() by {
                if i != index {
                    assert(self.files@[i] == start_files[i]);
                }
            }
        }
    }

    /// Takes the result of a review state write for `path` of change
    /// `change` while `current_change` is under review: a result of another
    /// change, or for another file than the write in flight, changes
    /// nothing. A written status is taken (opening the file's folded parent
    /// directories when it changed to one that needs review); a failed
    /// write restores the status from before. Returns whether the selected
    /// file is to be loaded: the file the review moved on to after a file
    /// was marked reviewed, or the written file when it needs review.
    #[verifier::spinoff_prover]
    #[verifier::rlimit(60)]
    pub fn finish_review(
        &mut self,
        in_flight: &mut Option<PendingReview>,
        current_change: &str,
        change: &str,
        path: &str,
        result: Option<ReviewStatus>,
    ) -> (load_selected: bool)
        requires
            old(self).well_formed(),
        ensures
            final(self).well_formed(),
            final(self).selected == old(self).selected,
            final(self).scroll == old(self).scroll,
            review_finished(
                old(self).files@,
                old(self).collapsed@,
                old(self).selected,
                *old(in_flight),
                current_change@,
                change@,
                path@,
                result,
                final(self).files@,
                final(self).collapsed@,
                *final(in_flight),
                load_selected,
            ),
    {
        if !same_text(current_change, change) {
            return false;
        }
        let pending = match in_flight {
            Some(p) => {
                if !same_text(p.path.as_str(), path) {
                    return false;
                }
                in_flight.take()
            },
            None => None,
        };
        let ghost before = self.files@;
        let selected_path = if self.selected < self.files.len() {
            Some(self.files[self.selected].path.clone())
        } else {
            None
        };
        match result {
            Some(status) => {
                let expand = match self.position_of_path(path) {
                    Some(index) => {
                        let previous = self.files[index].status;
                        self.set_status(index, status);
                        needs_parent_expansion(status, previous)
                    },
                    None => false,
                };
                if expand {
                    self.reveal_path(path);
                }
                let pending_next = match &pending {
                    Some(p) => p.optimistic_status == ReviewStatus::Reviewed && status
                        == ReviewStatus::Reviewed && match (&p.next_path, &selected_path) {
                        (Some(next), Some(selected)) => same_text(selected.as_str(), next.as_str()),
                        _ => false,
                    },
                    None => false,
                };
                let written_selected = status != ReviewStatus::Reviewed && match &selected_path {
                    Some(selected) => same_text(selected.as_str(), path),
                    None => false,
                };
                pending_next || written_selected
            },
            None => {
                if let Some(p) = &pending {
                    if let Some(index) = self.position_of_path(path) {
                        self.set_status(index, p.previous_status);
                    }
                }
                false
            },
        }
    }
}

} // verus!

verus! {

/// `file` no longer loading its diff.
pub open spec fn done_loading(file: ReviewFile) -> ReviewFile {
    ReviewFile { loading: false, ..file }
}

impl FileSelection {
    /// File `index` no longer loads its diff.
    fn stop_loading(&mut self, index: usize)
        requires
            old(self).well_formed(),
            index < old(self).files@.len(),
        ensures
            final(self).well_formed(),
            final(self).selected == old(self).selected,
            final(self).collapsed == old(self).collapsed,
            final(self).tree == old(self).tree,
            final(self).scroll == old(self).scroll,
            final(self).files@ == old(self).files@.update(index as int, done_loading(old(self).files@[index as int])),
    {
        let ghost start_files = self.files@;
        let mut file = self.files.remove(index);
        let ghost taken = file;
        assert(taken == start_files[index as int]);
        file.loading = false;
        assert(file == done_loading(taken));
        assert(file.well_formed());
        self.files.insert(index, file);
        proof {
            assert(self.files@ =~= start_files.update(index as int, file));
            assert(listed(self.files@) =~= listed(start_files));
            assert forall|i: int| 0 <= i < self.files@.len() implies (#[trigger] self.files@[i]).well_formed() by {
                if i != index {
                    assert(self.files@[i] == start_files[i]);
                }
            }
        }
    }

    /// Takes the failure of the diff of `path` in revision `failed_commit`
    /// while `current_commit` is under review: the first file with that
    /// path stops loading. A failure of another revision changes nothing.
    /// Returns whether the failure was taken.
    pub fn fail_diff(&mut self, current_commit: &str, failed_commit: &str, path: &str) -> (taken: bool)
        requires
            old(self).well_formed(),
        ensures
            final(self).well_formed(),
            final(self).selected == old(self).selected,
            final(self).collapsed == old(self).collapsed,
            final(self).tree == old(self).tree,
            final(self).scroll == old(self).scroll,
            taken == (current_commit@ == failed_commit@),
            !taken ==> final(self).files == old(self).files,
            taken ==> match file_with_path(old(self).files@, path@) {
                Some(i) => final(self).files@ == old(self).files@.update(i, done_loading(old(self).files@[i])),
                None => final(self).files == old(self).files,
            },
    {
        if !same_text(current_commit, failed_commit) {
            return false;
        }
        if let Some(index) = self.position_of_path(path) {
            self.stop_loading(index);
        }
        true
    }
}

} // verus!

verus! {

/// Whether a file's diff is neither there, nor shown as the whole file,
/// nor loading, so that it is to be loaded.
pub open spec fn diff_idle(file: ReviewFile) -> bool {
    file.diff.source@.len() == 0 && !(file.diff.file_rows is Some || file.diff.view is File)
        && !file.loading
}

/// The row `target` kept within `count` rows.
pub open spec fn clamped_row(target: usize, count: nat) -> int {
    if target < count {
        target as int
    } else if count > 0 {
        count - 1
    } else {
        0
    }
}

/// Whether moving the cursor of `before` to row `target` gives `after`:
/// the cursor goes to the row (kept within the diff), the view goes to the
/// top for the first row, the disk position is forgotten, and the column
/// is moved back to a character boundary within the new row's text.
pub open spec fn cursor_navigated(before: ReviewFile, target: usize, after: ReviewFile) -> bool {
    let cursor = clamped_row(target, before.diff.rows@.len());
    &&& after == (ReviewFile {
        cursor: cursor as usize,
        scroll: if target == 0 {
            0
        } else {
            before.scroll
        },
        source_location: None,
        column: after.column,
        ..before
    })
    &&& match (if cursor < before.diff.rows@.len() {
        position_of(before.diff.rows_view()[cursor], before.diff.source@, before.diff.whole_file)
    } else {
        None
    }) {
        Some((_, text)) => snapped_column(text, before.column, after.column),
        None => after.column == before.column,
    }
}

/// A visual selection after the cursor moved to row `cursor`: it follows
/// unless it is fixed.
pub open spec fn selection_following(selection: Option<Selection>, cursor: usize) -> Option<Selection> {
    match selection {
        Some(s) => Some(
            Selection {
                cursor: if s.fixed {
                    s.cursor
                } else {
                    cursor
                },
                ..s
            },
        ),
        None => None,
    }
}

impl FileSelection {
    /// Marks the selected file's diff as loading and names its path, when
    /// it is to be loaded (see `ReviewFile::start_diff_load`).
    pub fn load_selected(&mut self) -> (path: Option<String>)
        requires
            old(self).well_formed(),
        ensures
            final(self).well_formed(),
            final(self).selected == old(self).selected,
            final(self).collapsed == old(self).collapsed,
            final(self).tree == old(self).tree,
            final(self).scroll == old(self).scroll,
            ({
                let index = old(self).selected as int;
                if old(self).selected < old(self).files@.len() && diff_idle(old(self).files@[index]) {
                    path matches Some(p) && p@ == old(self).files@[index].path@ && final(self).files@
                        == old(self).files@.update(
                        index,
                        ReviewFile { loading: true, ..old(self).files@[index] },
                    )
                } else {
                    path is None && final(self).files@ == old(self).files@
                }
            }),
    {
        if self.selected >= self.files.len() {
            return None;
        }
        let index = self.selected;
        let ghost start_files = self.files@;
        let mut file = self.files.remove(index);
        let ghost taken = file;
        assert(taken == start_files[index as int]);
        let path = file.start_diff_load();
        assert(file.well_formed());
        self.files.insert(index, file);
        proof {
            assert(self.files@ =~= start_files.update(index as int, file));
            assert(listed(self.files@) =~= listed(start_files));
            assert forall|i: int| 0 <= i < self.files@.len() implies (#[trigger] self.files@[i]).well_formed() by {
                if i != index {
                    assert(self.files@[i] == start_files[i]);
                }
            }
            if !diff_idle(taken) {
                assert(self.files@ =~= start_files);
            }
        }
        path
    }

    /// Moves the cursor of file `index` to row `target` (see
    /// `cursor_navigated`), and a visual selection follows it.
    fn navigate_in_file(&mut self, index: usize, target: usize, selection: &mut Option<Selection>)
        requires
            old(self).well_formed(),
            index < old(self).files@.len(),
        ensures
            final(self).well_formed(),
            final(self).selected == old(self).selected,
            final(self).collapsed == old(self).collapsed,
            final(self).tree == old(self).tree,
            final(self).scroll == old(self).scroll,
            final(self).files@ == old(self).files@.update(index as int, final(self).files@[index as int]),
            cursor_navigated(old(self).files@[index as int], target, final(self).files@[index as int]),
            *final(selection) == selection_following(
                *old(selection),
                final(self).files@[index as int].cursor,
            ),
    {
        let ghost start_files = self.files@;
        let mut file = self.files.remove(index);
        let ghost taken = file;
        assert(taken == start_files[index as int]);
        file.move_cursor_to(target);
        let ghost moved = file;
        match selection {
            Some(s) => s.follow(file.cursor),
            None => {},
        }
        let column = file.column;
        file.set_source_column(column);
        proof {
            assert(moved.cursor == clamped_row(target, taken.diff.rows@.len()));
            assert(moved.diff == taken.diff && moved.column == taken.column);
            assert(file == (ReviewFile {
                cursor: clamped_row(target, taken.diff.rows@.len()) as usize,
                scroll: if target == 0 {
                    0
                } else {
                    taken.scroll
                },
                source_location: None,
                column: file.column,
                ..taken
            }));
            assert(cursor_navigated(taken, target, file));
        }
        assert(file.well_formed());
        self.files.insert(index, file);
        proof {
            assert(self.files@ =~= start_files.update(index as int, file));
            assert(listed(self.files@) =~= listed(start_files));
            assert forall|i: int| 0 <= i < self.files@.len() implies (#[trigger] self.files@[i]).well_formed() by {
                if i != index {
                    assert(self.files@[i] == start_files[i]);
                }
            }
        }
    }

    /// Moves to row `target` of the focused pane: in the files pane to the
    /// visible file at that position (dropping a visual selection when the
    /// selected file changes), in the diff pane the cursor of the selected
    /// file (see `cursor_navigated`); then the file tree scrolls to show
    /// the selected file in `page` rows. Says whether the selected file
    /// changed, so that its diff is to be loaded (`load_selected`).
    pub fn navigate_to(
        &mut self,
        focus: Focus,
        target: usize,
        selection: &mut Option<Selection>,
        page: usize,
    ) -> (selected_changed: bool)
        requires
            old(self).well_formed(),
            old(self).scroll + page <= usize::MAX,
        ensures
            final(self).well_formed(),
            final(self).collapsed == old(self).collapsed,
            final(self).scroll == selected_row_scroll(
                final(self).tree@,
                final(self).selected,
                old(self).scroll,
                page,
            ),
            focus == Focus::Files ==> files_navigated(
                old(self).tree@,
                old(self).files@,
                old(self).selected,
                target,
                selected_changed,
                final(self).files@,
                final(self).selected,
            ) && *final(selection) == if selected_changed {
                None
            } else {
                *old(selection)
            },
            focus == Focus::Diff ==> !selected_changed && final(self).selected == old(self).selected
                && final(self).tree == old(self).tree && if old(self).selected < old(
                self,
            ).files@.len() {
                let index = old(self).selected as int;
                &&& final(self).files@ == old(self).files@.update(index, final(self).files@[index])
                &&& cursor_navigated(old(self).files@[index], target, final(self).files@[index])
                &&& *final(selection) == selection_following(
                    *old(selection),
                    final(self).files@[index].cursor,
                )
            } else {
                final(self).files == old(self).files && *final(selection) == *old(selection)
            },
    {
        let mut changed = false;
        match focus {
            Focus::Files => {
                changed = self.navigate_to_file(target);
                if changed {
                    *selection = None;
                }
            },
            Focus::Diff => {
                if self.selected < self.files.len() {
                    let index = self.selected;
                    self.navigate_in_file(index, target, selection);
                }
            },
        }
        self.keep_selected_visible(page);
        changed
    }
}

} // verus!

verus! {

impl FileSelection {
    /// Reveals disk position `location` in file `index` (see
    /// `ReviewFile::reveal_location`), with `page` rows in the diff pane.
    pub fn reveal_in_file(&mut self, index: usize, location: &SourceLocation, page: usize)
        requires
            old(self).well_formed(),
            index < old(self).files@.len(),
        ensures
            final(self).well_formed(),
            final(self).selected == old(self).selected,
            final(self).collapsed == old(self).collapsed,
            final(self).tree == old(self).tree,
            final(self).scroll == old(self).scroll,
            final(self).files@ == old(self).files@.update(index as int, final(self).files@[index as int]),
            location_revealed(old(self).files@[index as int], *location, page, final(self).files@[index as int]),
    {
        let ghost start_files = self.files@;
        let mut file = self.files.remove(index);
        let ghost taken = file;
        assert(taken == start_files[index as int]);
        file.reveal_location(location, page);
        assert(file.well_formed());
        self.files.insert(index, file);
        proof {
            assert(self.files@ =~= start_files.update(index as int, file));
            assert(listed(self.files@) =~= listed(start_files));
            assert forall|i: int| 0 <= i < self.files@.len() implies (#[trigger] self.files@[i]).well_formed() by {
                if i != index {
                    assert(self.files@[i] == start_files[i]);
                }
            }
        }
    }
}

} // verus!
