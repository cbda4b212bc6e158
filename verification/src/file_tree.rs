//! Collapsible directory rows for the changed-file list.
//!
//! Paths are split on `/`: every component but the last names a directory
//! and the last names the file. Consecutive files share the directory rows
//! of their common leading directories, so sorted paths group under their
//! shared directories.

use vstd::prelude::*;

use crate::text::{
    chars_between, chars_equal, chars_of, contains_string, starts_with, string_from_chars, strings_contain,
    text_starts_with,
};
use crate::wrap::same_text;

verus! {

/// One row of the file list: a directory heading or a changed file.
#[derive(Clone, Debug, PartialEq, Eq)]
pub enum FileTreeRow {
    Directory { depth: usize, name: String, path: String, collapsed: bool },
    File { depth: usize, name: String, file: usize },
}

/// The mathematical content of a row.
pub enum RowView {
    Directory { depth: nat, name: Seq<char>, path: Seq<char>, collapsed: bool },
    File { depth: nat, name: Seq<char>, file: nat },
}

impl View for FileTreeRow {
    type V = RowView;

    open spec fn view(&self) -> RowView {
        match self {
            FileTreeRow::Directory { depth, name, path, collapsed } => RowView::Directory {
                depth: *depth as nat,
                name: name@,
                path: path@,
                collapsed: *collapsed,
            },
            FileTreeRow::File { depth, name, file } => RowView::File {
                depth: *depth as nat,
                name: name@,
                file: *file as nat,
            },
        }
    }
}

/// The rows of the changed-file list, in display order.
#[derive(Clone, Debug, Default, PartialEq, Eq)]
pub struct FileTree {
    pub rows: Vec<FileTreeRow>,
}

impl View for FileTree {
    type V = Seq<RowView>;

    open spec fn view(&self) -> Seq<RowView> {
        rows_view(self.rows@)
    }
}

// ---------------------------------------------------------------------------
// Path structure
// ---------------------------------------------------------------------------

/// Positions of the `/` separators of `path`, in increasing order.
pub open spec fn slashes(path: Seq<char>) -> Seq<int>
    decreases path.len(),
{
    if path.len() == 0 {
        seq![]
    } else if path.last() == '/' {
        slashes(path.drop_last()).push(path.len() - 1)
    } else {
        slashes(path.drop_last())
    }
}

/// Number of directories above the file named by `path`.
pub open spec fn dir_count(path: Seq<char>) -> nat {
    slashes(path).len()
}

/// First character of directory component `depth`.
pub open spec fn dir_start(path: Seq<char>, depth: int) -> int {
    if depth == 0 {
        0
    } else {
        slashes(path)[depth - 1] + 1
    }
}

/// Name of directory component `depth`.
pub open spec fn dir_name(path: Seq<char>, depth: int) -> Seq<char> {
    path.subrange(dir_start(path, depth), slashes(path)[depth])
}

/// The path of the directory at `depth`: `path` up to its separator.
pub open spec fn dir_path(path: Seq<char>, depth: int) -> Seq<char> {
    path.take(slashes(path)[depth])
}

/// Names of all directories above the file.
pub open spec fn dir_names(path: Seq<char>) -> Seq<Seq<char>> {
    Seq::new(dir_count(path), |depth: int| dir_name(path, depth))
}

/// The last component of `path`.
pub open spec fn file_name(path: Seq<char>) -> Seq<char> {
    if dir_count(path) == 0 {
        path
    } else {
        path.skip(slashes(path).last() + 1)
    }
}

/// Number of leading components, from `depth` on, that `left` and `right`
/// share, plus `depth`.
pub open spec fn common_depth_from(left: Seq<Seq<char>>, right: Seq<Seq<char>>, depth: nat) -> nat
    decreases left.len() - depth,
{
    if depth < left.len() && depth < right.len() && left[depth as int] == right[depth as int] {
        common_depth_from(left, right, depth + 1)
    } else {
        depth
    }
}

/// Number of leading directories that two paths share.
pub open spec fn common_depth(left: Seq<Seq<char>>, right: Seq<Seq<char>>) -> nat {
    common_depth_from(left, right, 0)
}

/// Whether one of the directories above `depth` is collapsed.
pub open spec fn collapsed_above(path: Seq<char>, collapsed: Seq<String>, depth: nat) -> bool {
    exists|d: int| 0 <= d < depth && strings_contain(collapsed, dir_path(path, d))
}

/// The first collapsed directory at or below `depth`, or the directory
/// count when none is collapsed.
pub open spec fn first_collapsed_from(path: Seq<char>, collapsed: Seq<String>, depth: nat) -> nat
    decreases dir_count(path) - depth,
{
    if depth >= dir_count(path) {
        dir_count(path)
    } else if strings_contain(collapsed, dir_path(path, depth as int)) {
        depth
    } else {
        first_collapsed_from(path, collapsed, depth + 1)
    }
}

/// The rows that file number `file` adds below the rows of the file before
/// it, whose directories are `previous`: a heading for each directory
/// after the shared ones down to the first collapsed one, then the file
/// itself when no directory above it is collapsed.
pub open spec fn file_rows(
    previous: Seq<Seq<char>>,
    path: Seq<char>,
    label: Seq<char>,
    file: nat,
    collapsed: Seq<String>,
) -> Seq<RowView> {
    let count = dir_count(path);
    let common = common_depth(previous, dir_names(path));
    if collapsed_above(path, collapsed, common) {
        seq![]
    } else {
        let first = first_collapsed_from(path, collapsed, common);
        let stop: nat = if first < count { first + 1 } else { count };
        let directories = Seq::new(
            (stop - common) as nat,
            |j: int|
                RowView::Directory {
                    depth: (common + j) as nat,
                    name: dir_name(path, common + j),
                    path: dir_path(path, common + j),
                    collapsed: common + j == first,
                },
        );
        if first < count {
            directories
        } else {
            directories.push(
                RowView::File {
                    depth: count,
                    name: if label == path { file_name(path) } else { label },
                    file,
                },
            )
        }
    }
}

/// The paths and labels of a file list.
pub open spec fn files_view(files: Seq<(&str, &str)>) -> Seq<(Seq<char>, Seq<char>)> {
    files.map_values(|entry: (&str, &str)| (entry.0@, entry.1@))
}

/// The rows of a tree over `files` (path, label) with `collapsed` directories.
pub open spec fn tree_rows(files: Seq<(Seq<char>, Seq<char>)>, collapsed: Seq<String>) -> Seq<
    RowView,
>
    decreases files.len(),
{
    if files.len() == 0 {
        seq![]
    } else {
        let last = files.len() - 1;
        let previous = if last == 0 {
            seq![]
        } else {
            dir_names(files[last - 1].0)
        };
        tree_rows(files.drop_last(), collapsed) + file_rows(
            previous,
            files[last].0,
            files[last].1,
            last as nat,
            collapsed,
        )
    }
}

pub open spec fn names_view(names: Seq<Vec<char>>) -> Seq<Seq<char>> {
    names.map_values(|name: Vec<char>| name@)
}

pub open spec fn rows_view(rows: Seq<FileTreeRow>) -> Seq<RowView> {
    rows.map_values(|row: FileTreeRow| row@)
}

proof fn lemma_rows_view_push(rows: Seq<FileTreeRow>, row: FileTreeRow)
    ensures
        rows_view(rows.push(row)) == rows_view(rows).push(row@),
{
    assert(rows_view(rows.push(row)) =~= rows_view(rows).push(row@));
}

proof fn lemma_names_view_push(names: Seq<Vec<char>>, name: Vec<char>)
    ensures
        names_view(names.push(name)) == names_view(names).push(name@),
{
    assert(names_view(names.push(name)) =~= names_view(names).push(name@));
}

// ---------------------------------------------------------------------------
// Lemmas on path structure
// ---------------------------------------------------------------------------

/// Separator positions are increasing, in bounds, and point at `/`.
pub proof fn lemma_slashes(path: Seq<char>)
    ensures
        forall|i: int|
            0 <= i < slashes(path).len() ==> 0 <= #[trigger] slashes(path)[i] < path.len()
                && path[slashes(path)[i]] == '/',
        forall|i: int, j: int|
            0 <= i < j < slashes(path).len() ==> slashes(path)[i] < slashes(path)[j],
        slashes(path).len() <= path.len(),
    decreases path.len(),
{
    if path.len() > 0 {
        lemma_slashes(path.drop_last());
    }
}

/// Separators of a prefix are the separators before its end.
pub proof fn lemma_slashes_take(path: Seq<char>, i: int)
    requires
        0 <= i < path.len(),
    ensures
        slashes(path.take(i + 1)) == (if path[i] == '/' {
            slashes(path.take(i)).push(i)
        } else {
            slashes(path.take(i))
        }),
{
    assert(path.take(i + 1).drop_last() =~= path.take(i));
}

proof fn lemma_first_collapsed_skip(path: Seq<char>, collapsed: Seq<String>, from: nat, to: nat)
    requires
        from <= to <= dir_count(path),
        forall|d: int| from <= d < to ==> !strings_contain(collapsed, dir_path(path, d)),
    ensures
        first_collapsed_from(path, collapsed, from) == first_collapsed_from(path, collapsed, to),
    decreases to - from,
{
    if from < to {
        lemma_first_collapsed_skip(path, collapsed, from + 1, to);
    }
}

proof fn lemma_first_collapsed_bounds(path: Seq<char>, collapsed: Seq<String>, from: nat)
    requires
        from <= dir_count(path),
    ensures
        from <= first_collapsed_from(path, collapsed, from) <= dir_count(path),
        first_collapsed_from(path, collapsed, from) < dir_count(path) ==> strings_contain(
            collapsed,
            dir_path(path, first_collapsed_from(path, collapsed, from) as int),
        ),
        forall|d: int|
            from <= d < first_collapsed_from(path, collapsed, from) ==> !strings_contain(
                collapsed,
                #[trigger] dir_path(path, d),
            ),
    decreases dir_count(path) - from,
{
    if from < dir_count(path) && !strings_contain(collapsed, dir_path(path, from as int)) {
        lemma_first_collapsed_bounds(path, collapsed, from + 1);
    }
}

proof fn lemma_common_depth_bounds(left: Seq<Seq<char>>, right: Seq<Seq<char>>, depth: nat)
    requires
        depth <= left.len(),
        depth <= right.len(),
    ensures
        depth <= common_depth_from(left, right, depth) <= left.len(),
        common_depth_from(left, right, depth) <= right.len(),
    decreases left.len() - depth,
{
    if depth < left.len() && depth < right.len() && left[depth as int] == right[depth as int] {
        lemma_common_depth_bounds(left, right, depth + 1);
    }
}

// ---------------------------------------------------------------------------
// Construction
// ---------------------------------------------------------------------------

/// Positions of the `/` separators in `chars`.
fn separator_positions(chars: &Vec<char>) -> (positions: Vec<usize>)
    ensures
        positions@.len() == slashes(chars@).len(),
        forall|i: int| 0 <= i < positions@.len() ==> positions@[i] as int == slashes(chars@)[i],
{
    let mut positions: Vec<usize> = Vec::new();
    let mut i: usize = 0;
    while i < chars.len()
        invariant
            i <= chars.len(),
            positions@.len() == slashes(chars@.take(i as int)).len(),
            forall|j: int|
                0 <= j < positions@.len() ==> positions@[j] as int == slashes(
                    chars@.take(i as int),
                )[j],
        decreases chars.len() - i,
    {
        proof {
            lemma_slashes_take(chars@, i as int);
        }
        if chars[i] == '/' {
            positions.push(i);
        }
        i += 1;
    }
    assert(chars@.take(chars.len() as int) =~= chars@);
    positions
}

/// Appends the rows of one file and returns the names of its directories.
fn append_file_rows(
    rows: &mut Vec<FileTreeRow>,
    previous: &Vec<Vec<char>>,
    path: &str,
    label: &str,
    file: usize,
    collapsed: &[String],
) -> (directories: Vec<Vec<char>>)
    ensures
        rows_view(final(rows)@) == rows_view(old(rows)@) + file_rows(names_view(previous@), path@, label@, file as nat, collapsed@),
        names_view(directories@) == dir_names(path@),
{
    let ghost p = path@;
    let ghost old_rows = rows_view(rows@);
    let chars = chars_of(path);
    let separators = separator_positions(&chars);
    proof {
        lemma_slashes(p);
    }
    let count = separators.len();
    // Directory names.
    let mut directories: Vec<Vec<char>> = Vec::new();
    let mut d: usize = 0;
    while d < count
        invariant
            d <= count == separators@.len() == slashes(p).len(),
            chars@ == p,
            forall|i: int| 0 <= i < count ==> separators@[i] as int == slashes(p)[i],
            forall|i: int|
                0 <= i < slashes(p).len() ==> 0 <= #[trigger] slashes(p)[i] < p.len() && p[slashes(
                    p,
                )[i]] == '/',
            forall|i: int, j: int| 0 <= i < j < slashes(p).len() ==> slashes(p)[i] < slashes(p)[j],
            names_view(directories@) == dir_names(p).take(d as int),
        decreases count - d,
    {
        let start = if d == 0 {
            0
        } else {
            separators[d - 1] + 1
        };
        let name = chars_between(&chars, start, separators[d]);
        proof {
            lemma_names_view_push(directories@, name);
            assert(name@ =~= dir_name(p, d as int));
        }
        directories.push(name);
        d += 1;
        assert(names_view(directories@) =~= dir_names(p).take(d as int));
    }
    assert(dir_names(p).take(count as int) =~= dir_names(p));
    // Shared leading directories.
    let ghost prev_view = names_view(previous@);
    let ghost dirs_view = dir_names(p);
    let mut common: usize = 0;
    while common < previous.len() && common < directories.len() && chars_equal(
        &previous[common],
        &directories[common],
    )
        invariant
            common <= previous.len(),
            common <= directories.len(),
            prev_view == names_view(previous@),
            dirs_view == names_view(directories@),
            common_depth(prev_view, dirs_view) == common_depth_from(
                prev_view,
                dirs_view,
                common as nat,
            ),
        decreases directories.len() - common,
    {
        common += 1;
    }
    assert(common_depth(prev_view, dirs_view) == common);
    // Whether a shared directory is collapsed.
    let mut hidden = false;
    let mut d: usize = 0;
    while d < common
        invariant
            d <= common <= count == slashes(p).len(),
            chars@ == p,
            separators@.len() == count,
            forall|i: int| 0 <= i < count ==> separators@[i] as int == slashes(p)[i],
            forall|i: int|
                0 <= i < slashes(p).len() ==> 0 <= #[trigger] slashes(p)[i] < p.len(),
            hidden == collapsed_above(p, collapsed@, d as nat),
        decreases common - d,
    {
        let prefix = string_from_chars(&chars, 0, separators[d]);
        assert(prefix@ =~= dir_path(p, d as int));
        let found = contains_string(collapsed, &prefix);
        hidden = hidden || found;
        d += 1;
        assert(hidden == collapsed_above(p, collapsed@, d as nat)) by {
            if collapsed_above(p, collapsed@, d as nat) && !found {
                let w = choose|w: int|
                    0 <= w < d && strings_contain(collapsed@, dir_path(p, w));
                assert(w < d - 1);
            }
        }
    }
    let ghost above = hidden;
    let ghost first = first_collapsed_from(p, collapsed@, common as nat);
    proof {
        lemma_first_collapsed_bounds(p, collapsed@, common as nat);
    }
    let ghost start_rows = rows_view(rows@);
    // Directory headings below the shared directories.
    let mut d: usize = common;
    while d < count && !hidden
        invariant
            common <= d <= count == slashes(p).len(),
            chars@ == p,
            above == collapsed_above(p, collapsed@, common as nat),
            above ==> hidden && d == common,
            first == first_collapsed_from(p, collapsed@, common as nat),
            common <= first <= count,
            first < count ==> strings_contain(collapsed@, dir_path(p, first as int)),
            forall|i: int|
                common <= i < first ==> !strings_contain(collapsed@, #[trigger] dir_path(p, i)),
            !above ==> (!hidden ==> d <= first) && (hidden ==> d == first + 1),
            separators@.len() == count,
            forall|i: int| 0 <= i < count ==> separators@[i] as int == slashes(p)[i],
            forall|i: int|
                0 <= i < slashes(p).len() ==> 0 <= #[trigger] slashes(p)[i] < p.len(),
            forall|i: int, j: int| 0 <= i < j < slashes(p).len() ==> slashes(p)[i] < slashes(p)[j],
            start_rows == old_rows,
            rows_view(rows@) == old_rows + Seq::new(
                (d - common) as nat,
                |j: int|
                    RowView::Directory {
                        depth: (common + j) as nat,
                        name: dir_name(p, common + j),
                        path: dir_path(p, common + j),
                        collapsed: common + j == first,
                    },
            ),
        decreases count - d,
    {
        let prefix = string_from_chars(&chars, 0, separators[d]);
        assert(prefix@ =~= dir_path(p, d as int));
        let is_collapsed = contains_string(collapsed, &prefix);
        let start = if d == 0 {
            0
        } else {
            separators[d - 1] + 1
        };
        let name = string_from_chars(&chars, start, separators[d]);
        assert(name@ =~= dir_name(p, d as int));
        let row = FileTreeRow::Directory { depth: d, name, path: prefix, collapsed: is_collapsed };
        proof {
            lemma_rows_view_push(rows@, row);
        }
        rows.push(row);
        proof {
            if d < first {
                assert(!is_collapsed);
            } else {
                assert(d == first);
                assert(is_collapsed);
            }
        }
        hidden = is_collapsed;
        d += 1;
        assert(rows_view(rows@) =~= old_rows + Seq::new(
            (d - common) as nat,
            |j: int|
                RowView::Directory {
                    depth: (common + j) as nat,
                    name: dir_name(p, common + j),
                    path: dir_path(p, common + j),
                    collapsed: common + j == first,
                },
        ));
    }
    if !hidden {
        proof {
            assert(d == count);
            assert(first == count);
        }
        let path_chars = chars_of(path);
        let label_chars = chars_of(label);
        let name = if chars_equal(&label_chars, &path_chars) {
            let start = if count == 0 {
                0
            } else {
                assert(separators@[count - 1] as int == slashes(p)[count - 1]);
                assert(slashes(p)[count - 1] < p.len());
                assert(p.len() == chars.len());
                separators[count - 1] + 1
            };
            let name = string_from_chars(&chars, start, chars.len());
            assert(name@ =~= file_name(p));
            name
        } else {
            string_from_chars(&label_chars, 0, label_chars.len())
        };
        proof {
            assert(label_chars@.subrange(0, label_chars@.len() as int) =~= label@);
        }
        let row = FileTreeRow::File { depth: count, name, file };
        proof {
            lemma_rows_view_push(rows@, row);
        }
        rows.push(row);
    }
    proof {
        let expected = file_rows(prev_view, p, label@, file as nat, collapsed@);
        assert(rows_view(rows@) =~= old_rows + expected);
    }
    directories
}

impl FileTree {
    /// Build the rows for `files` (path, label) in order, hiding everything
    /// below a directory whose path is in `collapsed`.
    pub fn new(files: &[(&str, &str)], collapsed: &[String]) -> (tree: Self)
        ensures
            tree@ == tree_rows(files_view(files@), collapsed@),
    {
        let mut rows: Vec<FileTreeRow> = Vec::new();
        let mut previous: Vec<Vec<char>> = Vec::new();
        let mut file: usize = 0;
        while file < files.len()
            invariant
                file <= files.len(),
                rows_view(rows@) == tree_rows(
                    files_view(files@).take(file as int),
                    collapsed@,
                ),
                file > 0 ==> names_view(previous@) == dir_names(files@[file - 1].0@),
                file == 0 ==> previous@.len() == 0,
            decreases files.len() - file,
        {
            let (path, label) = files[file];
            let ghost before = files_view(files@).take(file as int);
            proof {
                assert(files_view(files@).take(file + 1).drop_last() =~= before);
                if file == 0 {
                    assert(names_view(previous@) =~= seq![]);
                }
            }
            let directories = append_file_rows(&mut rows, &previous, path, label, file, collapsed);
            previous = directories;
            file += 1;
        }
        assert(files_view(files@).take(files.len() as int) =~= files_view(files@));
        FileTree { rows }
    }
}


// ---------------------------------------------------------------------------
// Queries
// ---------------------------------------------------------------------------

/// The file indices of the file rows, in row order.
pub open spec fn visible_files(rows: Seq<RowView>) -> Seq<nat>
    decreases rows.len(),
{
    if rows.len() == 0 {
        seq![]
    } else {
        let rest = visible_files(rows.drop_last());
        match rows.last() {
            RowView::File { file, .. } => rest.push(file),
            RowView::Directory { .. } => rest,
        }
    }
}

/// Whether row `row` is the row of file `file`.
pub open spec fn is_file_row(rows: Seq<RowView>, row: int, file: nat) -> bool {
    0 <= row < rows.len() && (rows[row] matches RowView::File { file: f, .. } && f == file)
}

/// The first position of `value` in `values`, if any.
pub open spec fn first_position(values: Seq<nat>, value: nat) -> Option<nat> {
    if exists|i: int| 0 <= i < values.len() && values[i] == value {
        let i = choose|i: int|
            0 <= i < values.len() && values[i] == value && forall|j: int|
                0 <= j < i ==> values[j] != value;
        Some(i as nat)
    } else {
        None
    }
}

/// The first of `values` that is at least `target`, else the last one.
pub open spec fn nearest_at_or_after(values: Seq<nat>, target: nat) -> Option<nat> {
    if exists|i: int| 0 <= i < values.len() && values[i] >= target {
        let i = choose|i: int|
            0 <= i < values.len() && values[i] >= target && forall|j: int|
                0 <= j < i ==> values[j] < target;
        Some(values[i])
    } else if values.len() > 0 {
        Some(values.last())
    } else {
        None
    }
}

pub open spec fn indices_view(values: Seq<usize>) -> Seq<nat> {
    values.map_values(|value: usize| value as nat)
}

proof fn lemma_first_position(values: Seq<nat>, value: nat, i: int)
    requires
        0 <= i < values.len(),
        values[i] == value,
        forall|j: int| 0 <= j < i ==> values[j] != value,
    ensures
        first_position(values, value) == Some(i as nat),
{
    let k = choose|k: int|
        0 <= k < values.len() && values[k] == value && forall|j: int|
            0 <= j < k ==> values[j] != value;
    assert(k == i) by {
        if k < i {
        } else if k > i {
        }
    }
}

proof fn lemma_nearest(values: Seq<nat>, target: nat, i: int)
    requires
        0 <= i < values.len(),
        values[i] >= target,
        forall|j: int| 0 <= j < i ==> values[j] < target,
    ensures
        nearest_at_or_after(values, target) == Some(values[i]),
{
    let k = choose|k: int|
        0 <= k < values.len() && values[k] >= target && forall|j: int|
            0 <= j < k ==> values[j] < target;
    assert(k == i) by {
        if k < i {
        } else if k > i {
        }
    }
}

impl FileTree {
    /// The row showing file `file_index`, if it is visible.
    pub fn row_for_file(&self, file_index: usize) -> (row: Option<usize>)
        ensures
            match row {
                Some(r) => is_file_row(self@, r as int, file_index as nat) && forall|j: int|
                    0 <= j < r ==> !is_file_row(self@, j, file_index as nat),
                None => forall|j: int| !is_file_row(self@, j, file_index as nat),
            },
    {
        let mut i: usize = 0;
        while i < self.rows.len()
            invariant
                i <= self.rows.len() == self@.len(),
                forall|j: int| 0 <= j < i ==> !is_file_row(self@, j, file_index as nat),
            decreases self.rows.len() - i,
        {
            match &self.rows[i] {
                FileTreeRow::File { file, .. } => {
                    if *file == file_index {
                        return Some(i);
                    }
                },
                FileTreeRow::Directory { .. } => {},
            }
            i += 1;
        }
        None
    }

    /// The file shown on row `row_index`, if that row shows a file.
    pub fn file_at(&self, row_index: usize) -> (file: Option<usize>)
        ensures
            file == (if row_index < self@.len() {
                match self@[row_index as int] {
                    RowView::File { file, .. } => Some(file as usize),
                    RowView::Directory { .. } => None,
                }
            } else {
                None
            }),
    {
        if row_index >= self.rows.len() {
            return None;
        }
        match &self.rows[row_index] {
            FileTreeRow::File { file, .. } => Some(*file),
            FileTreeRow::Directory { .. } => None,
        }
    }

    /// The path and depth of the directory on row `row_index`, if any.
    pub fn directory_at(&self, row_index: usize) -> (directory: Option<(&str, usize)>)
        ensures
            match directory {
                Some((path, depth)) => row_index < self@.len() && (self@[row_index as int] matches RowView::Directory {
                    path: p,
                    depth: d,
                    ..
                } && path@ == p && depth == d),
                None => row_index >= self@.len() || self@[row_index as int] is File,
            },
    {
        if row_index >= self.rows.len() {
            return None;
        }
        match &self.rows[row_index] {
            FileTreeRow::Directory { path, depth, .. } => Some((path.as_str(), *depth)),
            FileTreeRow::File { .. } => None,
        }
    }

    /// The indices of the visible files, in row order.
    pub fn visible_files(&self) -> (files: Vec<usize>)
        ensures
            indices_view(files@) == visible_files(self@),
    {
        let mut files: Vec<usize> = Vec::new();
        let mut i: usize = 0;
        while i < self.rows.len()
            invariant
                i <= self.rows.len() == self@.len(),
                indices_view(files@) == visible_files(self@.take(i as int)),
            decreases self.rows.len() - i,
        {
            proof {
                assert(self@.take(i + 1).drop_last() =~= self@.take(i as int));
            }
            match &self.rows[i] {
                FileTreeRow::File { file, .. } => {
                    files.push(*file);
                },
                FileTreeRow::Directory { .. } => {},
            }
            i += 1;
            assert(indices_view(files@) =~= visible_files(self@.take(i as int)));
        }
        assert(self@.take(self@.len() as int) =~= self@);
        files
    }

    /// The visible file at position `visible_position` of the visible files.
    pub fn visible_file_at(&self, visible_position: usize) -> (file: Option<usize>)
        ensures
            file == (if visible_position < visible_files(self@).len() {
                Some(visible_files(self@)[visible_position as int] as usize)
            } else {
                None
            }),
    {
        let files = self.visible_files();
        if visible_position < files.len() {
            Some(files[visible_position])
        } else {
            None
        }
    }

    /// The position of file `file_index` among the visible files.
    pub fn visible_file_position(&self, file_index: usize) -> (position: Option<usize>)
        ensures
            position == (match first_position(visible_files(self@), file_index as nat) {
                Some(p) => Some(p as usize),
                None => None,
            }),
    {
        let files = self.visible_files();
        let ghost values = visible_files(self@);
        let mut i: usize = 0;
        while i < files.len()
            invariant
                i <= files.len() == values.len(),
                values == visible_files(self@),
                indices_view(files@) == values,
                forall|j: int| 0 <= j < i ==> values[j] != file_index as nat,
            decreases files.len() - i,
        {
            assert(values[i as int] == files@[i as int] as nat);
            if files[i] == file_index {
                proof {
                    lemma_first_position(values, file_index as nat, i as int);
                }
                return Some(i);
            }
            i += 1;
        }
        None
    }

    /// How many files are visible.
    pub fn visible_file_count(&self) -> (count: usize)
        ensures
            count == visible_files(self@).len(),
    {
        self.visible_files().len()
    }

    /// The first visible file at or after `file_index`, else the last visible
    /// file, else none.
    pub fn nearest_visible_file(&self, file_index: usize) -> (file: Option<usize>)
        ensures
            file == (match nearest_at_or_after(visible_files(self@), file_index as nat) {
                Some(f) => Some(f as usize),
                None => None,
            }),
    {
        let files = self.visible_files();
        let ghost values = visible_files(self@);
        let mut previous: Option<usize> = None;
        let mut i: usize = 0;
        while i < files.len()
            invariant
                i <= files.len() == values.len(),
                values == visible_files(self@),
                indices_view(files@) == values,
                forall|j: int| 0 <= j < i ==> values[j] < file_index as nat,
                previous == (if i == 0 { None } else { Some(files@[i - 1]) }),
            decreases files.len() - i,
        {
            let candidate = files[i];
            assert(values[i as int] == candidate as nat);
            if candidate >= file_index {
                proof {
                    lemma_nearest(values, file_index as nat, i as int);
                }
                return Some(candidate);
            }
            previous = Some(candidate);
            i += 1;
        }
        previous
    }
}


// ---------------------------------------------------------------------------
// Laws
// ---------------------------------------------------------------------------

/// Whether no directory above the file named by `path` is collapsed.
pub open spec fn file_shown(path: Seq<char>, collapsed: Seq<String>) -> bool {
    forall|d: int| 0 <= d < dir_count(path) ==> !strings_contain(collapsed, #[trigger] dir_path(path, d))
}

/// The indices of the files of `files` that no collapsed directory hides.
pub open spec fn shown_files(files: Seq<(Seq<char>, Seq<char>)>, collapsed: Seq<String>) -> Seq<nat>
    decreases files.len(),
{
    if files.len() == 0 {
        seq![]
    } else {
        let last = files.len() - 1;
        shown_files(files.drop_last(), collapsed) + if file_shown(files[last].0, collapsed) {
            seq![last as nat]
        } else {
            seq![]
        }
    }
}

proof fn lemma_visible_files_concat(left: Seq<RowView>, right: Seq<RowView>)
    ensures
        visible_files(left + right) == visible_files(left) + visible_files(right),
    decreases right.len(),
{
    if right.len() == 0 {
        assert(left + right =~= left);
        assert(visible_files(right) =~= seq![]);
        assert(visible_files(left) + visible_files(right) =~= visible_files(left));
    } else {
        assert((left + right).drop_last() =~= left + right.drop_last());
        lemma_visible_files_concat(left, right.drop_last());
        match right.last() {
            RowView::File { file, .. } => {
                assert(visible_files(left) + visible_files(right) =~= (visible_files(left)
                    + visible_files(right.drop_last())).push(file));
            },
            RowView::Directory { .. } => {},
        }
    }
}

proof fn lemma_visible_files_directories(rows: Seq<RowView>)
    requires
        forall|i: int| 0 <= i < rows.len() ==> rows[i] is Directory,
    ensures
        visible_files(rows) == Seq::<nat>::empty(),
    decreases rows.len(),
{
    if rows.len() > 0 {
        lemma_visible_files_directories(rows.drop_last());
    }
}

proof fn lemma_visible_files_of_file_rows(
    previous: Seq<Seq<char>>,
    path: Seq<char>,
    label: Seq<char>,
    file: nat,
    collapsed: Seq<String>,
)
    ensures
        visible_files(file_rows(previous, path, label, file, collapsed)) == if file_shown(
            path,
            collapsed,
        ) {
            seq![file]
        } else {
            seq![]
        },
{
    let count = dir_count(path);
    let common = common_depth(previous, dir_names(path));
    lemma_common_depth_bounds(previous, dir_names(path), 0);
    let rows = file_rows(previous, path, label, file, collapsed);
    if collapsed_above(path, collapsed, common) {
        let d = choose|d: int| 0 <= d < common && strings_contain(collapsed, dir_path(path, d));
        assert(!file_shown(path, collapsed));
        assert(visible_files(rows) =~= seq![]);
    } else {
        lemma_first_collapsed_bounds(path, collapsed, common);
        let first = first_collapsed_from(path, collapsed, common);
        let stop: nat = if first < count { first + 1 } else { count };
        let directories = Seq::new(
            (stop - common) as nat,
            |j: int|
                RowView::Directory {
                    depth: (common + j) as nat,
                    name: dir_name(path, common + j),
                    path: dir_path(path, common + j),
                    collapsed: common + j == first,
                },
        );
        lemma_visible_files_directories(directories);
        if first < count {
            assert(!file_shown(path, collapsed));
        } else {
            let row = RowView::File {
                depth: count,
                name: if label == path { file_name(path) } else { label },
                file,
            };
            assert(directories.push(row).drop_last() =~= directories);
            assert(visible_files(directories.push(row)) =~= seq![file]);
            assert forall|d: int| 0 <= d < dir_count(path) implies !strings_contain(
                collapsed,
                #[trigger] dir_path(path, d),
            ) by {
                if d < common {
                } else {
                }
            }
        }
    }
}

/// The files that a tree shows are exactly the files that no collapsed
/// directory hides, in their input order.
pub proof fn law_tree_shows_uncollapsed_files(
    files: Seq<(Seq<char>, Seq<char>)>,
    collapsed: Seq<String>,
)
    ensures
        visible_files(tree_rows(files, collapsed)) == shown_files(files, collapsed),
    decreases files.len(),
{
    if files.len() > 0 {
        let last = files.len() - 1;
        let previous = if last == 0 {
            seq![]
        } else {
            dir_names(files[last - 1].0)
        };
        law_tree_shows_uncollapsed_files(files.drop_last(), collapsed);
        lemma_visible_files_concat(
            tree_rows(files.drop_last(), collapsed),
            file_rows(previous, files[last].0, files[last].1, last as nat, collapsed),
        );
        lemma_visible_files_of_file_rows(
            previous,
            files[last].0,
            files[last].1,
            last as nat,
            collapsed,
        );
    }
}

pub proof fn lemma_shown_files_ordered(files: Seq<(Seq<char>, Seq<char>)>, collapsed: Seq<String>)
    ensures
        forall|i: int|
            0 <= i < shown_files(files, collapsed).len() ==> #[trigger] shown_files(
                files,
                collapsed,
            )[i] < files.len(),
        forall|i: int, j: int|
            0 <= i < j < shown_files(files, collapsed).len() ==> shown_files(files, collapsed)[i]
                < shown_files(files, collapsed)[j],
        forall|k: nat|
            k < files.len() ==> (shown_files(files, collapsed).contains(k) <==> file_shown(
                #[trigger] files[k as int].0,
                collapsed,
            )),
    decreases files.len(),
{
    if files.len() > 0 {
        let last = files.len() - 1;
        let rest = files.drop_last();
        lemma_shown_files_ordered(rest, collapsed);
        let shown = shown_files(files, collapsed);
        let before = shown_files(rest, collapsed);
        assert forall|k: nat| k < files.len() implies (shown.contains(k) <==> file_shown(
            #[trigger] files[k as int].0,
            collapsed,
        )) by {
            if k < last {
                assert(rest[k as int] == files[k as int]);
                if shown.contains(k) {
                    let w = choose|w: int| 0 <= w < shown.len() && shown[w] == k;
                    if w >= before.len() {
                        assert(shown[w] == last);
                    } else {
                        assert(before[w] == k);
                    }
                }
                if before.contains(k) {
                    let w = choose|w: int| 0 <= w < before.len() && before[w] == k;
                    assert(shown[w] == k);
                }
            } else {
                if file_shown(files[last].0, collapsed) {
                    assert(shown[before.len() as int] == k);
                } else {
                    assert(shown =~= before);
                }
            }
        }
    }
}

/// Files keep their input order in the tree and a file shows on one row at
/// most.
pub proof fn law_tree_keeps_file_order(files: Seq<(Seq<char>, Seq<char>)>, collapsed: Seq<String>)
    ensures
        forall|i: int, j: int|
            0 <= i < j < visible_files(tree_rows(files, collapsed)).len() ==> visible_files(
                tree_rows(files, collapsed),
            )[i] < visible_files(tree_rows(files, collapsed))[j],
        forall|i: int|
            0 <= i < visible_files(tree_rows(files, collapsed)).len() ==> #[trigger] visible_files(
                tree_rows(files, collapsed),
            )[i] < files.len(),
{
    law_tree_shows_uncollapsed_files(files, collapsed);
    lemma_shown_files_ordered(files, collapsed);
}

/// A file shows in the tree exactly when no directory above it is collapsed.
pub proof fn law_collapsed_directory_hides_its_files(
    files: Seq<(Seq<char>, Seq<char>)>,
    collapsed: Seq<String>,
    file: nat,
)
    requires
        file < files.len(),
    ensures
        visible_files(tree_rows(files, collapsed)).contains(file) <==> file_shown(
            files[file as int].0,
            collapsed,
        ),
{
    law_tree_shows_uncollapsed_files(files, collapsed);
    lemma_shown_files_ordered(files, collapsed);
}

/// The visible position of the file at a visible position is that position.
pub proof fn law_visible_position_inverts_visible_file(
    files: Seq<(Seq<char>, Seq<char>)>,
    collapsed: Seq<String>,
    position: int,
)
    requires
        0 <= position < visible_files(tree_rows(files, collapsed)).len(),
    ensures
        first_position(
            visible_files(tree_rows(files, collapsed)),
            visible_files(tree_rows(files, collapsed))[position],
        ) == Some(position as nat),
{
    law_tree_keeps_file_order(files, collapsed);
    let values = visible_files(tree_rows(files, collapsed));
    lemma_first_position(values, values[position], position);
}

proof fn lemma_row_iff_listed(rows: Seq<RowView>, file: nat)
    ensures
        (exists|j: int| is_file_row(rows, j, file)) <==> (exists|i: int|
            0 <= i < visible_files(rows).len() && #[trigger] visible_files(rows)[i] == file),
    decreases rows.len(),
{
    if rows.len() > 0 {
        let init = rows.drop_last();
        let rest = visible_files(init);
        let values = visible_files(rows);
        lemma_row_iff_listed(init, file);
        assert forall|i: int| 0 <= i < rest.len() implies #[trigger] values[i] == rest[i] by {}
        if exists|j: int| is_file_row(rows, j, file) {
            let j = choose|j: int| is_file_row(rows, j, file);
            if j < rows.len() - 1 {
                assert(init[j] == rows[j]);
                assert(is_file_row(init, j, file));
                let i = choose|i: int| 0 <= i < rest.len() && #[trigger] rest[i] == file;
                assert(values[i] == file);
            } else {
                assert(values[rest.len() as int] == file);
            }
        }
        if exists|i: int| 0 <= i < values.len() && #[trigger] values[i] == file {
            let i = choose|i: int| 0 <= i < values.len() && #[trigger] values[i] == file;
            if i < rest.len() {
                assert(rest[i] == file);
                let j = choose|j: int| is_file_row(init, j, file);
                assert(init[j] == rows[j]);
                assert(is_file_row(rows, j, file));
            } else {
                assert(is_file_row(rows, rows.len() - 1, file));
            }
        }
    }
}

/// A file has a row in the tree exactly when it is among the visible
/// files: `row_for_file` finds a row for it (a row that `file_at` reads
/// as that file) exactly when `visible_file_position` finds it.
pub proof fn law_file_has_a_row_iff_visible(rows: Seq<RowView>, file: nat)
    ensures
        (exists|j: int| is_file_row(rows, j, file)) <==> first_position(visible_files(rows), file) is Some,
{
    lemma_row_iff_listed(rows, file);
}

// ---------------------------------------------------------------------------
// Folding directories
// ---------------------------------------------------------------------------

/// Whether `directory` is a parent directory of `path`: `path` continues
/// it with a `/`.
pub open spec fn is_parent(path: Seq<char>, directory: Seq<char>) -> bool {
    directory.len() < path.len() && path[directory.len() as int] == '/' && starts_with(path, directory)
}

/// Whether a click at `column` hits the fold marker of a directory row at
/// `depth`: the marker follows two columns of indent per level and the
/// pane border.
pub fn hits_fold_marker(column: u16, depth: usize) -> (hit: bool)
    ensures
        hit == (column == 1 + 2 * depth),
{
    depth < 32768 && column as usize == 1 + 2 * depth
}

/// Whether `text` is a parent directory of `path` (`parents`), or else is
/// `directory`.
pub open spec fn dropped(text: Seq<char>, parents: bool, path: Seq<char>, directory: Seq<char>) -> bool {
    if parents {
        is_parent(path, text)
    } else {
        text == directory
    }
}

/// Whether `directory` is a parent directory of `path`.
fn parent_of(path: &str, directory: &str) -> (parent: bool)
    ensures
        parent == is_parent(path@, directory@),
{
    let path_chars = chars_of(path);
    let directory_chars = chars_of(directory);
    directory_chars.len() < path_chars.len() && path_chars[directory_chars.len()] == '/'
        && text_starts_with(path, directory)
}

/// The strings of `strings` that are not dropped, in order, and whether
/// one was dropped.
fn without_dropped(strings: &Vec<String>, parents: bool, path: &str, directory: &str) -> (result: (
    Vec<String>,
    bool,
))
    ensures
        forall|text: Seq<char>|
            #![trigger strings_contain(result.0@, text)]
            strings_contain(result.0@, text) == (strings_contain(strings@, text) && !dropped(
                text,
                parents,
                path@,
                directory@,
            )),
        result.1 == exists|i: int|
            0 <= i < strings@.len() && dropped(#[trigger] strings@[i]@, parents, path@, directory@),
{
    let mut kept: Vec<String> = Vec::new();
    let mut any = false;
    let mut i: usize = 0;
    while i < strings.len()
        invariant
            i <= strings@.len(),
            forall|text: Seq<char>|
                #![trigger strings_contain(kept@, text)]
                strings_contain(kept@, text) == (strings_contain(strings@.take(i as int), text)
                    && !dropped(text, parents, path@, directory@)),
            any == exists|j: int|
                0 <= j < i && dropped(#[trigger] strings@[j]@, parents, path@, directory@),
        decreases strings@.len() - i,
    {
        let drop = if parents {
            parent_of(path, strings[i].as_str())
        } else {
            same_text(strings[i].as_str(), directory)
        };
        let ghost old_kept = kept@;
        if drop {
            any = true;
        } else {
            let copy = strings[i].clone();
            assert(copy@ == strings@[i as int]@);
            kept.push(copy);
        }
        assert(drop ==> kept@ == old_kept);
        assert(!drop ==> kept@ == old_kept.push(strings@[i as int]));
        proof {
            let taken = strings@.take(i + 1);
            assert(taken =~= strings@.take(i as int).push(strings@[i as int]));
            assert forall|text: Seq<char>|
                #![trigger strings_contain(kept@, text)]
                strings_contain(kept@, text) == (strings_contain(taken, text) && !dropped(
                    text,
                    parents,
                    path@,
                    directory@,
                )) by {
                if strings_contain(kept@, text) {
                    let k = choose|k: int| 0 <= k < kept@.len() && kept@[k]@ == text;
                    if k < old_kept.len() {
                        assert(kept@[k] == old_kept[k]);
                        assert(strings_contain(old_kept, text));
                        let j = choose|j: int|
                            0 <= j < strings@.take(i as int).len() && strings@.take(i as int)[j]@ == text;
                        assert(taken[j] == strings@.take(i as int)[j]);
                    } else {
                        assert(taken[i as int] == strings@[i as int]);
                    }
                }
                if strings_contain(taken, text) && !dropped(text, parents, path@, directory@) {
                    let j = choose|j: int| 0 <= j < taken.len() && taken[j]@ == text;
                    if j < i {
                        assert(strings@.take(i as int)[j] == taken[j]);
                        assert(strings_contain(strings@.take(i as int), text));
                        assert(strings_contain(old_kept, text));
                        let k = choose|k: int| 0 <= k < old_kept.len() && old_kept[k]@ == text;
                        assert(kept@[k] == old_kept[k]);
                    } else {
                        assert(taken[i as int] == strings@[i as int]);
                        assert(!drop);
                        assert(kept@[old_kept.len() as int]@ == text);
                    }
                }
            }
        }
        i += 1;
    }
    assert(strings@.take(strings@.len() as int) =~= strings@);
    (kept, any)
}

/// Folds `directory` when it is open, and opens it when it is folded.
pub fn toggle_collapsed(collapsed: &mut Vec<String>, directory: &str)
    ensures
        forall|text: Seq<char>|
            #![trigger strings_contain(final(collapsed)@, text)]
            strings_contain(final(collapsed)@, text) == if text == directory@ {
                !strings_contain(old(collapsed)@, text)
            } else {
                strings_contain(old(collapsed)@, text)
            },
{
    let ghost before = collapsed@;
    let (kept, folded) = without_dropped(collapsed, false, "", directory);
    if folded {
        proof {
            let i = choose|i: int| 0 <= i < before.len() && dropped(before[i]@, false, ""@, directory@);
            assert(strings_contain(before, directory@));
        }
        *collapsed = kept;
    } else {
        collapsed.push(directory.to_string());
        proof {
            assert forall|text: Seq<char>|
                #![trigger strings_contain(collapsed@, text)]
                strings_contain(collapsed@, text) == if text == directory@ {
                    !strings_contain(before, text)
                } else {
                    strings_contain(before, text)
                } by {
                if strings_contain(before, text) {
                    let k = choose|k: int| 0 <= k < before.len() && before[k]@ == text;
                    assert(collapsed@[k] == before[k]);
                }
                if strings_contain(collapsed@, text) {
                    let k = choose|k: int| 0 <= k < collapsed@.len() && collapsed@[k]@ == text;
                    if k < before.len() {
                        assert(collapsed@[k] == before[k]);
                    }
                }
                assert(collapsed@[before.len() as int]@ == directory@);
                if strings_contain(before, directory@) {
                    let k = choose|k: int| 0 <= k < before.len() && before[k]@ == directory@;
                    assert(dropped(before[k]@, false, ""@, directory@));
                }
            }
        }
    }
}

/// Opens every folded parent directory of `path`; says whether one was
/// folded.
pub fn expand_parents(collapsed: &mut Vec<String>, path: &str) -> (changed: bool)
    ensures
        forall|text: Seq<char>|
            #![trigger strings_contain(final(collapsed)@, text)]
            strings_contain(final(collapsed)@, text) == (strings_contain(old(collapsed)@, text)
                && !is_parent(path@, text)),
        changed == exists|i: int|
            0 <= i < old(collapsed)@.len() && is_parent(path@, #[trigger] old(collapsed)@[i]@),
{
    let (kept, changed) = without_dropped(collapsed, true, path, "");
    *collapsed = kept;
    changed
}

/// Folding a directory twice leaves the folded directories as they were.
pub proof fn law_folding_twice_changes_nothing(
    collapsed: Seq<String>,
    once: Seq<String>,
    twice: Seq<String>,
    directory: Seq<char>,
)
    requires
        forall|text: Seq<char>|
            #![trigger strings_contain(once, text)]
            strings_contain(once, text) == if text == directory {
                !strings_contain(collapsed, text)
            } else {
                strings_contain(collapsed, text)
            },
        forall|text: Seq<char>|
            #![trigger strings_contain(twice, text)]
            strings_contain(twice, text) == if text == directory {
                !strings_contain(once, text)
            } else {
                strings_contain(once, text)
            },
    ensures
        forall|text: Seq<char>|
            #![trigger strings_contain(twice, text)]
            strings_contain(twice, text) == strings_contain(collapsed, text),
{
    assert forall|text: Seq<char>| #![trigger strings_contain(twice, text)]
        strings_contain(twice, text) == strings_contain(collapsed, text) by {
        assert(strings_contain(once, text) == if text == directory {
            !strings_contain(collapsed, text)
        } else {
            strings_contain(collapsed, text)
        });
    }
}

} // verus!

verus! {

/// The nearest visible file to a target: when some visible file comes at or
/// after the target, the first of them, which is at or after the target
/// while every visible file before it comes before the target; when every
/// visible file comes before the target, the last visible file; none
/// without visible files.
pub proof fn law_nearest_visible_file(values: Seq<nat>, target: nat)
    ensures
        values.len() == 0 ==> nearest_at_or_after(values, target) is None,
        values.len() > 0 ==> (nearest_at_or_after(values, target) is Some && values.contains(
            nearest_at_or_after(values, target)->0,
        )),
        (exists|i: int| 0 <= i < values.len() && values[i] >= target) ==> exists|i: int|
            0 <= i < values.len() && nearest_at_or_after(values, target) == Some(values[i])
                && values[i] >= target && forall|j: int| 0 <= j < i ==> values[j] < target,
        values.len() > 0 && (forall|i: int| 0 <= i < values.len() ==> values[i] < target)
            ==> nearest_at_or_after(values, target) == Some(values[values.len() - 1]),
{
    if exists|i: int| 0 <= i < values.len() && values[i] >= target {
        let k = choose|k: int| 0 <= k < values.len() && values[k] >= target;
        lemma_first_at_or_after(values, target, k);
        let k = choose|k: int| 0 <= k < values.len() && values[k] >= target;
        lemma_first_at_or_after(values, target, k);
        let i = choose|i: int|
            0 <= i < values.len() && values[i] >= target && forall|j: int|
                0 <= j < i ==> values[j] < target;
        assert(values.contains(values[i]));
    } else if values.len() > 0 {
        assert(values.contains(values[values.len() - 1]));
    }
}

proof fn lemma_first_at_or_after(values: Seq<nat>, target: nat, k: int)
    requires
        0 <= k < values.len(),
        values[k] >= target,
    ensures
        exists|i: int|
            0 <= i < values.len() && values[i] >= target && forall|j: int|
                0 <= j < i ==> values[j] < target,
    decreases k,
{
    if exists|j: int| 0 <= j < k && values[j] >= target {
        let j = choose|j: int| 0 <= j < k && values[j] >= target;
        lemma_first_at_or_after(values, target, j);
    } else {
        assert(forall|j: int| 0 <= j < k ==> values[j] < target);
    }
}

/// In a file tree the visible files come in file order, so when a hidden
/// file comes after every visible file, the nearest visible file is the
/// greatest of them: the visible file closest before it.
pub proof fn law_nearest_visible_file_before_a_hidden_one(
    files: Seq<(Seq<char>, Seq<char>)>,
    collapsed: Seq<String>,
    target: nat,
)
    requires
        visible_files(tree_rows(files, collapsed)).len() > 0,
        forall|i: int|
            0 <= i < visible_files(tree_rows(files, collapsed)).len() ==> #[trigger] visible_files(
                tree_rows(files, collapsed),
            )[i] < target,
    ensures
        ({
            let visible = visible_files(tree_rows(files, collapsed));
            &&& nearest_at_or_after(visible, target) is Some
            &&& forall|i: int| 0 <= i < visible.len() ==> visible[i] <= nearest_at_or_after(
                visible,
                target,
            )->0
        }),
{
    let visible = visible_files(tree_rows(files, collapsed));
    law_tree_keeps_file_order(files, collapsed);
    law_nearest_visible_file(visible, target);
    assert forall|i: int| 0 <= i < visible.len() implies #[trigger] visible[i] <= visible[visible.len() - 1] by {
        if i < visible.len() - 1 {
            assert(visible[i] < visible[visible.len() - 1]);
        }
    }
}

} // verus!
