//! Moving through the review: from one search match or guide comment to
//! the next, and keeping the selected row of a list on screen.

use vstd::prelude::*;

use crate::presentation::{passing_rows, DiffPresentation, RowTest, SearchDirection};

verus! {

/// A place in the review: a file, and a row of its presentation when the
/// file's diff is loaded.
#[derive(Clone, Copy, Debug, PartialEq, Eq)]
pub struct ReviewPlace {
    pub file: usize,
    pub row: Option<usize>,
}

/// Whether `place` lies after the cursor at `row` of `file`. A place
/// without a row lies after the cursor only when its file does.
pub open spec fn comes_after(place: ReviewPlace, file: usize, row: usize) -> bool {
    place.file > file || (place.file == file && match place.row {
        Some(r) => r > row,
        None => false,
    })
}

/// Whether `place` lies before the cursor at `row` of `file`.
pub open spec fn comes_before(place: ReviewPlace, file: usize, row: usize) -> bool {
    place.file < file || (place.file == file && match place.row {
        Some(r) => r < row,
        None => false,
    })
}

pub open spec fn after_cursor(file: usize, row: usize) -> spec_fn(ReviewPlace) -> bool {
    |place: ReviewPlace| comes_after(place, file, row)
}

pub open spec fn before_cursor(file: usize, row: usize) -> spec_fn(ReviewPlace) -> bool {
    |place: ReviewPlace| comes_before(place, file, row)
}

/// The place a jump from the cursor lands on: forward, the first place
/// after the cursor, wrapping around to the first place; backward, the
/// last place before it, wrapping around to the last place.
pub open spec fn next_place_of(
    places: Seq<ReviewPlace>,
    file: usize,
    row: usize,
    direction: SearchDirection,
) -> Option<ReviewPlace> {
    match direction {
        SearchDirection::Forward => {
            let after = places.filter(after_cursor(file, row));
            if after.len() > 0 {
                Some(after[0])
            } else if places.len() > 0 {
                Some(places[0])
            } else {
                None
            }
        },
        SearchDirection::Backward => {
            let before = places.filter(before_cursor(file, row));
            if before.len() > 0 {
                Some(before.last())
            } else if places.len() > 0 {
                Some(places.last())
            } else {
                None
            }
        },
    }
}

proof fn lemma_filter_nothing<A>(s: Seq<A>, pred: spec_fn(A) -> bool)
    requires
        forall|j: int| 0 <= j < s.len() ==> !pred(#[trigger] s[j]),
    ensures
        s.filter(pred).len() == 0,
    decreases s.len(),
{
    reveal(Seq::filter);
    if s.len() > 0 {
        lemma_filter_nothing(s.drop_last(), pred);
    }
}

proof fn lemma_filter_first<A>(s: Seq<A>, pred: spec_fn(A) -> bool, i: int)
    requires
        0 <= i < s.len(),
        pred(s[i]),
        forall|j: int| 0 <= j < i ==> !pred(#[trigger] s[j]),
    ensures
        s.filter(pred).len() > 0,
        s.filter(pred)[0] == s[i],
{
    let head = s.take(i + 1);
    let tail = s.skip(i + 1);
    assert(s =~= head + tail);
    Seq::filter_distributes_over_add(head, tail, pred);
    assert(head.drop_last() =~= s.take(i));
    lemma_filter_nothing(s.take(i), pred);
    reveal(Seq::filter);
    assert(head.filter(pred) =~= seq![s[i]]);
}

proof fn lemma_filter_last<A>(s: Seq<A>, pred: spec_fn(A) -> bool, i: int)
    requires
        0 <= i < s.len(),
        pred(s[i]),
        forall|j: int| i < j < s.len() ==> !pred(#[trigger] s[j]),
    ensures
        s.filter(pred).len() > 0,
        s.filter(pred).last() == s[i],
{
    let head = s.take(i + 1);
    let tail = s.skip(i + 1);
    assert(s =~= head + tail);
    Seq::filter_distributes_over_add(head, tail, pred);
    assert forall|j: int| 0 <= j < tail.len() implies !pred(#[trigger] tail[j]) by {
        assert(tail[j] == s[i + 1 + j]);
    }
    lemma_filter_nothing(tail, pred);
    assert(head.drop_last() =~= s.take(i));
    reveal(Seq::filter);
    assert(head.filter(pred).last() == s[i]);
    assert(s.filter(pred) =~= head.filter(pred));
}

/// Where a jump from the cursor at `row` of `file` lands among `places`.
pub fn next_place(places: &Vec<ReviewPlace>, file: usize, row: usize, direction: SearchDirection) -> (target:
    Option<ReviewPlace>)
    ensures
        target == next_place_of(places@, file, row, direction),
{
    let len = places.len();
    match direction {
        SearchDirection::Forward => {
            let mut i: usize = 0;
            while i < len
                invariant
                    i <= len == places@.len(),
                    direction is Forward,
                    forall|j: int| 0 <= j < i ==> !comes_after(#[trigger] places@[j], file, row),
                decreases len - i,
            {
                let place = places[i];
                let after = place.file > file || (place.file == file && match place.row {
                    Some(r) => r > row,
                    None => false,
                });
                if after {
                    proof {
                        lemma_filter_first(places@, after_cursor(file, row), i as int);
                        assert(places@.filter(after_cursor(file, row))[0] == place);
                    }
                    return Some(place);
                }
                i += 1;
            }
            proof {
                lemma_filter_nothing(places@, after_cursor(file, row));
            }
            if len > 0 {
                Some(places[0])
            } else {
                None
            }
        },
        SearchDirection::Backward => {
            let mut i: usize = len;
            while i > 0
                invariant
                    i <= len == places@.len(),
                    direction is Backward,
                    forall|j: int| i <= j < len ==> !comes_before(#[trigger] places@[j], file, row),
                decreases i,
            {
                let place = places[i - 1];
                let before = place.file < file || (place.file == file && match place.row {
                    Some(r) => r < row,
                    None => false,
                });
                if before {
                    proof {
                        lemma_filter_last(places@, before_cursor(file, row), i - 1);
                        assert(places@.filter(before_cursor(file, row)).last() == place);
                    }
                    return Some(place);
                }
                i -= 1;
            }
            proof {
                lemma_filter_nothing(places@, before_cursor(file, row));
            }
            if len > 0 {
                Some(places[len - 1])
            } else {
                None
            }
        },
    }
}

/// The rows of `files[index]` whose text matches `query`, as places.
pub open spec fn matches_in(files: Seq<DiffPresentation>, index: int, query: &str) -> Seq<ReviewPlace> {
    let diff = files[index];
    passing_rows(diff.rows_view(), diff.source@, RowTest::Query(query), diff.rows@.len() as int).map_values(
        |row: int| ReviewPlace { file: index as usize, row: Some(row as usize) },
    )
}

/// Every row of every file that matches `query`, file by file and row by
/// row.
pub open spec fn review_matches(files: Seq<DiffPresentation>, query: &str) -> Seq<ReviewPlace>
    decreases files.len(),
{
    if files.len() == 0 {
        seq![]
    } else {
        review_matches(files.drop_last(), query) + matches_in(files, files.len() - 1, query)
    }
}

/// The matches of `query` in all files, in review order.
pub fn all_matches(files: &Vec<DiffPresentation>, query: &str) -> (places: Vec<ReviewPlace>)
    ensures
        places@ == review_matches(files@, query),
{
    let mut places: Vec<ReviewPlace> = Vec::new();
    let mut f: usize = 0;
    while f < files.len()
        invariant
            f <= files@.len(),
            places@ == review_matches(files@.take(f as int), query),
        decreases files@.len() - f,
    {
        let rows = files[f].matching_rows(query);
        let ghost before = places@;
        let mut k: usize = 0;
        while k < rows.len()
            invariant
                k <= rows@.len(),
                f < files@.len(),
                places@ == before + rows@.take(k as int).map_values(
                    |row: usize| ReviewPlace { file: f, row: Some(row) },
                ),
            decreases rows@.len() - k,
        {
            places.push(ReviewPlace { file: f, row: Some(rows[k]) });
            k += 1;
            assert(rows@.take(k as int).map_values(|row: usize| ReviewPlace { file: f, row: Some(row) })
                =~= rows@.take(k - 1 as int).map_values(
                |row: usize| ReviewPlace { file: f, row: Some(row) },
            ).push(ReviewPlace { file: f, row: Some(rows@[k - 1]) }));
        }
        proof {
            let taken = files@.take(f + 1);
            assert(taken.drop_last() =~= files@.take(f as int));
            assert(taken[f as int] == files@[f as int]);
            let found = matches_in(taken, f as int, query);
            let passing = passing_rows(
                files@[f as int].rows_view(),
                files@[f as int].source@,
                RowTest::Query(query),
                files@[f as int].rows@.len() as int,
            );
            assert(rows@.map_values(|row: usize| row as int) == passing);
            assert forall|i: int| 0 <= i < rows@.len() implies #[trigger] found[i] == ReviewPlace {
                file: f,
                row: Some(rows@[i]),
            } by {
                assert(rows@.map_values(|row: usize| row as int)[i] == passing[i]);
            }
            assert(rows@.take(rows@.len() as int) =~= rows@);
            assert(found =~= rows@.map_values(|row: usize| ReviewPlace { file: f, row: Some(row) }));
        }
        f += 1;
    }
    assert(files@.take(files@.len() as int) =~= files@);
    places
}

/// Where repeating a search for `query` from the cursor at `row` of `file`
/// lands: the next (or previous) match in review order, wrapping around.
pub fn search_target(
    files: &Vec<DiffPresentation>,
    query: &str,
    file: usize,
    row: usize,
    direction: SearchDirection,
) -> (target: Option<ReviewPlace>)
    ensures
        target == next_place_of(review_matches(files@, query), file, row, direction),
{
    let matches = all_matches(files, query);
    next_place(&matches, file, row, direction)
}

/// A jump lands on one of the places, and on none only when there are
/// none.
pub proof fn law_jump_lands_on_a_place(
    places: Seq<ReviewPlace>,
    file: usize,
    row: usize,
    direction: SearchDirection,
)
    ensures
        next_place_of(places, file, row, direction) is None <==> places.len() == 0,
        next_place_of(places, file, row, direction) matches Some(place) ==> places.contains(place),
{
    broadcast use vstd::seq_lib::group_filter_ensures;

    let after = places.filter(after_cursor(file, row));
    let before = places.filter(before_cursor(file, row));
    if after.len() > 0 {
        assert(after.contains(after[0]));
        places.lemma_filter_contains_rev(after_cursor(file, row), after[0]);
    }
    if before.len() > 0 {
        assert(before.contains(before.last()));
        places.lemma_filter_contains_rev(before_cursor(file, row), before.last());
    }
    if places.len() > 0 {
        assert(places.contains(places[0]));
        assert(places.contains(places.last()));
    }
}

/// A forward jump lands after the cursor whenever some place lies after
/// it, and a backward jump before the cursor whenever some place lies
/// before it.
pub proof fn law_jump_moves_past_the_cursor(
    places: Seq<ReviewPlace>,
    file: usize,
    row: usize,
    i: int,
)
    requires
        0 <= i < places.len(),
    ensures
        comes_after(places[i], file, row) ==> comes_after(
            next_place_of(places, file, row, SearchDirection::Forward)->0,
            file,
            row,
        ),
        comes_before(places[i], file, row) ==> comes_before(
            next_place_of(places, file, row, SearchDirection::Backward)->0,
            file,
            row,
        ),
{
    broadcast use vstd::seq_lib::group_filter_ensures;

    let after = places.filter(after_cursor(file, row));
    let before = places.filter(before_cursor(file, row));
    if comes_after(places[i], file, row) {
        assert(after.contains(places[i]));
        assert(after_cursor(file, row)(after[0]));
    }
    if comes_before(places[i], file, row) {
        assert(before.contains(places[i]));
        assert(before_cursor(file, row)(before[before.len() - 1]));
    }
}

// ---------------------------------------------------------------------------
// Moving a cursor and keeping it on screen
// ---------------------------------------------------------------------------

/// `value` moved by `delta`, stopping at 0 and at `usize::MAX`.
pub open spec fn offset_of(value: usize, delta: isize) -> int {
    let moved = value + delta;
    if moved < 0 {
        0
    } else if moved > usize::MAX {
        usize::MAX as int
    } else {
        moved
    }
}

/// `value` moved by `delta`, saturating at both ends.
pub fn offset_by(value: usize, delta: isize) -> (moved: usize)
    ensures
        moved == offset_of(value, delta),
{
    if delta >= 0 {
        value.saturating_add(delta as usize)
    } else {
        let back: usize = (-(delta + 1)) as usize + 1;
        value.saturating_sub(back)
    }
}

/// The index `target` kept within `len` entries: the last one when it is
/// past the end, 0 when there are none.
pub open spec fn clamped_index(target: usize, len: usize) -> int {
    if len == 0 {
        0
    } else if target < len {
        target as int
    } else {
        len - 1
    }
}

/// `target` kept within the `len` entries of a list.
pub fn clamp_to_last(target: usize, len: usize) -> (index: usize)
    ensures
        index == clamped_index(target, len),
{
    let last = len.saturating_sub(1);
    if target < last {
        target
    } else {
        last
    }
}

/// The scroll that shows `row` in a page of `page` rows: unchanged when
/// the row is already shown, else the least change that shows it.
pub open spec fn scroll_showing(row: usize, scroll: usize, page: usize) -> int {
    if row < scroll {
        row as int
    } else if row >= scroll + page {
        row + 1 - page
    } else {
        scroll as int
    }
}

/// The scroll of a list after its selected row moved to `row`; a list
/// without a selected row scrolls to the top.
pub fn scroll_to_show(row: Option<usize>, scroll: usize, page: usize) -> (shown: usize)
    requires
        scroll + page <= usize::MAX,
        row matches Some(r) ==> page > 0 || r < usize::MAX,
    ensures
        shown == match row {
            Some(r) => scroll_showing(r, scroll, page),
            None => 0,
        },
{
    match row {
        None => 0,
        Some(r) => {
            if r < scroll {
                r
            } else if r >= scroll + page {
                if page > 0 {
                    r - page + 1
                } else {
                    r + 1
                }
            } else {
                scroll
            }
        },
    }
}

/// After scrolling to show a row, the row is on the page.
pub proof fn law_scrolled_row_is_shown(row: usize, scroll: usize, page: usize)
    requires
        page > 0,
    ensures
        scroll_showing(row, scroll, page) <= row < scroll_showing(row, scroll, page) + page,
{
}

/// Rows moved by half a page: half of `page`, rounded up.
pub fn half_page(page: usize) -> (rows: isize)
    ensures
        rows == (if (page + 1) / 2 <= isize::MAX { (page + 1) / 2 } else { isize::MAX as int }),
{
    let half = page / 2 + page % 2;
    if half <= isize::MAX as usize {
        half as isize
    } else {
        isize::MAX
    }
}

/// The scroll of a view of `len` rows after the wheel moved it by `delta`:
/// no further than where its last page starts.
pub fn scroll_by(scroll: usize, delta: isize, len: usize, page: usize) -> (moved: usize)
    ensures
        moved == (if offset_of(scroll, delta) <= len - page {
            offset_of(scroll, delta)
        } else if len >= page {
            len - page
        } else {
            0
        }),
{
    let moved = offset_by(scroll, delta);
    let limit = len.saturating_sub(page);
    if moved < limit {
        moved
    } else {
        limit
    }
}

// ---------------------------------------------------------------------------
// The next file to review
// ---------------------------------------------------------------------------

/// The files listed after the first occurrence of `selected`; none when it
/// is not listed.
pub open spec fn files_after(visible: Seq<usize>, selected: usize) -> Seq<usize>
    decreases visible.len(),
{
    if visible.len() == 0 {
        seq![]
    } else if visible[0] == selected {
        visible.drop_first()
    } else {
        files_after(visible.drop_first(), selected)
    }
}

pub open spec fn in_need_of_review(needs_review: Seq<bool>) -> spec_fn(usize) -> bool {
    |file: usize| file < needs_review.len() && needs_review[file as int]
}

/// The first file listed after `selected` that still needs review.
pub open spec fn next_to_review(visible: Seq<usize>, selected: usize, needs_review: Seq<bool>) -> Option<
    usize,
> {
    let waiting = files_after(visible, selected).filter(in_need_of_review(needs_review));
    if waiting.len() > 0 {
        Some(waiting[0])
    } else {
        None
    }
}

proof fn lemma_files_after_found(visible: Seq<usize>, selected: usize, k: int)
    requires
        0 <= k < visible.len(),
        visible[k] == selected,
        forall|j: int| 0 <= j < k ==> #[trigger] visible[j] != selected,
    ensures
        files_after(visible, selected) == visible.skip(k + 1),
    decreases k,
{
    if k == 0 {
        assert(visible.drop_first() =~= visible.skip(1));
    } else {
        assert(visible[0] != selected);
        let rest = visible.drop_first();
        assert forall|j: int| 0 <= j < k - 1 implies #[trigger] rest[j] != selected by {
            assert(rest[j] == visible[j + 1]);
        }
        lemma_files_after_found(rest, selected, k - 1);
        assert(rest.skip(k) =~= visible.skip(k + 1));
    }
}

proof fn lemma_files_after_missing(visible: Seq<usize>, selected: usize)
    requires
        forall|j: int| 0 <= j < visible.len() ==> #[trigger] visible[j] != selected,
    ensures
        files_after(visible, selected).len() == 0,
    decreases visible.len(),
{
    if visible.len() > 0 {
        let rest = visible.drop_first();
        assert forall|j: int| 0 <= j < rest.len() implies #[trigger] rest[j] != selected by {
            assert(rest[j] == visible[j + 1]);
        }
        lemma_files_after_missing(rest, selected);
    }
}

/// The file to select after marking `selected` reviewed: the next file in
/// the tree's order that still needs review.
pub fn next_file_to_review(visible: &Vec<usize>, selected: usize, needs_review: &Vec<bool>) -> (next:
    Option<usize>)
    requires
        forall|i: int| 0 <= i < visible@.len() ==> #[trigger] visible@[i] < needs_review@.len(),
    ensures
        next == next_to_review(visible@, selected, needs_review@),
{
    let len = visible.len();
    let mut k: usize = 0;
    while k < len && visible[k] != selected
        invariant
            k <= len == visible@.len(),
            forall|j: int| 0 <= j < k ==> #[trigger] visible@[j] != selected,
        decreases len - k,
    {
        k += 1;
    }
    if k == len {
        proof {
            lemma_files_after_missing(visible@, selected);
            reveal(Seq::filter);
        }
        return None;
    }
    proof {
        lemma_files_after_found(visible@, selected, k as int);
    }
    let ghost rest = visible@.skip(k + 1);
    let ghost wanted = in_need_of_review(needs_review@);
    let mut i: usize = k + 1;
    while i < len
        invariant
            k < i <= len == visible@.len(),
            rest == visible@.skip(k + 1),
            files_after(visible@, selected) == rest,
            wanted == in_need_of_review(needs_review@),
            forall|j: int| 0 <= j < visible@.len() ==> #[trigger] visible@[j] < needs_review@.len(),
            forall|j: int| k + 1 <= j < i ==> !wanted(#[trigger] visible@[j]),
        decreases len - i,
    {
        let file = visible[i];
        if needs_review[file] {
            proof {
                assert forall|j: int| 0 <= j < i - (k + 1) implies !wanted(#[trigger] rest[j]) by {
                    assert(rest[j] == visible@[j + k + 1]);
                }
                assert(rest[i - (k + 1)] == file);
                lemma_filter_first(rest, wanted, i - (k + 1));
            }
            return Some(file);
        }
        i += 1;
    }
    proof {
        assert forall|j: int| 0 <= j < rest.len() implies !wanted(#[trigger] rest[j]) by {
            assert(rest[j] == visible@[j + k + 1]);
        }
        lemma_filter_nothing(rest, wanted);
    }
    None
}

/// The file selected after marking one reviewed still needs review and is
/// listed after the reviewed one.
pub proof fn law_next_file_still_needs_review(visible: Seq<usize>, selected: usize, needs_review: Seq<bool>)
    ensures
        next_to_review(visible, selected, needs_review) matches Some(file) ==> file < needs_review.len()
            && needs_review[file as int] && files_after(visible, selected).contains(file),
{
    broadcast use vstd::seq_lib::group_filter_ensures;

    let after = files_after(visible, selected);
    let waiting = after.filter(in_need_of_review(needs_review));
    if waiting.len() > 0 {
        assert(in_need_of_review(needs_review)(waiting[0]));
        assert(waiting.contains(waiting[0]));
        after.lemma_filter_contains_rev(in_need_of_review(needs_review), waiting[0]);
    }
}

} // verus!
