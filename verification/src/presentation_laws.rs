//! What the operations on presented rows promise together.

use vstd::prelude::*;

use crate::highlight::TokenView;
use crate::presentation::{
    contract, diff_holds_line, diff_shown, display_line, file_shown, found_row,
    has_expanded, has_gap, last_passing, lemma_first_passing, offset_line_spec,
    passes, revealed_diff_line, unfold, unfold_row, DiffPresentation,
    PresentedRowView, RowTest, SearchDirection,
};
use crate::diff_row::DiffRow;
use crate::columns::lemma_byte_len_positive;
use crate::presentation::{matches_at, scan_matches, search_matches};
use crate::unicode::char_is_uppercase;
use vstd::utf8::encode_utf8;

verus! {

/// Rows as contracting leaves them: no expanded line, no empty gap, and no
/// gap right after a gap that it continues.
pub open spec fn folded(rows: Seq<PresentedRowView>) -> bool {
    &&& forall|i: int| 0 <= i < rows.len() ==> !(#[trigger] rows[i] is Expanded)
    &&& forall|i: int|
        0 <= i < rows.len() ==> (#[trigger] rows[i] matches PresentedRowView::Gap { lines, .. }
            ==> lines.len() > 0)
    &&& forall|i: int|
        0 < i < rows.len() ==> !continues_gap(rows[i - 1], #[trigger] rows[i])
}

/// Whether `next` is a gap that starts where the gap `previous` ends.
pub open spec fn continues_gap(previous: PresentedRowView, next: PresentedRowView) -> bool {
    match (previous, next) {
        (
            PresentedRowView::Gap { start, lines },
            PresentedRowView::Gap { start: next_start, .. },
        ) => offset_line_spec(start, lines.len() as int) == next_start,
        _ => false,
    }
}

proof fn lemma_unfold_push(rows: Seq<PresentedRowView>, row: PresentedRowView)
    ensures
        unfold(rows.push(row)) == unfold(rows) + unfold_row(row),
{
    assert(rows.push(row).drop_last() =~= rows);
}

proof fn lemma_unfold_row_grow(start: u32, lines: Seq<Seq<TokenView>>, tokens: Seq<TokenView>)
    ensures
        unfold_row(PresentedRowView::Gap { start, lines: lines.push(tokens) }) == unfold_row(
            PresentedRowView::Gap { start, lines },
        ).push(PresentedRowView::Expanded { line: offset_line_spec(start, lines.len() as int), tokens }),
{
    assert(unfold_row(PresentedRowView::Gap { start, lines: lines.push(tokens) }) =~= unfold_row(
        PresentedRowView::Gap { start, lines },
    ).push(PresentedRowView::Expanded { line: offset_line_spec(start, lines.len() as int), tokens }));
}

/// Contracting loses no line: showing every gap after contracting gives
/// the same rows as showing every gap before.
pub proof fn law_contract_keeps_every_line(rows: Seq<PresentedRowView>)
    ensures
        unfold(contract(rows)) == unfold(rows),
    decreases rows.len(),
{
    if rows.len() > 0 {
        let rest = rows.drop_last();
        law_contract_keeps_every_line(rest);
        let previous = contract(rest);
        match rows.last() {
            PresentedRowView::Expanded { line, tokens } => {
                let single = unfold_row(PresentedRowView::Gap { start: line, lines: seq![tokens] });
                assert(single =~= unfold_row(rows.last()));
                if previous.len() > 0 {
                    match previous.last() {
                        PresentedRowView::Gap { start, lines } => {
                            if offset_line_spec(start, lines.len() as int) == line {
                                lemma_unfold_push(
                                    previous.drop_last(),
                                    PresentedRowView::Gap { start, lines: lines.push(tokens) },
                                );
                                lemma_unfold_row_grow(start, lines, tokens);
                                lemma_unfold_push(previous.drop_last(), previous.last());
                                assert(previous.drop_last().push(previous.last()) =~= previous);
                                assert(unfold_row(rows.last()) =~= seq![
                                    PresentedRowView::Expanded { line, tokens },
                                ]);
                                assert(unfold(contract(rows)) =~= unfold(rows));
                            } else {
                                lemma_unfold_push(
                                    previous,
                                    PresentedRowView::Gap { start: line, lines: seq![tokens] },
                                );
                            }
                        },
                        _ => {
                            lemma_unfold_push(
                                previous,
                                PresentedRowView::Gap { start: line, lines: seq![tokens] },
                            );
                        },
                    }
                } else {
                    lemma_unfold_push(
                        previous,
                        PresentedRowView::Gap { start: line, lines: seq![tokens] },
                    );
                }
            },
            row => {
                lemma_unfold_push(previous, row);
            },
        }
    }
}

/// Showing every gap leaves no gap.
pub proof fn law_expand_all_leaves_no_gap(rows: Seq<PresentedRowView>)
    ensures
        !has_gap(unfold(rows)),
    decreases rows.len(),
{
    if rows.len() > 0 {
        law_expand_all_leaves_no_gap(rows.drop_last());
        let left = unfold(rows.drop_last());
        let right = unfold_row(rows.last());
        assert forall|i: int| 0 <= i < (left + right).len() implies !(#[trigger] (left
            + right)[i] is Gap) by {
            if i < left.len() {
                assert((left + right)[i] == left[i]);
            } else {
                assert((left + right)[i] == right[i - left.len()]);
            }
        }
    }
}

/// Contracting leaves no expanded line.
pub proof fn law_contract_all_leaves_no_expanded_line(rows: Seq<PresentedRowView>)
    ensures
        !has_expanded(contract(rows)),
    decreases rows.len(),
{
    if rows.len() > 0 {
        law_contract_all_leaves_no_expanded_line(rows.drop_last());
        let previous = contract(rows.drop_last());
        assert forall|i: int|
            0 <= i < contract(rows).len() implies !(#[trigger] contract(rows)[i] is Expanded) by {
            if i < previous.len() && contract(rows)[i] != previous[i] {
                assert(i == previous.len() - 1);
            }
        }
    }
}

/// Contracting the lines of a gap right after rows that it does not
/// continue gives those rows followed by the gap again.
proof fn lemma_contract_gap(
    before: Seq<PresentedRowView>,
    start: u32,
    lines: Seq<Seq<TokenView>>,
    count: int,
)
    requires
        1 <= count <= lines.len(),
        contract(before).len() > 0 ==> !continues_gap(
            contract(before).last(),
            PresentedRowView::Gap { start, lines },
        ),
    ensures
        contract(before + unfold_row(PresentedRowView::Gap { start, lines }).take(count)) == contract(
            before,
        ).push(PresentedRowView::Gap { start, lines: lines.take(count) }),
    decreases count,
{
    let shown = unfold_row(PresentedRowView::Gap { start, lines });
    let all = before + shown.take(count);
    assert(all.drop_last() =~= before + shown.take(count - 1));
    assert(all.last() == PresentedRowView::Expanded {
        line: offset_line_spec(start, count - 1),
        tokens: lines[count - 1],
    });
    if count == 1 {
        assert(before + shown.take(0) =~= before);
        assert(offset_line_spec(start, 0) == start);
        assert(seq![lines[0]] =~= lines.take(1));
        let previous = contract(before);
        if previous.len() > 0 {
            match previous.last() {
                PresentedRowView::Gap { start: s, lines: l } => {
                    assert(offset_line_spec(s, l.len() as int) != start);
                },
                _ => {},
            }
        }
    } else {
        lemma_contract_gap(before, start, lines, count - 1);
        let previous = contract(before + shown.take(count - 1));
        assert(previous.last() == PresentedRowView::Gap { start, lines: lines.take(count - 1) });
        assert(previous.drop_last() =~= contract(before));
        assert(lines.take(count - 1).push(lines[count - 1]) =~= lines.take(count));
    }
}

/// Contracting after showing every gap gives back rows that were
/// contracted: expanding all and contracting all is a round trip.
pub proof fn law_contract_undoes_expand_all(rows: Seq<PresentedRowView>)
    requires
        folded(rows),
    ensures
        contract(unfold(rows)) == rows,
    decreases rows.len(),
{
    if rows.len() > 0 {
        let rest = rows.drop_last();
        assert(folded(rest)) by {
            assert forall|i: int| 0 <= i < rest.len() implies !(#[trigger] rest[i] is Expanded) by {
                assert(rest[i] == rows[i]);
            }
            assert forall|i: int|
                0 <= i < rest.len() implies (#[trigger] rest[i] matches PresentedRowView::Gap {
                lines,
                ..
            } ==> lines.len() > 0) by {
                assert(rest[i] == rows[i]);
            }
            assert forall|i: int| 0 < i < rest.len() implies !continues_gap(
                rest[i - 1],
                #[trigger] rest[i],
            ) by {
                assert(rest[i] == rows[i]);
                assert(rest[i - 1] == rows[i - 1]);
            }
        }
        law_contract_undoes_expand_all(rest);
        let last = rows.last();
        assert(last == rows[rows.len() - 1]);
        assert(!(last is Expanded));
        match last {
            PresentedRowView::Gap { start, lines } => {
                assert(lines.len() > 0);
                if rest.len() > 0 {
                    assert(rest.last() == rows[rows.len() - 2]);
                    assert(!continues_gap(rows[rows.len() - 2], rows[rows.len() - 1]));
                }
                lemma_contract_gap(unfold(rest), start, lines, lines.len() as int);
                assert(unfold_row(last).take(lines.len() as int) =~= unfold_row(last));
                assert(lines.take(lines.len() as int) =~= lines);
                assert(rest.push(last) =~= rows);
            },
            _ => {
                assert(unfold_row(last) =~= seq![last]);
                assert((unfold(rest) + seq![last]).drop_last() =~= unfold(rest));
                assert(rest.push(last) =~= rows);
            },
        }
    }
}

/// Showing the whole file and then the diff again restores the diff.
pub proof fn law_show_diff_undoes_show_file(
    before: DiffPresentation,
    shown: DiffPresentation,
    back: DiffPresentation,
)
    requires
        before.view is Diff,
        file_shown(before, shown),
        diff_shown(shown, back),
    ensures
        back == before,
{
    if before.file_rows is Some {
        assert(back.file_rows == before.file_rows);
    }
}

/// Revealing a line that the diff holds lands on a row that shows it.
pub proof fn law_revealed_line_is_shown(
    before: DiffPresentation,
    after: DiffPresentation,
    line: u32,
    index: Option<usize>,
)
    requires
        revealed_diff_line(before, after, line, index),
        diff_holds_line(before, line),
    ensures
        index matches Some(found) && found < after.rows@.len() && passes(
            RowTest::NewLine(display_line(line)),
            after.rows_view()[found as int],
            after.source@,
        ),
{
    let display = display_line(line);
    let rows = before.rows_view();
    lemma_first_passing(rows, before.source@, RowTest::NewLine(display), 0, rows.len() as int);
    lemma_first_passing(
        after.rows_view(),
        after.source@,
        RowTest::ExpandedLine(display),
        0,
        after.rows_view().len() as int,
    );
}

/// The last passing row is the greatest row of the range that passes.
pub proof fn lemma_last_passing(
    rows: Seq<PresentedRowView>,
    source: Seq<DiffRow>,
    test: RowTest,
    lo: int,
    hi: int,
)
    ensures
        match last_passing(rows, source, test, lo, hi) {
            Some(found) => lo <= found < hi && passes(test, rows[found], source) && forall|j: int|
                found < j < hi ==> !passes(test, #[trigger] rows[j], source),
            None => forall|j: int| lo <= j < hi ==> !passes(test, #[trigger] rows[j], source),
        },
    decreases hi - lo,
{
    if hi > lo {
        lemma_last_passing(rows, source, test, lo, hi - 1);
    }
}

/// A search lands on a row that matches the query, and finds one whenever
/// some row matches.
pub proof fn law_search_lands_on_a_match(
    rows: Seq<PresentedRowView>,
    source: Seq<DiffRow>,
    query: &str,
    from: int,
    direction: SearchDirection,
)
    requires
        0 <= from,
    ensures
        found_row(rows, source, query, from, direction) matches Some(found) ==> 0 <= found
            < rows.len() && passes(RowTest::Query(query), rows[found], source),
        query@.len() > 0 && (exists|j: int|
            0 <= j < rows.len() && passes(RowTest::Query(query), #[trigger] rows[j], source))
            ==> found_row(rows, source, query, from, direction) is Some,
{
    let len = rows.len() as int;
    if query@.len() > 0 && len > 0 {
        let start = if from < len - 1 {
            from
        } else {
            len - 1
        };
        let test = RowTest::Query(query);
        lemma_first_passing(rows, source, test, start + 1, len);
        lemma_first_passing(rows, source, test, 0, start + 1);
        lemma_last_passing(rows, source, test, 0, start);
        lemma_last_passing(rows, source, test, start, len);
    }
}

} // verus!

verus! {

proof fn lemma_scan_finds_leftmost_occurrences(
    text: Seq<u8>,
    query: Seq<u8>,
    start: nat,
    ignore_ascii_case: bool,
)
    requires
        query.len() > 0,
    ensures
        ({
            let found = scan_matches(text, query, start, ignore_ascii_case);
            &&& forall|k: int|
                0 <= k < found.len() ==> start <= (#[trigger] found[k]).0 && found[k].1 == found[k].0
                    + query.len() && found[k].1 <= text.len() && matches_at(
                    text,
                    query,
                    found[k].0,
                    ignore_ascii_case,
                )
            &&& forall|k: int, l: int|
                0 <= k < l < found.len() ==> (#[trigger] found[k]).1 <= (#[trigger] found[l]).0
            &&& forall|p: int|
                start <= p && p + query.len() <= text.len() && #[trigger] matches_at(
                    text,
                    query,
                    p,
                    ignore_ascii_case,
                ) ==> exists|k: int| 0 <= k < found.len() && (#[trigger] found[k]).0 <= p < found[k].1
        }),
    decreases text.len() - start,
{
    if start + query.len() <= text.len() {
        if matches_at(text, query, start as int, ignore_ascii_case) {
            let next = (start + query.len()) as nat;
            lemma_scan_finds_leftmost_occurrences(text, query, next, ignore_ascii_case);
            let rest = scan_matches(text, query, next, ignore_ascii_case);
            let found = scan_matches(text, query, start, ignore_ascii_case);
            assert(found == seq![(start as int, next as int)] + rest);
            assert forall|k: int| 0 < k < found.len() implies #[trigger] found[k] == rest[k - 1] by {}
            assert forall|p: int|
                start <= p && p + query.len() <= text.len() && #[trigger] matches_at(
                    text,
                    query,
                    p,
                    ignore_ascii_case,
                ) implies exists|k: int| 0 <= k < found.len() && (#[trigger] found[k]).0 <= p < found[k].1 by {
                if p < next {
                    assert(found[0].0 <= p < found[0].1);
                } else {
                    let k = choose|k: int| 0 <= k < rest.len() && (#[trigger] rest[k]).0 <= p < rest[k].1;
                    assert(found[k + 1] == rest[k]);
                }
            }
            assert forall|k: int, l: int| 0 <= k < l < found.len() implies (#[trigger] found[k]).1
                <= (#[trigger] found[l]).0 by {
                if k > 0 {
                    assert(found[k] == rest[k - 1]);
                }
                assert(found[l] == rest[l - 1]);
            }
        } else {
            lemma_scan_finds_leftmost_occurrences(text, query, start + 1, ignore_ascii_case);
            let found = scan_matches(text, query, start, ignore_ascii_case);
            assert(found == scan_matches(text, query, start + 1, ignore_ascii_case));
            assert forall|p: int|
                start <= p && p + query.len() <= text.len() && #[trigger] matches_at(
                    text,
                    query,
                    p,
                    ignore_ascii_case,
                ) implies exists|k: int| 0 <= k < found.len() && (#[trigger] found[k]).0 <= p < found[k].1 by {
                assert(p != start);
            }
        }
    }
}

/// A case-sensitive search (a query with an uppercase character) finds the
/// occurrences of the query's bytes in the text's bytes from the left
/// without overlap, as `str::match_indices` documents: each range holds the
/// query, the ranges follow each other, and every occurrence that is not
/// among them overlaps one that starts before it. An empty query finds
/// nothing.
pub proof fn law_case_sensitive_search_finds_leftmost_occurrences(text: Seq<char>, query: Seq<char>)
    ensures
        query.len() == 0 ==> search_matches(text, query) == Seq::<(int, int)>::empty(),
        (exists|i: int| 0 <= i < query.len() && char_is_uppercase(query[i])) ==> ({
            let bytes = encode_utf8(text);
            let pattern = encode_utf8(query);
            let found = search_matches(text, query);
            &&& forall|k: int|
                0 <= k < found.len() ==> 0 <= (#[trigger] found[k]).0 && found[k].1 == found[k].0
                    + pattern.len() && found[k].1 <= bytes.len() && bytes.subrange(
                    found[k].0,
                    found[k].1,
                ) == pattern
            &&& forall|k: int, l: int|
                0 <= k < l < found.len() ==> (#[trigger] found[k]).1 <= (#[trigger] found[l]).0
            &&& forall|p: int|
                0 <= p && p + pattern.len() <= bytes.len() && #[trigger] bytes.subrange(
                    p,
                    p + pattern.len(),
                ) == pattern ==> exists|k: int|
                    0 <= k < found.len() && (#[trigger] found[k]).0 <= p < found[k].1
        }),
{
    if exists|i: int| 0 <= i < query.len() && char_is_uppercase(query[i]) {
        let bytes = encode_utf8(text);
        let pattern = encode_utf8(query);
        lemma_byte_len_positive(query);
        lemma_scan_finds_leftmost_occurrences(bytes, pattern, 0, false);
        let found = search_matches(text, query);
        assert forall|k: int| 0 <= k < found.len() implies #[trigger] bytes.subrange(
            found[k].0,
            found[k].1,
        ) == pattern by {
            assert(matches_at(bytes, pattern, found[k].0, false));
            assert forall|i: int| 0 <= i < pattern.len() implies #[trigger] bytes.subrange(
                found[k].0,
                found[k].1,
            )[i] == pattern[i] by {
                assert(bytes[found[k].0 + i] == pattern[i]);
            }
            assert(bytes.subrange(found[k].0, found[k].1) =~= pattern);
        }
        assert forall|p: int|
            0 <= p && p + pattern.len() <= bytes.len() && #[trigger] bytes.subrange(
                p,
                p + pattern.len(),
            ) == pattern implies exists|k: int|
                0 <= k < found.len() && (#[trigger] found[k]).0 <= p < found[k].1 by {
            assert forall|i: int| 0 <= i < pattern.len() implies #[trigger] bytes[p + i] == pattern[i] by {
                assert(bytes.subrange(p, p + pattern.len())[i] == bytes[p + i]);
            }
            assert(matches_at(bytes, pattern, p, false));
        }
    }
}

} // verus!
