//! Search matches within diff rows.

use std::ops::Range;

use vstd::prelude::*;
use vstd::utf8::{encode_utf8, is_ascii_chars};

use crate::diff_row::DiffRow;
use crate::highlight::{
    duplicate_lines, duplicate_tokens, lemma_lines_view_push, lines_view, tokens_view,
    HighlightedDiff, HighlightedFile, HighlightedRow, Token, TokenView,
};
use crate::files::decimal_digits;
use crate::text::{
    append_text, char_utf8_len, chars_of, starts_with, string_from_chars, text_starts_with,
};
use crate::unicode::{
    char_is_uppercase, is_uppercase, lemma_encode_utf8_concat, lowercase, to_lowercase,
};

verus! {

/// A diff row identified by its line in the file after or before the
/// change (zero-based), which stays valid while gaps expand and contract.
#[derive(Clone, Copy, Debug, PartialEq, Eq, Structural)]
pub enum PresentationLocation {
    NewLine(u32),
    OldLine(u32),
}

/// `b` with an ASCII capital letter mapped to its small letter.
pub open spec fn ascii_lower(b: u8) -> u8 {
    if 65 <= b <= 90 {
        (b + 32) as u8
    } else {
        b
    }
}

/// Whether `text[start..start + query.len()]` equals `query`, optionally
/// ignoring ASCII case.
pub open spec fn matches_at(text: Seq<u8>, query: Seq<u8>, start: int, ignore_ascii_case: bool) -> bool {
    forall|i: int|
        0 <= i < query.len() ==> if ignore_ascii_case {
            ascii_lower(#[trigger] text[start + i]) == ascii_lower(query[i])
        } else {
            text[start + i] == query[i]
        }
}

/// The non-overlapping occurrences of `query` in `text` from byte `start`
/// on, found left to right, as byte ranges.
pub open spec fn scan_matches(text: Seq<u8>, query: Seq<u8>, start: nat, ignore_ascii_case: bool) -> Seq<
    (int, int),
>
    decreases text.len() - start,
{
    if query.len() == 0 || start + query.len() > text.len() {
        seq![]
    } else if matches_at(text, query, start as int, ignore_ascii_case) {
        seq![(start as int, (start + query.len()) as int)] + scan_matches(
            text,
            query,
            start + query.len(),
            ignore_ascii_case,
        )
    } else {
        scan_matches(text, query, start + 1, ignore_ascii_case)
    }
}

/// Whether the characters `text[start..end]` lowercase to `lowered_query`.
pub open spec fn lowercase_match(text: Seq<char>, lowered_query: Seq<char>, start: int, end: int) -> bool {
    start < end <= text.len() && lowercase(text.subrange(start, end)) == lowered_query
}

/// The end of the shortest match starting at character `start`.
pub open spec fn shortest_match_end(text: Seq<char>, lowered_query: Seq<char>, start: int) -> int {
    choose|end: int|
        lowercase_match(text, lowered_query, start, end) && forall|e: int|
            start < e < end ==> !lowercase_match(text, lowered_query, start, e)
}

/// The Unicode case-insensitive matches of `text` from character `start` on:
/// at each position the shortest run of characters whose lowercase form is
/// the lowercased query, skipping past each match, as byte ranges.
pub open spec fn unicode_matches(text: Seq<char>, lowered_query: Seq<char>, start: nat) -> Seq<
    (int, int),
>
    decreases text.len() - start,
{
    if start >= text.len() {
        seq![]
    } else if exists|end: int| lowercase_match(text, lowered_query, start as int, end) {
        let end = shortest_match_end(text, lowered_query, start as int);
        if start < end <= text.len() {
            seq![
                (
                    encode_utf8(text.take(start as int)).len() as int,
                    encode_utf8(text.take(end)).len() as int,
                ),
            ] + unicode_matches(text, lowered_query, end as nat)
        } else {
            seq![]
        }
    } else {
        unicode_matches(text, lowered_query, start + 1)
    }
}

/// The byte ranges of `text` that match `query`: case-sensitively when the
/// query holds an uppercase character, otherwise ignoring ASCII case for
/// ASCII text and query, otherwise by Unicode lowercase forms.
pub open spec fn search_matches(text: Seq<char>, query: Seq<char>) -> Seq<(int, int)> {
    if query.len() == 0 {
        seq![]
    } else if exists|i: int| 0 <= i < query.len() && char_is_uppercase(query[i]) {
        scan_matches(encode_utf8(text), encode_utf8(query), 0, false)
    } else if is_ascii_chars(text) && is_ascii_chars(query) {
        scan_matches(encode_utf8(text), encode_utf8(query), 0, true)
    } else {
        unicode_matches(text, lowercase(query), 0)
    }
}

pub open spec fn ranges_view(ranges: Seq<Range<usize>>) -> Seq<(int, int)> {
    ranges.map_values(|range: Range<usize>| (range.start as int, range.end as int))
}

proof fn lemma_ranges_view_push(ranges: Seq<Range<usize>>, range: Range<usize>)
    ensures
        ranges_view(ranges.push(range)) == ranges_view(ranges).push(
            (range.start as int, range.end as int),
        ),
{
    assert(ranges_view(ranges.push(range)) =~= ranges_view(ranges).push(
        (range.start as int, range.end as int),
    ));
}

fn scan(text: &[u8], query: &[u8], ignore_ascii_case: bool) -> (matches: Vec<Range<usize>>)
    requires
        query.len() > 0,
    ensures
        ranges_view(matches@) == scan_matches(text@, query@, 0, ignore_ascii_case),
{
    let mut matches: Vec<Range<usize>> = Vec::new();
    let mut start: usize = 0;
    assert(ranges_view(matches@) + scan_matches(text@, query@, 0, ignore_ascii_case)
        =~= scan_matches(text@, query@, 0, ignore_ascii_case));
    while start <= text.len() && query.len() <= text.len() - start
        invariant
            query.len() > 0,
            start <= text.len() + 1,
            ranges_view(matches@) + scan_matches(text@, query@, start as nat, ignore_ascii_case)
                == scan_matches(text@, query@, 0, ignore_ascii_case),
        decreases text.len() + 1 - start,
    {
        let mut i: usize = 0;
        let mut same = true;
        while i < query.len()
            invariant
                i <= query.len(),
                start + query.len() <= text.len(),
                same == forall|j: int|
                    0 <= j < i ==> if ignore_ascii_case {
                        ascii_lower(#[trigger] text@[start + j]) == ascii_lower(query@[j])
                    } else {
                        text@[start + j] == query@[j]
                    },
            decreases query.len() - i,
        {
            let left = text[start + i];
            let right = query[i];
            let equal = if ignore_ascii_case {
                let left_lower = if 65 <= left && left <= 90 {
                    left + 32
                } else {
                    left
                };
                let right_lower = if 65 <= right && right <= 90 {
                    right + 32
                } else {
                    right
                };
                left_lower == right_lower
            } else {
                left == right
            };
            proof {
                if !equal {
                    assert(!(if ignore_ascii_case {
                        ascii_lower(text@[start + i]) == ascii_lower(query@[i as int])
                    } else {
                        text@[start + i] == query@[i as int]
                    }));
                }
            }
            same = same && equal;
            i += 1;
        }
        if same {
            let ghost before = matches@;
            let range = start..start + query.len();
            proof {
                lemma_ranges_view_push(matches@, range);
            }
            matches.push(range);
            assert(ranges_view(matches@) + scan_matches(
                text@,
                query@,
                (start + query.len()) as nat,
                ignore_ascii_case,
            ) =~= ranges_view(before) + scan_matches(
                text@,
                query@,
                start as nat,
                ignore_ascii_case,
            ));
            start = start + query.len();
        } else {
            start = start + 1;
        }
    }
    assert(scan_matches(text@, query@, start as nat, ignore_ascii_case) =~= seq![]);
    assert(ranges_view(matches@) =~= ranges_view(matches@) + scan_matches(
        text@,
        query@,
        start as nat,
        ignore_ascii_case,
    ));
    matches
}

/// The byte offsets of the character starts of `chars`, then its byte
/// length.
fn char_boundaries(chars: &Vec<char>, total: usize) -> (boundaries: Vec<usize>)
    requires
        total == encode_utf8(chars@).len(),
    ensures
        boundaries@.len() == chars@.len() + 1,
        forall|i: int|
            0 <= i <= chars@.len() ==> #[trigger] boundaries@[i] as int == encode_utf8(
                chars@.take(i),
            ).len(),
{
    let mut boundaries: Vec<usize> = Vec::new();
    boundaries.push(0);
    assert(encode_utf8(chars@.take(0)) =~= Seq::<u8>::empty());
    let mut offset: usize = 0;
    let mut i: usize = 0;
    while i < chars.len()
        invariant
            i <= chars.len(),
            total == encode_utf8(chars@).len(),
            boundaries@.len() == i + 1,
            offset == encode_utf8(chars@.take(i as int)).len(),
            forall|j: int|
                0 <= j <= i ==> #[trigger] boundaries@[j] as int == encode_utf8(
                    chars@.take(j),
                ).len(),
        decreases chars.len() - i,
    {
        let length = char_utf8_len(chars[i]);
        proof {
            assert(chars@.take(i + 1) =~= chars@.take(i as int) + seq![chars@[i as int]]);
            lemma_encode_utf8_concat(chars@.take(i as int), seq![chars@[i as int]]);
            assert(chars@ =~= chars@.take(i + 1) + chars@.skip(i + 1));
            lemma_encode_utf8_concat(chars@.take(i + 1), chars@.skip(i + 1));
        }
        offset = offset + length;
        boundaries.push(offset);
        i += 1;
    }
    boundaries
}

/// The byte ranges of `text` that match `query` (see `search_matches`).
pub fn matching_ranges(text: &str, query: &str) -> (matches: Vec<Range<usize>>)
    ensures
        ranges_view(matches@) == search_matches(text@, query@),
{
    if query.is_empty() {
        return Vec::new();
    }
    let query_chars = chars_of(query);
    let mut uppercase = false;
    let mut i: usize = 0;
    while i < query_chars.len()
        invariant
            i <= query_chars.len(),
            query_chars@ == query@,
            uppercase == exists|j: int| 0 <= j < i && char_is_uppercase(query@[j]),
        decreases query_chars.len() - i,
    {
        let found = is_uppercase(query_chars[i]);
        proof {
            if !found && !uppercase {
                assert forall|j: int| 0 <= j < i + 1 implies !char_is_uppercase(query@[j]) by {}
            }
        }
        uppercase = uppercase || found;
        i += 1;
    }
    if uppercase {
        return scan(text.as_bytes(), query.as_bytes(), false);
    }
    if text.is_ascii() && query.is_ascii() {
        return scan(text.as_bytes(), query.as_bytes(), true);
    }
    let lowered_query = to_lowercase(query);
    let chars = chars_of(text);
    let bytes = text.as_bytes();
    assert(bytes@.len() == bytes.len());
    let boundaries = char_boundaries(&chars, bytes.len());
    let length = chars.len();
    let ghost target = lowercase(query@);
    let mut matches: Vec<Range<usize>> = Vec::new();
    let mut start: usize = 0;
    assert(ranges_view(matches@) + unicode_matches(text@, target, 0) =~= unicode_matches(
        text@,
        target,
        0,
    ));
    while start < length
        invariant
            start <= length == chars@.len(),
            chars@ == text@,
            lowered_query@ == target,
            boundaries@.len() == length + 1,
            forall|i: int|
                0 <= i <= chars@.len() ==> #[trigger] boundaries@[i] as int == encode_utf8(
                    chars@.take(i),
                ).len(),
            ranges_view(matches@) + unicode_matches(text@, target, start as nat) == search_matches(
                text@,
                query@,
            ),
        decreases length - start,
    {
        let limit = boundaries.len();
        let mut end = start + 1;
        let mut found = false;
        while !found && end <= length
            invariant
                limit == length + 1,
                start < end <= length + 1,
                length == chars@.len(),
                boundaries@.len() == length + 1,
                chars@ == text@,
                lowered_query@ == target,
                found ==> end <= length && lowercase_match(text@, target, start as int, end as int),
                forall|e: int| start < e < end ==> !lowercase_match(text@, target, start as int, e),
            decreases length + 1 - end, if found { 0int } else { 1int },
        {
            let part = string_from_chars(&chars, start, end);
            let lowered = to_lowercase(part.as_str());
            if lowered == lowered_query {
                assert(part@ =~= text@.subrange(start as int, end as int));
                found = true;
            } else {
                assert(part@ =~= text@.subrange(start as int, end as int));
                end += 1;
            }
        }
        if found {
            let ghost before = matches@;
            let range = boundaries[start]..boundaries[end];
            proof {
                assert(lowercase_match(text@, target, start as int, end as int));
                let chosen = shortest_match_end(text@, target, start as int);
                assert(chosen == end) by {
                    if chosen < end {
                    } else if chosen > end {
                    }
                }
                lemma_ranges_view_push(matches@, range);
            }
            matches.push(range);
            assert(ranges_view(matches@) + unicode_matches(text@, target, end as nat)
                =~= ranges_view(before) + unicode_matches(text@, target, start as nat));
            start = end;
        } else {
            assert(!exists|e: int| lowercase_match(text@, target, start as int, e));
            start = start + 1;
        }
    }
    assert(ranges_view(matches@) =~= ranges_view(matches@) + unicode_matches(
        text@,
        target,
        start as nat,
    ));
    matches
}

// ---------------------------------------------------------------------------
// Presented rows
// ---------------------------------------------------------------------------

/// One visible row of a file diff.
#[derive(Clone, Debug, PartialEq, Eq)]
pub enum PresentedRow {
    /// A diff row, by its index among the source rows, with its tokens.
    Diff { source: usize, tokens: Vec<Token> },
    /// Unchanged lines hidden between hunks, from one-based line `start`.
    Gap { start: u32, lines: Vec<Vec<Token>> },
    /// One unchanged line shown in full.
    Expanded { line: u32, tokens: Vec<Token> },
}

/// The mathematical content of a presented row.
pub enum PresentedRowView {
    Diff { source: nat, tokens: Seq<TokenView> },
    Gap { start: u32, lines: Seq<Seq<TokenView>> },
    Expanded { line: u32, tokens: Seq<TokenView> },
}

impl View for PresentedRow {
    type V = PresentedRowView;

    open spec fn view(&self) -> PresentedRowView {
        match self {
            PresentedRow::Diff { source, tokens } => PresentedRowView::Diff {
                source: *source as nat,
                tokens: tokens_view(tokens@),
            },
            PresentedRow::Gap { start, lines } => PresentedRowView::Gap {
                start: *start,
                lines: lines_view(lines@),
            },
            PresentedRow::Expanded { line, tokens } => PresentedRowView::Expanded {
                line: *line,
                tokens: tokens_view(tokens@),
            },
        }
    }
}

pub open spec fn presented_view(rows: Seq<PresentedRow>) -> Seq<PresentedRowView> {
    rows.map_values(|row: PresentedRow| row@)
}

pub proof fn lemma_presented_view_push(rows: Seq<PresentedRow>, row: PresentedRow)
    ensures
        presented_view(rows.push(row)) == presented_view(rows).push(row@),
{
    assert(presented_view(rows.push(row)) =~= presented_view(rows).push(row@));
}

/// `start + offset`, saturating at `u32::MAX`.
pub open spec fn offset_line_spec(start: u32, offset: int) -> u32 {
    if start + offset <= u32::MAX {
        (start + offset) as u32
    } else {
        u32::MAX
    }
}

/// `start + offset`, saturating at `u32::MAX`.
pub fn offset_line(start: u32, offset: usize) -> (line: u32)
    ensures
        line == offset_line_spec(start, offset as int),
{
    if offset as u64 > (u32::MAX - start) as u64 {
        u32::MAX
    } else {
        start + offset as u32
    }
}

/// The rows that a row stands for once every gap is shown line by line.
pub open spec fn unfold_row(row: PresentedRowView) -> Seq<PresentedRowView> {
    match row {
        PresentedRowView::Gap { start, lines } => Seq::new(
            lines.len(),
            |i: int| PresentedRowView::Expanded { line: offset_line_spec(start, i), tokens: lines[i] },
        ),
        _ => seq![row],
    }
}

/// The rows with every gap shown line by line.
pub open spec fn unfold(rows: Seq<PresentedRowView>) -> Seq<PresentedRowView>
    decreases rows.len(),
{
    if rows.len() == 0 {
        seq![]
    } else {
        unfold(rows.drop_last()) + unfold_row(rows.last())
    }
}

/// `previous` followed by the expanded line `line`: the line joins a
/// final gap that it continues, else it becomes a gap of its own.
pub open spec fn merge_expanded(previous: Seq<PresentedRowView>, line: u32, tokens: Seq<TokenView>) -> Seq<
    PresentedRowView,
> {
    if previous.len() > 0 {
        match previous.last() {
            PresentedRowView::Gap { start, lines } => if offset_line_spec(start, lines.len() as int)
                == line {
                previous.drop_last().push(PresentedRowView::Gap { start, lines: lines.push(tokens) })
            } else {
                previous.push(PresentedRowView::Gap { start: line, lines: seq![tokens] })
            },
            _ => previous.push(PresentedRowView::Gap { start: line, lines: seq![tokens] }),
        }
    } else {
        previous.push(PresentedRowView::Gap { start: line, lines: seq![tokens] })
    }
}

/// The rows with every run of consecutive expanded lines folded back into
/// one gap.
pub open spec fn contract(rows: Seq<PresentedRowView>) -> Seq<PresentedRowView>
    decreases rows.len(),
{
    if rows.len() == 0 {
        seq![]
    } else {
        let previous = contract(rows.drop_last());
        match rows.last() {
            PresentedRowView::Expanded { line, tokens } => merge_expanded(previous, line, tokens),
            row => previous.push(row),
        }
    }
}

pub open spec fn has_gap(rows: Seq<PresentedRowView>) -> bool {
    exists|i: int| 0 <= i < rows.len() && #[trigger] rows[i] is Gap
}

pub open spec fn has_expanded(rows: Seq<PresentedRowView>) -> bool {
    exists|i: int| 0 <= i < rows.len() && #[trigger] rows[i] is Expanded
}

/// A copy of a presented row.
pub fn duplicate_row(row: &PresentedRow) -> (copy: PresentedRow)
    ensures
        copy@ == row@,
{
    match row {
        PresentedRow::Diff { source, tokens } => PresentedRow::Diff {
            source: *source,
            tokens: duplicate_tokens(tokens),
        },
        PresentedRow::Gap { start, lines } => {
            let copy = duplicate_lines(lines, 0, lines.len());
            assert(lines_view(lines@).subrange(0, lines@.len() as int) =~= lines_view(lines@));
            PresentedRow::Gap { start: *start, lines: copy }
        },
        PresentedRow::Expanded { line, tokens } => PresentedRow::Expanded {
            line: *line,
            tokens: duplicate_tokens(tokens),
        },
    }
}

/// Appends the rows that `row` stands for with its gap shown line by line.
fn push_unfolded(rows: &mut Vec<PresentedRow>, row: &PresentedRow)
    ensures
        presented_view(final(rows)@) == presented_view(old(rows)@) + unfold_row(row@),
{
    match row {
        PresentedRow::Gap { start, lines } => {
            let ghost before = presented_view(rows@);
            let mut offset: usize = 0;
            while offset < lines.len()
                invariant
                    offset <= lines.len(),
                    presented_view(rows@) == before + unfold_row(row@).take(offset as int),
                    row@ == (PresentedRowView::Gap { start: *start, lines: lines_view(lines@) }),
                decreases lines.len() - offset,
            {
                let expanded = PresentedRow::Expanded {
                    line: offset_line(*start, offset),
                    tokens: duplicate_tokens(&lines[offset]),
                };
                proof {
                    lemma_presented_view_push(rows@, expanded);
                }
                rows.push(expanded);
                offset += 1;
                assert(presented_view(rows@) =~= before + unfold_row(row@).take(offset as int));
            }
            assert(unfold_row(row@).take(lines.len() as int) =~= unfold_row(row@));
        },
        _ => {
            let copy = duplicate_row(row);
            proof {
                lemma_presented_view_push(rows@, copy);
            }
            rows.push(copy);
        },
    }
}

/// Which side of the change a new or deleted file shows in full.
#[derive(Clone, Copy, Debug, PartialEq, Eq, Structural)]
pub enum WholeFile {
    Added,
    Deleted,
}

/// Whether the diff or the whole file is shown; the other rows wait here.
#[derive(Clone, Debug, PartialEq, Eq)]
pub enum PresentationView {
    Diff,
    File { diff_rows: Vec<PresentedRow> },
}

/// The visible rows of one file diff.
#[derive(Clone, Debug, PartialEq, Eq)]
pub struct DiffPresentation {
    pub source: Vec<DiffRow>,
    pub rows: Vec<PresentedRow>,
    pub whole_file: Option<WholeFile>,
    pub file_rows: Option<Vec<PresentedRow>>,
    pub view: PresentationView,
}

/// The whole file shown in place of the diff, when it is known and the
/// diff is shown; else nothing changed.
pub open spec fn file_shown(before: DiffPresentation, after: DiffPresentation) -> bool {
    if before.view is Diff && before.file_rows is Some {
        &&& after.rows == before.file_rows->0
        &&& after.file_rows is None
        &&& after.view == (PresentationView::File { diff_rows: before.rows })
        &&& after.source == before.source
        &&& after.whole_file == before.whole_file
    } else {
        after == before
    }
}

/// The diff shown again in place of the whole file, or nothing changed.
pub open spec fn diff_shown(before: DiffPresentation, after: DiffPresentation) -> bool {
    match before.view {
        PresentationView::File { diff_rows } => {
            &&& after.rows == diff_rows
            &&& after.file_rows == Some(before.rows)
            &&& after.view is Diff
            &&& after.source == before.source
            &&& after.whole_file == before.whole_file
        },
        PresentationView::Diff => after == before,
    }
}

/// Whether `presentation` presents the highlighted diff `highlighted`:
/// its source rows are the diff rows, gaps stand for the unchanged lines
/// between hunks when the file after the change is known, the whole file
/// waits for the file view, and the diff view shows.
pub open spec fn presents(highlighted: HighlightedDiff, presentation: DiffPresentation) -> bool {
    &&& presentation.source@ == highlighted_view(highlighted.rows@).map_values(
        |row: (DiffRow, Seq<TokenView>)| row.0,
    )
    &&& presentation.whole_file == whole_file_of(presentation.source@)
    &&& presentation.rows_view() == ({
        let lines = match highlighted.file {
            Some(HighlightedFile::AfterChange(lines)) => Some(lines_view(lines@)),
            _ => None,
        };
        let (built, end) = built_rows(
            highlighted_view(highlighted.rows@),
            presentation.whole_file,
            lines,
        );
        finished_rows(built, end, lines)
    })
    &&& presentation.file_rows.is_some() == highlighted.file.is_some()
    &&& highlighted.file matches Some(file) ==> presented_view(presentation.file_rows->0@)
        == file_view(lines_view(
        match file {
            HighlightedFile::AfterChange(lines) => lines,
            HighlightedFile::BeforeChange(lines) => lines,
        }@,
    ))
    &&& presentation.view is Diff
}

impl Default for DiffPresentation {
    fn default() -> (presentation: Self)
        ensures
            presentation.source@.len() == 0,
            presentation.rows@.len() == 0,
            presentation.whole_file is None,
            presentation.file_rows is None,
            presentation.view is Diff,
    {
        DiffPresentation {
            source: Vec::new(),
            rows: Vec::new(),
            whole_file: None,
            file_rows: None,
            view: PresentationView::Diff,
        }
    }
}

impl DiffPresentation {
    pub open spec fn rows_view(&self) -> Seq<PresentedRowView> {
        presented_view(self.rows@)
    }

    /// Number of visible rows.
    pub fn len(&self) -> (count: usize)
        ensures
            count == self.rows@.len(),
    {
        self.rows.len()
    }

    /// Whether the diff has no source rows.
    pub fn is_empty(&self) -> (empty: bool)
        ensures
            empty == (self.source@.len() == 0),
    {
        self.source.len() == 0
    }

    /// Whether the whole file, rather than the diff, is shown.
    pub fn is_file_view(&self) -> (file_view: bool)
        ensures
            file_view == (self.view is File),
    {
        match &self.view {
            PresentationView::File { .. } => true,
            PresentationView::Diff => false,
        }
    }

    /// Whether the rows show a whole file: an added or deleted file, or the
    /// file view.
    pub fn shows_whole_file(&self) -> (whole: bool)
        ensures
            whole == (self.whole_file is Some || self.view is File),
    {
        self.whole_file.is_some() || self.is_file_view()
    }

    /// Whether the whole file can be shown.
    pub fn can_show_file(&self) -> (can: bool)
        ensures
            can == (self.file_rows is Some || self.view is File),
    {
        self.file_rows.is_some() || self.is_file_view()
    }

    /// Whether a source row is a notice.
    pub fn has_notice(&self) -> (notice: bool)
        ensures
            notice == exists|i: int| 0 <= i < self.source@.len() && self.source@[i] is Notice,
    {
        let mut i: usize = 0;
        while i < self.source.len()
            invariant
                i <= self.source.len(),
                forall|j: int| 0 <= j < i ==> !(self.source@[j] is Notice),
            decreases self.source.len() - i,
        {
            if let DiffRow::Notice { .. } = &self.source[i] {
                return true;
            }
            i += 1;
        }
        false
    }

    /// Show the whole file in place of the diff, keeping the diff rows.
    pub fn show_file(&mut self) -> (changed: bool)
        ensures
            old(self).well_formed() ==> final(self).well_formed(),
            changed == (old(self).view is Diff && old(self).file_rows is Some),
            file_shown(*old(self), *final(self)),
    {
        if self.is_file_view() || self.file_rows.is_none() {
            return false;
        }
        let mut rows: Option<Vec<PresentedRow>> = None;
        std::mem::swap(&mut rows, &mut self.file_rows);
        let mut file_rows = rows.unwrap();
        std::mem::swap(&mut file_rows, &mut self.rows);
        self.view = PresentationView::File { diff_rows: file_rows };
        true
    }

    /// Show the diff again, keeping the whole-file rows.
    pub fn show_diff(&mut self) -> (changed: bool)
        ensures
            old(self).well_formed() ==> final(self).well_formed(),
            changed == (old(self).view is File),
            diff_shown(*old(self), *final(self)),
    {
        let mut view = PresentationView::Diff;
        std::mem::swap(&mut view, &mut self.view);
        match view {
            PresentationView::File { diff_rows } => {
                let mut rows = diff_rows;
                std::mem::swap(&mut rows, &mut self.rows);
                self.file_rows = Some(rows);
                true
            },
            PresentationView::Diff => false,
        }
    }

    /// Show the gap on row `index` line by line.
    pub fn expand(&mut self, index: usize) -> (changed: bool)
        ensures
            old(self).well_formed() ==> final(self).well_formed(),
            changed == (index < old(self).rows@.len() && old(self).rows_view()[index as int] is Gap),
            changed ==> final(self).rows_view() == old(self).rows_view().take(index as int) + unfold_row(
                old(self).rows_view()[index as int],
            ) + old(self).rows_view().skip(index + 1),
            !changed ==> final(self).rows == old(self).rows,
            final(self).source == old(self).source,
            final(self).whole_file == old(self).whole_file,
            final(self).file_rows == old(self).file_rows,
            final(self).view == old(self).view,
    {
        if index >= self.rows.len() {
            return false;
        }
        match &self.rows[index] {
            PresentedRow::Gap { .. } => {},
            _ => {
                return false;
            },
        }
        let ghost before = self.rows_view();
        let mut rows: Vec<PresentedRow> = Vec::new();
        let mut i: usize = 0;
        while i < index
            invariant
                i <= index < self.rows@.len(),
                before == self.rows_view(),
                presented_view(rows@) == before.take(i as int),
            decreases index - i,
        {
            let copy = duplicate_row(&self.rows[i]);
            proof {
                lemma_presented_view_push(rows@, copy);
            }
            rows.push(copy);
            i += 1;
            assert(presented_view(rows@) =~= before.take(i as int));
        }
        push_unfolded(&mut rows, &self.rows[index]);
        let mut i: usize = index + 1;
        while i < self.rows.len()
            invariant
                index < i <= self.rows@.len(),
                before == self.rows_view(),
                presented_view(rows@) == before.take(index as int) + unfold_row(
                    before[index as int],
                ) + before.subrange(index + 1, i as int),
            decreases self.rows.len() - i,
        {
            let copy = duplicate_row(&self.rows[i]);
            proof {
                lemma_presented_view_push(rows@, copy);
            }
            rows.push(copy);
            i += 1;
            assert(presented_view(rows@) =~= before.take(index as int) + unfold_row(
                before[index as int],
            ) + before.subrange(index + 1, i as int));
        }
        assert(before.subrange(index + 1, self.rows@.len() as int) =~= before.skip(index + 1));
        proof {
            if sources_valid(before, self.source@.len()) {
                lemma_sources_valid_splice(before, index as int, self.source@.len());
            }
        }
        self.rows = rows;
        true
    }

    /// Show every gap line by line.
    pub fn expand_all(&mut self) -> (changed: bool)
        ensures
            old(self).well_formed() ==> final(self).well_formed(),
            changed == has_gap(old(self).rows_view()),
            final(self).rows_view() == unfold(old(self).rows_view()),
            final(self).source == old(self).source,
            final(self).whole_file == old(self).whole_file,
            final(self).file_rows == old(self).file_rows,
            final(self).view == old(self).view,
    {
        let ghost before = self.rows_view();
        let mut rows: Vec<PresentedRow> = Vec::new();
        let mut changed = false;
        let mut i: usize = 0;
        while i < self.rows.len()
            invariant
                i <= self.rows@.len(),
                before == self.rows_view(),
                presented_view(rows@) == unfold(before.take(i as int)),
                changed == has_gap(before.take(i as int)),
            decreases self.rows.len() - i,
        {
            proof {
                assert(before.take(i + 1).drop_last() =~= before.take(i as int));
                assert(before.take(i + 1).last() == before[i as int]);
            }
            if let PresentedRow::Gap { .. } = &self.rows[i] {
                changed = true;
            }
            push_unfolded(&mut rows, &self.rows[i]);
            proof {
                assert(changed == has_gap(before.take(i + 1))) by {
                    if has_gap(before.take(i + 1)) && !(before[i as int] is Gap) {
                        let w = choose|w: int| 0 <= w < i + 1 && #[trigger] before.take(i + 1)[w] is Gap;
                        assert(before.take(i as int)[w] is Gap);
                    }
                    if has_gap(before.take(i as int)) {
                        let w = choose|w: int| 0 <= w < i && #[trigger] before.take(i as int)[w] is Gap;
                        assert(before.take(i + 1)[w] is Gap);
                    }
                    if before[i as int] is Gap {
                        assert(before.take(i + 1)[i as int] is Gap);
                    }
                }
            }
            i += 1;
        }
        assert(before.take(self.rows@.len() as int) =~= before);
        proof {
            if sources_valid(before, self.source@.len()) {
                lemma_sources_valid_unfold(before, self.source@.len());
            }
        }
        self.rows = rows;
        changed
    }

    /// Fold every run of consecutive expanded lines back into a gap.
    pub fn contract_all(&mut self) -> (changed: bool)
        ensures
            old(self).well_formed() ==> final(self).well_formed(),
            changed == has_expanded(old(self).rows_view()),
            changed ==> final(self).rows_view() == contract(old(self).rows_view()),
            !changed ==> final(self).rows == old(self).rows,
            final(self).source == old(self).source,
            final(self).whole_file == old(self).whole_file,
            final(self).file_rows == old(self).file_rows,
            final(self).view == old(self).view,
    {
        let ghost before = self.rows_view();
        let mut any = false;
        let mut i: usize = 0;
        while i < self.rows.len() && !any
            invariant
                i <= self.rows@.len(),
                before == self.rows_view(),
                any ==> has_expanded(before),
                !any ==> forall|j: int| 0 <= j < i ==> !(#[trigger] before[j] is Expanded),
            decreases self.rows.len() - i + (if any { 0int } else { 1int }),
        {
            if let PresentedRow::Expanded { .. } = &self.rows[i] {
                any = true;
                assert(before[i as int] is Expanded);
            } else {
                i += 1;
            }
        }
        if !any {
            return false;
        }
        let mut rows: Vec<PresentedRow> = Vec::new();
        let mut i: usize = 0;
        while i < self.rows.len()
            invariant
                i <= self.rows@.len(),
                before == self.rows_view(),
                presented_view(rows@) == contract(before.take(i as int)),
            decreases self.rows.len() - i,
        {
            proof {
                assert(before.take(i + 1).drop_last() =~= before.take(i as int));
                assert(before.take(i + 1).last() == before[i as int]);
            }
            match &self.rows[i] {
                PresentedRow::Expanded { line, tokens } => {
                    let count = rows.len();
                    let merge = if count > 0 {
                        match &rows[count - 1] {
                            PresentedRow::Gap { start, lines } => offset_line(*start, lines.len())
                                == *line,
                            _ => false,
                        }
                    } else {
                        false
                    };
                    let copy = duplicate_tokens(tokens);
                    if merge {
                        let ghost previous = rows@;
                        let last = rows.pop().unwrap();
                        proof {
                            assert(rows@ =~= previous.drop_last());
                            assert(presented_view(rows@) =~= presented_view(previous).drop_last());
                        }
                        if let PresentedRow::Gap { start, mut lines } = last {
                            proof {
                                lemma_lines_view_push(lines@, copy);
                            }
                            lines.push(copy);
                            let merged = PresentedRow::Gap { start, lines };
                            proof {
                                lemma_presented_view_push(rows@, merged);
                            }
                            rows.push(merged);
                        }
                    } else {
                        let mut lines: Vec<Vec<Token>> = Vec::new();
                        proof {
                            lemma_lines_view_push(lines@, copy);
                            assert(lines_view(lines@) =~= Seq::<Seq<TokenView>>::empty());
                        }
                        lines.push(copy);
                        let gap = PresentedRow::Gap { start: *line, lines };
                        proof {
                            lemma_presented_view_push(rows@, gap);
                            assert(lines_view(gap->lines@) =~= seq![tokens_view(tokens@)]);
                        }
                        rows.push(gap);
                    }
                },
                _ => {
                    let copy = duplicate_row(&self.rows[i]);
                    proof {
                        lemma_presented_view_push(rows@, copy);
                    }
                    rows.push(copy);
                },
            }
            i += 1;
        }
        assert(before.take(self.rows@.len() as int) =~= before);
        proof {
            if sources_valid(before, self.source@.len()) {
                lemma_sources_valid_contract(before, self.source@.len());
            }
        }
        self.rows = rows;
        true
    }
}

// ---------------------------------------------------------------------------
// Building the rows of a diff
// ---------------------------------------------------------------------------

/// The side of the change that a `Meta` row announces as shown in full.
pub open spec fn meta_whole_file(row: DiffRow) -> Option<WholeFile> {
    match row {
        DiffRow::Meta { text } => if starts_with(text@, "new file mode "@) {
            Some(WholeFile::Added)
        } else if starts_with(text@, "deleted file mode "@) {
            Some(WholeFile::Deleted)
        } else {
            None
        },
        _ => None,
    }
}

/// What the first `Meta` row that announces a new or deleted file says.
pub open spec fn whole_file_of(rows: Seq<DiffRow>) -> Option<WholeFile>
    decreases rows.len(),
{
    if rows.len() == 0 {
        None
    } else {
        match whole_file_of(rows.drop_last()) {
            Some(whole) => Some(whole),
            None => meta_whole_file(rows.last()),
        }
    }
}

/// Whether a source row gets a visible row: only the added (or deleted)
/// lines of a new (or deleted) file, else the lines and notices.
pub open spec fn shows_in_diff(row: DiffRow, whole_file: Option<WholeFile>) -> bool {
    match whole_file {
        Some(WholeFile::Added) => row is Add,
        Some(WholeFile::Deleted) => row is Delete,
        None => row is Context || row is Delete || row is Add || row is Notice,
    }
}

/// `a + b`, saturating at `u32::MAX`.
pub open spec fn saturating_add(a: u32, b: u32) -> u32 {
    if a + b <= u32::MAX {
        (a + b) as u32
    } else {
        u32::MAX
    }
}

pub open spec fn optional_lines_view(lines: Option<&Vec<Vec<Token>>>) -> Option<Seq<Seq<TokenView>>> {
    match lines {
        Some(lines) => Some(lines_view(lines@)),
        None => None,
    }
}

pub open spec fn owned_lines_view(lines: Option<Vec<Vec<Token>>>) -> Option<Seq<Seq<TokenView>>> {
    match lines {
        Some(lines) => Some(lines_view(lines@)),
        None => None,
    }
}

/// The lines `start..end` (one-based, end excluded) of the file, when the
/// file is known and holds them.
pub open spec fn gap_view(lines: Option<Seq<Seq<TokenView>>>, start: u32, end: u32) -> Option<
    Seq<Seq<TokenView>>,
> {
    match lines {
        Some(lines) => if 1 <= start <= end && end - 1 <= lines.len() {
            Some(lines.subrange(start - 1, end - 1))
        } else {
            None
        },
        None => None,
    }
}

/// `rows` followed by the gap of the file's lines `start..end`, when the
/// range is not empty and the file holds it.
pub open spec fn with_gap(
    rows: Seq<PresentedRowView>,
    lines: Option<Seq<Seq<TokenView>>>,
    start: u32,
    end: u32,
) -> Seq<PresentedRowView> {
    if end > start {
        match gap_view(lines, start, end) {
            Some(gap) => rows.push(PresentedRowView::Gap { start, lines: gap }),
            None => rows,
        }
    } else {
        rows
    }
}

/// The rows and the end of the last hunk after one more source row, the
/// `index`-th: a hunk first shows the unchanged lines since the previous
/// hunk (from line 1 before the first), then a visible row is added.
pub open spec fn pushed_rows(
    rows: Seq<PresentedRowView>,
    previous_hunk_end: Option<u32>,
    index: nat,
    diff: DiffRow,
    tokens: Seq<TokenView>,
    whole_file: Option<WholeFile>,
    lines: Option<Seq<Seq<TokenView>>>,
) -> (Seq<PresentedRowView>, Option<u32>) {
    let (rows, end) = match diff {
        DiffRow::Hunk { new_start, new_count, .. } => {
            let start = match previous_hunk_end {
                Some(end) => end,
                None => 1u32,
            };
            (with_gap(rows, lines, start, new_start), Some(saturating_add(new_start, new_count)))
        },
        _ => (rows, previous_hunk_end),
    };
    if shows_in_diff(diff, whole_file) {
        (rows.push(PresentedRowView::Diff { source: index, tokens }), end)
    } else {
        (rows, end)
    }
}

/// The rows with the unchanged lines after the last hunk, up to the end of
/// the file.
pub open spec fn finished_rows(
    rows: Seq<PresentedRowView>,
    previous_hunk_end: Option<u32>,
    lines: Option<Seq<Seq<TokenView>>>,
) -> Seq<PresentedRowView> {
    match (previous_hunk_end, lines) {
        (Some(start), Some(file)) => if file.len() <= u32::MAX {
            with_gap(rows, lines, start, saturating_add(file.len() as u32, 1))
        } else {
            rows
        },
        _ => rows,
    }
}

/// A highlighted row as its diff row and token views.
pub open spec fn highlighted_view(rows: Seq<HighlightedRow>) -> Seq<(DiffRow, Seq<TokenView>)> {
    rows.map_values(|row: HighlightedRow| (row.diff, tokens_view(row.tokens@)))
}

/// The rows built from `rows` one after another, and the end of the last
/// hunk.
pub open spec fn built_rows(
    rows: Seq<(DiffRow, Seq<TokenView>)>,
    whole_file: Option<WholeFile>,
    lines: Option<Seq<Seq<TokenView>>>,
) -> (Seq<PresentedRowView>, Option<u32>)
    decreases rows.len(),
{
    if rows.len() == 0 {
        (seq![], None)
    } else {
        let (built, end) = built_rows(rows.drop_last(), whole_file, lines);
        pushed_rows(
            built,
            end,
            (rows.len() - 1) as nat,
            rows.last().0,
            rows.last().1,
            whole_file,
            lines,
        )
    }
}

/// The whole file, one expanded row per line numbered from 1.
pub open spec fn file_view(lines: Seq<Seq<TokenView>>) -> Seq<PresentedRowView> {
    Seq::new(
        lines.len(),
        |i: int|
            PresentedRowView::Expanded {
                line: if i + 1 <= u32::MAX {
                    (i + 1) as u32
                } else {
                    u32::MAX
                },
                tokens: lines[i],
            },
    )
}

/// Whether every diff row refers to one of `count` source rows.
pub open spec fn sources_valid(rows: Seq<PresentedRowView>, count: nat) -> bool {
    forall|i: int|
        0 <= i < rows.len() ==> (#[trigger] rows[i] matches PresentedRowView::Diff { source, .. }
            ==> source < count)
}

proof fn lemma_sources_valid_push(rows: Seq<PresentedRowView>, row: PresentedRowView, count: nat)
    requires
        sources_valid(rows, count),
        row matches PresentedRowView::Diff { source, .. } ==> source < count,
    ensures
        sources_valid(rows.push(row), count),
{
    assert forall|i: int| 0 <= i < rows.push(row).len() implies (#[trigger] rows.push(
        row,
    )[i] matches PresentedRowView::Diff { source, .. } ==> source < count) by {
        if i < rows.len() {
            assert(rows.push(row)[i] == rows[i]);
        }
    }
}

proof fn lemma_sources_valid_grow(rows: Seq<PresentedRowView>, count: nat, more: nat)
    requires
        sources_valid(rows, count),
        count <= more,
    ensures
        sources_valid(rows, more),
{
}

proof fn lemma_sources_valid_concat(left: Seq<PresentedRowView>, right: Seq<PresentedRowView>, count: nat)
    requires
        sources_valid(left, count),
        sources_valid(right, count),
    ensures
        sources_valid(left + right, count),
{
    assert forall|i: int| 0 <= i < (left + right).len() implies (#[trigger] (left
        + right)[i] matches PresentedRowView::Diff { source, .. } ==> source < count) by {
        if i < left.len() {
            assert((left + right)[i] == left[i]);
        } else {
            assert((left + right)[i] == right[i - left.len()]);
        }
    }
}

proof fn lemma_sources_valid_unfold_row(row: PresentedRowView, count: nat)
    requires
        row matches PresentedRowView::Diff { source, .. } ==> source < count,
    ensures
        sources_valid(unfold_row(row), count),
{
}

proof fn lemma_sources_valid_unfold(rows: Seq<PresentedRowView>, count: nat)
    requires
        sources_valid(rows, count),
    ensures
        sources_valid(unfold(rows), count),
    decreases rows.len(),
{
    if rows.len() > 0 {
        assert(sources_valid(rows.drop_last(), count)) by {
            assert forall|i: int| 0 <= i < rows.drop_last().len() implies (
            #[trigger] rows.drop_last()[i] matches PresentedRowView::Diff { source, .. } ==> source
                < count) by {
                assert(rows.drop_last()[i] == rows[i]);
            }
        }
        lemma_sources_valid_unfold(rows.drop_last(), count);
        assert(rows[rows.len() - 1] == rows.last());
        lemma_sources_valid_unfold_row(rows.last(), count);
        lemma_sources_valid_concat(unfold(rows.drop_last()), unfold_row(rows.last()), count);
    }
}

proof fn lemma_sources_valid_contract(rows: Seq<PresentedRowView>, count: nat)
    requires
        sources_valid(rows, count),
    ensures
        sources_valid(contract(rows), count),
    decreases rows.len(),
{
    if rows.len() > 0 {
        assert(sources_valid(rows.drop_last(), count)) by {
            assert forall|i: int| 0 <= i < rows.drop_last().len() implies (
            #[trigger] rows.drop_last()[i] matches PresentedRowView::Diff { source, .. } ==> source
                < count) by {
                assert(rows.drop_last()[i] == rows[i]);
            }
        }
        lemma_sources_valid_contract(rows.drop_last(), count);
        let previous = contract(rows.drop_last());
        assert(rows[rows.len() - 1] == rows.last());
        match rows.last() {
            PresentedRowView::Expanded { line, tokens } => {
                if previous.len() > 0 {
                    assert(sources_valid(previous.drop_last(), count)) by {
                        assert forall|i: int| 0 <= i < previous.drop_last().len() implies (
                        #[trigger] previous.drop_last()[i] matches PresentedRowView::Diff {
                            source,
                            ..
                        } ==> source < count) by {
                            assert(previous.drop_last()[i] == previous[i]);
                        }
                    }
                    match previous.last() {
                        PresentedRowView::Gap { start, lines } => {
                            lemma_sources_valid_push(
                                previous.drop_last(),
                                PresentedRowView::Gap { start, lines: lines.push(tokens) },
                                count,
                            );
                        },
                        _ => {},
                    }
                }
                lemma_sources_valid_push(
                    previous,
                    PresentedRowView::Gap { start: line, lines: seq![tokens] },
                    count,
                );
            },
            row => {
                lemma_sources_valid_push(previous, row, count);
            },
        }
    }
}

proof fn lemma_sources_valid_splice(rows: Seq<PresentedRowView>, index: int, count: nat)
    requires
        sources_valid(rows, count),
        0 <= index < rows.len(),
    ensures
        sources_valid(rows.take(index) + unfold_row(rows[index]) + rows.skip(index + 1), count),
{
    assert(sources_valid(rows.take(index), count)) by {
        assert forall|i: int| 0 <= i < rows.take(index).len() implies (
        #[trigger] rows.take(index)[i] matches PresentedRowView::Diff { source, .. } ==> source
            < count) by {
            assert(rows.take(index)[i] == rows[i]);
        }
    }
    assert(sources_valid(rows.skip(index + 1), count)) by {
        assert forall|i: int| 0 <= i < rows.skip(index + 1).len() implies (
        #[trigger] rows.skip(index + 1)[i] matches PresentedRowView::Diff { source, .. } ==> source
            < count) by {
            assert(rows.skip(index + 1)[i] == rows[i + index + 1]);
        }
    }
    lemma_sources_valid_unfold_row(rows[index], count);
    lemma_sources_valid_concat(rows.take(index), unfold_row(rows[index]), count);
    lemma_sources_valid_concat(
        rows.take(index) + unfold_row(rows[index]),
        rows.skip(index + 1),
        count,
    );
}

/// Rows of a diff under construction, one source row after another.
pub struct PresentationRows<'a> {
    pub source: Vec<DiffRow>,
    pub rows: Vec<PresentedRow>,
    pub previous_hunk_end: Option<u32>,
    pub whole_file: Option<WholeFile>,
    pub after_change_lines: Option<&'a Vec<Vec<Token>>>,
}

impl<'a> PresentationRows<'a> {
    pub open spec fn rows_view(&self) -> Seq<PresentedRowView> {
        presented_view(self.rows@)
    }

    pub open spec fn lines_view(&self) -> Option<Seq<Seq<TokenView>>> {
        optional_lines_view(self.after_change_lines)
    }

    /// No rows yet.
    pub fn new(
        capacity: usize,
        whole_file: Option<WholeFile>,
        after_change_lines: Option<&'a Vec<Vec<Token>>>,
    ) -> (rows: Self)
        ensures
            rows.source@.len() == 0,
            rows.rows@.len() == 0,
            rows.previous_hunk_end is None,
            rows.whole_file == whole_file,
            rows.after_change_lines == after_change_lines,
    {
        PresentationRows {
            source: Vec::with_capacity(capacity),
            rows: Vec::with_capacity(capacity),
            previous_hunk_end: None,
            whole_file,
            after_change_lines,
        }
    }

    /// Appends the unchanged lines between the previous hunk and one that
    /// starts at `new_start`.
    fn push_gap(&mut self, start: u32, end: u32)
        ensures
            final(self).rows_view() == with_gap(old(self).rows_view(), old(self).lines_view(), start, end),
            sources_valid(old(self).rows_view(), old(self).source@.len()) ==> sources_valid(
                final(self).rows_view(),
                final(self).source@.len(),
            ),
            final(self).source == old(self).source,
            final(self).previous_hunk_end == old(self).previous_hunk_end,
            final(self).whole_file == old(self).whole_file,
            final(self).after_change_lines == old(self).after_change_lines,
    {
        if end > start {
            if let Some(lines) = DiffPresentation::gap_lines(self.after_change_lines, start, end) {
                let gap = PresentedRow::Gap { start, lines };
                proof {
                    lemma_presented_view_push(self.rows@, gap);
                    if sources_valid(self.rows_view(), self.source@.len()) {
                        lemma_sources_valid_push(self.rows_view(), gap@, self.source@.len());
                    }
                }
                self.rows.push(gap);
            }
        }
    }

    /// Adds one source row.
    pub fn push(&mut self, row: HighlightedRow)
        ensures
            final(self).source@ == old(self).source@.push(row.diff),
            (final(self).rows_view(), final(self).previous_hunk_end) == pushed_rows(
                old(self).rows_view(),
                old(self).previous_hunk_end,
                old(self).source@.len(),
                row.diff,
                tokens_view(row.tokens@),
                old(self).whole_file,
                old(self).lines_view(),
            ),
            final(self).whole_file == old(self).whole_file,
            final(self).after_change_lines == old(self).after_change_lines,
            sources_valid(old(self).rows_view(), old(self).source@.len()) ==> sources_valid(
                final(self).rows_view(),
                final(self).source@.len(),
            ),
    {
        let visible = match self.whole_file {
            Some(WholeFile::Added) => matches!(row.diff, DiffRow::Add { .. }),
            Some(WholeFile::Deleted) => matches!(row.diff, DiffRow::Delete { .. }),
            None => matches!(row.diff, DiffRow::Context { .. } | DiffRow::Delete { .. } | DiffRow::Add { .. } | DiffRow::Notice { .. }),
        };
        if let DiffRow::Hunk { new_start, new_count, .. } = &row.diff {
            let start = match self.previous_hunk_end {
                Some(end) => end,
                None => 1,
            };
            self.push_gap(start, *new_start);
            self.previous_hunk_end = Some(new_start.saturating_add(*new_count));
        }
        let HighlightedRow { diff, tokens } = row;
        self.source.push(diff);
        if visible {
            let shown = PresentedRow::Diff { source: self.source.len() - 1, tokens };
            proof {
                lemma_presented_view_push(self.rows@, shown);
                if sources_valid(old(self).rows_view(), old(self).source@.len()) {
                    assert(sources_valid(self.rows_view(), (self.source@.len() - 1) as nat));
                    lemma_sources_valid_grow(self.rows_view(), (self.source@.len() - 1) as nat, self.source@.len());
                    lemma_sources_valid_push(self.rows_view(), shown@, self.source@.len());
                }
            }
            self.rows.push(shown);
        }
    }

    /// Adds the unchanged lines after the last hunk.
    pub fn finish(&mut self)
        ensures
            final(self).rows_view() == finished_rows(
                old(self).rows_view(),
                old(self).previous_hunk_end,
                old(self).lines_view(),
            ),
            final(self).source == old(self).source,
            final(self).previous_hunk_end == old(self).previous_hunk_end,
            final(self).whole_file == old(self).whole_file,
            final(self).after_change_lines == old(self).after_change_lines,
            sources_valid(old(self).rows_view(), old(self).source@.len()) ==> sources_valid(
                final(self).rows_view(),
                final(self).source@.len(),
            ),
    {
        if let Some(start) = self.previous_hunk_end {
            if let Some(lines) = self.after_change_lines {
                if lines.len() <= u32::MAX as usize {
                    let end = (lines.len() as u32).saturating_add(1);
                    self.push_gap(start, end);
                }
            }
        }
    }
}

impl DiffPresentation {
    /// The file's lines `start..end` (one-based, end excluded), when the
    /// file is known and holds them.
    pub fn gap_lines(lines: Option<&Vec<Vec<Token>>>, start: u32, end: u32) -> (gap: Option<
        Vec<Vec<Token>>,
    >)
        ensures
            owned_lines_view(gap) == gap_view(optional_lines_view(lines), start, end),
    {
        let lines = match lines {
            Some(lines) => lines,
            None => return None,
        };
        if start < 1 || end < 1 || start > end || (end - 1) as usize > lines.len() {
            return None;
        }
        Some(duplicate_lines(lines, (start - 1) as usize, (end - 1) as usize))
    }
}

/// What the first `Meta` row that announces a new or deleted file says.
fn whole_file_in(rows: &Vec<HighlightedRow>) -> (whole_file: Option<WholeFile>)
    ensures
        whole_file == whole_file_of(highlighted_view(rows@).map_values(
            |row: (DiffRow, Seq<TokenView>)| row.0,
        )),
{
    let ghost diffs = highlighted_view(rows@).map_values(|row: (DiffRow, Seq<TokenView>)| row.0);
    let mut i: usize = 0;
    while i < rows.len()
        invariant
            i <= rows.len(),
            diffs == highlighted_view(rows@).map_values(|row: (DiffRow, Seq<TokenView>)| row.0),
            whole_file_of(diffs.take(i as int)) is None,
        decreases rows.len() - i,
    {
        assert(diffs.take(i + 1).drop_last() =~= diffs.take(i as int));
        assert(diffs[i as int] == rows@[i as int].diff);
        if let DiffRow::Meta { text } = &rows[i].diff {
            if text_starts_with(text.as_str(), "new file mode ") {
                proof {
                    lemma_whole_file_prefix(diffs, i as int);
                }
                return Some(WholeFile::Added);
            }
            if text_starts_with(text.as_str(), "deleted file mode ") {
                proof {
                    lemma_whole_file_prefix(diffs, i as int);
                }
                return Some(WholeFile::Deleted);
            }
        }
        i += 1;
    }
    assert(diffs.take(rows@.len() as int) =~= diffs);
    None
}

/// Once a prefix names the whole file, every longer prefix does too.
proof fn lemma_whole_file_prefix(rows: Seq<DiffRow>, i: int)
    requires
        0 <= i < rows.len(),
        whole_file_of(rows.take(i)) is None,
    ensures
        whole_file_of(rows) == meta_whole_file(rows[i]) || meta_whole_file(rows[i]) is None,
        meta_whole_file(rows[i]) is Some ==> whole_file_of(rows) == meta_whole_file(rows[i]),
    decreases rows.len(),
{
    if meta_whole_file(rows[i]) is Some {
        if i == rows.len() - 1 {
            assert(rows.drop_last() =~= rows.take(i));
        } else {
            assert(rows.drop_last().take(i) =~= rows.take(i));
            lemma_whole_file_prefix(rows.drop_last(), i);
        }
    }
}

/// The whole file as expanded rows, numbered from 1.
fn file_rows_of(lines: Vec<Vec<Token>>) -> (rows: Vec<PresentedRow>)
    ensures
        presented_view(rows@) == file_view(lines_view(lines@)),
{
    let ghost all = lines_view(lines@);
    let mut rows: Vec<PresentedRow> = Vec::new();
    for tokens in it: lines.into_iter()
        invariant
            rows@.len() == it.index(),
            it.seq() == lines@,
            all == lines_view(lines@),
            presented_view(rows@) == file_view(all).take(rows@.len() as int),
    {
        let index = rows.len();
        let line: u32 = if index < u32::MAX as usize {
            (index + 1) as u32
        } else {
            u32::MAX
        };
        let row = PresentedRow::Expanded { line, tokens };
        proof {
            lemma_presented_view_push(rows@, row);
        }
        rows.push(row);
        assert(presented_view(rows@) =~= file_view(all).take(rows@.len() as int));
    }
    assert(file_view(all).take(lines@.len() as int) =~= file_view(all));
    rows
}

impl DiffPresentation {
    /// Whether every diff row, shown or waiting, refers to a source row.
    pub open spec fn well_formed(&self) -> bool {
        &&& sources_valid(self.rows_view(), self.source@.len())
        &&& match self.file_rows {
            Some(rows) => sources_valid(presented_view(rows@), self.source@.len()),
            None => true,
        }
        &&& match self.view {
            PresentationView::File { diff_rows } => sources_valid(
                presented_view(diff_rows@),
                self.source@.len(),
            ),
            PresentationView::Diff => true,
        }
    }

    /// The rows of a highlighted diff: gaps for the unchanged lines between
    /// hunks when the file after the change is known, and one row per
    /// visible diff row; the whole file waits for the file view.
    pub fn new(highlighted: HighlightedDiff) -> (presentation: Self)
        ensures
            presents(highlighted, presentation),
            presentation.well_formed(),
    {
        let HighlightedDiff { rows: highlighted_rows, file } = highlighted;
        let ghost all = highlighted_view(highlighted_rows@);
        let ghost diffs = all.map_values(|row: (DiffRow, Seq<TokenView>)| row.0);
        let whole_file = whole_file_in(&highlighted_rows);
        let after_change_lines = match &file {
            Some(file) => file.after_change_lines(),
            None => None,
        };
        let mut builder = PresentationRows::new(
            highlighted_rows.len(),
            whole_file,
            after_change_lines,
        );
        let ghost lines = builder.lines_view();
        for row in it: highlighted_rows.into_iter()
            invariant
                it.seq() == highlighted_rows@,
                all == highlighted_view(highlighted_rows@),
                diffs == all.map_values(|row: (DiffRow, Seq<TokenView>)| row.0),
                builder.whole_file == whole_file,
                whole_file == whole_file_of(diffs),
                builder.lines_view() == lines,
                builder.source@ == diffs.take(it.index()),
                (builder.rows_view(), builder.previous_hunk_end) == built_rows(
                    all.take(it.index()),
                    whole_file,
                    lines,
                ),
                sources_valid(builder.rows_view(), builder.source@.len()),
        {
            let ghost index = it.index();
            proof {
                assert(all.take(index + 1).drop_last() =~= all.take(index));
                assert(all.take(index + 1).last() == all[index]);
            }
            builder.push(row);
            proof {
                assert(builder.source@ =~= diffs.take(index + 1));
            }
        }
        proof {
            assert(all.take(all.len() as int) =~= all);
            assert(diffs.take(diffs.len() as int) =~= diffs);
        }
        builder.finish();
        let PresentationRows { source, rows, .. } = builder;
        let file_rows = match file {
            Some(file) => Some(file_rows_of(file.into_lines())),
            None => None,
        };
        DiffPresentation { source, rows, whole_file, file_rows, view: PresentationView::Diff }
    }
}

// ---------------------------------------------------------------------------
// Finding rows
// ---------------------------------------------------------------------------

/// Which way a search walks through the rows.
#[derive(Clone, Copy, Debug, PartialEq, Eq, Structural)]
pub enum SearchDirection {
    Forward,
    Backward,
}

/// What a row is looked for by.
pub enum RowTest<'a> {
    /// A context or added row of the one-based line after the change, or
    /// that expanded line.
    NewLine(u32),
    /// A context or deleted row of the one-based line before the change.
    OldLine(u32),
    /// A gap that holds the one-based line.
    GapHolding(u32),
    /// The expanded one-based line.
    ExpandedLine(u32),
    /// A row whose text matches the query.
    Query(&'a str),
}

/// The text of a row's tokens, one after another.
pub open spec fn tokens_text(tokens: Seq<TokenView>) -> Seq<char>
    decreases tokens.len(),
{
    if tokens.len() == 0 {
        seq![]
    } else {
        tokens_text(tokens.drop_last()) + tokens.last().0
    }
}

/// A count of lines as a `u32`, saturating.
pub open spec fn line_count(count: nat) -> u32 {
    if count <= u32::MAX {
        count as u32
    } else {
        u32::MAX
    }
}

/// Whether `row` passes `test`; diff rows are read through `source`.
pub open spec fn passes(test: RowTest, row: PresentedRowView, source: Seq<DiffRow>) -> bool {
    match test {
        RowTest::NewLine(line) => match row {
            PresentedRowView::Diff { source: index, .. } => match source[index as int] {
                DiffRow::Context { new_line, .. } => new_line == line,
                DiffRow::Add { new_line, .. } => new_line == line,
                _ => false,
            },
            PresentedRowView::Expanded { line: shown, .. } => shown == line,
            PresentedRowView::Gap { .. } => false,
        },
        RowTest::OldLine(line) => match row {
            PresentedRowView::Diff { source: index, .. } => match source[index as int] {
                DiffRow::Context { old_line, .. } => old_line == line,
                DiffRow::Delete { old_line, .. } => old_line == line,
                _ => false,
            },
            _ => false,
        },
        RowTest::GapHolding(line) => match row {
            PresentedRowView::Gap { start, lines } => start <= line < saturating_add(
                start,
                line_count(lines.len()),
            ),
            _ => false,
        },
        RowTest::ExpandedLine(line) => match row {
            PresentedRowView::Expanded { line: shown, .. } => shown == line,
            _ => false,
        },
        RowTest::Query(query) => match row {
            PresentedRowView::Diff { tokens, .. } => search_matches(tokens_text(tokens), query@).len()
                > 0,
            PresentedRowView::Expanded { tokens, .. } => search_matches(
                tokens_text(tokens),
                query@,
            ).len() > 0,
            PresentedRowView::Gap { .. } => false,
        },
    }
}

/// The first row in `lo..hi` that passes `test`.
pub open spec fn first_passing(
    rows: Seq<PresentedRowView>,
    source: Seq<DiffRow>,
    test: RowTest,
    lo: int,
    hi: int,
) -> Option<int>
    decreases hi - lo,
{
    if hi <= lo {
        None
    } else {
        match first_passing(rows, source, test, lo, hi - 1) {
            Some(found) => Some(found),
            None => if passes(test, rows[hi - 1], source) {
                Some(hi - 1)
            } else {
                None
            },
        }
    }
}

/// The last row in `lo..hi` that passes `test`.
pub open spec fn last_passing(
    rows: Seq<PresentedRowView>,
    source: Seq<DiffRow>,
    test: RowTest,
    lo: int,
    hi: int,
) -> Option<int>
    decreases hi - lo,
{
    if hi <= lo {
        None
    } else if passes(test, rows[hi - 1], source) {
        Some(hi - 1)
    } else {
        last_passing(rows, source, test, lo, hi - 1)
    }
}

/// The rows below `hi` that pass `test`, in order.
pub open spec fn passing_rows(rows: Seq<PresentedRowView>, source: Seq<DiffRow>, test: RowTest, hi: int) -> Seq<
    int,
>
    decreases hi,
{
    if hi <= 0 {
        seq![]
    } else if passes(test, rows[hi - 1], source) {
        passing_rows(rows, source, test, hi - 1).push(hi - 1)
    } else {
        passing_rows(rows, source, test, hi - 1)
    }
}

pub open spec fn index_view(index: Option<usize>) -> Option<int> {
    match index {
        Some(index) => Some(index as int),
        None => None,
    }
}

/// The row a search from row `from` finds: the next match after it,
/// wrapping to the first; or backwards, the last match before it, wrapping
/// to the last.
pub open spec fn found_row(
    rows: Seq<PresentedRowView>,
    source: Seq<DiffRow>,
    query: &str,
    from: int,
    direction: SearchDirection,
) -> Option<int> {
    let len = rows.len() as int;
    if query@.len() == 0 || len == 0 {
        None
    } else {
        let from = if from < len - 1 {
            from
        } else {
            len - 1
        };
        let test = RowTest::Query(query);
        match direction {
            SearchDirection::Backward => match last_passing(rows, source, test, 0, from) {
                Some(found) => Some(found),
                None => last_passing(rows, source, test, from, len),
            },
            SearchDirection::Forward => match first_passing(rows, source, test, from + 1, len) {
                Some(found) => Some(found),
                None => first_passing(rows, source, test, 0, from + 1),
            },
        }
    }
}

/// The one-based line after `line`, saturating.
pub open spec fn display_line(line: u32) -> u32 {
    saturating_add(line, 1)
}

/// What revealing line `line` (zero-based, after the change) in the diff
/// does: the row that shows it, else the gap that holds it expanded and
/// the row of the line in it, else nothing.
pub open spec fn revealed_diff_line(
    before: DiffPresentation,
    after: DiffPresentation,
    line: u32,
    index: Option<usize>,
) -> bool {
    let display = display_line(line);
    let rows = before.rows_view();
    let len = rows.len() as int;
    match first_passing(rows, before.source@, RowTest::NewLine(display), 0, len) {
        Some(found) => index_view(index) == Some(found) && after == before,
        None => match first_passing(rows, before.source@, RowTest::GapHolding(display), 0, len) {
            Some(gap) => {
                &&& after.rows_view() == rows.take(gap) + unfold_row(rows[gap]) + rows.skip(gap + 1)
                &&& after.source == before.source
                &&& after.whole_file == before.whole_file
                &&& after.file_rows == before.file_rows
                &&& after.view == before.view
                &&& index is Some
                &&& index_view(index) == first_passing(
                    after.rows_view(),
                    after.source@,
                    RowTest::ExpandedLine(display),
                    0,
                    after.rows_view().len() as int,
                )
            },
            None => index is None && after == before,
        },
    }
}

/// Whether the diff holds line `line` (zero-based, after the change), in a
/// row or a gap.
pub open spec fn diff_holds_line(presentation: DiffPresentation, line: u32) -> bool {
    let rows = presentation.rows_view();
    let len = rows.len() as int;
    first_passing(rows, presentation.source@, RowTest::NewLine(display_line(line)), 0, len) is Some
        || first_passing(
        rows,
        presentation.source@,
        RowTest::GapHolding(display_line(line)),
        0,
        len,
    ) is Some
}

/// What revealing line `line` (zero-based, after the change) does: as in
/// the diff, else the whole file is shown and the row of the line found.
pub open spec fn revealed_line(
    before: DiffPresentation,
    after: DiffPresentation,
    line: u32,
    index: Option<usize>,
) -> bool {
    if diff_holds_line(before, line) {
        revealed_diff_line(before, after, line, index)
    } else if before.view is Diff && before.file_rows is Some {
        &&& file_shown(before, after)
        &&& index_view(index) == first_passing(
            after.rows_view(),
            after.source@,
            RowTest::ExpandedLine(display_line(line)),
            0,
            after.rows_view().len() as int,
        )
    } else {
        index is None && after == before
    }
}

/// Where a row stands: its line after the change, or before it for a
/// deleted line (zero-based).
pub open spec fn location_of(
    row: PresentedRowView,
    source: Seq<DiffRow>,
    whole_file: Option<WholeFile>,
) -> Option<PresentationLocation> {
    match row {
        PresentedRowView::Diff { source: index, .. } => match source[index as int] {
            DiffRow::Context { new_line, .. } => if new_line >= 1 {
                Some(PresentationLocation::NewLine((new_line - 1) as u32))
            } else {
                None
            },
            DiffRow::Add { new_line, .. } => if new_line >= 1 {
                Some(PresentationLocation::NewLine((new_line - 1) as u32))
            } else {
                None
            },
            DiffRow::Delete { old_line, .. } => if old_line >= 1 {
                Some(PresentationLocation::OldLine((old_line - 1) as u32))
            } else {
                None
            },
            _ => None,
        },
        PresentedRowView::Expanded { line, .. } => if line >= 1 {
            if whole_file == Some(WholeFile::Deleted) {
                Some(PresentationLocation::OldLine((line - 1) as u32))
            } else {
                Some(PresentationLocation::NewLine((line - 1) as u32))
            }
        } else {
            None
        },
        PresentedRowView::Gap { start, .. } => if start >= 1 {
            Some(PresentationLocation::NewLine((start - 1) as u32))
        } else {
            None
        },
    }
}

/// The line after the change (zero-based) and the text of a row that
/// shows one.
pub open spec fn position_of(
    row: PresentedRowView,
    source: Seq<DiffRow>,
    whole_file: Option<WholeFile>,
) -> Option<(u32, Seq<char>)> {
    match row {
        PresentedRowView::Diff { source: index, tokens } => match source[index as int] {
            DiffRow::Context { new_line, .. } => if new_line >= 1 {
                Some(((new_line - 1) as u32, tokens_text(tokens)))
            } else {
                None
            },
            DiffRow::Add { new_line, .. } => if new_line >= 1 {
                Some(((new_line - 1) as u32, tokens_text(tokens)))
            } else {
                None
            },
            _ => None,
        },
        PresentedRowView::Expanded { line, tokens } => if whole_file != Some(WholeFile::Deleted)
            && line >= 1 {
            Some(((line - 1) as u32, tokens_text(tokens)))
        } else {
            None
        },
        PresentedRowView::Gap { .. } => None,
    }
}

/// The line number a source row shows: after the change for context and
/// added lines, before it for deleted lines.
pub open spec fn shown_line_number(row: DiffRow) -> u32 {
    match row {
        DiffRow::Context { new_line, .. } => new_line,
        DiffRow::Add { new_line, .. } => new_line,
        DiffRow::Delete { old_line, .. } => old_line,
        _ => 0,
    }
}

pub open spec fn max_u32(a: u32, b: u32) -> u32 {
    if a < b {
        b
    } else {
        a
    }
}

/// The largest line number of the source rows, or 0.
pub open spec fn max_source_line(source: Seq<DiffRow>) -> u32
    decreases source.len(),
{
    if source.len() == 0 {
        0
    } else {
        max_u32(max_source_line(source.drop_last()), shown_line_number(source.last()))
    }
}

/// The largest expanded line number among the rows, or 0.
pub open spec fn max_expanded_line(rows: Seq<PresentedRowView>) -> u32
    decreases rows.len(),
{
    if rows.len() == 0 {
        0
    } else {
        let line = match rows.last() {
            PresentedRowView::Expanded { line, .. } => line,
            _ => 0u32,
        };
        max_u32(max_expanded_line(rows.drop_last()), line)
    }
}

/// The text of a row's tokens, one after another.
pub(crate) fn row_text(tokens: &Vec<Token>) -> (text: String)
    ensures
        text@ == tokens_text(tokens_view(tokens@)),
{
    let ghost all = tokens_view(tokens@);
    let mut text = String::new();
    let mut i: usize = 0;
    while i < tokens.len()
        invariant
            i <= tokens.len(),
            all == tokens_view(tokens@),
            text@ == tokens_text(all.take(i as int)),
        decreases tokens.len() - i,
    {
        append_text(&mut text, tokens[i].text.as_str());
        proof {
            assert(all.take(i + 1).drop_last() =~= all.take(i as int));
        }
        i += 1;
    }
    assert(all.take(tokens.len() as int) =~= all);
    text
}

pub open spec fn ten_to(k: nat) -> nat
    decreases k,
{
    if k == 0 {
        1
    } else {
        10 * ten_to((k - 1) as nat)
    }
}

proof fn lemma_digits_bound(m: nat, k: nat)
    requires
        k >= 1,
        m < ten_to(k),
    ensures
        decimal_digits(m).len() <= k,
    decreases k,
{
    if m >= 10 {
        assert(k >= 2) by {
            if k == 1 {
                assert(ten_to(1) == 10 * ten_to(0));
            }
        }
        assert(m / 10 < ten_to((k - 1) as nat));
        lemma_digits_bound(m / 10, (k - 1) as nat);
    }
}

/// The number of decimal digits of `n`.
fn digit_count(n: u32) -> (count: usize)
    ensures
        count == decimal_digits(n as nat).len(),
{
    proof {
        reveal_with_fuel(ten_to, 11);
        assert(ten_to(10) == 10000000000nat);
        lemma_digits_bound(n as nat, 10);
    }
    let mut rest = n;
    let mut count: usize = 1;
    while rest >= 10
        invariant
            decimal_digits(n as nat).len() == decimal_digits(rest as nat).len() + count - 1,
            decimal_digits(n as nat).len() <= 10,
            count >= 1,
            decimal_digits(rest as nat).len() >= 1,
        decreases rest,
    {
        proof {
            assert(decimal_digits(rest as nat).len() == decimal_digits((rest / 10) as nat).len() + 1);
        }
        rest = rest / 10;
        count += 1;
    }
    count
}

impl DiffPresentation {
    /// The source row at `source`.
    pub fn source_row(&self, source: usize) -> (row: &DiffRow)
        requires
            source < self.source@.len(),
        ensures
            *row == self.source@[source as int],
    {
        &self.source[source]
    }

    /// Whether row `index` holds the text of `query`.
    fn row_contains(&self, index: usize, query: &str) -> (found: bool)
        requires
            index < self.rows@.len(),
        ensures
            found == passes(RowTest::Query(query), self.rows_view()[index as int], self.source@),
    {
        let tokens = match &self.rows[index] {
            PresentedRow::Diff { tokens, .. } => tokens,
            PresentedRow::Expanded { tokens, .. } => tokens,
            PresentedRow::Gap { .. } => return false,
        };
        let text = row_text(tokens);
        let ranges = matching_ranges(text.as_str(), query);
        ranges.len() > 0
    }

    /// Whether row `index` passes `test`.
    fn passes_at(&self, index: usize, test: &RowTest) -> (passed: bool)
        requires
            self.well_formed(),
            index < self.rows@.len(),
        ensures
            passed == passes(*test, self.rows_view()[index as int], self.source@),
    {
        assert(self.rows_view()[index as int] == self.rows@[index as int]@);
        match test {
            RowTest::NewLine(line) => match &self.rows[index] {
                PresentedRow::Diff { source, .. } => match self.source_row(*source) {
                    DiffRow::Context { new_line, .. } => *new_line == *line,
                    DiffRow::Add { new_line, .. } => *new_line == *line,
                    _ => false,
                },
                PresentedRow::Expanded { line: shown, .. } => *shown == *line,
                PresentedRow::Gap { .. } => false,
            },
            RowTest::OldLine(line) => match &self.rows[index] {
                PresentedRow::Diff { source, .. } => match self.source_row(*source) {
                    DiffRow::Context { old_line, .. } => *old_line == *line,
                    DiffRow::Delete { old_line, .. } => *old_line == *line,
                    _ => false,
                },
                _ => false,
            },
            RowTest::GapHolding(line) => match &self.rows[index] {
                PresentedRow::Gap { start, lines } => {
                    let count: u32 = if lines.len() <= u32::MAX as usize {
                        lines.len() as u32
                    } else {
                        u32::MAX
                    };
                    *start <= *line && *line < start.saturating_add(count)
                },
                _ => false,
            },
            RowTest::ExpandedLine(line) => match &self.rows[index] {
                PresentedRow::Expanded { line: shown, .. } => *shown == *line,
                _ => false,
            },
            RowTest::Query(query) => self.row_contains(index, query),
        }
    }

    /// The first row in `lo..hi` that passes `test`.
    fn first_in(&self, test: &RowTest, lo: usize, hi: usize) -> (found: Option<usize>)
        requires
            self.well_formed(),
            lo <= hi <= self.rows@.len(),
        ensures
            index_view(found) == first_passing(self.rows_view(), self.source@, *test, lo as int, hi as int),
    {
        let mut found: Option<usize> = None;
        let mut i = lo;
        while i < hi
            invariant
                self.well_formed(),
                lo <= i <= hi <= self.rows@.len(),
                index_view(found) == first_passing(self.rows_view(), self.source@, *test, lo as int, i as int),
            decreases hi - i,
        {
            if found.is_none() && self.passes_at(i, test) {
                found = Some(i);
            }
            i += 1;
        }
        found
    }

    /// The last row in `lo..hi` that passes `test`.
    fn last_in(&self, test: &RowTest, lo: usize, hi: usize) -> (found: Option<usize>)
        requires
            self.well_formed(),
            lo <= hi <= self.rows@.len(),
        ensures
            index_view(found) == last_passing(self.rows_view(), self.source@, *test, lo as int, hi as int),
    {
        let mut found: Option<usize> = None;
        let mut i = lo;
        while i < hi
            invariant
                self.well_formed(),
                lo <= i <= hi <= self.rows@.len(),
                index_view(found) == last_passing(self.rows_view(), self.source@, *test, lo as int, i as int),
            decreases hi - i,
        {
            if self.passes_at(i, test) {
                found = Some(i);
            }
            i += 1;
        }
        found
    }

    /// The rows whose text matches `query`, in order.
    pub fn matching_rows(&self, query: &str) -> (rows: Vec<usize>)
        ensures
            rows@.map_values(|row: usize| row as int) == passing_rows(
                self.rows_view(),
                self.source@,
                RowTest::Query(query),
                self.rows@.len() as int,
            ),
    {
        let mut rows: Vec<usize> = Vec::new();
        let mut i: usize = 0;
        while i < self.rows.len()
            invariant
                i <= self.rows@.len(),
                rows@.map_values(|row: usize| row as int) == passing_rows(
                    self.rows_view(),
                    self.source@,
                    RowTest::Query(query),
                    i as int,
                ),
            decreases self.rows.len() - i,
        {
            if self.row_contains(i, query) {
                rows.push(i);
            }
            i += 1;
            assert(rows@.map_values(|row: usize| row as int) =~= passing_rows(
                self.rows_view(),
                self.source@,
                RowTest::Query(query),
                i as int,
            ));
        }
        rows
    }

    /// The row a search for `query` from row `from` lands on: forward, the
    /// next matching row, wrapping around to the first; backward, the
    /// previous one, wrapping around to the last.
    pub fn find_matching_row(&self, query: &str, from: usize, direction: SearchDirection) -> (found:
        Option<usize>)
        requires
            self.well_formed(),
        ensures
            index_view(found) == found_row(self.rows_view(), self.source@, query, from as int, direction),
    {
        let len = self.rows.len();
        if query.is_empty() || len == 0 {
            return None;
        }
        let from = if from < len - 1 {
            from
        } else {
            len - 1
        };
        let test = RowTest::Query(query);
        match direction {
            SearchDirection::Backward => match self.last_in(&test, 0, from) {
                Some(found) => Some(found),
                None => self.last_in(&test, from, len),
            },
            SearchDirection::Forward => match self.first_in(&test, from + 1, len) {
                Some(found) => Some(found),
                None => self.first_in(&test, 0, from + 1),
            },
        }
    }
}

/// Whether a row shows a context, deleted or added line.
pub open spec fn selectable_row(row: PresentedRowView, source: Seq<DiffRow>) -> bool {
    match row {
        PresentedRowView::Diff { source: index, .. } => {
            let shown = source[index as int];
            shown is Context || shown is Delete || shown is Add
        },
        _ => false,
    }
}

/// The first passing row is the least row of the range that passes.
pub proof fn lemma_first_passing(
    rows: Seq<PresentedRowView>,
    source: Seq<DiffRow>,
    test: RowTest,
    lo: int,
    hi: int,
)
    ensures
        match first_passing(rows, source, test, lo, hi) {
            Some(found) => lo <= found < hi && passes(test, rows[found], source) && forall|j: int|
                lo <= j < found ==> !passes(test, #[trigger] rows[j], source),
            None => forall|j: int| lo <= j < hi ==> !passes(test, #[trigger] rows[j], source),
        },
    decreases hi - lo,
{
    if hi > lo {
        lemma_first_passing(rows, source, test, lo, hi - 1);
    }
}

/// A row that passes a test makes the first passing row exist.
proof fn lemma_first_passing_found(
    rows: Seq<PresentedRowView>,
    source: Seq<DiffRow>,
    test: RowTest,
    lo: int,
    hi: int,
    j: int,
)
    requires
        lo <= j < hi,
        passes(test, rows[j], source),
    ensures
        first_passing(rows, source, test, lo, hi) is Some,
    decreases hi - lo,
{
    if j < hi - 1 {
        lemma_first_passing_found(rows, source, test, lo, hi - 1, j);
    }
}

/// Expanding a gap that holds a line shows that line.
proof fn lemma_expanded_gap_shows_line(rows: Seq<PresentedRowView>, source: Seq<DiffRow>, gap: int, line: u32)
    requires
        0 <= gap < rows.len(),
        passes(RowTest::GapHolding(line), rows[gap], source),
    ensures
        first_passing(
            rows.take(gap) + unfold_row(rows[gap]) + rows.skip(gap + 1),
            source,
            RowTest::ExpandedLine(line),
            0,
            (rows.take(gap) + unfold_row(rows[gap]) + rows.skip(gap + 1)).len() as int,
        ) is Some,
{
    let after = rows.take(gap) + unfold_row(rows[gap]) + rows.skip(gap + 1);
    match rows[gap] {
        PresentedRowView::Gap { start, lines } => {
            let offset = line - start;
            assert(0 <= offset < lines.len());
            assert(offset_line_spec(start, offset) == line);
            assert(after[gap + offset] == unfold_row(rows[gap])[offset]);
            lemma_first_passing_found(
                after,
                source,
                RowTest::ExpandedLine(line),
                0,
                after.len() as int,
                gap + offset,
            );
        },
        _ => {},
    }
}

impl DiffPresentation {
    /// Whether row `index` shows a line that a cursor can select.
    pub fn is_selectable(&self, index: usize) -> (selectable: bool)
        requires
            self.well_formed(),
        ensures
            selectable == (index < self.rows@.len() && selectable_row(
                self.rows_view()[index as int],
                self.source@,
            )),
    {
        if index >= self.rows.len() {
            return false;
        }
        assert(self.rows_view()[index as int] == self.rows@[index as int]@);
        match &self.rows[index] {
            PresentedRow::Diff { source, .. } => match self.source_row(*source) {
                DiffRow::Context { .. } | DiffRow::Delete { .. } | DiffRow::Add { .. } => true,
                _ => false,
            },
            _ => false,
        }
    }

    /// The line after the change (zero-based) and the text of row `index`,
    /// when it shows such a line.
    pub fn source_position(&self, index: usize) -> (position: Option<(u32, String)>)
        requires
            self.well_formed(),
        ensures
            match position {
                Some((line, text)) => index < self.rows@.len() && position_of(
                    self.rows_view()[index as int],
                    self.source@,
                    self.whole_file,
                ) == Some((line, text@)),
                None => index >= self.rows@.len() || position_of(
                    self.rows_view()[index as int],
                    self.source@,
                    self.whole_file,
                ) is None,
            },
    {
        if index >= self.rows.len() {
            return None;
        }
        assert(self.rows_view()[index as int] == self.rows@[index as int]@);
        let (line, tokens) = match &self.rows[index] {
            PresentedRow::Diff { source, tokens } => match self.source_row(*source) {
                DiffRow::Context { new_line, .. } | DiffRow::Add { new_line, .. } => {
                    if *new_line < 1 {
                        return None;
                    }
                    (*new_line - 1, tokens)
                },
                _ => return None,
            },
            PresentedRow::Expanded { line, tokens } => {
                if self.whole_file == Some(WholeFile::Deleted) || *line < 1 {
                    return None;
                }
                (*line - 1, tokens)
            },
            PresentedRow::Gap { .. } => return None,
        };
        Some((line, row_text(tokens)))
    }

    /// Where row `index` stands, so that it can be found again after gaps
    /// expand or contract.
    pub fn presentation_location(&self, index: usize) -> (location: Option<PresentationLocation>)
        requires
            self.well_formed(),
        ensures
            location == if index < self.rows@.len() {
                location_of(self.rows_view()[index as int], self.source@, self.whole_file)
            } else {
                None
            },
    {
        if index >= self.rows.len() {
            return None;
        }
        assert(self.rows_view()[index as int] == self.rows@[index as int]@);
        match &self.rows[index] {
            PresentedRow::Diff { source, .. } => match self.source_row(*source) {
                DiffRow::Context { new_line, .. } | DiffRow::Add { new_line, .. } => {
                    if *new_line < 1 {
                        None
                    } else {
                        Some(PresentationLocation::NewLine(*new_line - 1))
                    }
                },
                DiffRow::Delete { old_line, .. } => {
                    if *old_line < 1 {
                        None
                    } else {
                        Some(PresentationLocation::OldLine(*old_line - 1))
                    }
                },
                _ => None,
            },
            PresentedRow::Expanded { line, .. } => {
                if *line < 1 {
                    None
                } else if self.whole_file == Some(WholeFile::Deleted) {
                    Some(PresentationLocation::OldLine(*line - 1))
                } else {
                    Some(PresentationLocation::NewLine(*line - 1))
                }
            },
            PresentedRow::Gap { start, .. } => {
                if *start < 1 {
                    None
                } else {
                    Some(PresentationLocation::NewLine(*start - 1))
                }
            },
        }
    }

    /// The row of line `line` (zero-based, after the change) in the diff,
    /// expanding the gap that holds it.
    pub fn reveal_diff_line(&mut self, line: u32) -> (index: Option<usize>)
        requires
            old(self).well_formed(),
        ensures
            final(self).well_formed(),
            revealed_diff_line(*old(self), *final(self), line, index),
    {
        let display = line.saturating_add(1);
        let len = self.rows.len();
        if let Some(index) = self.first_in(&RowTest::NewLine(display), 0, len) {
            return Some(index);
        }
        if let Some(gap) = self.first_in(&RowTest::GapHolding(display), 0, len) {
            proof {
                lemma_first_passing(self.rows_view(), self.source@, RowTest::GapHolding(display), 0, len as int);
                lemma_expanded_gap_shows_line(self.rows_view(), self.source@, gap as int, display);
            }
            self.expand(gap);
            let count = self.rows.len();
            return self.first_in(&RowTest::ExpandedLine(display), 0, count);
        }
        None
    }

    /// The row of line `line` (zero-based, after the change): in the diff,
    /// else in the whole file, which is then shown.
    pub fn reveal_line(&mut self, line: u32) -> (index: Option<usize>)
        requires
            old(self).well_formed(),
        ensures
            final(self).well_formed(),
            revealed_line(*old(self), *final(self), line, index),
    {
        if let Some(index) = self.reveal_diff_line(line) {
            return Some(index);
        }
        let display = line.saturating_add(1);
        if self.show_file() {
            let count = self.rows.len();
            return self.first_in(&RowTest::ExpandedLine(display), 0, count);
        }
        None
    }

    /// The row at a location taken earlier: a line after the change is
    /// revealed as by `reveal_line`; a line before it is looked up in the
    /// diff, which is shown again.
    pub fn reveal_presentation_location(&mut self, location: PresentationLocation) -> (index:
        Option<usize>)
        requires
            old(self).well_formed(),
        ensures
            final(self).well_formed(),
            match location {
                PresentationLocation::NewLine(line) => revealed_line(*old(self), *final(self), line, index),
                PresentationLocation::OldLine(line) => diff_shown(*old(self), *final(self))
                    && index_view(index) == first_passing(
                    final(self).rows_view(),
                    final(self).source@,
                    RowTest::OldLine(display_line(line)),
                    0,
                    final(self).rows_view().len() as int,
                ),
            },
    {
        match location {
            PresentationLocation::NewLine(line) => self.reveal_line(line),
            PresentationLocation::OldLine(line) => {
                self.show_diff();
                let display = line.saturating_add(1);
                let count = self.rows.len();
                self.first_in(&RowTest::OldLine(display), 0, count)
            },
        }
    }

    /// The number of digits of the largest line number shown.
    pub fn line_number_width(&self) -> (width: usize)
        ensures
            width == decimal_digits(
                max_u32(max_source_line(self.source@), max_expanded_line(self.rows_view())) as nat,
            ).len(),
    {
        let mut source_line: u32 = 0;
        let mut i: usize = 0;
        while i < self.source.len()
            invariant
                i <= self.source@.len(),
                source_line == max_source_line(self.source@.take(i as int)),
            decreases self.source.len() - i,
        {
            proof {
                assert(self.source@.take(i + 1).drop_last() =~= self.source@.take(i as int));
            }
            let shown = match &self.source[i] {
                DiffRow::Context { new_line, .. } => *new_line,
                DiffRow::Add { new_line, .. } => *new_line,
                DiffRow::Delete { old_line, .. } => *old_line,
                _ => 0,
            };
            if shown > source_line {
                source_line = shown;
            }
            i += 1;
        }
        assert(self.source@.take(self.source@.len() as int) =~= self.source@);
        let mut expanded_line: u32 = 0;
        let mut i: usize = 0;
        while i < self.rows.len()
            invariant
                i <= self.rows@.len(),
                expanded_line == max_expanded_line(self.rows_view().take(i as int)),
            decreases self.rows.len() - i,
        {
            proof {
                assert(self.rows_view().take(i + 1).drop_last() =~= self.rows_view().take(i as int));
                assert(self.rows_view()[i as int] == self.rows@[i as int]@);
            }
            let shown = match &self.rows[i] {
                PresentedRow::Expanded { line, .. } => *line,
                _ => 0,
            };
            if shown > expanded_line {
                expanded_line = shown;
            }
            i += 1;
        }
        assert(self.rows_view().take(self.rows@.len() as int) =~= self.rows_view());
        let largest = if source_line < expanded_line {
            expanded_line
        } else {
            source_line
        };
        digit_count(largest)
    }
}

} // verus!
