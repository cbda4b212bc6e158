//! Diff-row text spans: where styled spans of a code token begin and end,
//! how a span is emphasised, how rows wrap, and where the cursor sits.

use std::ops::Range;

use ratatui::style::Color;
use vstd::prelude::*;
use vstd::utf8::{encode_utf8, is_char_boundary};

use crate::app::{grapheme_display_width, grapheme_texts, text_display_width};
use crate::diff_row::{DiffRow, NoticeKind};
use crate::files::{decimal, decimal_digits};
use crate::render::{push_repeated, repeat_char};
use crate::highlight::{tokens_view, Token, TokenView};
use crate::motion::{byte_offset, char_offsets};
use crate::presentation::{matching_ranges, ranges_view, row_text, search_matches, tokens_text};
use crate::text::{append_text, bytes_of, char_len_at, char_len_at_boundary, chars_of};
use crate::unicode::{
    byte_len, concat, extended_graphemes, grapheme_indices, lemma_concat_push,
    lemma_encode_utf8_concat,
};

verus! {

/// Display width of a tab character in diff rows.
pub const TAB_DISPLAY_WIDTH: usize = 4;

/// Whether the values are in strictly increasing order.
pub open spec fn strictly_increasing(values: Seq<usize>) -> bool {
    forall|i: int, j: int| 0 <= i < j < values.len() ==> values[i] < values[j]
}

/// Adds `value` to an increasing vector of distinct values, keeping it so.
fn insert_sorted(values: &mut Vec<usize>, value: usize)
    requires
        strictly_increasing(old(values)@),
    ensures
        strictly_increasing(final(values)@),
        forall|x: usize| final(values)@.contains(x) <==> (old(values)@.contains(x) || x == value),
{
    let ghost before = values@;
    let mut i: usize = 0;
    while i < values.len() && values[i] < value
        invariant
            values@ == before,
            before == old(values)@,
            i <= values.len(),
            forall|j: int| 0 <= j < i ==> values@[j] < value,
        decreases values.len() - i,
    {
        i += 1;
    }
    if i < values.len() && values[i] == value {
        assert(values@[i as int] == value);
        return;
    }
    values.insert(i, value);
    proof {
        assert(values@ =~= before.take(i as int).push(value) + before.skip(i as int));
        assert forall|x: usize| values@.contains(x) <==> (before.contains(x) || x == value) by {
            if values@.contains(x) {
                let w = choose|w: int| 0 <= w < values@.len() && values@[w] == x;
                if w < i {
                    assert(before[w] == x);
                } else if w > i {
                    assert(before[w - 1] == x);
                }
            }
            if before.contains(x) {
                let w = choose|w: int| 0 <= w < before.len() && before[w] == x;
                if w < i {
                    assert(values@[w] == x);
                } else {
                    assert(values@[w + 1] == x);
                }
            }
            if x == value {
                assert(values@[i as int] == x);
            }
        }
        assert(strictly_increasing(values@));
        assert(forall|x: usize| values@.contains(x) <==> (old(values)@.contains(x) || x == value));
    }
}

/// Whether `range` shares at least one byte with `token`.
pub open spec fn overlaps(range: Range<usize>, token: Range<usize>) -> bool {
    range.start < token.end && range.end > token.start
}

pub open spec fn max(a: int, b: int) -> int {
    if a >= b { a } else { b }
}

pub open spec fn min(a: int, b: int) -> int {
    if a <= b { a } else { b }
}

/// Whether `x` is an end of `range` clipped to `token`, for a range that
/// overlaps the token.
pub open spec fn clipped_end(x: int, range: Range<usize>, token: Range<usize>) -> bool {
    overlaps(range, token) && (x == max(range.start as int, token.start as int) || x == min(
        range.end as int,
        token.end as int,
    ))
}

/// Whether a cursor column lies inside the token on a character start.
pub open spec fn cursor_in_token(column: usize, token: Range<usize>, bytes: Seq<u8>) -> bool {
    token.start <= column < token.end && is_char_boundary(bytes, column as int)
}

/// Whether `x` is a span boundary of the code token `token` of the line
/// whose bytes are `bytes`: an end of the token, an end of a search match or
/// of the source selection clipped to the token, or either side of the
/// character under the cursor when that character starts inside the token.
pub open spec fn is_token_boundary(
    x: int,
    token: Range<usize>,
    matches: Seq<Range<usize>>,
    source_selection: Option<Range<usize>>,
    cursor_column: Option<usize>,
    bytes: Seq<u8>,
) -> bool {
    ||| x == token.start
    ||| x == token.end
    ||| exists|i: int| 0 <= i < matches.len() && clipped_end(x, matches[i], token)
    ||| (source_selection matches Some(range) && clipped_end(x, range, token))
    ||| (cursor_column matches Some(column) && cursor_in_token(column, token, bytes) && (x == column
        || x == column + char_len_at(bytes, column as int)))
}

/// The sorted, distinct byte offsets at which the styled spans of one code
/// token start and end.
pub fn token_boundaries(
    token: Range<usize>,
    matches: &[Range<usize>],
    source_selection: Option<&Range<usize>>,
    cursor_column: Option<usize>,
    text: &str,
) -> (boundaries: Vec<usize>)
    ensures
        strictly_increasing(boundaries@),
        forall|x: usize|
            boundaries@.contains(x) <==> is_token_boundary(
                x as int,
                token,
                matches@,
                match source_selection {
                    Some(range) => Some(*range),
                    None => None,
                },
                cursor_column,
                bytes_of(text),
            ),
{
    let ghost selection = match source_selection {
        Some(range) => Some(*range),
        None => None,
    };
    let ghost bytes = bytes_of(text);
    let mut boundaries: Vec<usize> = Vec::new();
    insert_sorted(&mut boundaries, token.start);
    insert_sorted(&mut boundaries, token.end);
    let mut i: usize = 0;
    while i < matches.len()
        invariant
            i <= matches.len(),
            strictly_increasing(boundaries@),
            forall|x: usize|
                boundaries@.contains(x) <==> (x == token.start || x == token.end || exists|j: int|
                    0 <= j < i && clipped_end(x as int, matches@[j], token)),
        decreases matches.len() - i,
    {
        let range = &matches[i];
        if range.start < token.end && range.end > token.start {
            let start = if range.start >= token.start {
                range.start
            } else {
                token.start
            };
            let end = if range.end <= token.end {
                range.end
            } else {
                token.end
            };
            insert_sorted(&mut boundaries, start);
            insert_sorted(&mut boundaries, end);
        }
        proof {
            assert forall|x: usize|
                boundaries@.contains(x) <==> (x == token.start || x == token.end || exists|j: int|
                    0 <= j < i + 1 && clipped_end(x as int, matches@[j], token)) by {
                if exists|j: int| 0 <= j < i + 1 && clipped_end(x as int, matches@[j], token) {
                    let j = choose|j: int| 0 <= j < i + 1 && clipped_end(x as int, matches@[j], token);
                    if j < i {
                    }
                }
            }
        }
        i += 1;
    }
    if let Some(range) = source_selection {
        if range.start < token.end && range.end > token.start {
            let start = if range.start >= token.start {
                range.start
            } else {
                token.start
            };
            let end = if range.end <= token.end {
                range.end
            } else {
                token.end
            };
            insert_sorted(&mut boundaries, start);
            insert_sorted(&mut boundaries, end);
        }
    }
    if let Some(column) = cursor_column {
        if column >= token.start && column < token.end && text.is_char_boundary(column) {
            let length = char_len_at_boundary(text, column);
            insert_sorted(&mut boundaries, column);
            insert_sorted(&mut boundaries, column + length);
        }
    }
    boundaries
}

/// The display width of the leading graphemes that end at or before byte
/// `byte_column`.
pub open spec fn width_before_byte(graphemes: Seq<Seq<char>>, byte_column: int) -> int
    decreases graphemes.len(),
{
    if graphemes.len() == 0 {
        0
    } else {
        let bytes = byte_len(graphemes[0]);
        if bytes > byte_column {
            0
        } else {
            grapheme_display_width(graphemes[0]) + width_before_byte(
                graphemes.drop_first(),
                byte_column - bytes,
            )
        }
    }
}

proof fn lemma_width_before_byte_nonnegative(graphemes: Seq<Seq<char>>, byte_column: int)
    ensures
        width_before_byte(graphemes, byte_column) >= 0,
    decreases graphemes.len(),
{
    if graphemes.len() > 0 {
        lemma_width_before_byte_nonnegative(
            graphemes.drop_first(),
            byte_column - byte_len(graphemes[0]),
        );
    }
}

/// The display column of byte `byte_column` of `line`: the width of the
/// graphemes that end at or before it, capped at `usize::MAX`.
pub fn source_display_width(line: &str, byte_column: usize) -> (width: usize)
    ensures
        width == min(width_before_byte(extended_graphemes(line@), byte_column as int), usize::MAX as int),
{
    let graphemes = grapheme_indices(line);
    let ghost texts = grapheme_texts(graphemes@);
    proof {
        assert(texts =~= extended_graphemes(line@));
        assert(texts.take(0) =~= Seq::<Seq<char>>::empty());
        assert(vstd::utf8::encode_utf8(concat(texts.take(0))) =~= Seq::<u8>::empty());
        assert(texts.skip(0) =~= texts);
    }
    let mut width: usize = 0;
    let mut k: usize = 0;
    while k < graphemes.len()
        invariant
            k <= graphemes.len() == texts.len(),
            texts == grapheme_texts(graphemes@),
            texts == extended_graphemes(line@),
            forall|j: int|
                0 <= j < graphemes@.len() ==> (#[trigger] graphemes@[j]).0 as nat == byte_len(
                    concat(texts.take(j)),
                ),
            byte_len(concat(texts.take(k as int))) <= byte_column,
            width == min(
                width_before_byte(texts, byte_column as int) - width_before_byte(
                    texts.skip(k as int),
                    byte_column - byte_len(concat(texts.take(k as int))),
                ),
                usize::MAX as int,
            ),
        decreases graphemes.len() - k,
    {
        let offset = graphemes[k].0;
        let length = graphemes[k].1.as_str().as_bytes().len();
        proof {
            assert(texts.skip(k as int)[0] == texts[k as int]);
            assert(texts.skip(k as int).drop_first() =~= texts.skip(k + 1));
            assert(texts[k as int] == graphemes@[k as int].1@);
            assert(length == byte_len(texts[k as int]));
            assert(texts.take(k + 1) =~= texts.take(k as int).push(texts[k as int]));
            lemma_concat_push(texts.take(k as int), texts[k as int]);
            lemma_encode_utf8_concat(concat(texts.take(k as int)), texts[k as int]);
        }
        assert(graphemes@[k as int].0 as nat == byte_len(concat(texts.take(k as int))));
        if length > byte_column - offset {
            proof {
                lemma_width_before_byte_nonnegative(texts.skip(k as int), byte_column - offset);
            }
            return width;
        }
        let grapheme_width = text_display_width(graphemes[k].1.as_str());
        proof {
            lemma_width_before_byte_nonnegative(
                texts.skip(k + 1),
                byte_column - byte_len(concat(texts.take(k + 1))),
            );
        }
        proof {
            let rest = byte_column - byte_len(concat(texts.take(k as int)));
            assert(width_before_byte(texts.skip(k as int), rest) == grapheme_width
                + width_before_byte(texts.skip(k + 1), rest - length));
            assert(byte_len(concat(texts.take(k + 1))) == offset + length);
        }
        width = width.saturating_add(grapheme_width);
        k += 1;
    }
    proof {
        assert(texts.skip(k as int) =~= Seq::<Seq<char>>::empty());
    }
    width
}

/// How a span of code text is drawn: its color, if it has one, reversed
/// where it is selected or under the cursor, and bold under the cursor.
#[derive(Clone, Copy, Debug, PartialEq, Eq)]
pub struct SpanStyle {
    pub fg: Option<Color>,
    pub reversed: bool,
    pub bold: bool,
}

/// Whether `range` covers all of `span`.
pub open spec fn covers(range: Range<usize>, span: Range<usize>) -> bool {
    range.start <= span.start && range.end >= span.end
}

/// Whether a search match or the source selection covers all of `span`.
pub open spec fn span_selected(
    span: Range<usize>,
    matches: Seq<Range<usize>>,
    source_selection: Option<Range<usize>>,
) -> bool {
    (exists|i: int| 0 <= i < matches.len() && covers(#[trigger] matches[i], span))
        || (source_selection matches Some(range) && covers(range, span))
}

/// The style of a span of a token in `color`: reversed when a search match
/// or the source selection covers the whole span, reversed and bold when
/// the cursor is on its first byte.
pub fn code_span_style(
    color: Color,
    span: Range<usize>,
    matches: &[Range<usize>],
    source_selection: Option<&Range<usize>>,
    cursor_column: Option<usize>,
) -> (style: SpanStyle)
    ensures
        style.fg == Some(color),
        style.reversed == (span_selected(
            span,
            matches@,
            match source_selection {
                Some(range) => Some(*range),
                None => None,
            },
        ) || cursor_column == Some(span.start)),
        style.bold == (cursor_column == Some(span.start)),
{
    let mut selected = false;
    let mut i: usize = 0;
    while i < matches.len()
        invariant
            i <= matches@.len(),
            selected == exists|k: int| 0 <= k < i && covers(#[trigger] matches@[k], span),
        decreases matches.len() - i,
    {
        if matches[i].start <= span.start && matches[i].end >= span.end {
            selected = true;
        }
        i += 1;
    }
    if let Some(range) = source_selection {
        if range.start <= span.start && range.end >= span.end {
            selected = true;
        }
    }
    let at_cursor = match cursor_column {
        Some(column) => column == span.start,
        None => false,
    };
    SpanStyle { fg: Some(color), reversed: selected || at_cursor, bold: at_cursor }
}

/// `text` right-aligned in `width` characters.
pub open spec fn right_aligned(text: Seq<char>, width: nat) -> Seq<char> {
    repeat_char(' ', if width > text.len() {
        (width - text.len()) as nat
    } else {
        0nat
    }) + text
}

/// The line number column of a code row: the number right-aligned in
/// `number_width` columns and a space, or blanks.
pub open spec fn number_column(line: Option<u32>, number_width: nat) -> Seq<char> {
    match line {
        Some(line) => right_aligned(decimal_digits(line as nat), number_width) + " "@,
        None => repeat_char(' ', number_width + 1),
    }
}

/// The line number column of a code row.
pub fn line_number_label(line: Option<u32>, number_width: usize) -> (label: String)
    requires
        number_width < usize::MAX,
    ensures
        label@ == number_column(line, number_width as nat),
{
    let mut label = String::new();
    match line {
        Some(line) => {
            let digits = decimal(line as u64);
            let count = chars_of(digits.as_str()).len();
            let padding = if number_width > count {
                number_width - count
            } else {
                0
            };
            push_repeated(&mut label, ' ', padding);
            append_text(&mut label, digits.as_str());
            append_text(&mut label, " ");
        },
        None => {
            push_repeated(&mut label, ' ', number_width + 1);
        },
    }
    label
}

/// The row that stands for a gap of `count` hidden lines, padded with
/// blanks to `width` characters.
pub open spec fn gap_text(count: nat, number_width: nat, width: nat) -> Seq<char> {
    let text = "  "@ + right_aligned(seq!['…'], number_width) + " "@ + decimal_digits(count)
        + " unmodified lines"@;
    text + repeat_char(' ', if width > text.len() {
        (width - text.len()) as nat
    } else {
        0nat
    })
}

/// The row that stands for a gap of `count` hidden lines.
pub fn gap_line(count: usize, number_width: usize, width: usize) -> (text: String)
    ensures
        text@ == gap_text(count as nat, number_width as nat, width as nat),
{
    let mut text = String::new();
    append_text(&mut text, "  ");
    let padding = if number_width > 1 {
        number_width - 1
    } else {
        0
    };
    push_repeated(&mut text, ' ', padding);
    text.push('…');
    append_text(&mut text, " ");
    let digits = decimal(count as u64);
    append_text(&mut text, digits.as_str());
    append_text(&mut text, " unmodified lines");
    let length = chars_of(text.as_str()).len();
    let fill = if width > length {
        width - length
    } else {
        0
    };
    push_repeated(&mut text, ' ', fill);
    proof {
        assert(repeat_char(' ', padding as nat) + seq!['…'] =~= right_aligned(
            seq!['…'],
            number_width as nat,
        ));
    }
    text
}

// ---------------------------------------------------------------------------
// Styled spans of a code row
// ---------------------------------------------------------------------------

/// The number of characters whose encoding ends at or before byte `byte`,
/// counting from character `index`: a byte offset on a character boundary
/// gives that character, one inside a character rounds down to its start.
pub open spec fn char_floor_from(chars: Seq<char>, byte: int, index: int) -> int
    decreases chars.len() - index,
{
    if 0 <= index < chars.len() && byte_offset(chars, index + 1) <= byte {
        char_floor_from(chars, byte, index + 1)
    } else {
        index
    }
}

/// The character at byte offset `byte` of `chars`, rounded down to the
/// start of the character that holds it.
pub open spec fn char_floor(chars: Seq<char>, byte: int) -> int {
    char_floor_from(chars, byte, 0)
}

/// `text` with each tab shown as `TAB_DISPLAY_WIDTH` spaces.
pub open spec fn expand_tabs(text: Seq<char>) -> Seq<char>
    decreases text.len(),
{
    if text.len() == 0 {
        seq![]
    } else {
        expand_tabs(text.drop_last()) + if text.last() == '\t' {
            repeat_char(' ', TAB_DISPLAY_WIDTH as nat)
        } else {
            seq![text.last()]
        }
    }
}

proof fn lemma_char_floor_bounds(chars: Seq<char>, byte: int, index: int)
    requires
        0 <= index <= chars.len(),
    ensures
        index <= char_floor_from(chars, byte, index) <= chars.len(),
    decreases chars.len() - index,
{
    if index < chars.len() && byte_offset(chars, index + 1) <= byte {
        lemma_char_floor_bounds(chars, byte, index + 1);
    }
}

/// The character at byte offset `byte`, rounded down.
fn char_at_byte(offsets: &Vec<usize>, line: &Vec<char>, byte: usize) -> (index: usize)
    requires
        offsets@.len() == line@.len() + 1,
        forall|i: int| 0 <= i <= line@.len() ==> offsets@[i] == byte_offset(line@, i),
    ensures
        index == char_floor(line@, byte as int),
        index <= line@.len(),
{
    let mut index: usize = 0;
    proof {
        lemma_char_floor_bounds(line@, byte as int, 0);
    }
    while index < line.len() && offsets[index + 1] <= byte
        invariant
            offsets@.len() == line@.len() + 1,
            forall|i: int| 0 <= i <= line@.len() ==> offsets@[i] == byte_offset(line@, i),
            index <= line@.len(),
            char_floor(line@, byte as int) == char_floor_from(line@, byte as int, index as int),
        decreases line.len() - index,
    {
        index += 1;
    }
    proof {
        lemma_char_floor_bounds(line@, byte as int, index as int);
    }
    index
}

/// The characters `line[from..to]` with tabs expanded.
fn expanded_between(line: &Vec<char>, from: usize, to: usize) -> (text: String)
    requires
        from <= to <= line@.len(),
    ensures
        text@ == expand_tabs(line@.subrange(from as int, to as int)),
{
    let mut text = String::new();
    let mut i = from;
    assert(line@.subrange(from as int, from as int) =~= Seq::<char>::empty());
    while i < to
        invariant
            from <= i <= to <= line@.len(),
            text@ == expand_tabs(line@.subrange(from as int, i as int)),
        decreases to - i,
    {
        let c = line[i];
        assert(line@.subrange(from as int, i + 1).drop_last() =~= line@.subrange(from as int, i as int));
        if c == '\t' {
            push_repeated(&mut text, ' ', TAB_DISPLAY_WIDTH);
        } else {
            text.push(c);
        }
        i += 1;
    }
    text
}

/// Two strictly increasing sequences with the same values are equal.
proof fn lemma_sorted_unique(a: Seq<usize>, b: Seq<usize>)
    requires
        strictly_increasing(a),
        strictly_increasing(b),
        forall|x: usize| a.contains(x) <==> b.contains(x),
    ensures
        a == b,
    decreases a.len(),
{
    if a.len() == 0 {
        if b.len() > 0 {
            assert(b.contains(b[0]));
        }
        assert(a =~= b);
    } else {
        assert(a.contains(a[0]));
        assert(b.len() > 0);
        assert(b.contains(b[0]));
        let i = choose|i: int| 0 <= i < a.len() && a[i] == b[0];
        let j = choose|j: int| 0 <= j < b.len() && b[j] == a[0];
        assert(a[0] == b[0]) by {
            if i > 0 {
                assert(a[0] < a[i]);
            }
            if j > 0 {
                assert(b[0] < b[j]);
            }
        }
        let a1 = a.drop_first();
        let b1 = b.drop_first();
        assert forall|x: usize| a1.contains(x) <==> b1.contains(x) by {
            if a1.contains(x) {
                let k = choose|k: int| 0 <= k < a1.len() && a1[k] == x;
                assert(a[k + 1] == x);
                assert(a.contains(x));
                assert(x != a[0]);
                let m = choose|m: int| 0 <= m < b.len() && b[m] == x;
                assert(m != 0);
                assert(b1[m - 1] == x);
            }
            if b1.contains(x) {
                let k = choose|k: int| 0 <= k < b1.len() && b1[k] == x;
                assert(b[k + 1] == x);
                assert(b.contains(x));
                assert(x != b[0]);
                let m = choose|m: int| 0 <= m < a.len() && a[m] == x;
                assert(m != 0);
                assert(a1[m - 1] == x);
            }
        }
        lemma_sorted_unique(a1, b1);
        assert(a =~= seq![a[0]] + a1);
        assert(b =~= seq![b[0]] + b1);
    }
}

/// A piece of text of a code row in its style.
#[derive(Clone, Debug, PartialEq, Eq)]
pub struct StyledText {
    pub text: String,
    pub style: SpanStyle,
}

pub open spec fn styled_view(spans: Seq<StyledText>) -> Seq<(Seq<char>, SpanStyle)> {
    spans.map_values(|span: StyledText| (span.text@, span.style))
}

/// The style `code_span_style` gives a span.
pub open spec fn span_style_of(
    color: Color,
    span: Range<usize>,
    matches: Seq<Range<usize>>,
    source_selection: Option<Range<usize>>,
    cursor_column: Option<usize>,
) -> SpanStyle {
    SpanStyle {
        fg: Some(color),
        reversed: span_selected(span, matches, source_selection) || cursor_column == Some(
            span.start,
        ),
        bold: cursor_column == Some(span.start),
    }
}

/// The span boundaries of a token in increasing order.
pub open spec fn boundary_seq(
    token: Range<usize>,
    matches: Seq<Range<usize>>,
    source_selection: Option<Range<usize>>,
    cursor_column: Option<usize>,
    bytes: Seq<u8>,
) -> Seq<usize> {
    choose|values: Seq<usize>|
        strictly_increasing(values) && forall|x: usize|
            values.contains(x) <==> is_token_boundary(
                x as int,
                token,
                matches,
                source_selection,
                cursor_column,
                bytes,
            )
}

/// The pieces of one token of a code row: the text between consecutive
/// span boundaries, tabs expanded, each in its span style.
pub open spec fn token_pieces(
    chars: Seq<char>,
    token: Range<usize>,
    color: Color,
    matches: Seq<Range<usize>>,
    source_selection: Option<Range<usize>>,
    cursor_column: Option<usize>,
) -> Seq<(Seq<char>, SpanStyle)> {
    let bounds = boundary_seq(token, matches, source_selection, cursor_column, encode_utf8(chars));
    Seq::new(
        if bounds.len() >= 1 {
            (bounds.len() - 1) as nat
        } else {
            0nat
        },
        |i: int|
            (
                expand_tabs(
                    chars.subrange(
                        char_floor(chars, bounds[i] as int),
                        char_floor(chars, bounds[i + 1] as int),
                    ),
                ),
                span_style_of(
                    color,
                    Range { start: bounds[i], end: bounds[i + 1] },
                    matches,
                    source_selection,
                    cursor_column,
                ),
            ),
    )
}

/// The bytes of token `k` within the text of a code row.
pub open spec fn token_range(tokens: Seq<TokenView>, k: int) -> Range<usize> {
    Range {
        start: byte_len(tokens_text(tokens.take(k))) as usize,
        end: byte_len(tokens_text(tokens.take(k + 1))) as usize,
    }
}

/// The pieces of the first `k` tokens of a code row.
pub open spec fn pieces_upto(
    chars: Seq<char>,
    tokens: Seq<TokenView>,
    k: int,
    matches: Seq<Range<usize>>,
    source_selection: Option<Range<usize>>,
    cursor_column: Option<usize>,
) -> Seq<(Seq<char>, SpanStyle)>
    decreases k,
{
    if k <= 0 {
        seq![]
    } else {
        pieces_upto(chars, tokens, k - 1, matches, source_selection, cursor_column)
            + token_pieces(
            chars,
            token_range(tokens, k - 1),
            tokens[k - 1].1,
            matches,
            source_selection,
            cursor_column,
        )
    }
}

/// The search matches of a row as byte ranges.
pub open spec fn match_ranges(text: Seq<char>, query: Seq<char>) -> Seq<Range<usize>> {
    search_matches(text, query).map_values(
        |found: (int, int)| Range { start: found.0 as usize, end: found.1 as usize },
    )
}

/// The styled pieces of a code row: each token cut where search matches,
/// the source selection and the cursor begin and end, and a reversed bold
/// blank when the cursor stands past the end of the text.
pub open spec fn code_pieces(
    tokens: Seq<TokenView>,
    query: Seq<char>,
    source_selection: Option<Range<usize>>,
    cursor_column: Option<usize>,
) -> Seq<(Seq<char>, SpanStyle)> {
    let text = tokens_text(tokens);
    let pieces = pieces_upto(
        text,
        tokens,
        tokens.len() as int,
        match_ranges(text, query),
        source_selection,
        cursor_column,
    );
    if cursor_column == Some(byte_len(text) as usize) {
        pieces.push((" "@, SpanStyle { fg: None, reversed: true, bold: true }))
    } else {
        pieces
    }
}

proof fn lemma_tokens_text_take(tokens: Seq<TokenView>, k: int)
    requires
        0 <= k < tokens.len(),
    ensures
        tokens_text(tokens.take(k + 1)) == tokens_text(tokens.take(k)) + tokens[k].0,
{
    assert(tokens.take(k + 1).drop_last() =~= tokens.take(k));
}

proof fn lemma_tokens_text_prefix(tokens: Seq<TokenView>, k: int)
    requires
        0 <= k <= tokens.len(),
    ensures
        byte_len(tokens_text(tokens.take(k))) <= byte_len(tokens_text(tokens)),
    decreases tokens.len() - k,
{
    if k < tokens.len() {
        lemma_tokens_text_take(tokens, k);
        lemma_encode_utf8_concat(tokens_text(tokens.take(k)), tokens[k].0);
        lemma_tokens_text_prefix(tokens, k + 1);
    } else {
        assert(tokens.take(k) =~= tokens);
    }
}

proof fn lemma_match_ranges(matches: Seq<Range<usize>>, text: Seq<char>, query: Seq<char>)
    requires
        ranges_view(matches) == search_matches(text, query),
    ensures
        matches == match_ranges(text, query),
{
    assert forall|i: int| 0 <= i < matches.len() implies matches[i] == match_ranges(
        text,
        query,
    )[i] by {
        assert(ranges_view(matches)[i] == (matches[i].start as int, matches[i].end as int));
    }
    assert(matches =~= match_ranges(text, query));
}

/// The styled pieces of a code row made of `tokens`, searched for `query`,
/// with the source selection and the cursor column of the row.
pub fn code_spans(
    tokens: &Vec<Token>,
    query: &str,
    cursor_column: Option<usize>,
    source_selection: Option<&Range<usize>>,
) -> (spans: Vec<StyledText>)
    ensures
        styled_view(spans@) == code_pieces(
            tokens_view(tokens@),
            query@,
            match source_selection {
                Some(range) => Some(*range),
                None => None,
            },
            cursor_column,
        ),
{
    let ghost all = tokens_view(tokens@);
    let ghost selection = match source_selection {
        Some(range) => Some(*range),
        None => None,
    };
    let text = row_text(tokens);
    let chars = chars_of(text.as_str());
    let bytes = text.as_str().as_bytes();
    let length = bytes.len();
    let offsets = char_offsets(&chars);
    let matches = matching_ranges(text.as_str(), query);
    proof {
        lemma_match_ranges(matches@, text@, query@);
    }
    let ghost found = match_ranges(text@, query@);
    let mut spans: Vec<StyledText> = Vec::new();
    let mut token_start: usize = 0;
    let mut k: usize = 0;
    proof {
        assert(all.take(0) =~= Seq::<TokenView>::empty());
        assert(encode_utf8(Seq::<char>::empty()) =~= Seq::<u8>::empty());
    }
    while k < tokens.len()
        invariant
            k <= tokens@.len(),
            all == tokens_view(tokens@),
            text@ == tokens_text(all),
            chars@ == text@,
            length == byte_len(text@),
            offsets@.len() == chars@.len() + 1,
            forall|i: int| 0 <= i <= chars@.len() ==> offsets@[i] == byte_offset(chars@, i),
            matches@ == found,
            found == match_ranges(text@, query@),
            selection == match source_selection {
                Some(range) => Some(*range),
                None => None,
            },
            token_start == byte_len(tokens_text(all.take(k as int))),
            styled_view(spans@) == pieces_upto(
                text@,
                all,
                k as int,
                found,
                selection,
                cursor_column,
            ),
        decreases tokens.len() - k,
    {
        proof {
            lemma_tokens_text_take(all, k as int);
            lemma_encode_utf8_concat(tokens_text(all.take(k as int)), all[k as int].0);
            lemma_tokens_text_prefix(all, k + 1);
        }
        let token_length = tokens[k].text.as_str().as_bytes().len();
        let token_end = token_start + token_length;
        let boundaries = token_boundaries(
            token_start..token_end,
            matches.as_slice(),
            source_selection,
            cursor_column,
            text.as_str(),
        );
        let ghost token = Range { start: token_start, end: token_end };
        proof {
            assert(token == token_range(all, k as int));
            let chosen = boundary_seq(token, found, selection, cursor_column, encode_utf8(chars@));
            assert(strictly_increasing(chosen) && forall|x: usize|
                chosen.contains(x) <==> is_token_boundary(
                    x as int,
                    token,
                    found,
                    selection,
                    cursor_column,
                    encode_utf8(chars@),
                ));
            lemma_sorted_unique(boundaries@, chosen);
        }
        let ghost before = styled_view(spans@);
        let ghost pieces = token_pieces(
            chars@,
            token,
            all[k as int].1,
            found,
            selection,
            cursor_column,
        );
        let mut i: usize = 0;
        while boundaries.len() > 0 && i < boundaries.len() - 1
            invariant
                i <= boundaries@.len(),
                boundaries@.len() >= 1 ==> i + 1 <= boundaries@.len(),
                strictly_increasing(boundaries@),
                boundaries@ == boundary_seq(token, found, selection, cursor_column, encode_utf8(chars@)),
                pieces == token_pieces(chars@, token, all[k as int].1, found, selection, cursor_column),
                offsets@.len() == chars@.len() + 1,
                forall|j: int| 0 <= j <= chars@.len() ==> offsets@[j] == byte_offset(chars@, j),
                matches@ == found,
                k < tokens@.len(),
                all == tokens_view(tokens@),
                selection == match source_selection {
                    Some(range) => Some(*range),
                    None => None,
                },
                styled_view(spans@) == before + pieces.take(i as int),
            decreases boundaries.len() - i,
        {
            let start = boundaries[i];
            let end = boundaries[i + 1];
            let style = code_span_style(
                tokens[k].color,
                start..end,
                matches.as_slice(),
                source_selection,
                cursor_column,
            );
            let from = char_at_byte(&offsets, &chars, start);
            let to = char_at_byte(&offsets, &chars, end);
            proof {
                lemma_char_floor_order(chars@, start as int, end as int);
            }
            let piece = expanded_between(&chars, from, to);
            let ghost count = spans@.len();
            let styled = StyledText { text: piece, style };
            proof {
                assert(all[k as int].1 == tokens@[k as int].color);

                assert(style == span_style_of(
                    all[k as int].1,
                    Range { start, end },
                    found,
                    selection,
                    cursor_column,
                ));
                assert(pieces[i as int] == (styled.text@, styled.style));
            }
            let ghost previous = spans@;
            let ghost shown = (styled.text@, styled.style);
            spans.push(styled);
            proof {
                assert(styled_view(spans@) =~= styled_view(previous).push(shown));
                assert(pieces.take(i + 1) =~= pieces.take(i as int).push(pieces[i as int]));
                assert(styled_view(spans@) =~= before + pieces.take(i + 1));
            }
            i += 1;
        }
        proof {
            assert(pieces.take(pieces.len() as int) =~= pieces);
            if boundaries@.len() == 0 {
                assert(pieces.len() == 0);
            }
            assert(pieces.take(i as int) =~= pieces);
        }
        token_start = token_end;
        k += 1;
    }
    proof {
        assert(all.take(all.len() as int) =~= all);
    }
    if cursor_column == Some(length) {
        let mut blank = String::new();
        blank.push(' ');
        proof {
            reveal_strlit(" ");
            assert(blank@ =~= " "@);
        }
        let ghost previous = spans@;
        let blank_span = StyledText {
            text: blank,
            style: SpanStyle { fg: None, reversed: true, bold: true },
        };
        let ghost shown = (blank_span.text@, blank_span.style);
        spans.push(blank_span);
        proof {
            assert(styled_view(spans@) =~= styled_view(previous).push(shown));
        }
    }
    proof {
        assert(styled_view(spans@) =~= code_pieces(all, query@, selection, cursor_column));
    }
    spans
}

proof fn lemma_char_floor_order(chars: Seq<char>, a: int, b: int)
    requires
        a <= b,
    ensures
        char_floor(chars, a) <= char_floor(chars, b),
{
    lemma_char_floor_from_order(chars, a, b, 0);
}

proof fn lemma_char_floor_from_order(chars: Seq<char>, a: int, b: int, index: int)
    requires
        a <= b,
    ensures
        char_floor_from(chars, a, index) <= char_floor_from(chars, b, index),
    decreases chars.len() - index,
{
    if 0 <= index < chars.len() && byte_offset(chars, index + 1) <= a {
        lemma_char_floor_from_order(chars, a, b, index + 1);
    } else if 0 <= index < chars.len() && byte_offset(chars, index + 1) <= b {
        lemma_char_floor_bounds_any(chars, b, index + 1);
    }
}

proof fn lemma_char_floor_bounds_any(chars: Seq<char>, byte: int, index: int)
    ensures
        char_floor_from(chars, byte, index) >= index,
    decreases chars.len() - index,
{
    if 0 <= index < chars.len() && byte_offset(chars, index + 1) <= byte {
        lemma_char_floor_bounds_any(chars, byte, index + 1);
    }
}

// ---------------------------------------------------------------------------
// How each row is drawn
// ---------------------------------------------------------------------------

/// The palette role that a row, or its change bar, is drawn in.
#[derive(Clone, Copy, Debug, PartialEq, Eq, Structural)]
pub enum RowTone {
    Text,
    Insertion,
    Deletion,
    Focus,
    Warning,
    Dim,
}

/// The tone of a row: plain text when the whole file is shown without
/// change markers; else insertions and deletions in their colours, binary
/// notices in the focus colour, other notices as warnings, headers dim.
pub open spec fn tone_of(row: DiffRow, show_markers: bool) -> RowTone {
    if !show_markers {
        RowTone::Text
    } else {
        match row {
            DiffRow::Add { .. } => RowTone::Insertion,
            DiffRow::Delete { .. } => RowTone::Deletion,
            DiffRow::Notice { kind, .. } => match kind {
                NoticeKind::Binary => RowTone::Focus,
                _ => RowTone::Warning,
            },
            DiffRow::Meta { .. } | DiffRow::FileHeader { .. } | DiffRow::Hunk { .. } => RowTone::Dim,
            DiffRow::Context { .. } => RowTone::Text,
        }
    }
}

/// The tone a row is drawn in.
pub fn row_tone(row: &DiffRow, show_markers: bool) -> (tone: RowTone)
    ensures
        tone == tone_of(*row, show_markers),
{
    if !show_markers {
        return RowTone::Text;
    }
    match row {
        DiffRow::Add { .. } => RowTone::Insertion,
        DiffRow::Delete { .. } => RowTone::Deletion,
        DiffRow::Notice { kind, .. } => match kind {
            NoticeKind::Binary => RowTone::Focus,
            _ => RowTone::Warning,
        },
        DiffRow::Meta { .. } | DiffRow::FileHeader { .. } | DiffRow::Hunk { .. } => RowTone::Dim,
        DiffRow::Context { .. } => RowTone::Text,
    }
}

/// What the line of a diff row shows.
#[derive(Clone, Copy, Debug, PartialEq, Eq, Structural)]
pub enum DiffLineKind {
    /// Code, numbered with `line`, with a change bar in `bar` when the row
    /// is a change and markers are shown.
    Code { line: u32, bar: Option<RowTone> },
    /// The notice's text.
    Notice,
    /// Nothing: headers, meta rows and hunk rows have no line.
    Blank,
}

pub open spec fn line_kind_of(row: DiffRow, show_markers: bool) -> DiffLineKind {
    match row {
        DiffRow::Add { new_line, .. } => DiffLineKind::Code {
            line: new_line,
            bar: if show_markers { Some(RowTone::Insertion) } else { None },
        },
        DiffRow::Delete { old_line, .. } => DiffLineKind::Code {
            line: old_line,
            bar: if show_markers { Some(RowTone::Deletion) } else { None },
        },
        DiffRow::Context { new_line, .. } => DiffLineKind::Code { line: new_line, bar: None },
        DiffRow::Notice { .. } => DiffLineKind::Notice,
        _ => DiffLineKind::Blank,
    }
}

/// What the line of `row` shows: an added or context row is numbered by
/// its line after the change, a deleted row by its line before it.
pub fn diff_line_kind(row: &DiffRow, show_markers: bool) -> (kind: DiffLineKind)
    ensures
        kind == line_kind_of(*row, show_markers),
{
    match row {
        DiffRow::Add { new_line, .. } => DiffLineKind::Code {
            line: *new_line,
            bar: if show_markers {
                Some(RowTone::Insertion)
            } else {
                None
            },
        },
        DiffRow::Delete { old_line, .. } => DiffLineKind::Code {
            line: *old_line,
            bar: if show_markers {
                Some(RowTone::Deletion)
            } else {
                None
            },
        },
        DiffRow::Context { new_line, .. } => DiffLineKind::Code { line: *new_line, bar: None },
        DiffRow::Notice { .. } => DiffLineKind::Notice,
        _ => DiffLineKind::Blank,
    }
}

} // verus!
