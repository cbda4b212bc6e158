//! Cursor motion within a source line: by character, by word, and the word
//! under the cursor. Columns are byte offsets into the line.

use vstd::prelude::*;
use vstd::utf8::{
    encode_scalar, encode_utf8, encode_utf8_first_scalar, encode_utf8_valid_utf8, is_char_boundary,
    length_of_first_scalar, pop_first_scalar,
};

use crate::text::{bytes_of, char_utf8_len, chars_of, string_from_chars};
use crate::unicode::{char_is_alphanumeric, is_alphanumeric, lemma_encode_utf8_concat};

verus! {

/// Whether `c` belongs to a word: alphanumeric or an underscore.
pub open spec fn word_char(c: char) -> bool {
    char_is_alphanumeric(c) || c == '_'
}

/// Whether `c` belongs to a word: alphanumeric or an underscore.
pub fn is_word_character(c: char) -> (word: bool)
    ensures
        word == word_char(c),
{
    is_alphanumeric(c) || c == '_'
}

/// The byte offset of character `index` of `chars`.
pub open spec fn byte_offset(chars: Seq<char>, index: int) -> int {
    encode_utf8(chars.take(index)).len() as int
}

/// The start of the run of word characters that ends just before character
/// `index`.
pub open spec fn run_start(chars: Seq<char>, index: int) -> int
    decreases index,
{
    if index > 0 && word_char(chars[index - 1]) {
        run_start(chars, index - 1)
    } else {
        index
    }
}

/// The end of the run of word characters that starts at character `index`.
pub open spec fn run_end(chars: Seq<char>, index: int) -> int
    decreases chars.len() - index,
{
    if 0 <= index < chars.len() && word_char(chars[index]) {
        run_end(chars, index + 1)
    } else {
        index
    }
}

/// The start of the last word that begins before character `index`, or 0.
pub open spec fn previous_word(chars: Seq<char>, index: int) -> int
    decreases index,
{
    if index <= 0 {
        0
    } else if word_char(chars[index - 1]) {
        run_start(chars, index)
    } else {
        previous_word(chars, index - 1)
    }
}

/// The first word character at or after character `index` once a non-word
/// character has been passed (`left` says whether one has), or the end.
pub open spec fn next_word_from(chars: Seq<char>, index: int, left: bool) -> int
    decreases chars.len() - index,
{
    if index < 0 || index >= chars.len() {
        chars.len() as int
    } else if word_char(chars[index]) && left {
        index
    } else {
        next_word_from(chars, index + 1, left || !word_char(chars[index]))
    }
}

/// The start of the next word after character `index`: past the rest of
/// the word the index is in, then past any non-word characters.
pub open spec fn next_word(chars: Seq<char>, index: int) -> int {
    next_word_from(chars, index, !(index < chars.len() && word_char(chars[index])))
}

pub(crate) proof fn lemma_byte_offset_step(chars: Seq<char>, index: int)
    requires
        0 <= index < chars.len(),
    ensures
        byte_offset(chars, index + 1) == byte_offset(chars, index) + encode_utf8(
            seq![chars[index]],
        ).len(),
{
    assert(chars.take(index + 1) =~= chars.take(index) + seq![chars[index]]);
    lemma_encode_utf8_concat(chars.take(index), seq![chars[index]]);
}

pub(crate) proof fn lemma_byte_offset_bounds(chars: Seq<char>, index: int)
    requires
        0 <= index <= chars.len(),
    ensures
        0 <= byte_offset(chars, index) <= byte_offset(chars, chars.len() as int),
        byte_offset(chars, chars.len() as int) == encode_utf8(chars).len(),
    decreases chars.len() - index,
{
    assert(chars.take(chars.len() as int) =~= chars);
    if index < chars.len() {
        lemma_byte_offset_step(chars, index);
        lemma_byte_offset_bounds(chars, index + 1);
    }
}

proof fn lemma_byte_offset_increasing(chars: Seq<char>, i: int, j: int)
    requires
        0 <= i < j <= chars.len(),
    ensures
        byte_offset(chars, i) < byte_offset(chars, j),
    decreases j - i,
{
    lemma_byte_offset_step(chars, i);
    assert(encode_utf8(seq![chars[i]]).len() > 0) by {
        assert(seq![chars[i]].drop_first() =~= Seq::<char>::empty());
        assert(encode_utf8(seq![chars[i]]) =~= encode_scalar(chars[i] as u32) + encode_utf8(
            Seq::<char>::empty(),
        ));
    }
    if i + 1 < j {
        lemma_byte_offset_increasing(chars, i + 1, j);
    }
}

/// A character boundary of the encoding is the offset of some character.
proof fn lemma_boundary_is_offset(chars: Seq<char>, column: int)
    requires
        is_char_boundary(encode_utf8(chars), column),
    ensures
        exists|index: int| 0 <= index <= chars.len() && byte_offset(chars, index) == column,
    decreases chars.len(),
{
    let bytes = encode_utf8(chars);
    encode_utf8_valid_utf8(chars);
    if column == 0 {
        assert(chars.take(0) =~= Seq::<char>::empty());
        assert(byte_offset(chars, 0) == 0);
    } else {
        assert(chars.len() > 0);
        encode_utf8_first_scalar(chars);
        let rest = chars.drop_first();
        let width = length_of_first_scalar(bytes);
        assert(pop_first_scalar(bytes) =~= encode_utf8(rest));
        assert(is_char_boundary(encode_utf8(rest), column - width));
        lemma_boundary_is_offset(rest, column - width);
        let k = choose|k: int| 0 <= k <= rest.len() && byte_offset(rest, k) == column - width;
        assert(chars.take(k + 1) =~= seq![chars[0]] + rest.take(k));
        assert(chars.take(k + 1).drop_first() =~= rest.take(k));
        assert(chars.take(k + 1)[0] == chars[0]);
        assert(byte_offset(chars, k + 1) == column);
    }
}

/// The byte offset of every character of `chars`, and of its end.
pub(crate) fn char_offsets(chars: &Vec<char>) -> (offsets: Vec<usize>)
    requires
        encode_utf8(chars@).len() <= usize::MAX,
    ensures
        offsets@.len() == chars@.len() + 1,
        forall|i: int| 0 <= i <= chars@.len() ==> offsets@[i] == byte_offset(chars@, i),
{
    let mut offsets: Vec<usize> = Vec::new();
    let mut offset: usize = 0;
    proof {
        assert(chars@.take(0) =~= Seq::<char>::empty());
    }
    let mut i: usize = 0;
    while i < chars.len()
        invariant
            i <= chars@.len(),
            encode_utf8(chars@).len() <= usize::MAX,
            offsets@.len() == i,
            forall|k: int| 0 <= k < i ==> offsets@[k] == byte_offset(chars@, k),
            offset == byte_offset(chars@, i as int),
        decreases chars.len() - i,
    {
        offsets.push(offset);
        proof {
            lemma_byte_offset_step(chars@, i as int);
            lemma_byte_offset_bounds(chars@, i + 1);
        }
        offset = offset + char_utf8_len(chars[i]);
        i += 1;
    }
    offsets.push(offset);
    offsets
}

/// The character whose offset is `column`.
fn char_index(offsets: &Vec<usize>, line: &Vec<char>, column: usize) -> (index: usize)
    requires
        offsets@.len() == line@.len() + 1,
        forall|i: int| 0 <= i <= line@.len() ==> offsets@[i] == byte_offset(line@, i),
        exists|i: int| 0 <= i <= line@.len() && byte_offset(line@, i) == column,
    ensures
        index <= line@.len(),
        byte_offset(line@, index as int) == column,
{
    let ghost chars = line@;
    let mut i: usize = 0;
    while i < offsets.len()
        invariant
            chars == line@,
            offsets@.len() == chars.len() + 1,
            forall|k: int| 0 <= k <= chars.len() ==> offsets@[k] == byte_offset(chars, k),
            exists|k: int| i <= k <= chars.len() && byte_offset(chars, k) == column,
            i <= offsets@.len(),
        decreases offsets.len() - i,
    {
        if offsets[i] == column {
            return i;
        }
        proof {
            let k = choose|k: int| i <= k <= chars.len() && byte_offset(chars, k) == column;
            assert(k != i);
        }
        i += 1;
    }
    proof {
        let k = choose|k: int| i <= k <= chars.len() && byte_offset(chars, k) == column;
    }
    0
}

/// The column itself when it is a character boundary, else the boundary
/// before it; columns past the end go to the end.
pub fn column_at_boundary(line: &str, column: usize) -> (boundary: usize)
    ensures
        boundary <= column,
        boundary <= bytes_of(line).len(),
        is_char_boundary(bytes_of(line), boundary as int),
        forall|b: int|
            boundary < b <= column && b <= bytes_of(line).len() ==> !is_char_boundary(
                bytes_of(line),
                b,
            ),
{
    let length = line.as_bytes().len();
    let mut boundary = if column < length {
        column
    } else {
        length
    };
    proof {
        encode_utf8_valid_utf8(line@);
        vstd::utf8::is_char_boundary_start_end_of_seq(bytes_of(line));
    }
    while !line.is_char_boundary(boundary)
        invariant
            boundary <= column,
            boundary <= length == bytes_of(line).len(),
            is_char_boundary(bytes_of(line), 0),
            is_char_boundary(bytes_of(line), length as int),
            forall|b: int|
                boundary < b <= column && b <= bytes_of(line).len() ==> !is_char_boundary(
                    bytes_of(line),
                    b,
                ),
        decreases boundary,
    {
        boundary = boundary - 1;
    }
    boundary
}

/// The character whose byte offset is `column`.
pub open spec fn offset_index(chars: Seq<char>, column: int) -> int {
    choose|index: int| 0 <= index <= chars.len() && byte_offset(chars, index) == column
}

/// The column clamped to the end of the line.
pub open spec fn clamped_column(line: &str, column: usize) -> int {
    if column < bytes_of(line).len() {
        column as int
    } else {
        bytes_of(line).len() as int
    }
}

proof fn lemma_offset_index(chars: Seq<char>, index: int)
    requires
        0 <= index <= chars.len(),
    ensures
        offset_index(chars, byte_offset(chars, index)) == index,
{
    let column = byte_offset(chars, index);
    let chosen = offset_index(chars, column);
    assert(0 <= chosen <= chars.len() && byte_offset(chars, chosen) == column);
    if chosen < index {
        lemma_byte_offset_increasing(chars, chosen, index);
    } else if index < chosen {
        lemma_byte_offset_increasing(chars, index, chosen);
    }
}

/// The character at a boundary column of a line, found through the byte
/// offsets of its characters.
fn boundary_index(line: &str, column: usize) -> (found: (Vec<char>, Vec<usize>, usize))
    requires
        is_char_boundary(bytes_of(line), column as int),
    ensures
        found.0@ == line@,
        found.1@.len() == line@.len() + 1,
        forall|i: int| 0 <= i <= line@.len() ==> found.1@[i] == byte_offset(line@, i),
        found.2 <= line@.len(),
        found.2 == offset_index(line@, column as int),
        byte_offset(line@, found.2 as int) == column,
{
    let chars = chars_of(line);
    let bytes = line.as_bytes();
    let _length = bytes.len();
    proof {
        lemma_boundary_is_offset(line@, column as int);
        lemma_byte_offset_bounds(line@, 0);
    }
    let offsets = char_offsets(&chars);
    let index = char_index(&offsets, &chars, column);
    proof {
        lemma_offset_index(line@, index as int);
    }
    (chars, offsets, index)
}

/// The byte offset one character after (or before) the character at byte
/// offset `current`, staying within the characters.
pub open spec fn character_step(chars: Seq<char>, current: int, forward: bool) -> int {
    let index = offset_index(chars, current);
    byte_offset(chars, if forward {
        if index < chars.len() {
            index + 1
        } else {
            index
        }
    } else {
        if index > 0 {
            index - 1
        } else {
            0
        }
    })
}

/// The column one character before (`forward` false) or after `column`,
/// staying within the line.
pub fn character_column(line: &str, column: usize, forward: bool) -> (target: usize)
    requires
        is_char_boundary(bytes_of(line), clamped_column(line, column)),
    ensures
        target == character_step(line@, clamped_column(line, column), forward),
{
    let length = line.as_bytes().len();
    let current = if column < length {
        column
    } else {
        length
    };
    let (chars, offsets, index) = boundary_index(line, current);
    if forward {
        if index < chars.len() {
            offsets[index + 1]
        } else {
            offsets[index]
        }
    } else {
        if index > 0 {
            offsets[index - 1]
        } else {
            offsets[0]
        }
    }
}

/// The byte offset of the next word start after byte offset `current`
/// (`forward`), or of the start of the word before it.
pub open spec fn word_step(chars: Seq<char>, current: int, forward: bool) -> int {
    let index = offset_index(chars, current);
    byte_offset(chars, if forward {
        next_word(chars, index)
    } else {
        previous_word(chars, index)
    })
}

/// The column of the next word start after `column` (`forward`), or of the
/// start of the word before it.
pub fn word_column(line: &str, column: usize, forward: bool) -> (target: usize)
    requires
        is_char_boundary(bytes_of(line), clamped_column(line, column)),
    ensures
        target == word_step(line@, clamped_column(line, column), forward),
{
    let length = line.as_bytes().len();
    let current = if column < length {
        column
    } else {
        length
    };
    let (chars, offsets, index) = boundary_index(line, current);
    let ghost all = chars@;
    if forward {
        let starts_in_word = index < chars.len() && is_word_character(chars[index]);
        let mut left = !starts_in_word;
        let mut j = index;
        while j < chars.len()
            invariant
                all == chars@,
                offsets@.len() == all.len() + 1,
                forall|i: int| 0 <= i <= all.len() ==> offsets@[i] == byte_offset(all, i),
                index <= j <= chars@.len(),
                forward,
                all == line@,
                index == offset_index(all, clamped_column(line, column)),
                word_step(all, clamped_column(line, column), true) == byte_offset(
                    all,
                    next_word(all, index as int),
                ),
                next_word(all, index as int) == next_word_from(all, j as int, left),
            decreases chars.len() - j,
        {
            let word = is_word_character(chars[j]);
            if word && left {
                assert(next_word_from(all, j as int, left) == j);
                return offsets[j];
            }
            left = left || !word;
            j += 1;
        }
        offsets[chars.len()]
    } else {
        let mut k = index;
        while k > 0 && !is_word_character(chars[k - 1])
            invariant
                all == chars@,
                offsets@.len() == all.len() + 1,
                forall|i: int| 0 <= i <= all.len() ==> offsets@[i] == byte_offset(all, i),
                k <= index <= chars@.len(),
                previous_word(all, index as int) == previous_word(all, k as int),
            decreases k,
        {
            k -= 1;
        }
        if k == 0 {
            return offsets[0];
        }
        let ghost found = k;
        while k > 0 && is_word_character(chars[k - 1])
            invariant
                all == chars@,
                offsets@.len() == all.len() + 1,
                forall|i: int| 0 <= i <= all.len() ==> offsets@[i] == byte_offset(all, i),
                k <= found <= index <= chars@.len(),
                found > 0,
                word_char(all[found - 1]),
                previous_word(all, index as int) == run_start(all, found as int),
                run_start(all, found as int) == run_start(all, k as int),
            decreases k,
        {
            k -= 1;
        }
        offsets[k]
    }
}

/// The word under column `column`, when the column is a character boundary
/// of the line and the character there belongs to a word.
pub open spec fn word_at(line: &str, column: usize) -> Option<Seq<char>> {
    let chars = line@;
    let current = clamped_column(line, column);
    if is_char_boundary(bytes_of(line), current) {
        let index = offset_index(chars, current);
        if index < chars.len() && word_char(chars[index]) {
            Some(chars.subrange(run_start(chars, index), run_end(chars, index)))
        } else {
            None
        }
    } else {
        None
    }
}

/// The word under column `column`: the run of word characters around the
/// character there.
pub fn current_word(line: &str, column: usize) -> (word: Option<String>)
    ensures
        match word {
            Some(text) => word_at(line, column) == Some(text@),
            None => word_at(line, column) is None,
        },
{
    let length = line.as_bytes().len();
    let current = if column < length {
        column
    } else {
        length
    };
    if !line.is_char_boundary(current) {
        return None;
    }
    let (chars, _offsets, index) = boundary_index(line, current);
    let ghost all = chars@;
    if index >= chars.len() || !is_word_character(chars[index]) {
        return None;
    }
    let mut start = index;
    while start > 0 && is_word_character(chars[start - 1])
        invariant
            all == chars@,
            start <= index < chars@.len(),
            run_start(all, index as int) == run_start(all, start as int),
        decreases start,
    {
        start -= 1;
    }
    let mut end = index;
    while end < chars.len() && is_word_character(chars[end])
        invariant
            all == chars@,
            index <= end <= chars@.len(),
            run_end(all, index as int) == run_end(all, end as int),
        decreases chars.len() - end,
    {
        end += 1;
    }
    Some(string_from_chars(&chars, start, end))
}

// ---------------------------------------------------------------------------
// Laws
// ---------------------------------------------------------------------------

/// Stepping one character forward and then one back returns to the same
/// column, anywhere before the end of the line.
pub proof fn law_character_steps_undo_each_other(chars: Seq<char>, index: int)
    requires
        0 <= index < chars.len(),
    ensures
        character_step(chars, character_step(chars, byte_offset(chars, index), true), false)
            == byte_offset(chars, index),
{
    lemma_offset_index(chars, index);
    lemma_offset_index(chars, index + 1);
}

proof fn lemma_run_start(chars: Seq<char>, index: int)
    requires
        0 <= index <= chars.len(),
    ensures
        0 <= run_start(chars, index) <= index,
        forall|k: int| run_start(chars, index) <= k < index ==> word_char(#[trigger] chars[k]),
        run_start(chars, index) == 0 || !word_char(chars[run_start(chars, index) - 1]),
    decreases index,
{
    if index > 0 && word_char(chars[index - 1]) {
        lemma_run_start(chars, index - 1);
    }
}

proof fn lemma_run_end(chars: Seq<char>, index: int)
    requires
        0 <= index <= chars.len(),
    ensures
        index <= run_end(chars, index) <= chars.len(),
        forall|k: int| index <= k < run_end(chars, index) ==> word_char(#[trigger] chars[k]),
        run_end(chars, index) == chars.len() || !word_char(chars[run_end(chars, index)]),
    decreases chars.len() - index,
{
    if index < chars.len() && word_char(chars[index]) {
        lemma_run_end(chars, index + 1);
    }
}

/// The word under the cursor is a whole word: it holds the character at the
/// cursor, only word characters, and no word character touches it on
/// either side.
pub proof fn law_current_word_is_a_whole_word(chars: Seq<char>, index: int)
    requires
        0 <= index < chars.len(),
        word_char(chars[index]),
    ensures
        ({
            let start = run_start(chars, index);
            let end = run_end(chars, index);
            &&& 0 <= start <= index < end <= chars.len()
            &&& forall|k: int| start <= k < end ==> word_char(#[trigger] chars[k])
            &&& start == 0 || !word_char(chars[start - 1])
            &&& end == chars.len() || !word_char(chars[end])
        }),
{
    lemma_run_start(chars, index);
    lemma_run_end(chars, index);
    assert(run_end(chars, index) == run_end(chars, index + 1));
    lemma_run_end(chars, index + 1);
}

proof fn lemma_next_word_from(chars: Seq<char>, index: int, left: bool)
    requires
        0 <= index <= chars.len(),
    ensures
        ({
            let target = next_word_from(chars, index, left);
            &&& index <= target <= chars.len()
            &&& target < chars.len() ==> word_char(chars[target])
            &&& index < target < chars.len() ==> !word_char(chars[target - 1])
            &&& target == index && index < chars.len() ==> left
        }),
    decreases chars.len() - index,
{
    if index < chars.len() && !(word_char(chars[index]) && left) {
        lemma_next_word_from(chars, index + 1, left || !word_char(chars[index]));
    }
}

/// Moving forward by a word lands on the start of a word after the cursor,
/// or on the end of the line.
pub proof fn law_next_word_starts_a_word(chars: Seq<char>, index: int)
    requires
        0 <= index <= chars.len(),
    ensures
        ({
            let target = next_word(chars, index);
            ||| target == chars.len()
            ||| index < target < chars.len() && word_char(chars[target]) && !word_char(
                chars[target - 1],
            )
        }),
{
    lemma_next_word_from(chars, index, !(index < chars.len() && word_char(chars[index])));
}

/// Moving back by a word lands on the start of a word before the cursor,
/// or on the start of the line.
pub proof fn law_previous_word_starts_a_word(chars: Seq<char>, index: int)
    requires
        0 <= index <= chars.len(),
    ensures
        ({
            let target = previous_word(chars, index);
            &&& 0 <= target <= index
            &&& target == 0 || (target < index && word_char(chars[target]) && !word_char(
                chars[target - 1],
            ))
        }),
    decreases index,
{
    if index > 0 {
        if word_char(chars[index - 1]) {
            lemma_run_start(chars, index);
        } else {
            law_previous_word_starts_a_word(chars, index - 1);
        }
    }
}

} // verus!
