//! Text fitting shared by the pane renderers.

use vstd::prelude::*;

use crate::text::{append_text, chars_of};

verus! {

/// `count` copies of `c`.
pub open spec fn repeat_char(c: char, count: nat) -> Seq<char> {
    Seq::new(count, |i: int| c)
}

/// `value` fitted into `width` characters: unchanged when it fits, dots
/// when there is no room for an ellipsis, else its start and end around `…`
/// with the extra character, if any, kept at the end.
pub open spec fn shortened(value: Seq<char>, width: nat) -> Seq<char> {
    let length = value.len();
    if length <= width {
        value
    } else if width <= 3 {
        repeat_char('.', width)
    } else {
        let left = (width - 1) / 2;
        let right = width - left - 1;
        value.take(left as int) + seq!['…'] + value.skip(length - right)
    }
}

/// Shorten `value` to at most `width` characters.
pub fn shorten(value: &str, width: usize) -> (short: String)
    ensures
        short@ == shortened(value@, width as nat),
{
    let chars = chars_of(value);
    let length = chars.len();
    let mut short = String::new();
    if length <= width {
        let mut i: usize = 0;
        while i < length
            invariant
                i <= length == chars@.len(),
                chars@ == value@,
                short@ == chars@.take(i as int),
            decreases length - i,
        {
            short.push(chars[i]);
            i += 1;
            assert(short@ =~= chars@.take(i as int));
        }
        assert(chars@.take(length as int) =~= value@);
        return short;
    }
    if width <= 3 {
        let mut i: usize = 0;
        while i < width
            invariant
                i <= width,
                short@ == repeat_char('.', i as nat),
            decreases width - i,
        {
            short.push('.');
            i += 1;
            assert(short@ =~= repeat_char('.', i as nat));
        }
        return short;
    }
    let left = (width - 1) / 2;
    let right = width - left - 1;
    let mut i: usize = 0;
    while i < left
        invariant
            i <= left < length == chars@.len(),
            chars@ == value@,
            short@ == chars@.take(i as int),
        decreases left - i,
    {
        short.push(chars[i]);
        i += 1;
        assert(short@ =~= chars@.take(i as int));
    }
    short.push('…');
    let start = length - right;
    let mut j: usize = start;
    while j < length
        invariant
            start <= j <= length == chars@.len(),
            chars@ == value@,
            short@ == chars@.take(left as int) + seq!['…'] + chars@.subrange(start as int, j as int),
        decreases length - j,
    {
        short.push(chars[j]);
        j += 1;
        assert(short@ =~= chars@.take(left as int) + seq!['…'] + chars@.subrange(
            start as int,
            j as int,
        ));
    }
    assert(chars@.subrange(start as int, length as int) =~= value@.skip(start as int));
    short
}

/// Appends `count` copies of `c` to `text`.
pub fn push_repeated(text: &mut String, c: char, count: usize)
    ensures
        final(text)@ == old(text)@ + repeat_char(c, count as nat),
{
    let ghost start = text@;
    let mut i: usize = 0;
    while i < count
        invariant
            i <= count,
            text@ == start + repeat_char(c, i as nat),
        decreases count - i,
    {
        text.push(c);
        i += 1;
        assert(text@ =~= start + repeat_char(c, i as nat));
    }
}

/// The title of a pane's border: the name between spaces, marked while the
/// pane has the focus.
pub open spec fn pane_title_text(title: Seq<char>, focused: bool) -> Seq<char> {
    " "@ + title + (if focused {
        " (focus)"@
    } else {
        ""@
    }) + " "@
}

/// The title of a pane's border.
pub fn pane_title(title: &str, focused: bool) -> (text: String)
    ensures
        text@ == pane_title_text(title@, focused),
{
    let mut text = String::new();
    append_text(&mut text, " ");
    append_text(&mut text, title);
    if focused {
        append_text(&mut text, " (focus)");
    } else {
        append_text(&mut text, "");
    }
    append_text(&mut text, " ");
    text
}

} // verus!
