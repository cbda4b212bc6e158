//! Character-level helpers over `str`.

use vstd::prelude::*;
use vstd::utf8::*;

verus! {

broadcast use vstd::string::group_string_axioms;

/// The characters of `text`, in order.
pub fn chars_of(text: &str) -> (chars: Vec<char>)
    ensures
        chars@ == text@,
{
    let mut chars: Vec<char> = Vec::new();
    for c in it: text.chars()
        invariant
            it.seq() == text@,
            chars@ == it.seq().take(it.index()),
    {
        chars.push(c);
    }
    chars
}

/// `String::push` appends one character to the end of the string.
pub assume_specification[ String::push ](string: &mut String, ch: char)
    ensures
        final(string)@ == old(string)@.push(ch),
;

/// A new string holding `chars[from..to]`.
pub fn string_from_chars(chars: &Vec<char>, from: usize, to: usize) -> (text: String)
    requires
        from <= to <= chars.len(),
    ensures
        text@ == chars@.subrange(from as int, to as int),
{
    let mut text = String::new();
    let mut i = from;
    while i < to
        invariant
            from <= i <= to <= chars.len(),
            text@ == chars@.subrange(from as int, i as int),
        decreases to - i,
    {
        text.push(chars[i]);
        i += 1;
        assert(text@ =~= chars@.subrange(from as int, i as int));
    }
    text
}

/// A copy of `chars[from..to]`.
pub fn chars_between(chars: &Vec<char>, from: usize, to: usize) -> (part: Vec<char>)
    requires
        from <= to <= chars.len(),
    ensures
        part@ == chars@.subrange(from as int, to as int),
{
    let mut part: Vec<char> = Vec::new();
    let mut i = from;
    while i < to
        invariant
            from <= i <= to <= chars.len(),
            part@ == chars@.subrange(from as int, i as int),
        decreases to - i,
    {
        part.push(chars[i]);
        i += 1;
        assert(part@ =~= chars@.subrange(from as int, i as int));
    }
    part
}

/// Whether two character vectors hold the same characters.
pub fn chars_equal(left: &Vec<char>, right: &Vec<char>) -> (same: bool)
    ensures
        same == (left@ == right@),
{
    if left.len() != right.len() {
        return false;
    }
    let mut i: usize = 0;
    while i < left.len()
        invariant
            left.len() == right.len(),
            i <= left.len(),
            forall|j: int| 0 <= j < i ==> left@[j] == right@[j],
        decreases left.len() - i,
    {
        if left[i] != right[i] {
            return false;
        }
        i += 1;
    }
    assert(left@ =~= right@);
    true
}

/// Whether some string of `set` holds exactly the characters `text`.
pub open spec fn strings_contain(set: Seq<String>, text: Seq<char>) -> bool {
    exists|i: int| 0 <= i < set.len() && set[i]@ == text
}

/// Membership of `text` among `set`, by string equality.
pub fn contains_string(set: &[String], text: &String) -> (found: bool)
    ensures
        found == strings_contain(set@, text@),
{
    let mut i: usize = 0;
    while i < set.len()
        invariant
            i <= set.len(),
            forall|j: int| 0 <= j < i ==> set@[j]@ != text@,
        decreases set.len() - i,
    {
        if set[i] == *text {
            return true;
        }
        i += 1;
    }
    false
}

/// The UTF-8 bytes of `text`.
pub open spec fn bytes_of(text: &str) -> Seq<u8> {
    encode_utf8(text@)
}

/// Byte length of the character that starts at byte `index`, or zero at the
/// end of the text.
pub open spec fn char_len_at(bytes: Seq<u8>, index: int) -> int {
    if index < bytes.len() {
        length_of_first_scalar(bytes.subrange(index, bytes.len() as int))
    } else {
        0
    }
}

/// The byte length of the character of `text` that starts at byte `index`
/// (zero at the end of the text).
pub fn char_len_at_boundary(text: &str, index: usize) -> (length: usize)
    requires
        is_char_boundary(bytes_of(text), index as int),
    ensures
        length == char_len_at(bytes_of(text), index as int),
        index + length <= bytes_of(text).len() <= usize::MAX,
{
    let bytes = text.as_bytes();
    assert(bytes@.len() == bytes.len());
    proof {
        encode_utf8_valid_utf8(text@);
    }
    if index >= bytes.len() {
        proof {
            if index > bytes@.len() {
                assert(!is_char_boundary(bytes_of(text), index as int));
            }
        }
        return 0;
    }
    let ghost rest = bytes@.subrange(index as int, bytes@.len() as int);
    proof {
        valid_utf8_split(bytes@, index as int);
        assert(valid_utf8(rest));
        assert(rest[0] == bytes@[index as int]);
    }
    let lead = bytes[index];
    if lead <= 0x7f {
        1
    } else if 0xc0 <= lead && lead <= 0xdf {
        2
    } else if 0xe0 <= lead && lead <= 0xef {
        3
    } else {
        4
    }
}

/// The UTF-8 length of one character.
pub fn char_utf8_len(c: char) -> (length: usize)
    ensures
        length == encode_utf8(seq![c]).len(),
        1 <= length <= 4,
{
    proof {
        assert(seq![c].drop_first() =~= Seq::<char>::empty());
        assert(encode_utf8(seq![c]) =~= encode_scalar(c as u32) + encode_utf8(
            Seq::<char>::empty(),
        ));
        assert(encode_utf8(Seq::<char>::empty()) =~= Seq::<u8>::empty());
        char_is_scalar(c);
    }
    let code = c as u32;
    if code <= 0x7f {
        1
    } else if code <= 0x7ff {
        2
    } else if code <= 0xffff {
        3
    } else {
        4
    }
}

/// Whether `text` begins with `prefix`.
pub open spec fn starts_with(text: Seq<char>, prefix: Seq<char>) -> bool {
    prefix.len() <= text.len() && text.take(prefix.len() as int) == prefix
}

/// Whether `text` begins with `prefix`.
pub fn text_starts_with(text: &str, prefix: &str) -> (found: bool)
    ensures
        found == starts_with(text@, prefix@),
{
    let t = chars_of(text);
    let p = chars_of(prefix);
    if p.len() > t.len() {
        return false;
    }
    let mut i: usize = 0;
    while i < p.len()
        invariant
            p.len() <= t.len(),
            i <= p.len(),
            t@ == text@,
            p@ == prefix@,
            forall|j: int| 0 <= j < i ==> t@[j] == p@[j],
        decreases p.len() - i,
    {
        if t[i] != p[i] {
            assert(t@.take(p@.len() as int)[i as int] != p@[i as int]);
            return false;
        }
        i += 1;
    }
    assert(t@.take(p@.len() as int) =~= p@);
    true
}

/// Appends the characters of `text` to `out`.
pub fn append_text(out: &mut String, text: &str)
    ensures
        final(out)@ == old(out)@ + text@,
{
    let chars = chars_of(text);
    let ghost start = out@;
    let mut i: usize = 0;
    while i < chars.len()
        invariant
            i <= chars.len(),
            chars@ == text@,
            out@ == start + chars@.take(i as int),
        decreases chars.len() - i,
    {
        out.push(chars[i]);
        i += 1;
        assert(out@ =~= start + chars@.take(i as int));
    }
    assert(chars@.take(chars.len() as int) =~= chars@);
}

} // verus!
