//! Grapheme clusters and display widths, from `unicode-segmentation` and
//! `unicode-width`.

use unicode_segmentation::UnicodeSegmentation;
use unicode_width::UnicodeWidthStr;
use vstd::prelude::*;
use vstd::utf8::encode_utf8;

verus! {

/// The extended grapheme clusters of `text` (UAX #29), in order.
pub uninterp spec fn extended_graphemes(text: Seq<char>) -> Seq<Seq<char>>;

/// The display width of `text` in terminal columns (UAX #11).
pub uninterp spec fn str_width(text: Seq<char>) -> usize;

/// The characters of `parts`, one after another.
pub open spec fn concat(parts: Seq<Seq<char>>) -> Seq<char>
    decreases parts.len(),
{
    if parts.len() == 0 {
        seq![]
    } else {
        parts[0] + concat(parts.drop_first())
    }
}

/// Byte length of the UTF-8 encoding of `text`.
pub open spec fn byte_len(text: Seq<char>) -> nat {
    encode_utf8(text).len()
}

/// Calls `UnicodeSegmentation::grapheme_indices(text, true)`, whose items
/// are the extended grapheme clusters of `text` with their byte offsets.
/// The crate's iterator slices `text` between consecutive cluster
/// boundaries from the start to the end of `text`, so the clusters are
/// non-empty, follow each other without gaps, and each offset is the byte
/// length of the clusters before it. Which boundaries UAX #29 selects is
/// left to `extended_graphemes`.
#[verifier::external_body]
pub(crate) fn grapheme_indices(text: &str) -> (graphemes: Vec<(usize, String)>)
    ensures
        graphemes@.len() == extended_graphemes(text@).len(),
        forall|k: int|
            0 <= k < graphemes@.len() ==> #[trigger] graphemes@[k].1@ == extended_graphemes(
                text@,
            )[k],
        concat(graphemes@.map_values(|g: (usize, String)| g.1@)) == text@,
        forall|k: int| 0 <= k < graphemes@.len() ==> (#[trigger] graphemes@[k]).1@.len() > 0,
        forall|k: int|
            0 <= k < graphemes@.len() ==> (#[trigger] graphemes@[k]).0 as nat == byte_len(
                concat(graphemes@.map_values(|g: (usize, String)| g.1@).take(k)),
            ),
{
    text.grapheme_indices(true).map(|(offset, grapheme)| (offset, grapheme.to_owned())).collect()
}

/// Calls `UnicodeWidthStr::width(text)`: the number of terminal columns
/// that `text` occupies. The width rules of UAX #11 and the crate's
/// ligature rules are left to `str_width`.
#[verifier::external_body]
pub(crate) fn display_width(text: &str) -> (width: usize)
    ensures
        width == str_width(text@),
{
    UnicodeWidthStr::width(text)
}

/// Whether `c` has the Unicode `Uppercase` property.
pub uninterp spec fn char_is_uppercase(c: char) -> bool;

/// The Unicode lowercase mapping of `text`.
pub uninterp spec fn lowercase(text: Seq<char>) -> Seq<char>;

/// Whether `c` is alphabetic or numeric in Unicode.
pub uninterp spec fn char_is_alphanumeric(c: char) -> bool;

/// Calls `char::is_uppercase`, which reports the Unicode `Uppercase`
/// property of `c`; the property table is left to `char_is_uppercase`.
#[verifier::external_body]
pub(crate) fn is_uppercase(c: char) -> (uppercase: bool)
    ensures
        uppercase == char_is_uppercase(c),
{
    c.is_uppercase()
}

/// Calls `str::to_lowercase`, which maps `text` by the Unicode lowercase
/// mapping; the mapping is left to `lowercase`.
#[verifier::external_body]
pub(crate) fn to_lowercase(text: &str) -> (lower: String)
    ensures
        lower@ == lowercase(text@),
{
    text.to_lowercase()
}

/// Calls `char::is_alphanumeric`, which reports whether `c` is alphabetic
/// or numeric in Unicode; the property tables are left to
/// `char_is_alphanumeric`.
#[verifier::external_body]
pub(crate) fn is_alphanumeric(c: char) -> (alphanumeric: bool)
    ensures
        alphanumeric == char_is_alphanumeric(c),
{
    c.is_alphanumeric()
}

// ---------------------------------------------------------------------------
// Lemmas on encodings and concatenation
// ---------------------------------------------------------------------------

pub proof fn lemma_encode_utf8_concat(left: Seq<char>, right: Seq<char>)
    ensures
        encode_utf8(left + right) == encode_utf8(left) + encode_utf8(right),
    decreases left.len(),
{
    if left.len() == 0 {
        assert(left + right =~= right);
        assert(encode_utf8(left) =~= Seq::<u8>::empty());
        assert(encode_utf8(left) + encode_utf8(right) =~= encode_utf8(right));
    } else {
        assert((left + right).drop_first() =~= left.drop_first() + right);
        assert((left + right)[0] == left[0]);
        lemma_encode_utf8_concat(left.drop_first(), right);
        assert(encode_utf8(left + right) =~= encode_utf8(left) + encode_utf8(right));
    }
}

pub proof fn lemma_concat_push(parts: Seq<Seq<char>>, part: Seq<char>)
    ensures
        concat(parts.push(part)) == concat(parts) + part,
    decreases parts.len(),
{
    if parts.len() == 0 {
        assert(parts.push(part).drop_first() =~= Seq::<Seq<char>>::empty());
        assert(parts.push(part)[0] == part);
        assert(concat(Seq::<Seq<char>>::empty()) =~= Seq::<char>::empty());
        assert(part + Seq::<char>::empty() =~= part);
        assert(concat(parts.push(part)) =~= part);
        assert(concat(parts) + part =~= part);
    } else {
        assert(parts.push(part).drop_first() =~= parts.drop_first().push(part));
        lemma_concat_push(parts.drop_first(), part);
        assert(concat(parts.push(part)) =~= concat(parts) + part);
    }
}

} // verus!
