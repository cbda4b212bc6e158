//! How display columns and byte columns of a source line correspond:
//! `display_column_to_byte` and `source_display_width` walk the same
//! grapheme clusters, one summing byte lengths, the other display widths.

use vstd::prelude::*;
use vstd::utf8::encode_utf8;

use crate::app::{byte_at_display_column, grapheme_display_width};
use crate::diff::width_before_byte;
use crate::unicode::{byte_len, concat, lemma_encode_utf8_concat};

verus! {

/// The display width of the first `count` graphemes.
pub open spec fn prefix_width(graphemes: Seq<Seq<char>>, count: int) -> int
    decreases count,
{
    if count <= 0 || graphemes.len() == 0 {
        0
    } else {
        grapheme_display_width(graphemes[0]) + prefix_width(graphemes.drop_first(), count - 1)
    }
}

/// The byte offset where grapheme `index` of `graphemes` starts, or the end
/// of their text for `index == graphemes.len()`.
pub open spec fn grapheme_start(graphemes: Seq<Seq<char>>, index: int) -> int {
    byte_len(concat(graphemes.take(index))) as int
}

/// Whether no grapheme is empty, as the clusters of a text never are.
pub open spec fn nonempty_graphemes(graphemes: Seq<Seq<char>>) -> bool {
    forall|i: int| 0 <= i < graphemes.len() ==> (#[trigger] graphemes[i]).len() > 0
}

pub proof fn lemma_byte_len_positive(text: Seq<char>)
    requires
        text.len() > 0,
    ensures
        byte_len(text) > 0,
{
    assert(text =~= seq![text[0]] + text.drop_first());
    lemma_encode_utf8_concat(seq![text[0]], text.drop_first());
    assert(seq![text[0]].drop_first() =~= Seq::<char>::empty());
    assert(encode_utf8(Seq::<char>::empty()) =~= Seq::<u8>::empty());
}

proof fn lemma_grapheme_width_nonnegative(grapheme: Seq<char>)
    ensures
        grapheme_display_width(grapheme) >= 0,
{
}

proof fn lemma_prefix_width_nonnegative(graphemes: Seq<Seq<char>>, count: int)
    ensures
        prefix_width(graphemes, count) >= 0,
    decreases count,
{
    if count > 0 && graphemes.len() > 0 {
        lemma_grapheme_width_nonnegative(graphemes[0]);
        lemma_prefix_width_nonnegative(graphemes.drop_first(), count - 1);
    }
}

/// The start of grapheme `index + 1` is the first grapheme's bytes past the
/// start of grapheme `index` of the rest.
proof fn lemma_grapheme_start_step(graphemes: Seq<Seq<char>>, index: int)
    requires
        graphemes.len() > 0,
        0 <= index < graphemes.len(),
    ensures
        grapheme_start(graphemes, index + 1) == byte_len(graphemes[0]) + grapheme_start(
            graphemes.drop_first(),
            index,
        ),
{
    let taken = graphemes.take(index + 1);
    assert(taken.drop_first() =~= graphemes.drop_first().take(index));
    assert(taken[0] == graphemes[0]);
    assert(concat(taken) == graphemes[0] + concat(graphemes.drop_first().take(index)));
    lemma_encode_utf8_concat(graphemes[0], concat(graphemes.drop_first().take(index)));
}

proof fn lemma_grapheme_start_zero(graphemes: Seq<Seq<char>>)
    ensures
        grapheme_start(graphemes, 0) == 0,
{
    assert(graphemes.take(0) =~= Seq::<Seq<char>>::empty());
    assert(encode_utf8(Seq::<char>::empty()) =~= Seq::<u8>::empty());
}

/// Where the walk of `byte_at_display_column` stops: at the start of a
/// grapheme, or the end, whose leading graphemes fit in the column, while
/// the grapheme there does not.
proof fn lemma_byte_at_stops_at_a_grapheme(graphemes: Seq<Seq<char>>, column: int) -> (index: int)
    requires
        column >= 0,
    ensures
        0 <= index <= graphemes.len(),
        byte_at_display_column(graphemes, column) == grapheme_start(graphemes, index),
        prefix_width(graphemes, index) <= column,
        index < graphemes.len() ==> prefix_width(graphemes, index) + grapheme_display_width(
            graphemes[index],
        ) > column,
    decreases graphemes.len(),
{
    lemma_grapheme_start_zero(graphemes);
    if graphemes.len() == 0 {
        0
    } else {
        let width = grapheme_display_width(graphemes[0]);
        if width > column {
            0
        } else {
            let rest = graphemes.drop_first();
            let k = lemma_byte_at_stops_at_a_grapheme(rest, column - width);
            lemma_grapheme_start_step(graphemes, k);
            if k < rest.len() {
                assert(rest[k] == graphemes[k + 1]);
            }
            k + 1
        }
    }
}

/// Where `width_before_byte` lands at the start of grapheme `index`: the
/// width of the graphemes before it.
proof fn lemma_width_at_grapheme_start(graphemes: Seq<Seq<char>>, index: int)
    requires
        nonempty_graphemes(graphemes),
        0 <= index <= graphemes.len(),
    ensures
        width_before_byte(graphemes, grapheme_start(graphemes, index)) == prefix_width(
            graphemes,
            index,
        ),
    decreases index,
{
    lemma_grapheme_start_zero(graphemes);
    if graphemes.len() > 0 {
        lemma_byte_len_positive(graphemes[0]);
    }
    if index > 0 {
        let rest = graphemes.drop_first();
        assert(nonempty_graphemes(rest)) by {
            assert forall|i: int| 0 <= i < rest.len() implies (#[trigger] rest[i]).len() > 0 by {
                assert(rest[i] == graphemes[i + 1]);
            }
        }
        lemma_grapheme_start_step(graphemes, index - 1);
        lemma_width_at_grapheme_start(rest, index - 1);
    }
}

proof fn lemma_byte_at_monotone(graphemes: Seq<Seq<char>>, column: int, later: int)
    requires
        0 <= column <= later,
    ensures
        byte_at_display_column(graphemes, column) <= byte_at_display_column(graphemes, later),
    decreases graphemes.len(),
{
    if graphemes.len() > 0 {
        let width = grapheme_display_width(graphemes[0]);
        if width <= column {
            lemma_byte_at_monotone(graphemes.drop_first(), column - width, later - width);
        } else if width <= later {
            let k = lemma_byte_at_stops_at_a_grapheme(graphemes, later);
        }
    }
}

proof fn lemma_grapheme_start_within(graphemes: Seq<Seq<char>>, index: int)
    requires
        0 <= index <= graphemes.len(),
    ensures
        grapheme_start(graphemes, index) <= grapheme_start(graphemes, graphemes.len() as int),
    decreases index,
{
    lemma_grapheme_start_zero(graphemes);
    if index > 0 {
        lemma_grapheme_start_step(graphemes, index - 1);
        lemma_grapheme_start_step(graphemes, graphemes.len() - 1);
        lemma_grapheme_start_within(graphemes.drop_first(), index - 1);
    }
}

/// The byte that `display_column_to_byte` gives for a display column is
/// the start of a grapheme of the line, or its end; the graphemes before
/// it fit within the column (their width, as `source_display_width`
/// measures it, is at most the column) while the grapheme that starts
/// there does not; and a later column never gives an earlier byte.
pub proof fn law_column_byte_is_a_grapheme_start(graphemes: Seq<Seq<char>>, column: int, later: int)
    requires
        nonempty_graphemes(graphemes),
        0 <= column <= later,
    ensures
        exists|index: int|
            0 <= index <= graphemes.len() && byte_at_display_column(graphemes, column)
                == #[trigger] grapheme_start(graphemes, index) && prefix_width(graphemes, index)
                <= column && (index < graphemes.len() ==> prefix_width(graphemes, index)
                + grapheme_display_width(graphemes[index]) > column),
        byte_at_display_column(graphemes, column) <= byte_len(concat(graphemes)),
        width_before_byte(graphemes, byte_at_display_column(graphemes, column)) <= column,
        byte_at_display_column(graphemes, column) <= byte_at_display_column(graphemes, later),
{
    let index = lemma_byte_at_stops_at_a_grapheme(graphemes, column);
    lemma_width_at_grapheme_start(graphemes, index);
    lemma_grapheme_start_within(graphemes, index);
    assert(graphemes.take(graphemes.len() as int) =~= graphemes);
    lemma_byte_at_monotone(graphemes, column, later);
}

/// `display_column_to_byte` undoes `source_display_width` at the end of a
/// line and at the start of each grapheme that takes up columns: the
/// display column of such a byte leads back to it.
pub proof fn law_column_of_a_grapheme_start_leads_back(graphemes: Seq<Seq<char>>, index: int)
    requires
        nonempty_graphemes(graphemes),
        0 <= index <= graphemes.len(),
        index < graphemes.len() ==> grapheme_display_width(graphemes[index]) > 0,
    ensures
        byte_at_display_column(
            graphemes,
            width_before_byte(graphemes, grapheme_start(graphemes, index)),
        ) == grapheme_start(graphemes, index),
    decreases index,
{
    lemma_width_at_grapheme_start(graphemes, index);
    lemma_grapheme_start_zero(graphemes);
    if index > 0 {
        let rest = graphemes.drop_first();
        assert(nonempty_graphemes(rest)) by {
            assert forall|i: int| 0 <= i < rest.len() implies (#[trigger] rest[i]).len() > 0 by {
                assert(rest[i] == graphemes[i + 1]);
            }
        }
        if index - 1 < rest.len() {
            assert(rest[index - 1] == graphemes[index]);
        }
        law_column_of_a_grapheme_start_leads_back(rest, index - 1);
        lemma_width_at_grapheme_start(rest, index - 1);
        lemma_prefix_width_nonnegative(rest, index - 1);
        lemma_grapheme_width_nonnegative(graphemes[0]);
        lemma_grapheme_start_step(graphemes, index - 1);
    }
}

} // verus!
