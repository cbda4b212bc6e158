//! Soft wrapping of rendered diff rows and the rows of the diff viewport.

use vstd::prelude::*;

use crate::diff::{min, source_display_width, width_before_byte};
use crate::guide_layout::{GuideRowLayout, PlacedGuide};
use crate::presentation::{position_of, DiffPresentation};
use crate::text::{chars_equal, chars_of};
use crate::unicode::extended_graphemes;
use crate::unicode::{display_width, str_width};

verus! {

/// One grapheme of a rendered row, as wrapping reads it.
#[derive(Clone, Copy, Debug, PartialEq, Eq, Structural)]
pub struct WrapGrapheme {
    /// Terminal columns the grapheme occupies.
    pub display_width: usize,
    /// Whether the grapheme is a space or a tab.
    pub is_whitespace: bool,
    /// Whether the grapheme is the change marker `▌`.
    pub is_marker: bool,
}

/// The total display width of `graphemes[from..to]`.
pub open spec fn width_sum(graphemes: Seq<WrapGrapheme>, from: int, to: int) -> nat
    decreases to - from,
{
    if to <= from {
        0
    } else {
        (width_sum(graphemes, from, to - 1) + graphemes[to - 1].display_width) as nat
    }
}

/// Extends a row that ends before grapheme `end` while the next grapheme
/// still fits into `available` columns.
pub open spec fn fitting_end(graphemes: Seq<WrapGrapheme>, start: int, available: int, end: int) -> int
    decreases graphemes.len() - end,
{
    if end < graphemes.len() && width_sum(graphemes, start, end + 1) <= available {
        fitting_end(graphemes, start, available, end + 1)
    } else {
        end
    }
}

/// Where a row that starts at grapheme `start` ends without regard to
/// words: the first grapheme always goes in, then as many as fit.
pub open spec fn hard_wrap_end(graphemes: Seq<WrapGrapheme>, start: int, available: int) -> int {
    if start < graphemes.len() {
        fitting_end(graphemes, start, available, start + 1)
    } else {
        start
    }
}

/// Whether grapheme `index` of a row is past the continuation indent: the
/// columns already consumed by earlier rows plus those of the row before
/// it reach `indent`.
pub open spec fn past_indent(
    graphemes: Seq<WrapGrapheme>,
    start: int,
    consumed: int,
    indent: int,
    index: int,
) -> bool {
    consumed + width_sum(graphemes, start, index) >= indent
}

/// Whether the row may break after grapheme `index`: a whitespace past the
/// indent that follows a non-whitespace grapheme past the indent in the
/// same row.
pub open spec fn breaks_after(
    graphemes: Seq<WrapGrapheme>,
    start: int,
    consumed: int,
    indent: int,
    index: int,
) -> bool {
    &&& graphemes[index].is_whitespace
    &&& past_indent(graphemes, start, consumed, indent, index)
    &&& exists|k: int|
        start <= k < index && !(#[trigger] graphemes[k]).is_whitespace && past_indent(
            graphemes,
            start,
            consumed,
            indent,
            k,
        )
}

/// The last grapheme in `start..hi` after which the row may break.
pub open spec fn last_break(
    graphemes: Seq<WrapGrapheme>,
    start: int,
    consumed: int,
    indent: int,
    hi: int,
) -> Option<int>
    decreases hi - start,
{
    if hi <= start {
        None
    } else if breaks_after(graphemes, start, consumed, indent, hi - 1) {
        Some(hi - 1)
    } else {
        last_break(graphemes, start, consumed, indent, hi - 1)
    }
}

/// Where a row that starts at grapheme `start` ends: where the columns run
/// out, moved back to just after the last whitespace between words when
/// the row does not reach the end.
pub open spec fn wrap_end(
    graphemes: Seq<WrapGrapheme>,
    start: int,
    available: int,
    consumed: int,
    indent: int,
) -> int {
    let hard = hard_wrap_end(graphemes, start, available);
    if hard < graphemes.len() {
        match last_break(graphemes, start, consumed, indent, hard) {
            Some(index) => index + 1,
            None => hard,
        }
    } else {
        hard
    }
}

proof fn lemma_width_sum_step(graphemes: Seq<WrapGrapheme>, from: int, to: int)
    requires
        from <= to,
    ensures
        width_sum(graphemes, from, to + 1) == width_sum(graphemes, from, to) + graphemes[to].display_width,
{
}

proof fn lemma_width_sum_monotone(graphemes: Seq<WrapGrapheme>, from: int, mid: int, to: int)
    requires
        from <= mid <= to,
    ensures
        width_sum(graphemes, from, mid) <= width_sum(graphemes, from, to),
    decreases to - mid,
{
    if mid < to {
        lemma_width_sum_monotone(graphemes, from, mid, to - 1);
    }
}

proof fn lemma_width_sum_split(graphemes: Seq<WrapGrapheme>, from: int, mid: int, to: int)
    requires
        from <= mid <= to,
    ensures
        width_sum(graphemes, from, to) == width_sum(graphemes, from, mid) + width_sum(graphemes, mid, to),
    decreases to - mid,
{
    if mid < to {
        lemma_width_sum_split(graphemes, from, mid, to - 1);
    }
}

proof fn lemma_last_break_bounds(
    graphemes: Seq<WrapGrapheme>,
    start: int,
    consumed: int,
    indent: int,
    hi: int,
)
    ensures
        last_break(graphemes, start, consumed, indent, hi) matches Some(index) ==> start <= index
            < hi && breaks_after(graphemes, start, consumed, indent, index),
    decreases hi - start,
{
    if hi > start {
        lemma_last_break_bounds(graphemes, start, consumed, indent, hi - 1);
    }
}

proof fn lemma_fitting_end_bounds(graphemes: Seq<WrapGrapheme>, start: int, available: int, end: int)
    requires
        end <= graphemes.len(),
    ensures
        end <= fitting_end(graphemes, start, available, end) <= graphemes.len(),
    decreases graphemes.len() - end,
{
    if end < graphemes.len() && width_sum(graphemes, start, end + 1) <= available {
        lemma_fitting_end_bounds(graphemes, start, available, end + 1);
    }
}

/// Where a row that starts at grapheme `start` ends, and its width: as many
/// graphemes as fit into `available` columns (at least one), broken after
/// the last whitespace between words unless the row reaches the end.
/// `consumed` columns went to earlier rows; graphemes before the
/// continuation indent never count as words.
pub fn find_wrap_end(
    graphemes: &[WrapGrapheme],
    start: usize,
    available_width: usize,
    consumed_width: usize,
    continuation_indent: usize,
) -> (wrapped: (usize, usize))
    requires
        start < graphemes@.len(),
        consumed_width + width_sum(graphemes@, start as int, graphemes@.len() as int) <= usize::MAX,
    ensures
        wrapped.0 == wrap_end(
            graphemes@,
            start as int,
            available_width as int,
            consumed_width as int,
            continuation_indent as int,
        ),
        wrapped.1 == width_sum(graphemes@, start as int, wrapped.0 as int),
        start < wrapped.0 <= graphemes@.len(),
{
    let ghost gs = graphemes@;
    let ghost hard = hard_wrap_end(gs, start as int, available_width as int);
    proof {
        lemma_fitting_end_bounds(gs, start as int, available_width as int, start + 1);
    }
    let mut end = start;
    let mut content_width: usize = 0;
    let mut last_word_boundary: Option<usize> = None;
    let mut saw_non_whitespace = false;
    while end < graphemes.len()
        invariant_except_break
            start <= end <= gs.len(),
            start < gs.len(),
            gs == graphemes@,
            end > start ==> hard == fitting_end(gs, start as int, available_width as int, end as int),
            content_width == width_sum(gs, start as int, end as int),
            consumed_width + width_sum(gs, start as int, gs.len() as int) <= usize::MAX,
            hard == hard_wrap_end(gs, start as int, available_width as int),
            match last_word_boundary {
                Some(boundary) => last_break(
                    gs,
                    start as int,
                    consumed_width as int,
                    continuation_indent as int,
                    end as int,
                ) == Some(boundary - 1),
                None => last_break(
                    gs,
                    start as int,
                    consumed_width as int,
                    continuation_indent as int,
                    end as int,
                ) is None,
            },
            saw_non_whitespace == exists|k: int|
                start <= k < end && !(#[trigger] gs[k]).is_whitespace && past_indent(
                    gs,
                    start as int,
                    consumed_width as int,
                    continuation_indent as int,
                    k,
                ),
        ensures
            start < end <= gs.len(),
            end == hard,
            content_width == width_sum(gs, start as int, end as int),
            match last_word_boundary {
                Some(boundary) => last_break(
                    gs,
                    start as int,
                    consumed_width as int,
                    continuation_indent as int,
                    end as int,
                ) == Some(boundary - 1),
                None => last_break(
                    gs,
                    start as int,
                    consumed_width as int,
                    continuation_indent as int,
                    end as int,
                ) is None,
            },
        decreases gs.len() - end,
    {
        let grapheme = graphemes[end];
        proof {
            lemma_width_sum_step(gs, start as int, end as int);
            lemma_width_sum_monotone(gs, start as int, end + 1, gs.len() as int);
        }
        if end > start && content_width.saturating_add(grapheme.display_width) > available_width {
            break;
        }
        let grapheme_source_start = consumed_width.saturating_add(content_width);
        let ghost was_start = end == start;
        content_width = content_width + grapheme.display_width;
        end += 1;
        proof {
            if !was_start {
                assert(fitting_end(gs, start as int, available_width as int, (end - 1) as int)
                    == fitting_end(gs, start as int, available_width as int, end as int));
            }
        }
        if grapheme_source_start >= continuation_indent {
            if grapheme.is_whitespace && saw_non_whitespace {
                last_word_boundary = Some(end);
            } else if !grapheme.is_whitespace {
                saw_non_whitespace = true;
            }
        }
        proof {
            let j = (end - 1) as int;
            assert(past_indent(gs, start as int, consumed_width as int, continuation_indent as int, j)
                == (grapheme_source_start >= continuation_indent));
            if breaks_after(gs, start as int, consumed_width as int, continuation_indent as int, j) {
                let k = choose|k: int|
                    start <= k < j && !(#[trigger] gs[k]).is_whitespace && past_indent(
                        gs,
                        start as int,
                        consumed_width as int,
                        continuation_indent as int,
                        k,
                    );
                assert(start <= k < j);
            }
            assert(saw_non_whitespace == exists|k: int|
                start <= k < end && !(#[trigger] gs[k]).is_whitespace && past_indent(
                    gs,
                    start as int,
                    consumed_width as int,
                    continuation_indent as int,
                    k,
                )) by {
                if !gs[j].is_whitespace && past_indent(
                    gs,
                    start as int,
                    consumed_width as int,
                    continuation_indent as int,
                    j,
                ) {
                    assert(start <= j < end);
                }
            }
        }
    }
    if end < graphemes.len() {
        if let Some(word_boundary) = last_word_boundary {
            proof {
                lemma_last_break_bounds(
                    gs,
                    start as int,
                    consumed_width as int,
                    continuation_indent as int,
                    end as int,
                );
            }
            let mut width: usize = 0;
            let mut i = start;
            while i < word_boundary
                invariant
                    start <= i <= word_boundary <= end <= gs.len(),
                    gs == graphemes@,
                    width == width_sum(gs, start as int, i as int),
                    width_sum(gs, start as int, end as int) <= usize::MAX,
                decreases word_boundary - i,
            {
                proof {
                    lemma_width_sum_step(gs, start as int, i as int);
                    lemma_width_sum_monotone(gs, start as int, i + 1, end as int);
                }
                width = width + graphemes[i].display_width;
                i += 1;
            }
            return (word_boundary, width);
        }
    }
    (end, content_width)
}

/// One row of a wrapped line: graphemes `start..end`, after a prefix of
/// `visible_indent` columns on continuation rows. The prefix repeats the
/// change marker when the line starts with one, then `blank_width` blank
/// columns. `source_display_offset` is the display column of the source
/// text where the row starts.
#[derive(Clone, Copy, Debug, PartialEq, Eq, Structural)]
pub struct WrapSegment {
    pub start: usize,
    pub end: usize,
    pub visible_indent: usize,
    pub marker: bool,
    pub blank_width: usize,
    pub source_display_offset: usize,
}

pub open spec fn saturating_sub(a: int, b: int) -> int {
    if a >= b {
        a - b
    } else {
        0
    }
}

pub open spec fn min_int(a: int, b: int) -> int {
    if a <= b {
        a
    } else {
        b
    }
}

/// The prefix of a continuation row: the change marker when the line
/// starts with one, then blank columns up to `visible_indent`.
pub open spec fn prefix_of(graphemes: Seq<WrapGrapheme>, visible_indent: int) -> (bool, int) {
    if visible_indent == 0 {
        (false, 0)
    } else {
        let marker = graphemes.len() > 0 && graphemes[0].is_marker;
        (marker, saturating_sub(visible_indent, if marker {
            1
        } else {
            0
        }))
    }
}

/// The rows of a line from grapheme `start` on, `consumed` columns having
/// gone to the rows before; the first row has no indent, continuation rows
/// are indented by `indent` columns as far as their first grapheme still
/// fits.
pub open spec fn segments_from(
    graphemes: Seq<WrapGrapheme>,
    width: int,
    indent: int,
    start: int,
    consumed: int,
    first: bool,
) -> Seq<WrapSegment>
    decreases graphemes.len() - start,
{
    if start < 0 || start >= graphemes.len() {
        seq![]
    } else {
        let visible = if first {
            0
        } else {
            min_int(indent, saturating_sub(width, graphemes[start].display_width as int))
        };
        let end = wrap_end(graphemes, start, saturating_sub(width, visible), consumed, indent);
        let (marker, blank) = prefix_of(graphemes, visible);
        let segment = WrapSegment {
            start: start as usize,
            end: end as usize,
            visible_indent: visible as usize,
            marker,
            blank_width: blank as usize,
            source_display_offset: saturating_sub(consumed, indent) as usize,
        };
        if end <= start || end > graphemes.len() {
            seq![segment]
        } else {
            seq![segment] + segments_from(
                graphemes,
                width,
                indent,
                end,
                consumed + width_sum(graphemes, start, end),
                false,
            )
        }
    }
}

/// The rows of a line wrapped to `width` columns (at least one) with
/// continuation rows indented by `continuation_indent`; an empty line is
/// one empty row.
pub open spec fn wrapped_segments(graphemes: Seq<WrapGrapheme>, width: u16, indent: usize) -> Seq<
    WrapSegment,
> {
    if graphemes.len() == 0 {
        seq![
            WrapSegment {
                start: 0,
                end: 0,
                visible_indent: 0,
                marker: false,
                blank_width: 0,
                source_display_offset: 0,
            },
        ]
    } else {
        segments_from(graphemes, if width >= 1 {
            width as int
        } else {
            1
        }, indent as int, 0, 0, true)
    }
}

proof fn lemma_fitting_end_fits(graphemes: Seq<WrapGrapheme>, start: int, available: int, end: int)
    requires
        start < end <= graphemes.len(),
        width_sum(graphemes, start, end) <= available || end == start + 1,
    ensures
        width_sum(graphemes, start, fitting_end(graphemes, start, available, end)) <= available
            || fitting_end(graphemes, start, available, end) == start + 1,
    decreases graphemes.len() - end,
{
    if end < graphemes.len() && width_sum(graphemes, start, end + 1) <= available {
        lemma_fitting_end_fits(graphemes, start, available, end + 1);
    }
}

proof fn lemma_wrap_end_bounds(
    graphemes: Seq<WrapGrapheme>,
    start: int,
    available: int,
    consumed: int,
    indent: int,
)
    requires
        0 <= start < graphemes.len(),
    ensures
        start < wrap_end(graphemes, start, available, consumed, indent) <= graphemes.len(),
        width_sum(graphemes, start, wrap_end(graphemes, start, available, consumed, indent))
            <= available || wrap_end(graphemes, start, available, consumed, indent) == start + 1,
{
    lemma_fitting_end_bounds(graphemes, start, available, start + 1);
    lemma_fitting_end_fits(graphemes, start, available, start + 1);
    let hard = hard_wrap_end(graphemes, start, available);
    if hard < graphemes.len() {
        lemma_last_break_bounds(graphemes, start, consumed, indent, hard);
        if let Some(index) = last_break(graphemes, start, consumed, indent, hard) {
            lemma_width_sum_monotone(graphemes, start, index + 1, hard);
        }
    }
}

/// Whether `segments` cover graphemes `from..to` one after another, each
/// with at least one grapheme.
pub open spec fn tiles(segments: Seq<WrapSegment>, from: int, to: int) -> bool {
    &&& segments.len() > 0
    &&& segments[0].start == from
    &&& segments.last().end == to
    &&& forall|k: int| 0 <= k < segments.len() ==> (#[trigger] segments[k]).start < segments[k].end
    &&& forall|k: int|
        0 <= k < segments.len() - 1 ==> (#[trigger] segments[k]).end == segments[k + 1].start
}

/// Whether every segment fits into `width` columns with its indent, or
/// holds a single grapheme.
pub open spec fn rows_fit(graphemes: Seq<WrapGrapheme>, segments: Seq<WrapSegment>, width: int) -> bool {
    forall|k: int|
        0 <= k < segments.len() ==> width_sum(
            graphemes,
            (#[trigger] segments[k]).start as int,
            segments[k].end as int,
        ) + segments[k].visible_indent <= width || segments[k].end == segments[k].start + 1
}

#[verifier::rlimit(40)]
proof fn lemma_segments_from_tile(
    graphemes: Seq<WrapGrapheme>,
    width: int,
    indent: int,
    start: int,
    consumed: int,
    first: bool,
)
    requires
        0 <= start < graphemes.len() <= usize::MAX,
        width >= 1,
        indent >= 0,
        0 <= consumed,
    ensures
        tiles(segments_from(graphemes, width, indent, start, consumed, first), start, graphemes.len() as int),
        rows_fit(graphemes, segments_from(graphemes, width, indent, start, consumed, first), width),
    decreases graphemes.len() - start,
{
    let visible = if first {
        0
    } else {
        min_int(indent, saturating_sub(width, graphemes[start].display_width as int))
    };
    let available = saturating_sub(width, visible);
    let end = wrap_end(graphemes, start, available, consumed, indent);
    lemma_wrap_end_bounds(graphemes, start, available, consumed, indent);
    let segments = segments_from(graphemes, width, indent, start, consumed, first);
    let head = segments[0];
    assert(head.start == start && head.end == end);
    assert(visible <= width);
    if end < graphemes.len() {
        let rest = segments_from(
            graphemes,
            width,
            indent,
            end,
            consumed + width_sum(graphemes, start, end),
            false,
        );
        lemma_segments_from_tile(
            graphemes,
            width,
            indent,
            end,
            consumed + width_sum(graphemes, start, end),
            false,
        );
        assert(segments == seq![head] + rest);
        assert forall|k: int| 0 <= k < segments.len() implies (#[trigger] segments[k]).start
            < segments[k].end by {
            if k > 0 {
                assert(segments[k] == rest[k - 1]);
            }
        }
        assert forall|k: int| 0 <= k < segments.len() - 1 implies (#[trigger] segments[k]).end
            == segments[k + 1].start by {
            if k > 0 {
                assert(segments[k] == rest[k - 1]);
            }
            assert(segments[k + 1] == rest[k]);
        }
        assert forall|k: int| 0 <= k < segments.len() implies width_sum(
            graphemes,
            (#[trigger] segments[k]).start as int,
            segments[k].end as int,
        ) + segments[k].visible_indent <= width || segments[k].end == segments[k].start + 1 by {
            if k > 0 {
                assert(segments[k] == rest[k - 1]);
            }
        }
        assert(segments.last() == rest.last());
    } else {
        let rest = segments_from(
            graphemes,
            width,
            indent,
            end,
            consumed + width_sum(graphemes, start, end),
            false,
        );
        assert(rest =~= Seq::<WrapSegment>::empty());
        assert(segments =~= seq![head]);
    }
}

/// Wrapping a line loses and repeats nothing: its rows take the graphemes
/// one after another, from the first to the last, each row at least one,
/// and each row fits into the width with its indent unless it holds a
/// single grapheme wider than that.
pub proof fn law_wrapped_rows_cover_the_line(graphemes: Seq<WrapGrapheme>, width: u16, indent: usize)
    requires
        0 < graphemes.len() <= usize::MAX,
    ensures
        tiles(wrapped_segments(graphemes, width, indent), 0, graphemes.len() as int),
        rows_fit(
            graphemes,
            wrapped_segments(graphemes, width, indent),
            if width >= 1 {
                width as int
            } else {
                1
            },
        ),
{
    lemma_segments_from_tile(graphemes, if width >= 1 {
        width as int
    } else {
        1
    }, indent as int, 0, 0, true);
}

/// The prefix of a continuation row that starts at grapheme `start`.
pub fn continuation_prefix(graphemes: &[WrapGrapheme], start: usize, visible_indent: usize) -> (prefix: (
    bool,
    usize,
))
    ensures
        (prefix.0, prefix.1 as int) == prefix_of(graphemes@, visible_indent as int),
{
    if visible_indent == 0 {
        return (false, 0);
    }
    let marker = graphemes.len() > 0 && graphemes[0].is_marker;
    let used: usize = if marker {
        1
    } else {
        0
    };
    (marker, visible_indent.saturating_sub(used))
}

/// The rows of a line wrapped to `width` columns: each row takes as many
/// graphemes as fit, breaking after whitespace between words when it can,
/// and continuation rows are indented by `continuation_indent` columns.
pub fn wrap_segments(graphemes: &[WrapGrapheme], width: u16, continuation_indent: usize) -> (segments:
    Vec<WrapSegment>)
    requires
        width_sum(graphemes@, 0, graphemes@.len() as int) <= usize::MAX,
    ensures
        segments@ == wrapped_segments(graphemes@, width, continuation_indent),
{
    let width: usize = if width >= 1 {
        width as usize
    } else {
        1
    };
    if graphemes.len() == 0 {
        let mut segments: Vec<WrapSegment> = Vec::new();
        segments.push(
            WrapSegment {
                start: 0,
                end: 0,
                visible_indent: 0,
                marker: false,
                blank_width: 0,
                source_display_offset: 0,
            },
        );
        assert(segments@ =~= wrapped_segments(graphemes@, width as u16, continuation_indent));
        return segments;
    }
    let ghost gs = graphemes@;
    let ghost all = segments_from(gs, width as int, continuation_indent as int, 0, 0, true);
    let mut segments: Vec<WrapSegment> = Vec::new();
    let mut start: usize = 0;
    let mut consumed_width: usize = 0;
    while start < graphemes.len()
        invariant
            gs == graphemes@,
            gs.len() > 0,
            start <= gs.len(),
            consumed_width == width_sum(gs, 0, start as int),
            width_sum(gs, 0, gs.len() as int) <= usize::MAX,
            all == segments_from(gs, width as int, continuation_indent as int, 0, 0, true),
            all == segments@ + segments_from(
                gs,
                width as int,
                continuation_indent as int,
                start as int,
                consumed_width as int,
                segments@.len() == 0,
            ),
            segments@.len() == 0 <==> start == 0,
        decreases gs.len() - start,
    {
        let first_grapheme_width = graphemes[start].display_width;
        let visible_indent = if segments.len() == 0 {
            0
        } else if continuation_indent < width.saturating_sub(first_grapheme_width) {
            continuation_indent
        } else {
            width.saturating_sub(first_grapheme_width)
        };
        proof {
            lemma_width_sum_split(gs, 0, start as int, gs.len() as int);
        }
        let (end, content_width) = find_wrap_end(
            graphemes,
            start,
            width.saturating_sub(visible_indent),
            consumed_width,
            continuation_indent,
        );
        let (marker, blank_width) = continuation_prefix(graphemes, start, visible_indent);
        let source_display_offset = consumed_width.saturating_sub(continuation_indent);
        let segment = WrapSegment {
            start,
            end,
            visible_indent,
            marker,
            blank_width,
            source_display_offset,
        };
        let ghost before = segments@;
        segments.push(segment);
        proof {
            lemma_width_sum_split(gs, 0, start as int, end as int);
            lemma_width_sum_monotone(gs, 0, end as int, gs.len() as int);
            assert(segments@ + segments_from(
                gs,
                width as int,
                continuation_indent as int,
                end as int,
                consumed_width + content_width,
                false,
            ) =~= before + segments_from(
                gs,
                width as int,
                continuation_indent as int,
                start as int,
                consumed_width as int,
                before.len() == 0,
            ));
        }
        consumed_width = consumed_width + content_width;
        start = end;
    }
    proof {
        assert(segments@ + segments_from(
            gs,
            width as int,
            continuation_indent as int,
            start as int,
            consumed_width as int,
            segments@.len() == 0,
        ) =~= segments@);
    }
    segments
}

/// Whether two strings hold the same characters.
pub(crate) fn same_text(left: &str, right: &str) -> (same: bool)
    ensures
        same == (left@ == right@),
{
    let left_chars = chars_of(left);
    let right_chars = chars_of(right);
    chars_equal(&left_chars, &right_chars)
}

/// How wrapping reads one grapheme of a rendered row.
pub fn wrap_grapheme(symbol: &str) -> (grapheme: WrapGrapheme)
    ensures
        grapheme.display_width == str_width(symbol@),
        grapheme.is_whitespace == (symbol@ == " "@ || symbol@ == "\t"@),
        grapheme.is_marker == (symbol@ == "\u{258c}"@),
{
    WrapGrapheme {
        display_width: display_width(symbol),
        is_whitespace: same_text(symbol, " ") || same_text(symbol, "\t"),
        is_marker: same_text(symbol, "\u{258c}"),
    }
}

// ---------------------------------------------------------------------------
// The viewport
// ---------------------------------------------------------------------------

/// One visual row of the diff viewport: the presented row it shows and the
/// display column of the source text where it starts.
#[derive(Clone, Copy, Debug, PartialEq, Eq, Structural)]
pub struct ViewportRow {
    pub source_row: usize,
    pub source_display_offset: usize,
    /// Whether the row shows the presented row itself rather than a guide
    /// drawn around it.
    pub is_source_row: bool,
}

/// The visual rows of a wrapped diff.
pub struct DiffViewport {
    pub rows: Vec<ViewportRow>,
}

/// The display column of the cursor in the text of presented row `cursor`:
/// the width of the graphemes before byte `column`, or 0 for a row without
/// source text.
pub open spec fn cursor_display_column(diff: DiffPresentation, cursor: usize, column: usize) -> int {
    if cursor < diff.rows@.len() {
        match position_of(diff.rows_view()[cursor as int], diff.source@, diff.whole_file) {
            Some((_, text)) => min(
                width_before_byte(extended_graphemes(text), column as int),
                usize::MAX as int,
            ),
            None => 0,
        }
    } else {
        0
    }
}

/// Whether visual row `index` shows the cursor's row at or before its
/// display column.
pub open spec fn holds_cursor(row: ViewportRow, cursor: usize, display_column: int) -> bool {
    row.is_source_row && row.source_row == cursor && row.source_display_offset <= display_column
}

/// The last visual row below `hi` that holds the cursor.
pub open spec fn last_cursor_row(rows: Seq<ViewportRow>, cursor: usize, display_column: int, hi: int) -> Option<
    int,
>
    decreases hi,
{
    if hi <= 0 {
        None
    } else if holds_cursor(rows[hi - 1], cursor, display_column) {
        Some(hi - 1)
    } else {
        last_cursor_row(rows, cursor, display_column, hi - 1)
    }
}

/// The first visual row below `hi` of presented row `cursor`.
pub open spec fn first_row_of(rows: Seq<ViewportRow>, cursor: usize, hi: int) -> Option<int>
    decreases hi,
{
    if hi <= 0 {
        None
    } else {
        match first_row_of(rows, cursor, hi - 1) {
            Some(found) => Some(found),
            None => if rows[hi - 1].source_row == cursor {
                Some(hi - 1)
            } else {
                None
            },
        }
    }
}

/// The visual row of the cursor: the last row of its presented row that
/// starts at or before its display column, else the first row of its
/// presented row, else the top.
pub open spec fn cursor_row(rows: Seq<ViewportRow>, cursor: usize, display_column: int) -> int {
    match last_cursor_row(rows, cursor, display_column, rows.len() as int) {
        Some(found) => found,
        None => match first_row_of(rows, cursor, rows.len() as int) {
            Some(found) => found,
            None => 0,
        },
    }
}

/// `value + delta`, kept within `0..=usize::MAX`.
pub open spec fn saturating_add_signed(value: usize, delta: isize) -> int {
    if value + delta < 0 {
        0
    } else if value + delta > usize::MAX {
        usize::MAX as int
    } else {
        value + delta
    }
}

proof fn lemma_last_cursor_row_bounds(rows: Seq<ViewportRow>, cursor: usize, display_column: int, hi: int)
    ensures
        last_cursor_row(rows, cursor, display_column, hi) matches Some(found) ==> 0 <= found < hi,
    decreases hi,
{
    if hi > 0 {
        lemma_last_cursor_row_bounds(rows, cursor, display_column, hi - 1);
    }
}

proof fn lemma_first_row_of_bounds(rows: Seq<ViewportRow>, cursor: usize, hi: int)
    ensures
        first_row_of(rows, cursor, hi) matches Some(found) ==> 0 <= found < hi,
    decreases hi,
{
    if hi > 0 {
        lemma_first_row_of_bounds(rows, cursor, hi - 1);
    }
}

impl DiffViewport {
    /// Number of visual rows.
    pub fn len(&self) -> (count: usize)
        ensures
            count == self.rows@.len(),
    {
        self.rows.len()
    }

    /// The stored scroll offset, kept on the last row.
    pub fn scroll(&self, scroll: usize) -> (top: usize)
        ensures
            top == min(scroll as int, saturating_sub(self.rows@.len() as int, 1)),
    {
        let last = self.rows.len().saturating_sub(1);
        if scroll < last {
            scroll
        } else {
            last
        }
    }

    /// The visual row of the cursor on presented row `cursor` at byte
    /// `column` of its text.
    pub fn cursor_visual_row(&self, diff: &DiffPresentation, cursor: usize, column: usize) -> (row:
        usize)
        requires
            diff.well_formed(),
        ensures
            row == cursor_row(self.rows@, cursor, cursor_display_column(*diff, cursor, column)),
    {
        let display_column = match diff.source_position(cursor) {
            Some((_, line)) => source_display_width(line.as_str(), column),
            None => 0,
        };
        let mut last: Option<usize> = None;
        let mut first: Option<usize> = None;
        let mut i: usize = 0;
        while i < self.rows.len()
            invariant
                i <= self.rows@.len(),
                match last {
                    Some(found) => last_cursor_row(self.rows@, cursor, display_column as int, i as int)
                        == Some(found as int),
                    None => last_cursor_row(self.rows@, cursor, display_column as int, i as int) is None,
                },
                match first {
                    Some(found) => first_row_of(self.rows@, cursor, i as int) == Some(found as int),
                    None => first_row_of(self.rows@, cursor, i as int) is None,
                },
            decreases self.rows.len() - i,
        {
            let row = self.rows[i];
            if row.is_source_row && row.source_row == cursor && row.source_display_offset
                <= display_column {
                last = Some(i);
            }
            if first.is_none() && row.source_row == cursor {
                first = Some(i);
            }
            i += 1;
        }
        match last {
            Some(found) => found,
            None => match first {
                Some(found) => found,
                None => 0,
            },
        }
    }

    /// The scroll offset that keeps the cursor's visual row among the
    /// `height` rows shown.
    pub fn scroll_with_cursor_visible(
        &self,
        scroll: usize,
        diff: &DiffPresentation,
        cursor: usize,
        column: usize,
        height: usize,
    ) -> (top: usize)
        requires
            diff.well_formed(),
        ensures
            ({
                let stored = min(scroll as int, saturating_sub(self.rows@.len() as int, height as int));
                let row = cursor_row(self.rows@, cursor, cursor_display_column(*diff, cursor, column));
                top == if row < stored {
                    row
                } else if row >= stored + height {
                    row + 1 - height
                } else {
                    stored
                }
            }),
    {
        let last = self.rows.len().saturating_sub(height);
        let mut top = if scroll < last {
            scroll
        } else {
            last
        };
        let row = self.cursor_visual_row(diff, cursor, column);
        proof {
            lemma_last_cursor_row_bounds(
                self.rows@,
                cursor,
                cursor_display_column(*diff, cursor, column),
                self.rows@.len() as int,
            );
            lemma_first_row_of_bounds(self.rows@, cursor, self.rows@.len() as int);
        }
        if row < top {
            top = row;
        } else if row >= top.saturating_add(height) {
            top = row + 1 - height;
        }
        top
    }

    /// The presented row and source display column under a pointer at
    /// screen `row`, `pane_column` columns into the pane, with the view
    /// scrolled to `scroll`: the pane's content starts two rows down.
    pub fn pointer_position(&self, scroll: usize, row: u16, pane_column: usize, number_width: usize) -> (position:
        Option<(usize, Option<usize>)>)
        requires
            number_width + 3 <= usize::MAX,
        ensures
            ({
                let top = min(scroll as int, saturating_sub(self.rows@.len() as int, 1));
                let visual = min(top + saturating_sub(row as int, 2), usize::MAX as int);
                position == if visual < self.rows@.len() {
                    Some(
                        (
                            self.rows@[visual].source_row,
                            Some(
                                min(
                                    self.rows@[visual].source_display_offset + saturating_sub(
                                        pane_column as int,
                                        number_width + 3,
                                    ),
                                    usize::MAX as int,
                                ) as usize,
                            ),
                        ),
                    )
                } else {
                    None
                }
            }),
    {
        let top = self.scroll(scroll);
        let visual = top.saturating_add(row.saturating_sub(2) as usize);
        let source_row = match self.source_row_at(visual) {
            Some(source_row) => source_row,
            None => return None,
        };
        let column = self.source_column_at(visual, pane_column, number_width);
        Some((source_row, column))
    }

    /// The presented row shown on visual row `visual_row`.
    pub fn source_row_at(&self, visual_row: usize) -> (row: Option<usize>)
        ensures
            row == if visual_row < self.rows@.len() {
                Some(self.rows@[visual_row as int].source_row)
            } else {
                None
            },
    {
        if visual_row < self.rows.len() {
            Some(self.rows[visual_row].source_row)
        } else {
            None
        }
    }

    /// The source display column under column `pane_column` of visual row
    /// `visual_row`, past the marker and line number columns.
    pub fn source_column_at(&self, visual_row: usize, pane_column: usize, number_width: usize) -> (column:
        Option<usize>)
        requires
            number_width + 3 <= usize::MAX,
        ensures
            column == if visual_row < self.rows@.len() {
                Some(
                    min(
                        self.rows@[visual_row as int].source_display_offset + saturating_sub(
                            pane_column as int,
                            number_width + 3,
                        ),
                        usize::MAX as int,
                    ) as usize,
                )
            } else {
                None
            },
    {
        if visual_row >= self.rows.len() {
            return None;
        }
        let row = self.rows[visual_row];
        Some(row.source_display_offset.saturating_add(pane_column.saturating_sub(number_width + 3)))
    }

    /// The presented row and display offset `delta` visual rows from the
    /// cursor's, kept within the rows.
    pub fn source_position_after_visual_delta(
        &self,
        diff: &DiffPresentation,
        cursor: usize,
        column: usize,
        delta: isize,
    ) -> (position: Option<(usize, usize)>)
        requires
            diff.well_formed(),
        ensures
            ({
                let row = cursor_row(self.rows@, cursor, cursor_display_column(*diff, cursor, column));
                let target = min(
                    saturating_add_signed(row as usize, delta),
                    saturating_sub(self.rows@.len() as int, 1),
                );
                position == if target < self.rows@.len() {
                    Some(
                        (
                            self.rows@[target].source_row,
                            self.rows@[target].source_display_offset,
                        ),
                    )
                } else {
                    None
                }
            }),
    {
        let row = self.cursor_visual_row(diff, cursor, column);
        proof {
            lemma_last_cursor_row_bounds(
                self.rows@,
                cursor,
                cursor_display_column(*diff, cursor, column),
                self.rows@.len() as int,
            );
            lemma_first_row_of_bounds(self.rows@, cursor, self.rows@.len() as int);
        }
        let moved = if delta >= 0 {
            row.saturating_add(delta as usize)
        } else {
            let back = ((-(delta + 1)) as usize) + 1;
            row.saturating_sub(back)
        };
        let last = self.rows.len().saturating_sub(1);
        let target = if moved < last {
            moved
        } else {
            last
        };
        if target < self.rows.len() {
            let found = self.rows[target];
            Some((found.source_row, found.source_display_offset))
        } else {
            None
        }
    }
}

} // verus!

verus! {

/// A guide drawn before a presented row: its top rule, `text_rows` rows of
/// its wrapped text, and the rule that closes it, all about presented row
/// `target_row`.
#[derive(Clone, Copy, Debug, PartialEq, Eq, Structural)]
pub struct GuideBlock {
    pub target_row: usize,
    pub text_rows: usize,
}

/// What one presented row brings to the viewport: the guides that start
/// before it, the wrapped rows of its own line, and the target rows of the
/// guides that end after it.
pub struct ViewportSource {
    pub starts: Vec<GuideBlock>,
    pub segments: Vec<WrapSegment>,
    pub ends: Vec<usize>,
}

/// A visual row of a guide about presented row `target_row`.
pub open spec fn guide_row(target_row: usize) -> ViewportRow {
    ViewportRow { source_row: target_row, source_display_offset: 0, is_source_row: false }
}

/// The visual rows of a guide: its top rule, its text rows and its closing
/// rule.
pub open spec fn block_rows(block: GuideBlock) -> Seq<ViewportRow> {
    Seq::new((block.text_rows + 2) as nat, |i: int| guide_row(block.target_row))
}

/// The visual rows of the guides in `blocks`, one guide after the other.
pub open spec fn blocks_rows(blocks: Seq<GuideBlock>) -> Seq<ViewportRow>
    decreases blocks.len(),
{
    if blocks.len() == 0 {
        seq![]
    } else {
        blocks_rows(blocks.drop_last()) + block_rows(blocks.last())
    }
}

/// The visual rows of presented row `index` wrapped into `segments`: one
/// row per segment from the display column where it starts, and a single
/// row from column 0 for a line with nothing to wrap.
pub open spec fn segment_rows(index: usize, segments: Seq<WrapSegment>) -> Seq<ViewportRow> {
    if segments.len() == 0 {
        seq![ViewportRow { source_row: index, source_display_offset: 0, is_source_row: true }]
    } else {
        segments.map_values(
            |segment: WrapSegment|
                ViewportRow {
                    source_row: index,
                    source_display_offset: segment.source_display_offset,
                    is_source_row: true,
                },
        )
    }
}

/// The visual rows that presented row `index` brings: the guides that
/// start before it, its own rows, and a closing rule for each guide that
/// ends after it.
pub open spec fn presented_rows(index: usize, source: ViewportSource) -> Seq<ViewportRow> {
    blocks_rows(source.starts@) + segment_rows(index, source.segments@) + source.ends@.map_values(
        |target: usize| guide_row(target),
    )
}

/// The visual rows of every presented row, in order.
pub open spec fn viewport_of(sources: Seq<ViewportSource>) -> Seq<ViewportRow>
    decreases sources.len(),
{
    if sources.len() == 0 {
        seq![]
    } else {
        viewport_of(sources.drop_last()) + presented_rows(
            (sources.len() - 1) as usize,
            sources.last(),
        )
    }
}

/// Appends `count` rows of a guide about `target_row`.
fn push_guide_rows(rows: &mut Vec<ViewportRow>, target_row: usize, count: usize)
    ensures
        final(rows)@ == old(rows)@ + Seq::new(count as nat, |i: int| guide_row(target_row)),
{
    let mut k: usize = 0;
    while k < count
        invariant
            k <= count,
            rows@ == old(rows)@ + Seq::new(k as nat, |i: int| guide_row(target_row)),
        decreases count - k,
    {
        rows.push(ViewportRow { source_row: target_row, source_display_offset: 0, is_source_row: false });
        k += 1;
        assert(rows@ =~= old(rows)@ + Seq::new(k as nat, |i: int| guide_row(target_row)));
    }
}

/// The visual rows of a wrapped diff: for each presented row, the guides
/// that start before it, one row per wrapped segment of its line, and the
/// closing rules of the guides that end after it.
pub fn viewport_rows(sources: &Vec<ViewportSource>) -> (viewport: DiffViewport)
    requires
        forall|i: int, j: int|
            0 <= i < sources@.len() && 0 <= j < sources@[i].starts@.len() ==> #[trigger] sources@[i].starts@[j].text_rows
                <= usize::MAX - 2,
    ensures
        viewport.rows@ == viewport_of(sources@),
{
    let mut rows: Vec<ViewportRow> = Vec::new();
    let mut index: usize = 0;
    while index < sources.len()
        invariant
            index <= sources@.len(),
            rows@ == viewport_of(sources@.take(index as int)),
            forall|i: int, j: int|
                0 <= i < sources@.len() && 0 <= j < sources@[i].starts@.len() ==> #[trigger] sources@[i].starts@[j].text_rows
                    <= usize::MAX - 2,
        decreases sources.len() - index,
    {
        let source = &sources[index];
        let ghost before = rows@;
        let mut b: usize = 0;
        while b < source.starts.len()
            invariant
                b <= source.starts@.len(),
                source == sources@[index as int],
                rows@ == before + blocks_rows(source.starts@.take(b as int)),
                forall|j: int|
                    0 <= j < source.starts@.len() ==> #[trigger] source.starts@[j].text_rows <= usize::MAX
                        - 2,
            decreases source.starts.len() - b,
        {
            let block = source.starts[b];
            proof {
                assert(source.starts@.take(b + 1).drop_last() =~= source.starts@.take(b as int));
            }
            push_guide_rows(&mut rows, block.target_row, block.text_rows + 2);
            b += 1;
            assert(rows@ =~= before + blocks_rows(source.starts@.take(b as int)));
        }
        assert(source.starts@.take(b as int) =~= source.starts@);
        let ghost with_starts = rows@;
        if source.segments.len() == 0 {
            rows.push(ViewportRow { source_row: index, source_display_offset: 0, is_source_row: true });
        } else {
            let mut s: usize = 0;
            while s < source.segments.len()
                invariant
                    s <= source.segments@.len(),
                    source == sources@[index as int],
                    rows@ == with_starts + segment_rows(index, source.segments@).take(s as int),
                decreases source.segments.len() - s,
            {
                rows.push(
                    ViewportRow {
                        source_row: index,
                        source_display_offset: source.segments[s].source_display_offset,
                        is_source_row: true,
                    },
                );
                s += 1;
                assert(rows@ =~= with_starts + segment_rows(index, source.segments@).take(s as int));
            }
            assert(segment_rows(index, source.segments@).take(s as int) =~= segment_rows(
                index,
                source.segments@,
            ));
        }
        assert(rows@ =~= with_starts + segment_rows(index, source.segments@));
        let ghost with_segments = rows@;
        let mut e: usize = 0;
        while e < source.ends.len()
            invariant
                e <= source.ends@.len(),
                source == sources@[index as int],
                rows@ == with_segments + source.ends@.take(e as int).map_values(
                    |target: usize| guide_row(target),
                ),
            decreases source.ends.len() - e,
        {
            rows.push(
                ViewportRow { source_row: source.ends[e], source_display_offset: 0, is_source_row: false },
            );
            e += 1;
            assert(rows@ =~= with_segments + source.ends@.take(e as int).map_values(
                |target: usize| guide_row(target),
            ));
        }
        assert(source.ends@.take(e as int) =~= source.ends@);
        proof {
            assert(sources@.take(index + 1).drop_last() =~= sources@.take(index as int));
            assert(sources@.take(index + 1).last() == sources@[index as int]);
            assert(rows@ =~= viewport_of(sources@.take(index as int)) + presented_rows(
                index,
                sources@[index as int],
            ));
        }
        index += 1;
    }
    assert(sources@.take(sources@.len() as int) =~= sources@);
    DiffViewport { rows }
}

} // verus!

verus! {

/// Every presented row shows in the viewport: some visual row is a row of
/// its own line, not of a guide.
pub proof fn law_viewport_shows_every_presented_row(sources: Seq<ViewportSource>, index: int)
    requires
        0 <= index < sources.len() <= usize::MAX,
    ensures
        exists|k: int|
            0 <= k < viewport_of(sources).len() && (#[trigger] viewport_of(sources)[k]).is_source_row
                && viewport_of(sources)[k].source_row == index,
    decreases sources.len(),
{
    let init = sources.drop_last();
    let before = viewport_of(init);
    let own = presented_rows((sources.len() - 1) as usize, sources.last());
    let all = viewport_of(sources);
    assert(all == before + own);
    if index < sources.len() - 1 {
        assert(init[index] == sources[index]);
        law_viewport_shows_every_presented_row(init, index);
        let k = choose|k: int|
            0 <= k < before.len() && (#[trigger] before[k]).is_source_row && before[k].source_row
                == index;
        assert(all[k] == before[k]);
    } else {
        let source = sources.last();
        let starts = blocks_rows(source.starts@);
        let segments = segment_rows((sources.len() - 1) as usize, source.segments@);
        assert(segments.len() > 0);
        if source.segments@.len() > 0 {
            assert(segments[0] == ViewportRow {
                source_row: (sources.len() - 1) as usize,
                source_display_offset: source.segments@[0].source_display_offset,
                is_source_row: true,
            });
        }
        assert(segments[0].is_source_row && segments[0].source_row == index);
        let k: int = (before.len() + starts.len()) as int;
        assert(own[starts.len() as int] == segments[0]);
        assert(all[k] == own[starts.len() as int]);
    }
}

} // verus!

verus! {

/// The width a row is wrapped to: one column less inside a guide's frame.
pub open spec fn row_wrap_width(enclosed: bool, width: u16) -> u16 {
    if enclosed && width > 0 {
        (width - 1) as u16
    } else if enclosed {
        0
    } else {
        width
    }
}

/// How many rows a guide's text takes when wrapped inside its frame, with
/// continuation rows indented past the line numbers: one at least.
pub open spec fn guide_text_rows(graphemes: Seq<WrapGrapheme>, width: u16, number_width: usize) -> nat {
    let rows = wrapped_segments(graphemes, row_wrap_width(true, width), (number_width + 5) as usize).len();
    if rows == 0 {
        1
    } else {
        rows
    }
}

/// The guide block of a placed guide: about its first row, with its wrapped
/// text rows.
pub open spec fn guide_block(guide: PlacedGuide, graphemes: Seq<WrapGrapheme>, width: u16, number_width: usize) -> GuideBlock {
    GuideBlock {
        target_row: guide.first_row,
        text_rows: guide_text_rows(graphemes, width, number_width) as usize,
    }
}

/// What each presented row brings to the viewport, from the graphemes of
/// its rendered line, the guide layout of the row, the placed guides and
/// the graphemes of each guide's rendered text: the guides that start
/// above it, the row's line wrapped to the pane (one column less inside a
/// guide's frame) with continuation rows indented past the line numbers,
/// and the guides whose frame closes below it.
pub fn viewport_sources(
    row_graphemes: &Vec<Vec<WrapGrapheme>>,
    layouts: &Vec<GuideRowLayout>,
    guides: &Vec<PlacedGuide>,
    guide_graphemes: &Vec<Vec<WrapGrapheme>>,
    width: u16,
    number_width: usize,
) -> (sources: Vec<ViewportSource>)
    requires
        row_graphemes@.len() == layouts@.len(),
        guide_graphemes@.len() == guides@.len(),
        number_width + 5 <= usize::MAX,
        forall|i: int|
            0 <= i < row_graphemes@.len() ==> width_sum(
                #[trigger] row_graphemes@[i]@,
                0,
                row_graphemes@[i]@.len() as int,
            ) <= usize::MAX,
        forall|g: int|
            0 <= g < guide_graphemes@.len() ==> width_sum(
                #[trigger] guide_graphemes@[g]@,
                0,
                guide_graphemes@[g]@.len() as int,
            ) <= usize::MAX,
        forall|i: int, j: int|
            0 <= i < layouts@.len() && 0 <= j < layouts@[i].starts@.len() ==> #[trigger] layouts@[i].starts@[j]
                < guides@.len(),
        forall|i: int, j: int|
            0 <= i < layouts@.len() && 0 <= j < layouts@[i].ends@.len() ==> #[trigger] layouts@[i].ends@[j]
                < guides@.len(),
    ensures
        sources@.len() == row_graphemes@.len(),
        forall|i: int|
            0 <= i < sources@.len() ==> {
                &&& (#[trigger] sources@[i]).segments@ == wrapped_segments(
                    row_graphemes@[i]@,
                    row_wrap_width(layouts@[i].enclosing is Some, width),
                    (number_width + 3) as usize,
                )
                &&& sources@[i].starts@ == layouts@[i].starts@.map_values(
                    |g: usize| guide_block(guides@[g as int], guide_graphemes@[g as int]@, width, number_width),
                )
                &&& sources@[i].ends@ == layouts@[i].ends@.map_values(
                    |g: usize| guides@[g as int].first_row,
                )
            },
{
    let frame_width = width.saturating_sub(1);
    let mut blocks: Vec<GuideBlock> = Vec::new();
    let mut g: usize = 0;
    while g < guides.len()
        invariant
            g <= guides@.len() == guide_graphemes@.len(),
            blocks@.len() == g,
            number_width + 5 <= usize::MAX,
            frame_width == row_wrap_width(true, width),
            forall|k: int|
                0 <= k < guide_graphemes@.len() ==> width_sum(
                    #[trigger] guide_graphemes@[k]@,
                    0,
                    guide_graphemes@[k]@.len() as int,
                ) <= usize::MAX,
            forall|k: int|
                0 <= k < g ==> #[trigger] blocks@[k] == guide_block(
                    guides@[k],
                    guide_graphemes@[k]@,
                    width,
                    number_width,
                ),
        decreases guides.len() - g,
    {
        let segments = wrap_segments(guide_graphemes[g].as_slice(), frame_width, number_width + 5);
        let rows = if segments.len() == 0 {
            1
        } else {
            segments.len()
        };
        blocks.push(GuideBlock { target_row: guides[g].first_row, text_rows: rows });
        g += 1;
    }
    let mut sources: Vec<ViewportSource> = Vec::new();
    let mut i: usize = 0;
    while i < row_graphemes.len()
        invariant
            i <= row_graphemes@.len() == layouts@.len(),
            sources@.len() == i,
            number_width + 5 <= usize::MAX,
            frame_width == row_wrap_width(true, width),
            blocks@.len() == guides@.len(),
            forall|k: int|
                0 <= k < guides@.len() ==> #[trigger] blocks@[k] == guide_block(
                    guides@[k],
                    guide_graphemes@[k]@,
                    width,
                    number_width,
                ),
            forall|k: int|
                0 <= k < row_graphemes@.len() ==> width_sum(
                    #[trigger] row_graphemes@[k]@,
                    0,
                    row_graphemes@[k]@.len() as int,
                ) <= usize::MAX,
            forall|k: int, j: int|
                0 <= k < layouts@.len() && 0 <= j < layouts@[k].starts@.len() ==> #[trigger] layouts@[k].starts@[j]
                    < guides@.len(),
            forall|k: int, j: int|
                0 <= k < layouts@.len() && 0 <= j < layouts@[k].ends@.len() ==> #[trigger] layouts@[k].ends@[j]
                    < guides@.len(),
            forall|k: int|
                0 <= k < i ==> {
                    &&& (#[trigger] sources@[k]).segments@ == wrapped_segments(
                        row_graphemes@[k]@,
                        row_wrap_width(layouts@[k].enclosing is Some, width),
                        (number_width + 3) as usize,
                    )
                    &&& sources@[k].starts@ == layouts@[k].starts@.map_values(
                        |g: usize| guide_block(guides@[g as int], guide_graphemes@[g as int]@, width, number_width),
                    )
                    &&& sources@[k].ends@ == layouts@[k].ends@.map_values(
                        |g: usize| guides@[g as int].first_row,
                    )
                },
        decreases row_graphemes.len() - i,
    {
        let layout = &layouts[i];
        let row_width = if layout.enclosing.is_some() {
            frame_width
        } else {
            width
        };
        let segments = wrap_segments(row_graphemes[i].as_slice(), row_width, number_width + 3);
        let mut starts: Vec<GuideBlock> = Vec::new();
        let mut j: usize = 0;
        while j < layout.starts.len()
            invariant
                j <= layout.starts@.len(),
                layout == layouts@[i as int],
                i < layouts@.len(),
                blocks@.len() == guides@.len(),
                forall|k: int|
                    0 <= k < guides@.len() ==> #[trigger] blocks@[k] == guide_block(
                        guides@[k],
                        guide_graphemes@[k]@,
                        width,
                        number_width,
                    ),
                forall|k: int, m: int|
                    0 <= k < layouts@.len() && 0 <= m < layouts@[k].starts@.len() ==> #[trigger] layouts@[k].starts@[m]
                        < guides@.len(),
                starts@ == layout.starts@.take(j as int).map_values(
                    |g: usize| guide_block(guides@[g as int], guide_graphemes@[g as int]@, width, number_width),
                ),
            decreases layout.starts.len() - j,
        {
            let guide = layout.starts[j];
            assert(layouts@[i as int].starts@[j as int] < guides@.len());
            starts.push(blocks[guide]);
            j += 1;
            assert(starts@ =~= layout.starts@.take(j as int).map_values(
                |g: usize| guide_block(guides@[g as int], guide_graphemes@[g as int]@, width, number_width),
            ));
        }
        assert(layout.starts@.take(j as int) =~= layout.starts@);
        let mut ends: Vec<usize> = Vec::new();
        let mut e: usize = 0;
        while e < layout.ends.len()
            invariant
                e <= layout.ends@.len(),
                layout == layouts@[i as int],
                i < layouts@.len(),
                forall|k: int, m: int|
                    0 <= k < layouts@.len() && 0 <= m < layouts@[k].ends@.len() ==> #[trigger] layouts@[k].ends@[m]
                        < guides@.len(),
                ends@ == layout.ends@.take(e as int).map_values(|g: usize| guides@[g as int].first_row),
            decreases layout.ends.len() - e,
        {
            let guide = layout.ends[e];
            assert(layouts@[i as int].ends@[e as int] < guides@.len());
            ends.push(guides[guide].first_row);
            e += 1;
            assert(ends@ =~= layout.ends@.take(e as int).map_values(
                |g: usize| guides@[g as int].first_row,
            ));
        }
        assert(layout.ends@.take(e as int) =~= layout.ends@);
        assert(row_width == row_wrap_width(layouts@[i as int].enclosing is Some, width));
        let source = ViewportSource { starts, segments, ends };
        let ghost before = sources@;
        sources.push(source);
        proof {
            assert forall|k: int| 0 <= k < i + 1 implies {
                &&& (#[trigger] sources@[k]).segments@ == wrapped_segments(
                    row_graphemes@[k]@,
                    row_wrap_width(layouts@[k].enclosing is Some, width),
                    (number_width + 3) as usize,
                )
                &&& sources@[k].starts@ == layouts@[k].starts@.map_values(
                    |g: usize| guide_block(guides@[g as int], guide_graphemes@[g as int]@, width, number_width),
                )
                &&& sources@[k].ends@ == layouts@[k].ends@.map_values(
                    |g: usize| guides@[g as int].first_row,
                )
            } by {
                if k < i {
                    assert(sources@[k] == before[k]);
                }
            }
        }
        i += 1;
    }
    sources
}

} // verus!
