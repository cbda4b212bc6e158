//! Where review guide comments are drawn around the rows of a diff: the
//! rows each guide starts, encloses and ends on, and the cells of the
//! rules and borders that frame it.

use vstd::prelude::*;

use crate::files::{decimal, decimal_digits};
use crate::ordering::GuideCounter;

verus! {

/// Whether a guide still matches the code it comments on.
#[derive(Clone, Copy, Debug, PartialEq, Eq, Structural)]
pub enum GuideStatus {
    Matched,
    Stale,
}

/// A guide placed on the rows of a diff.
#[derive(Clone, Copy, Debug, PartialEq, Eq, Structural)]
pub struct PlacedGuide {
    /// The guide's index among the guide items.
    pub item: usize,
    pub first_row: usize,
    pub last_row: usize,
    /// Whether the guide comments on the whole file rather than on lines.
    pub file_target: bool,
    pub status: GuideStatus,
    pub counter: GuideCounter,
}

/// What is known of one guide item in one file: the rows of its target,
/// when it targets the file and they are found; its counter, when it has
/// one; whether it targets the whole file; its status.
#[derive(Clone, Copy, Debug, PartialEq, Eq)]
pub struct GuideItemPlacement {
    pub rows: Option<(usize, usize)>,
    pub counter: Option<GuideCounter>,
    pub file_target: bool,
    pub status: GuideStatus,
}

/// The guides among `items[..count]` placed on a diff of `row_count` rows:
/// those with a counter whose target rows lie within the diff, in item
/// order.
pub open spec fn placed_guides(items: Seq<GuideItemPlacement>, row_count: int, count: int) -> Seq<
    PlacedGuide,
>
    decreases count,
{
    if count <= 0 {
        seq![]
    } else {
        let before = placed_guides(items, row_count, count - 1);
        let item = items[count - 1];
        match (item.rows, item.counter) {
            (Some((first, last)), Some(counter)) => if first <= last && last < row_count {
                before.push(
                    PlacedGuide {
                        item: (count - 1) as usize,
                        first_row: first,
                        last_row: last,
                        file_target: item.file_target,
                        status: item.status,
                        counter,
                    },
                )
            } else {
                before
            },
            _ => before,
        }
    }
}

/// The guides drawn on a file's diff of `row_count` rows: none once the
/// file is reviewed.
pub fn positioned_guides(reviewed: bool, items: &Vec<GuideItemPlacement>, row_count: usize) -> (guides: Vec<
    PlacedGuide,
>)
    ensures
        guides@ == (if reviewed {
            seq![]
        } else {
            placed_guides(items@, row_count as int, items@.len() as int)
        }),
{
    let mut guides: Vec<PlacedGuide> = Vec::new();
    if reviewed {
        return guides;
    }
    let mut i: usize = 0;
    while i < items.len()
        invariant
            i <= items@.len(),
            guides@ == placed_guides(items@, row_count as int, i as int),
        decreases items@.len() - i,
    {
        let item = items[i];
        match (item.rows, item.counter) {
            (Some((first, last)), Some(counter)) => {
                if first <= last && last < row_count {
                    guides.push(
                        PlacedGuide {
                            item: i,
                            first_row: first,
                            last_row: last,
                            file_target: item.file_target,
                            status: item.status,
                            counter,
                        },
                    );
                }
            },
            _ => {},
        }
        i += 1;
    }
    guides
}

/// What the guides do on one row of the diff.
#[derive(Clone, Debug, PartialEq, Eq)]
pub struct GuideRowLayout {
    /// The guides that start above the row, in guide order.
    pub starts: Vec<usize>,
    /// The status of the first guide that encloses the row.
    pub enclosing: Option<GuideStatus>,
    /// The guides whose frame closes below the row.
    pub ends: Vec<usize>,
}

/// Where a guide's target stands in a file's diff.
#[derive(Clone, Copy, Debug, PartialEq, Eq, Structural)]
pub enum GuideTargetPosition {
    /// The diff has not been loaded yet.
    Unloaded,
    /// The target starts on row `first`.
    Rows { first: usize },
}

/// The items of the guides among `guides[..count]` that start on `row`.
pub open spec fn starting_on(guides: Seq<PlacedGuide>, row: int, count: int) -> Seq<usize>
    decreases count,
{
    if count <= 0 {
        seq![]
    } else if guides[count - 1].first_row == row {
        starting_on(guides, row, count - 1).push(guides[count - 1].item)
    } else {
        starting_on(guides, row, count - 1)
    }
}

/// The items of the line guides among `guides[..count]` that end on `row`.
pub open spec fn ending_on(guides: Seq<PlacedGuide>, row: int, count: int) -> Seq<usize>
    decreases count,
{
    if count <= 0 {
        seq![]
    } else if guides[count - 1].last_row == row && !guides[count - 1].file_target {
        ending_on(guides, row, count - 1).push(guides[count - 1].item)
    } else {
        ending_on(guides, row, count - 1)
    }
}

/// The status of the first guide among `guides[..count]` that encloses
/// `row`.
pub open spec fn enclosing_of(guides: Seq<PlacedGuide>, row: int, count: int) -> Option<GuideStatus>
    decreases count,
{
    if count <= 0 {
        None
    } else {
        match enclosing_of(guides, row, count - 1) {
            Some(status) => Some(status),
            None => if guides[count - 1].first_row <= row <= guides[count - 1].last_row {
                Some(guides[count - 1].status)
            } else {
                None
            },
        }
    }
}

/// What the guides do on each of `row_count` rows: each guide starts on
/// its first row, encloses the rows up to its last one, and a guide on
/// lines ends on its last row.
pub fn guide_rows(row_count: usize, guides: &Vec<PlacedGuide>) -> (rows: Vec<GuideRowLayout>)
    ensures
        rows@.len() == row_count,
        forall|row: int|
            0 <= row < row_count ==> (#[trigger] rows@[row]).starts@ == starting_on(
                guides@,
                row,
                guides@.len() as int,
            ) && rows@[row].ends@ == ending_on(guides@, row, guides@.len() as int)
                && rows@[row].enclosing == enclosing_of(guides@, row, guides@.len() as int),
{
    let mut rows: Vec<GuideRowLayout> = Vec::new();
    let mut row: usize = 0;
    while row < row_count
        invariant
            row <= row_count,
            rows@.len() == row,
            forall|r: int|
                0 <= r < row ==> (#[trigger] rows@[r]).starts@ == starting_on(
                    guides@,
                    r,
                    guides@.len() as int,
                ) && rows@[r].ends@ == ending_on(guides@, r, guides@.len() as int)
                    && rows@[r].enclosing == enclosing_of(guides@, r, guides@.len() as int),
        decreases row_count - row,
    {
        let mut starts: Vec<usize> = Vec::new();
        let mut ends: Vec<usize> = Vec::new();
        let mut enclosing: Option<GuideStatus> = None;
        let mut g: usize = 0;
        while g < guides.len()
            invariant
                g <= guides@.len(),
                starts@ == starting_on(guides@, row as int, g as int),
                ends@ == ending_on(guides@, row as int, g as int),
                enclosing == enclosing_of(guides@, row as int, g as int),
            decreases guides@.len() - g,
        {
            let guide = guides[g];
            if guide.first_row == row {
                starts.push(guide.item);
            }
            if enclosing.is_none() && guide.first_row <= row && row <= guide.last_row {
                enclosing = Some(guide.status);
            }
            if guide.last_row == row && !guide.file_target {
                ends.push(guide.item);
            }
            g += 1;
        }
        rows.push(GuideRowLayout { starts, enclosing, ends });
        row += 1;
    }
    rows
}

/// Where a guide's target stands: nowhere yet while the diff is not
/// loaded; else on its rows when they lie within the diff.
pub fn guide_target_position(
    loaded: bool,
    target_rows: Option<(usize, usize)>,
    row_count: usize,
) -> (position: Option<GuideTargetPosition>)
    ensures
        position == (if !loaded {
            Some(GuideTargetPosition::Unloaded)
        } else {
            match target_rows {
                Some((first, last)) => if first <= last && last < row_count {
                    Some(GuideTargetPosition::Rows { first })
                } else {
                    None
                },
                None => None,
            }
        }),
{
    if !loaded {
        return Some(GuideTargetPosition::Unloaded);
    }
    match target_rows {
        Some((first, last)) => if first <= last && last < row_count {
            Some(GuideTargetPosition::Rows { first })
        } else {
            None
        },
        None => None,
    }
}

/// The columns of the border that frames a guide's rows: just after the
/// line numbers and at the right edge, each only where it fits.
pub fn guide_edge_columns(width: u16, number_width: usize) -> (columns: Vec<usize>)
    requires
        number_width + 2 <= usize::MAX,
    ensures
        ({
            let left = number_width + 2;
            let right = width - 1;
            columns@ == (if left < width { seq![left as usize] } else { seq![] }) + (if width >= 1
                && right != left {
                seq![right as usize]
            } else {
                seq![]
            })
        }),
{
    let width = width as usize;
    let left = number_width + 2;
    let mut columns: Vec<usize> = Vec::new();
    if left < width {
        columns.push(left);
    }
    if width >= 1 && width - 1 != left {
        columns.push(width - 1);
    }
    columns
}

/// The kind of rule drawn across a guide's frame.
#[derive(Clone, Copy, Debug, PartialEq, Eq, Structural)]
pub enum GuideRuleKind {
    /// Above the guide's text, with its counter.
    Top(GuideCounter),
    /// Between the text and the rows it comments on.
    Middle,
    /// Below the frame.
    Bottom,
}

/// The text of a guide's counter: its number and the count of guides.
pub open spec fn counter_text(counter: GuideCounter) -> Seq<char> {
    " "@ + decimal_digits(counter.number as nat) + "/"@ + decimal_digits(counter.total as nat) + " "@
}

/// The characters of a rule `rule_width` columns wide: its corners with a
/// line between them and the counter before the right corner, or only the
/// left corner where that does not fit.
pub open spec fn rule_text(kind: GuideRuleKind, rule_width: int) -> Seq<char> {
    let (left, right, counter) = match kind {
        GuideRuleKind::Top(counter) => ('╭', '╮', counter_text(counter)),
        GuideRuleKind::Middle => ('├', '┤', seq![]),
        GuideRuleKind::Bottom => ('╰', '╯', seq![]),
    };
    if rule_width >= counter.len() + 2 {
        seq![left] + Seq::new((rule_width - counter.len() - 2) as nat, |i: int| '─') + counter
            + seq![right]
    } else {
        seq![left]
    }
}

/// The cells of a rule across a pane `width` columns wide: the rule starts
/// after the two columns of the change bar and the line numbers.
pub fn guide_rule(kind: GuideRuleKind, width: u16, number_width: usize) -> (cells: Vec<(usize, char)>)
    requires
        number_width + 2 + 65536 <= usize::MAX,
    ensures
        ({
            let prefix = number_width + 2;
            let text = rule_text(kind, if width >= prefix { width - prefix } else { 0 });
            &&& cells@.len() == text.len()
            &&& forall|k: int|
                0 <= k < text.len() ==> (#[trigger] cells@[k]).0 == prefix + k && cells@[k].1
                    == text[k]
        }),
{
    let (left, right) = match kind {
        GuideRuleKind::Top(_) => ('╭', '╮'),
        GuideRuleKind::Middle => ('├', '┤'),
        GuideRuleKind::Bottom => ('╰', '╯'),
    };
    let mut counter: Vec<char> = Vec::new();
    if let GuideRuleKind::Top(count) = kind {
        counter.push(' ');
        let number = decimal(count.number as u64);
        let total = decimal(count.total as u64);
        let number_chars = crate::text::chars_of(number.as_str());
        let total_chars = crate::text::chars_of(total.as_str());
        let mut i: usize = 0;
        while i < number_chars.len()
            invariant
                i <= number_chars@.len(),
                counter@ == seq![' '] + number_chars@.take(i as int),
            decreases number_chars@.len() - i,
        {
            counter.push(number_chars[i]);
            i += 1;
            assert(counter@ =~= seq![' '] + number_chars@.take(i as int));
        }
        counter.push('/');
        let ghost head = counter@;
        let mut j: usize = 0;
        while j < total_chars.len()
            invariant
                j <= total_chars@.len(),
                counter@ == head + total_chars@.take(j as int),
            decreases total_chars@.len() - j,
        {
            counter.push(total_chars[j]);
            j += 1;
            assert(counter@ =~= head + total_chars@.take(j as int));
        }
        counter.push(' ');
        proof {
            assert(number_chars@.take(number_chars@.len() as int) =~= number_chars@);
            assert(total_chars@.take(total_chars@.len() as int) =~= total_chars@);
            reveal_strlit(" ");
            reveal_strlit("/");
            assert(counter@ =~= counter_text(count));
        }
    }
    let prefix = number_width + 2;
    let rule_width = (width as usize).saturating_sub(prefix);
    let mut text: Vec<char> = Vec::new();
    text.push(left);
    if rule_width >= counter.len().saturating_add(2) {
        let dashes = rule_width - counter.len() - 2;
        let mut d: usize = 0;
        while d < dashes
            invariant
                d <= dashes,
                text@ == seq![left] + Seq::new(d as nat, |i: int| '─'),
            decreases dashes - d,
        {
            text.push('─');
            d += 1;
            assert(text@ =~= seq![left] + Seq::new(d as nat, |i: int| '─'));
        }
        let ghost head = text@;
        let mut c: usize = 0;
        while c < counter.len()
            invariant
                c <= counter@.len(),
                text@ == head + counter@.take(c as int),
            decreases counter@.len() - c,
        {
            text.push(counter[c]);
            c += 1;
            assert(text@ =~= head + counter@.take(c as int));
        }
        text.push(right);
        assert(counter@.take(counter@.len() as int) =~= counter@);
    }
    proof {
        assert(text@ =~= rule_text(kind, if width >= prefix { width - prefix } else { 0 }));
    }
    let mut cells: Vec<(usize, char)> = Vec::new();
    let mut k: usize = 0;
    while k < text.len()
        invariant
            k <= text@.len(),
            text@.len() <= 65536,
            prefix == number_width + 2,
            number_width + 2 + 65536 <= usize::MAX,
            cells@.len() == k,
            forall|m: int| 0 <= m < k ==> (#[trigger] cells@[m]).0 == prefix + m && cells@[m].1 == text@[m],
        decreases text@.len() - k,
    {
        cells.push((prefix + k, text[k]));
        k += 1;
    }
    cells
}

/// A rule that has room for its corners and counter spans its whole
/// width; one that has not is a single corner.
pub proof fn law_rules_span_their_width(kind: GuideRuleKind, rule_width: int)
    ensures
        ({
            let counter = match kind {
                GuideRuleKind::Top(counter) => counter_text(counter),
                _ => seq![],
            };
            &&& rule_width >= counter.len() + 2 ==> rule_text(kind, rule_width).len() == rule_width
            &&& rule_width < counter.len() + 2 ==> rule_text(kind, rule_width).len() == 1
        }),
{
}

} // verus!
