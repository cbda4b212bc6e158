//! The header: how many files are reviewed and how many lines changed.

use vstd::prelude::*;

use crate::files::{decimal, decimal_digits};
use crate::text::append_text;

verus! {

/// What the header counts of one changed file.
#[derive(Clone, Copy, Debug, PartialEq, Eq, Structural)]
pub struct FileSummary {
    pub reviewed: bool,
    pub lines_added: u64,
    pub lines_removed: u64,
}

/// The files reviewed, and the lines added and removed over all files.
pub open spec fn summary_counts(files: Seq<FileSummary>) -> (nat, int, int)
    decreases files.len(),
{
    if files.len() == 0 {
        (0, 0, 0)
    } else {
        let (reviewed, added, removed) = summary_counts(files.drop_last());
        let last = files.last();
        (
            reviewed + if last.reviewed {
                1nat
            } else {
                0nat
            },
            added + last.lines_added,
            removed + last.lines_removed,
        )
    }
}

proof fn lemma_summary_counts_grow(files: Seq<FileSummary>, i: int)
    requires
        0 <= i <= files.len(),
    ensures
        summary_counts(files.take(i)).0 <= i,
        summary_counts(files.take(i)).1 <= summary_counts(files).1,
        summary_counts(files.take(i)).2 <= summary_counts(files).2,
        0 <= summary_counts(files.take(i)).1,
        0 <= summary_counts(files.take(i)).2,
    decreases files.len() - i,
{
    lemma_summary_counts_nonnegative(files.take(i));
    if i < files.len() {
        lemma_summary_counts_grow(files, i + 1);
        assert(files.take(i + 1).drop_last() =~= files.take(i));
        lemma_summary_counts_nonnegative(files.take(i + 1));
    } else {
        assert(files.take(i) =~= files);
        lemma_summary_counts_nonnegative(files);
    }
}

proof fn lemma_summary_counts_nonnegative(files: Seq<FileSummary>)
    ensures
        summary_counts(files).0 <= files.len(),
        0 <= summary_counts(files).1,
        0 <= summary_counts(files).2,
    decreases files.len(),
{
    if files.len() > 0 {
        lemma_summary_counts_nonnegative(files.drop_last());
    }
}

/// The header's right side: `+added -removed - reviewed/total reviewed `.
pub open spec fn summary_text(files: Seq<FileSummary>) -> Seq<char> {
    let (reviewed, added, removed) = summary_counts(files);
    "+"@ + decimal_digits(added as nat) + " -"@ + decimal_digits(removed as nat) + " - "@
        + decimal_digits(reviewed) + "/"@ + decimal_digits(files.len()) + " reviewed "@
}

/// The header's right side for the changed files.
pub fn summary(files: &[FileSummary]) -> (text: String)
    requires
        summary_counts(files@).1 <= u64::MAX,
        summary_counts(files@).2 <= u64::MAX,
    ensures
        text@ == summary_text(files@),
{
    let mut reviewed: u64 = 0;
    let mut added: u64 = 0;
    let mut removed: u64 = 0;
    let mut i: usize = 0;
    while i < files.len()
        invariant
            i <= files@.len(),
            summary_counts(files@).1 <= u64::MAX,
            summary_counts(files@).2 <= u64::MAX,
            (reviewed as nat, added as int, removed as int) == summary_counts(files@.take(i as int)),
        decreases files.len() - i,
    {
        proof {
            assert(files@.take(i + 1).drop_last() =~= files@.take(i as int));
            lemma_summary_counts_grow(files@, i + 1);
            lemma_summary_counts_grow(files@, i as int);
        }
        let file = files[i];
        if file.reviewed {
            reviewed = reviewed + 1;
        }
        added = added + file.lines_added;
        removed = removed + file.lines_removed;
        i += 1;
    }
    assert(files@.take(files@.len() as int) =~= files@);
    let mut text = String::new();
    append_text(&mut text, "+");
    let digits = decimal(added);
    append_text(&mut text, digits.as_str());
    append_text(&mut text, " -");
    let digits = decimal(removed);
    append_text(&mut text, digits.as_str());
    append_text(&mut text, " - ");
    let digits = decimal(reviewed);
    append_text(&mut text, digits.as_str());
    append_text(&mut text, "/");
    let digits = decimal(files.len() as u64);
    append_text(&mut text, digits.as_str());
    append_text(&mut text, " reviewed ");
    text
}

} // verus!

verus! {

/// The lines added and removed over `files`, added up file by file.
proof fn lemma_summary_counts_concat(left: Seq<FileSummary>, right: Seq<FileSummary>)
    ensures
        summary_counts(left + right).0 == summary_counts(left).0 + summary_counts(right).0,
        summary_counts(left + right).1 == summary_counts(left).1 + summary_counts(right).1,
        summary_counts(left + right).2 == summary_counts(left).2 + summary_counts(right).2,
    decreases right.len(),
{
    if right.len() == 0 {
        assert(left + right =~= left);
    } else {
        assert((left + right).drop_last() =~= left + right.drop_last());
        lemma_summary_counts_concat(left, right.drop_last());
    }
}

/// The header counts add up over the files: the counts of two lists of
/// files together are the sums of their counts, and one file counts as
/// reviewed exactly when it is, with all its added and all its removed
/// lines, whatever its review state.
pub proof fn law_summary_counts_add_up(left: Seq<FileSummary>, right: Seq<FileSummary>, file: FileSummary)
    ensures
        summary_counts(left + right).0 == summary_counts(left).0 + summary_counts(right).0,
        summary_counts(left + right).1 == summary_counts(left).1 + summary_counts(right).1,
        summary_counts(left + right).2 == summary_counts(left).2 + summary_counts(right).2,
        summary_counts(seq![file]).0 == if file.reviewed {
            1nat
        } else {
            0nat
        },
        summary_counts(seq![file]).1 == file.lines_added,
        summary_counts(seq![file]).2 == file.lines_removed,
{
    lemma_summary_counts_concat(left, right);
    let one = seq![file];
    assert(one.drop_last() =~= Seq::<FileSummary>::empty());
    assert(one.last() == file);
    assert(summary_counts(Seq::<FileSummary>::empty()) == (0nat, 0int, 0int));
    assert(summary_counts(one) == (
        summary_counts(one.drop_last()).0 + if file.reviewed {
            1nat
        } else {
            0nat
        },
        summary_counts(one.drop_last()).1 + file.lines_added,
        summary_counts(one.drop_last()).2 + file.lines_removed,
    ));
}

/// The line counts do not depend on review state: two lists of files with
/// the same added and removed lines, file by file, count the same lines
/// whichever files are reviewed.
pub proof fn law_line_counts_ignore_review_state(files: Seq<FileSummary>, other: Seq<FileSummary>)
    requires
        files.len() == other.len(),
        forall|i: int|
            0 <= i < files.len() ==> (#[trigger] files[i]).lines_added == other[i].lines_added
                && files[i].lines_removed == other[i].lines_removed,
    ensures
        summary_counts(files).1 == summary_counts(other).1,
        summary_counts(files).2 == summary_counts(other).2,
    decreases files.len(),
{
    if files.len() > 0 {
        let a = files.drop_last();
        let b = other.drop_last();
        assert forall|i: int| 0 <= i < a.len() implies (#[trigger] a[i]).lines_added == b[i].lines_added
            && a[i].lines_removed == b[i].lines_removed by {
            assert(a[i] == files[i] && b[i] == other[i]);
        }
        law_line_counts_ignore_review_state(a, b);
        assert(files.last() == files[files.len() - 1]);
        assert(other.last() == other[other.len() - 1]);
    }
}

} // verus!
