//! Line statistics shown beside each changed file.

use vstd::prelude::*;

use crate::render::{push_repeated, repeat_char, shorten, shortened};
use crate::text::append_text;
use crate::unicode::{display_width, str_width};

verus! {

/// The decimal digits of `n`, most significant first.
pub open spec fn decimal_digits(n: nat) -> Seq<char>
    decreases n,
{
    let digit = ((n % 10) + ('0' as nat)) as char;
    if n < 10 {
        seq![digit]
    } else {
        decimal_digits(n / 10).push(digit)
    }
}

/// The decimal representation of `n`.
pub fn decimal(n: u64) -> (text: String)
    ensures
        text@ == decimal_digits(n as nat),
{
    let mut digits: Vec<char> = Vec::new();
    let mut rest = n;
    // Collect digits least significant first.
    let ghost mut shown: Seq<char> = seq![];
    while rest >= 10
        invariant
            decimal_digits(n as nat) == decimal_digits(rest as nat) + shown,
            digits@ == shown.reverse(),
            rest <= n,
        decreases rest,
    {
        let digit = ((rest % 10) as u8 + 48u8) as char;
        digits.push(digit);
        proof {
            assert(decimal_digits(rest as nat) == decimal_digits((rest / 10) as nat).push(digit));
            assert(decimal_digits((rest / 10) as nat).push(digit) + shown =~= decimal_digits(
                (rest / 10) as nat,
            ) + (seq![digit] + shown));
            shown = seq![digit] + shown;
            assert(digits@ =~= shown.reverse());
        }
        rest = rest / 10;
    }
    let digit = (rest as u8 + 48u8) as char;
    digits.push(digit);
    proof {
        assert(decimal_digits(rest as nat) == seq![digit]);
        shown = seq![digit] + shown;
        assert(digits@ =~= shown.reverse());
    }
    let mut text = String::new();
    let mut i = digits.len();
    while i > 0
        invariant
            i <= digits.len(),
            digits@ == shown.reverse(),
            decimal_digits(n as nat) == shown,
            text@ == shown.take(digits.len() - i),
        decreases i,
    {
        i -= 1;
        text.push(digits[i]);
        assert(text@ =~= shown.take(digits.len() - i));
    }
    assert(shown.take(digits.len() as int) =~= shown);
    text
}

/// The added and removed line counts shown beside a file, each present
/// only when non-zero.
pub struct FileStatistics {
    pub added: Option<String>,
    pub removed: Option<String>,
}

pub open spec fn optional_length(text: Option<String>) -> nat {
    match text {
        Some(text) => vstd::utf8::encode_utf8(text@).len(),
        None => 0,
    }
}

impl FileStatistics {
    /// `+added` and `-removed`, leaving out zero counts.
    pub fn new(lines_added: u64, lines_removed: u64) -> (statistics: Self)
        ensures
            statistics.added matches Some(text) ==> text@ == seq!['+'] + decimal_digits(
                lines_added as nat,
            ),
            statistics.added is Some <==> lines_added > 0,
            statistics.removed matches Some(text) ==> text@ == seq!['-'] + decimal_digits(
                lines_removed as nat,
            ),
            statistics.removed is Some <==> lines_removed > 0,
    {
        let added = if lines_added > 0 {
            let mut text = String::new();
            text.push('+');
            let digits = decimal(lines_added);
            text.append(digits.as_str());
            assert(text@ =~= seq!['+'] + decimal_digits(lines_added as nat));
            Some(text)
        } else {
            None
        };
        let removed = if lines_removed > 0 {
            let mut text = String::new();
            text.push('-');
            let digits = decimal(lines_removed);
            text.append(digits.as_str());
            assert(text@ =~= seq!['-'] + decimal_digits(lines_removed as nat));
            Some(text)
        } else {
            None
        };
        FileStatistics { added, removed }
    }

    /// Columns taken by the statistics: both texts and one separating space
    /// when both are present.
    pub fn width(&self) -> (columns: usize)
        requires
            optional_length(self.added) + optional_length(self.removed) + 1 <= usize::MAX,
        ensures
            columns == optional_length(self.added) + optional_length(self.removed) + if self.added
                is Some && self.removed is Some {
                1int
            } else {
                0
            },
    {
        let added = match &self.added {
            Some(text) => text.as_str().len(),
            None => 0,
        };
        let removed = match &self.removed {
            Some(text) => text.as_str().len(),
            None => 0,
        };
        let separator = if self.added.is_some() && self.removed.is_some() {
            1
        } else {
            0
        };
        added + removed + separator
    }
}

/// How far a file has been reviewed.
#[derive(Clone, Copy, Debug, PartialEq, Eq, Structural)]
pub enum ReviewStatus {
    Unreviewed,
    Reviewed,
    ChangedSinceReview,
}

/// The state after the reviewed mark is toggled: a file that waits for
/// review becomes reviewed, a reviewed one unreviewed.
pub open spec fn toggled_status(status: ReviewStatus) -> ReviewStatus {
    if status != ReviewStatus::Reviewed {
        ReviewStatus::Reviewed
    } else {
        ReviewStatus::Unreviewed
    }
}

impl ReviewStatus {
    /// Whether the file still waits for review: it was never reviewed, or
    /// changed since it was.
    pub fn needs_review(self) -> (needs: bool)
        ensures
            needs == (self != ReviewStatus::Reviewed),
    {
        !matches!(self, ReviewStatus::Reviewed)
    }

    /// The state after the reviewed mark is toggled.
    pub fn toggled(self) -> (status: ReviewStatus)
        ensures
            status == toggled_status(self),
    {
        if self.needs_review() {
            ReviewStatus::Reviewed
        } else {
            ReviewStatus::Unreviewed
        }
    }
}

/// The marker shown before a file name: `!` for a notice, else its review
/// state.
pub open spec fn marker_of(has_notice: bool, status: ReviewStatus) -> Seq<char> {
    if has_notice {
        "!"@
    } else {
        match status {
            ReviewStatus::Unreviewed => "○"@,
            ReviewStatus::Reviewed => "✓"@,
            ReviewStatus::ChangedSinceReview => "●"@,
        }
    }
}

/// The marker shown before a file name.
pub fn file_marker(has_notice: bool, status: ReviewStatus) -> (marker: &'static str)
    ensures
        marker@ == marker_of(has_notice, status),
{
    if has_notice {
        "!"
    } else {
        match status {
            ReviewStatus::Unreviewed => "○",
            ReviewStatus::Reviewed => "✓",
            ReviewStatus::ChangedSinceReview => "●",
        }
    }
}

/// The row of a directory in the file tree: indented two columns per
/// level, `▸` when collapsed and `▾` when open, then its name and a slash.
pub open spec fn directory_text(depth: nat, name: Seq<char>, collapsed: bool) -> Seq<char> {
    repeat_char(' ', 2 * depth) + seq![
        if collapsed {
            '▸'
        } else {
            '▾'
        },
    ] + " "@ + name + "/"@
}

/// The row of a directory in the file tree.
pub fn directory_line(depth: usize, name: &str, collapsed: bool) -> (text: String)
    requires
        2 * depth <= usize::MAX,
    ensures
        text@ == directory_text(depth as nat, name@, collapsed),
{
    let mut text = String::new();
    push_repeated(&mut text, ' ', 2 * depth);
    text.push(
        if collapsed {
            '▸'
        } else {
            '▾'
        },
    );
    append_text(&mut text, " ");
    append_text(&mut text, name);
    append_text(&mut text, "/");
    text
}

/// The parts of a file row: its prefix (indent and marker), its name
/// shortened to the room left, and the blank columns before the statistics.
pub struct FileLine {
    pub prefix: String,
    pub name: String,
    pub padding: usize,
}

pub open spec fn saturating_add_nat(a: int, b: int) -> int {
    if a + b <= usize::MAX {
        a + b
    } else {
        usize::MAX as int
    }
}

pub open spec fn saturating_sub_nat(a: int, b: int) -> int {
    if a >= b {
        a - b
    } else {
        0
    }
}

/// The width left for a file name: the row without the prefix, the comment
/// marker, the statistics and the space before them.
pub open spec fn name_room(
    width: nat,
    prefix: Seq<char>,
    comment_marker: Option<Seq<char>>,
    statistics_width: nat,
) -> int {
    let marker_width: int = match comment_marker {
        Some(marker) => str_width(marker) as int,
        None => 0,
    };
    let gap: int = if statistics_width > 0 {
        1
    } else {
        0
    };
    saturating_sub_nat(
        width as int,
        saturating_add_nat(
            saturating_add_nat(saturating_add_nat(str_width(prefix) as int, marker_width), statistics_width as int),
            gap,
        ),
    )
}

/// Lays out the row of a file: the prefix is the indent and marker, the
/// name is shortened to fit beside the comment marker and the statistics,
/// and the padding fills the row up to `width`.
pub fn file_line_layout(
    depth: usize,
    marker: &str,
    name: &str,
    comment_marker: Option<&str>,
    statistics: &FileStatistics,
    width: usize,
) -> (line: FileLine)
    requires
        2 * depth <= usize::MAX,
        optional_length(statistics.added) + optional_length(statistics.removed) + 1 <= usize::MAX,
    ensures
        line.prefix@ == repeat_char(' ', 2 * depth as nat) + marker@ + " "@,
        ({
            let statistics_width = optional_length(statistics.added) + optional_length(
                statistics.removed,
            ) + if statistics.added is Some && statistics.removed is Some {
                1nat
            } else {
                0nat
            };
            let comment = match comment_marker {
                Some(marker) => Some(marker@),
                None => None,
            };
            let marker_width: int = match comment_marker {
                Some(marker) => str_width(marker@) as int,
                None => 0,
            };
            &&& line.name@ == shortened(
                name@,
                name_room(width as nat, line.prefix@, comment, statistics_width) as nat,
            )
            &&& line.padding == saturating_sub_nat(
                width as int,
                saturating_add_nat(
                    saturating_add_nat(
                        saturating_add_nat(str_width(line.prefix@) as int, str_width(line.name@) as int),
                        marker_width,
                    ),
                    statistics_width as int,
                ),
            )
        }),
{
    let mut prefix = String::new();
    push_repeated(&mut prefix, ' ', 2 * depth);
    append_text(&mut prefix, marker);
    append_text(&mut prefix, " ");
    let statistics_width = statistics.width();
    let gap: usize = if statistics_width > 0 {
        1
    } else {
        0
    };
    let prefix_width = display_width(prefix.as_str());
    let marker_width = match comment_marker {
        Some(marker) => display_width(marker),
        None => 0,
    };
    let room = width.saturating_sub(
        prefix_width.saturating_add(marker_width).saturating_add(statistics_width).saturating_add(gap),
    );
    let name = shorten(name, room);
    let padding = width.saturating_sub(
        prefix_width.saturating_add(display_width(name.as_str())).saturating_add(marker_width).saturating_add(
            statistics_width,
        ),
    );
    FileLine { prefix, name, padding }
}

/// Toggling the reviewed mark twice leaves a file waiting for review
/// exactly when it waited before, and a reviewed file reviewed.
pub proof fn law_toggling_twice_restores_the_mark(status: ReviewStatus)
    ensures
        (toggled_status(toggled_status(status)) != ReviewStatus::Reviewed) == (status
            != ReviewStatus::Reviewed),
        status == ReviewStatus::Reviewed ==> toggled_status(toggled_status(status)) == status,
{
}

} // verus!

verus! {

/// A location of a location list as the list shows it: its path for
/// display, and its zero-based line and byte column.
#[derive(Clone, Debug, PartialEq, Eq)]
pub struct ListedLocation {
    pub display_path: String,
    pub line: u32,
    pub byte_column: usize,
}

/// `value + 1`, kept at `max`.
pub open spec fn saturating_successor(value: int, max: int) -> int {
    if value < max {
        value + 1
    } else {
        max
    }
}

/// The text of a listed location: `path:line:column`, with the line and
/// column counted from one, shortened to `width` characters.
pub open spec fn location_text(path: Seq<char>, line: u32, byte_column: usize, width: nat) -> Seq<char> {
    shortened(
        path + seq![':'] + decimal_digits(saturating_successor(line as int, u32::MAX as int) as nat)
            + seq![':'] + decimal_digits(
            saturating_successor(byte_column as int, usize::MAX as int) as nat,
        ),
        width,
    )
}

/// The text of a listed location, fitted to `width` characters.
pub fn location_line(path: &str, line: u32, byte_column: usize, width: usize) -> (text: String)
    ensures
        text@ == location_text(path@, line, byte_column, width as nat),
{
    let mut full = String::new();
    append_text(&mut full, path);
    append_text(&mut full, ":");
    let line_number = decimal(line.saturating_add(1) as u64);
    append_text(&mut full, line_number.as_str());
    append_text(&mut full, ":");
    let column_number = decimal(byte_column.saturating_add(1) as u64);
    append_text(&mut full, column_number.as_str());
    proof {
        reveal_strlit(":");
        assert(full@ =~= path@ + seq![':'] + decimal_digits(
            saturating_successor(line as int, u32::MAX as int) as nat,
        ) + seq![':'] + decimal_digits(
            saturating_successor(byte_column as int, usize::MAX as int) as nat,
        ));
    }
    shorten(full.as_str(), width)
}

/// How many of `count` rows show from row `scroll` on in `height` rows.
pub open spec fn window_length(count: nat, scroll: nat, height: nat) -> nat {
    if scroll >= count {
        0
    } else if count - scroll < height {
        (count - scroll) as nat
    } else {
        height
    }
}

/// The rows of a location list that show in a pane `height` rows high and
/// `width` characters wide from row `scroll` on: each location's text, and
/// whether it is the selected one.
pub open spec fn location_rows(
    locations: Seq<ListedLocation>,
    scroll: nat,
    height: nat,
    selected: nat,
    width: nat,
) -> Seq<(Seq<char>, bool)> {
    Seq::new(
        window_length(locations.len(), scroll, height),
        |k: int|
            {
                let location = locations[scroll + k];
                (
                    location_text(location.display_path@, location.line, location.byte_column, width),
                    scroll + k == selected,
                )
            },
    )
}

/// The lines of a location list in a pane `height` rows high and `width`
/// characters wide, scrolled to row `scroll`: each shown location's text
/// and whether it is selected.
pub fn location_list_lines(
    locations: &Vec<ListedLocation>,
    scroll: usize,
    height: usize,
    selected: usize,
    width: usize,
) -> (lines: Vec<(String, bool)>)
    ensures
        lines@.map_values(|line: (String, bool)| (line.0@, line.1)) == location_rows(
            locations@,
            scroll as nat,
            height as nat,
            selected as nat,
            width as nat,
        ),
{
    let mut lines: Vec<(String, bool)> = Vec::new();
    let ghost expected = location_rows(
        locations@,
        scroll as nat,
        height as nat,
        selected as nat,
        width as nat,
    );
    let count = if scroll >= locations.len() {
        0
    } else if locations.len() - scroll < height {
        locations.len() - scroll
    } else {
        height
    };
    assert(count == window_length(locations@.len(), scroll as nat, height as nat));
    assert(count > 0 ==> scroll + count <= locations@.len());
    assert(expected.len() == count);
    let mut k: usize = 0;
    assert(lines@.map_values(|line: (String, bool)| (line.0@, line.1)) =~= expected.take(0));
    while k < count
        invariant
            k <= count == expected.len(),
            count > 0 ==> scroll + count <= locations@.len(),
            expected == location_rows(
                locations@,
                scroll as nat,
                height as nat,
                selected as nat,
                width as nat,
            ),
            lines@.map_values(|line: (String, bool)| (line.0@, line.1)) == expected.take(k as int),
        decreases count - k,
    {
        assert(scroll + k < locations@.len());
        assert(locations@.len() == locations.len());
        let location = &locations[scroll + k];
        let text = location_line(location.display_path.as_str(), location.line, location.byte_column, width);
        let line = (text, scroll + k == selected);
        assert(expected[k as int] == (line.0@, line.1));
        let ghost before = lines@;
        lines.push(line);
        assert(lines@.map_values(|line: (String, bool)| (line.0@, line.1)) =~= before.map_values(
            |line: (String, bool)| (line.0@, line.1),
        ).push((line.0@, line.1)));
        k += 1;
        assert(lines@.map_values(|line: (String, bool)| (line.0@, line.1)) =~= expected.take(k as int));
    }
    assert(expected.take(count as int) =~= expected);
    lines
}

} // verus!
