//! The keyboard shortcut help popup, and the numbered lines used as sample
//! file content.

use vstd::prelude::*;

use crate::app::{sat_sub, Rect};
use crate::files::{decimal, decimal_digits};
use crate::text::append_text;

verus! {

/// Widest the shortcut help popup gets.
pub const HELP_WIDTH: u16 = 72;

/// One keyboard shortcut; only those with a description are listed in the
/// help.
pub struct ShortcutDefinition {
    pub keys: String,
    pub description: Option<String>,
}

/// How many of the shortcuts have a description.
pub open spec fn described_count(shortcuts: Seq<ShortcutDefinition>) -> nat
    decreases shortcuts.len(),
{
    if shortcuts.len() == 0 {
        0
    } else {
        described_count(shortcuts.drop_last()) + if shortcuts.last().description is Some {
            1nat
        } else {
            0nat
        }
    }
}

proof fn lemma_described_count_bound(shortcuts: Seq<ShortcutDefinition>)
    ensures
        described_count(shortcuts) <= shortcuts.len(),
    decreases shortcuts.len(),
{
    if shortcuts.len() > 0 {
        lemma_described_count_bound(shortcuts.drop_last());
    }
}

/// The number of shortcuts the help lists.
pub fn visible_shortcut_count(shortcuts: &[ShortcutDefinition]) -> (count: usize)
    ensures
        count == described_count(shortcuts@),
{
    let mut count: usize = 0;
    let mut i: usize = 0;
    while i < shortcuts.len()
        invariant
            i <= shortcuts@.len(),
            count == described_count(shortcuts@.take(i as int)),
        decreases shortcuts.len() - i,
    {
        proof {
            assert(shortcuts@.take(i + 1).drop_last() =~= shortcuts@.take(i as int));
            lemma_described_count_bound(shortcuts@.take(i as int));
        }
        if shortcuts[i].description.is_some() {
            count = count + 1;
        }
        i += 1;
    }
    assert(shortcuts@.take(shortcuts@.len() as int) =~= shortcuts@);
    count
}

pub open spec fn min_int(a: int, b: int) -> int {
    if a <= b {
        a
    } else {
        b
    }
}

/// The popup of the shortcut help: at most `HELP_WIDTH` columns and as
/// tall as the listed shortcuts and its borders, within `area` and centered
/// in it.
pub open spec fn help_area_of(area: Rect, count: nat) -> Rect {
    let width = min_int(HELP_WIDTH as int, area.width as int);
    let content = min_int(count as int, u16::MAX as int);
    let height = min_int(min_int(content + 2, u16::MAX as int), area.height as int);
    Rect::spec_new(
        (area.x + sat_sub(area.width as int, width) / 2) as u16,
        (area.y + sat_sub(area.height as int, height) / 2) as u16,
        width as u16,
        height as u16,
    )
}

/// The popup of the shortcut help within `area`.
pub fn help_area(area: Rect, shortcuts: &[ShortcutDefinition]) -> (popup: Rect)
    requires
        area.x + area.width / 2 <= u16::MAX,
        area.y + area.height / 2 <= u16::MAX,
    ensures
        popup == help_area_of(area, described_count(shortcuts@)),
{
    let width = if HELP_WIDTH < area.width {
        HELP_WIDTH
    } else {
        area.width
    };
    let count = visible_shortcut_count(shortcuts);
    let content: u16 = if count <= u16::MAX as usize {
        count as u16
    } else {
        u16::MAX
    };
    let wanted = content.saturating_add(2);
    let height = if wanted < area.height {
        wanted
    } else {
        area.height
    };
    Rect::new(
        area.x + area.width.saturating_sub(width) / 2,
        area.y + area.height.saturating_sub(height) / 2,
        width,
        height,
    )
}

/// How far the shortcut help scrolls on a terminal of `terminal_height`
/// rows: the listed shortcuts that do not fit inside the popup borders.
pub open spec fn help_maximum_scroll_of(terminal_height: u16, count: nat) -> u16 {
    let popup = min_int(min_int(count + 2int, usize::MAX as int), terminal_height as int);
    let hidden = sat_sub(count as int, sat_sub(popup, 2));
    if hidden <= u16::MAX {
        hidden as u16
    } else {
        u16::MAX
    }
}

/// How far the shortcut help scrolls on a terminal of `terminal_height`
/// rows.
pub fn help_maximum_scroll(terminal_height: u16, shortcuts: &[ShortcutDefinition]) -> (scroll: u16)
    ensures
        scroll == help_maximum_scroll_of(terminal_height, described_count(shortcuts@)),
{
    let count = visible_shortcut_count(shortcuts);
    let wanted = count.saturating_add(2);
    let popup = if wanted < terminal_height as usize {
        wanted
    } else {
        terminal_height as usize
    };
    let hidden = count.saturating_sub(popup.saturating_sub(2));
    if hidden <= u16::MAX as usize {
        hidden as u16
    } else {
        u16::MAX
    }
}

/// `line 0` to `line {count - 1}`, one per line.
pub open spec fn numbered_text(count: nat) -> Seq<char>
    decreases count,
{
    if count == 0 {
        seq![]
    } else {
        numbered_text((count - 1) as nat) + "line "@ + decimal_digits((count - 1) as nat) + "\n"@
    }
}

/// `line 0` to `line {count - 1}`, one per line.
pub fn numbered_lines(count: usize) -> (content: String)
    ensures
        content@ == numbered_text(count as nat),
{
    let mut content = String::new();
    let mut line: usize = 0;
    while line < count
        invariant
            line <= count,
            content@ == numbered_text(line as nat),
        decreases count - line,
    {
        append_text(&mut content, "line ");
        let digits = decimal(line as u64);
        append_text(&mut content, digits.as_str());
        append_text(&mut content, "\n");
        line += 1;
    }
    content
}

} // verus!
