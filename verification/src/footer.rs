//! The footer: where the output targets sit.

use vstd::prelude::*;

use crate::unicode::{display_width, str_width};

verus! {

/// Text before the output targets in the footer.
pub const OUTPUT_PREFIX: &'static str = "Output: ";

/// Label of the active agent output target.
pub const AGENT_LABEL: &'static str = "[Active agent]";

/// Label of the clipboard output target.
pub const CLIPBOARD_LABEL: &'static str = "[Clipboard]";

/// Where a review is sent.
#[derive(Clone, Copy, Debug, PartialEq, Eq, Structural)]
pub enum OutputTarget {
    ActiveAgent,
    Clipboard,
}

/// The output target under footer column `column`: the agent label after
/// the prefix, then one column later the clipboard label.
pub open spec fn target_at(column: u16) -> Option<OutputTarget> {
    let agent_start = str_width(OUTPUT_PREFIX@) as int;
    let agent_end = agent_start + str_width(AGENT_LABEL@);
    let clipboard_start = agent_end + 1;
    let clipboard_end = clipboard_start + str_width(CLIPBOARD_LABEL@);
    if clipboard_end > u16::MAX {
        None
    } else if agent_start <= column < agent_end {
        Some(OutputTarget::ActiveAgent)
    } else if clipboard_start <= column < clipboard_end {
        Some(OutputTarget::Clipboard)
    } else {
        None
    }
}

/// The output target under footer column `column`.
pub fn output_target_at(column: u16) -> (target: Option<OutputTarget>)
    ensures
        target == target_at(column),
{
    let prefix = display_width(OUTPUT_PREFIX);
    let agent = display_width(AGENT_LABEL);
    let clipboard = display_width(CLIPBOARD_LABEL);
    if prefix > u16::MAX as usize || agent > u16::MAX as usize || clipboard > u16::MAX as usize {
        return None;
    }
    let agent_start = prefix as u32;
    let agent_end = agent_start + agent as u32;
    let clipboard_start = agent_end + 1;
    let clipboard_end = clipboard_start + clipboard as u32;
    if clipboard_end > u16::MAX as u32 {
        return None;
    }
    let column = column as u32;
    if agent_start <= column && column < agent_end {
        Some(OutputTarget::ActiveAgent)
    } else if clipboard_start <= column && column < clipboard_end {
        Some(OutputTarget::Clipboard)
    } else {
        None
    }
}

} // verus!
