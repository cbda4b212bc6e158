//! Rows of a parsed unified diff.

use vstd::prelude::*;

verus! {

/// Why a diff shows a notice instead of lines.
#[derive(Clone, Copy, Debug, PartialEq, Eq, Structural)]
pub enum NoticeKind {
    Binary,
    Conflict,
    Unsupported,
}

/// One row of a unified diff; line numbers are one-based.
#[derive(Clone, Debug, PartialEq, Eq)]
pub enum DiffRow {
    FileHeader { old_path: Option<String>, new_path: Option<String>, text: String },
    Meta { text: String },
    Hunk { old_start: u32, old_count: u32, new_start: u32, new_count: u32 },
    Context { old_line: u32, new_line: u32, text: String },
    Add { new_line: u32, text: String },
    Delete { old_line: u32, text: String },
    Notice { kind: NoticeKind, text: String },
}

} // verus!
