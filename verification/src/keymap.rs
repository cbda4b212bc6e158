//! What a key does in the review: the command it asks for, given the open
//! overlays, the pending prefix keys and the focused pane.

use vstd::prelude::*;

use crate::app::{Focus, Key};
use crate::presentation::SearchDirection;

verus! {

/// A language-server request.
#[derive(Clone, Copy, Debug, PartialEq, Eq, Structural)]
pub enum LspRequest {
    Hover,
    Definition,
    References,
}

/// What a key asks the review to do.
#[derive(Clone, Copy, Debug, PartialEq, Eq, Structural)]
pub enum Command {
    Nothing,
    MenuClose,
    MenuDown,
    MenuUp,
    MenuChoose,
    LocationsClose,
    LocationAccept,
    LocationMove { delta: isize },
    LocationFirst,
    LocationLast,
    HoverClose,
    HoverScroll { down: bool },
    SearchType { character: char },
    SearchErase,
    SearchAccept,
    SearchCancel,
    JumpToFirst,
    JumpToLast,
    Lsp { request: LspRequest },
    RestartLsp,
    GuideComment { direction: SearchDirection },
    GenerateGuideForFile,
    GenerateGuideForAll,
    StartSearch,
    RepeatSearch { direction: SearchDirection },
    Quit,
    ToggleCommitMessage,
    SwitchFocus,
    ClearTransient,
    OutputSelectedPath,
    Insert,
    ToggleOutputTarget,
    ToggleReview,
    Visual,
    MoveColumn { forward: bool },
    ExpandGap,
    MoveWord { forward: bool },
    ColumnStart,
    ColumnEnd,
    Move { delta: isize },
    HalfPage { down: bool },
    PreviousLocation,
    NextLocation,
}

/// The modes that decide what a key does.
#[derive(Clone, Copy, Debug, PartialEq, Eq, Structural)]
pub struct KeyModes {
    pub context_menu: bool,
    pub locations: bool,
    pub hover: bool,
    pub search_editing: bool,
    /// `g` was pressed and waits for its second key.
    pub awaiting_g: bool,
    /// `[` or `]` was pressed and waits for its second key.
    pub guide_prefix: Option<SearchDirection>,
    /// `r` was pressed and waits for its second key.
    pub awaiting_review: bool,
    pub focus: Focus,
    /// Whether the cursor row has source text on disk.
    pub has_source: bool,
}

/// A key's command and the prefix keys left pending after it.
#[derive(Clone, Copy, Debug, PartialEq, Eq, Structural)]
pub struct KeyDecision {
    pub command: Command,
    pub awaiting_g: bool,
    pub guide_prefix: Option<SearchDirection>,
    pub awaiting_review: bool,
}

pub open spec fn is_char(key: Key, c: char) -> bool {
    key == Key::Char(c)
}

/// Keys in the context menu.
pub open spec fn menu_command(key: Key) -> Command {
    if key == Key::Escape {
        Command::MenuClose
    } else if key == Key::Down || is_char(key, 'j') {
        Command::MenuDown
    } else if key == Key::Up || is_char(key, 'k') {
        Command::MenuUp
    } else if key == Key::Enter {
        Command::MenuChoose
    } else {
        Command::Nothing
    }
}

/// Keys in the list of language-server locations.
pub open spec fn locations_command(key: Key) -> Command {
    if key == Key::Escape {
        Command::LocationsClose
    } else if key == Key::Enter {
        Command::LocationAccept
    } else if key == Key::Down || is_char(key, 'j') {
        Command::LocationMove { delta: 1 }
    } else if key == Key::Up || is_char(key, 'k') {
        Command::LocationMove { delta: -1isize }
    } else if key == Key::First || is_char(key, 'g') {
        Command::LocationFirst
    } else if key == Key::Last || is_char(key, 'G') {
        Command::LocationLast
    } else {
        Command::Nothing
    }
}

/// Keys in the hover documentation.
pub open spec fn hover_command(key: Key) -> Command {
    if key == Key::Escape {
        Command::HoverClose
    } else if key == Key::Down || is_char(key, 'j') {
        Command::HoverScroll { down: true }
    } else if key == Key::Up || is_char(key, 'k') {
        Command::HoverScroll { down: false }
    } else {
        Command::Nothing
    }
}

/// Keys while a search query is typed.
pub open spec fn search_command(key: Key) -> Command {
    match key {
        Key::Char(character) => Command::SearchType { character },
        Key::Backspace => Command::SearchErase,
        Key::Enter => Command::SearchAccept,
        Key::Escape => Command::SearchCancel,
        _ => Command::Nothing,
    }
}

/// The second key after `g`.
pub open spec fn g_command(key: Key) -> Command {
    if is_char(key, 'g') {
        Command::JumpToFirst
    } else if is_char(key, 'd') {
        Command::Lsp { request: LspRequest::Definition }
    } else if is_char(key, 'r') {
        Command::Lsp { request: LspRequest::References }
    } else if is_char(key, 'R') {
        Command::RestartLsp
    } else {
        Command::Nothing
    }
}

/// The second key after `[` or `]`.
pub open spec fn guide_command(key: Key, direction: SearchDirection) -> Command {
    if is_char(key, 'r') {
        Command::GuideComment { direction }
    } else {
        Command::Nothing
    }
}

/// The second key after `r`.
pub open spec fn review_command(key: Key) -> Command {
    if is_char(key, 'f') {
        Command::GenerateGuideForFile
    } else if is_char(key, 'a') {
        Command::GenerateGuideForAll
    } else {
        Command::Nothing
    }
}

/// Keys of the main view that act the same in either pane.
pub open spec fn general_command(key: Key) -> Option<Command> {
    if is_char(key, '/') {
        Some(Command::StartSearch)
    } else if is_char(key, 'n') {
        Some(Command::RepeatSearch { direction: SearchDirection::Forward })
    } else if is_char(key, 'p') {
        Some(Command::RepeatSearch { direction: SearchDirection::Backward })
    } else if key == Key::Quit || is_char(key, 'q') {
        Some(Command::Quit)
    } else if key == Key::CommitMessage || is_char(key, 'c') {
        Some(Command::ToggleCommitMessage)
    } else if key == Key::Tab {
        Some(Command::SwitchFocus)
    } else if key == Key::Escape {
        Some(Command::ClearTransient)
    } else {
        None
    }
}

/// Keys of the main view that act on the selection or the review.
pub open spec fn interaction_command(key: Key, focus: Focus) -> Option<Command> {
    if key == Key::Enter {
        if focus == Focus::Files {
            Some(Command::OutputSelectedPath)
        } else {
            Some(Command::Insert)
        }
    } else if is_char(key, 'o') {
        Some(Command::ToggleOutputTarget)
    } else if key == Key::Space || is_char(key, ' ') {
        Some(Command::ToggleReview)
    } else if (key == Key::Visual || is_char(key, 'v') || is_char(key, 'V')) && focus == Focus::Diff {
        Some(Command::Visual)
    } else if is_char(key, 'K') && focus == Focus::Diff {
        Some(Command::Lsp { request: LspRequest::Hover })
    } else {
        None
    }
}

/// Keys that move within the source line of the diff cursor.
pub open spec fn source_command(key: Key, focus: Focus, has_source: bool) -> Option<Command> {
    if focus != Focus::Diff {
        None
    } else if is_char(key, 'h') {
        Some(Command::MoveColumn { forward: false })
    } else if key == Key::Expand || is_char(key, 'l') {
        if has_source {
            Some(Command::MoveColumn { forward: true })
        } else {
            Some(Command::ExpandGap)
        }
    } else if is_char(key, 'w') {
        Some(Command::MoveWord { forward: true })
    } else if is_char(key, 'b') {
        Some(Command::MoveWord { forward: false })
    } else if is_char(key, '0') {
        Some(Command::ColumnStart)
    } else if is_char(key, '$') {
        Some(Command::ColumnEnd)
    } else {
        None
    }
}

/// Keys that move the cursor of the focused pane.
pub open spec fn navigation_command(key: Key) -> Command {
    if key == Key::Down || is_char(key, 'j') {
        Command::Move { delta: 1 }
    } else if key == Key::Up || is_char(key, 'k') {
        Command::Move { delta: -1isize }
    } else if key == Key::First {
        Command::JumpToFirst
    } else if key == Key::Last || is_char(key, 'G') {
        Command::JumpToLast
    } else if key == Key::HalfPageDown {
        Command::HalfPage { down: true }
    } else if key == Key::HalfPageUp {
        Command::HalfPage { down: false }
    } else if key == Key::PreviousLocation {
        Command::PreviousLocation
    } else if key == Key::NextLocation {
        Command::NextLocation
    } else {
        Command::Nothing
    }
}

/// Whether `key` starts a two-key command in the main view.
pub open spec fn is_prefix_key(key: Key) -> bool {
    is_char(key, 'g') || is_char(key, 'r') || is_char(key, '[') || is_char(key, ']')
}

/// A key in the main view: the first of these that takes the key.
pub open spec fn main_decision(key: Key, modes: KeyModes) -> KeyDecision {
    let unchanged = KeyDecision {
        command: Command::Nothing,
        awaiting_g: false,
        guide_prefix: None,
        awaiting_review: false,
    };
    if let Some(command) = general_command(key) {
        KeyDecision { command, ..unchanged }
    } else if let Some(command) = interaction_command(key, modes.focus) {
        KeyDecision { command, ..unchanged }
    } else if is_char(key, 'g') {
        KeyDecision { awaiting_g: true, ..unchanged }
    } else if is_char(key, 'r') {
        KeyDecision { awaiting_review: true, ..unchanged }
    } else if is_char(key, '[') {
        KeyDecision { guide_prefix: Some(SearchDirection::Backward), ..unchanged }
    } else if is_char(key, ']') {
        KeyDecision { guide_prefix: Some(SearchDirection::Forward), ..unchanged }
    } else if let Some(command) = source_command(key, modes.focus, modes.has_source) {
        KeyDecision { command, ..unchanged }
    } else {
        KeyDecision { command: navigation_command(key), ..unchanged }
    }
}

/// What `key` does: the context menu, the location list, the hover and a
/// search being typed take every key in that order; then a pending prefix
/// key takes it as its second key; else the main view handles it.
pub open spec fn decision_of(key: Key, modes: KeyModes) -> KeyDecision {
    let kept = KeyDecision {
        command: Command::Nothing,
        awaiting_g: modes.awaiting_g,
        guide_prefix: modes.guide_prefix,
        awaiting_review: modes.awaiting_review,
    };
    if modes.context_menu {
        KeyDecision { command: menu_command(key), ..kept }
    } else if modes.locations {
        KeyDecision { command: locations_command(key), ..kept }
    } else if modes.hover {
        KeyDecision { command: hover_command(key), ..kept }
    } else if modes.search_editing {
        KeyDecision { command: search_command(key), ..kept }
    } else if modes.awaiting_g {
        KeyDecision { command: g_command(key), awaiting_g: false, ..kept }
    } else if let Some(direction) = modes.guide_prefix {
        KeyDecision { command: guide_command(key, direction), guide_prefix: None, ..kept }
    } else if modes.awaiting_review {
        KeyDecision { command: review_command(key), awaiting_review: false, ..kept }
    } else {
        main_decision(key, modes)
    }
}

fn menu_key(key: Key) -> (command: Command)
    ensures
        command == menu_command(key),
{
    match key {
        Key::Escape => Command::MenuClose,
        Key::Down | Key::Char('j') => Command::MenuDown,
        Key::Up | Key::Char('k') => Command::MenuUp,
        Key::Enter => Command::MenuChoose,
        _ => Command::Nothing,
    }
}

fn locations_key(key: Key) -> (command: Command)
    ensures
        command == locations_command(key),
{
    match key {
        Key::Escape => Command::LocationsClose,
        Key::Enter => Command::LocationAccept,
        Key::Down | Key::Char('j') => Command::LocationMove { delta: 1 },
        Key::Up | Key::Char('k') => Command::LocationMove { delta: -1 },
        Key::First | Key::Char('g') => Command::LocationFirst,
        Key::Last | Key::Char('G') => Command::LocationLast,
        _ => Command::Nothing,
    }
}

fn hover_key(key: Key) -> (command: Command)
    ensures
        command == hover_command(key),
{
    match key {
        Key::Escape => Command::HoverClose,
        Key::Down | Key::Char('j') => Command::HoverScroll { down: true },
        Key::Up | Key::Char('k') => Command::HoverScroll { down: false },
        _ => Command::Nothing,
    }
}

fn search_key(key: Key) -> (command: Command)
    ensures
        command == search_command(key),
{
    match key {
        Key::Char(character) => Command::SearchType { character },
        Key::Backspace => Command::SearchErase,
        Key::Enter => Command::SearchAccept,
        Key::Escape => Command::SearchCancel,
        _ => Command::Nothing,
    }
}

fn g_key(key: Key) -> (command: Command)
    ensures
        command == g_command(key),
{
    match key {
        Key::Char('g') => Command::JumpToFirst,
        Key::Char('d') => Command::Lsp { request: LspRequest::Definition },
        Key::Char('r') => Command::Lsp { request: LspRequest::References },
        Key::Char('R') => Command::RestartLsp,
        _ => Command::Nothing,
    }
}

fn guide_key(key: Key, direction: SearchDirection) -> (command: Command)
    ensures
        command == guide_command(key, direction),
{
    match key {
        Key::Char('r') => Command::GuideComment { direction },
        _ => Command::Nothing,
    }
}

fn review_key(key: Key) -> (command: Command)
    ensures
        command == review_command(key),
{
    match key {
        Key::Char('f') => Command::GenerateGuideForFile,
        Key::Char('a') => Command::GenerateGuideForAll,
        _ => Command::Nothing,
    }
}

fn general_key(key: Key) -> (command: Option<Command>)
    ensures
        command == general_command(key),
{
    match key {
        Key::Char('/') => Some(Command::StartSearch),
        Key::Char('n') => Some(Command::RepeatSearch { direction: SearchDirection::Forward }),
        Key::Char('p') => Some(Command::RepeatSearch { direction: SearchDirection::Backward }),
        Key::Quit | Key::Char('q') => Some(Command::Quit),
        Key::CommitMessage | Key::Char('c') => Some(Command::ToggleCommitMessage),
        Key::Tab => Some(Command::SwitchFocus),
        Key::Escape => Some(Command::ClearTransient),
        _ => None,
    }
}

fn interaction_key(key: Key, focus: Focus) -> (command: Option<Command>)
    ensures
        command == interaction_command(key, focus),
{
    let diff = match focus {
        Focus::Diff => true,
        Focus::Files => false,
    };
    match key {
        Key::Enter => if diff {
            Some(Command::Insert)
        } else {
            Some(Command::OutputSelectedPath)
        },
        Key::Char('o') => Some(Command::ToggleOutputTarget),
        Key::Space | Key::Char(' ') => Some(Command::ToggleReview),
        Key::Visual if diff => Some(Command::Visual),
        Key::Char('v') if diff => Some(Command::Visual),
        Key::Char('V') if diff => Some(Command::Visual),
        Key::Char('K') if diff => Some(Command::Lsp { request: LspRequest::Hover }),
        _ => None,
    }
}

fn source_key(key: Key, focus: Focus, has_source: bool) -> (command: Option<Command>)
    ensures
        command == source_command(key, focus, has_source),
{
    match focus {
        Focus::Files => return None,
        Focus::Diff => {},
    }
    match key {
        Key::Char('h') => Some(Command::MoveColumn { forward: false }),
        Key::Expand | Key::Char('l') => if has_source {
            Some(Command::MoveColumn { forward: true })
        } else {
            Some(Command::ExpandGap)
        },
        Key::Char('w') => Some(Command::MoveWord { forward: true }),
        Key::Char('b') => Some(Command::MoveWord { forward: false }),
        Key::Char('0') => Some(Command::ColumnStart),
        Key::Char('$') => Some(Command::ColumnEnd),
        _ => None,
    }
}

fn navigation_key(key: Key) -> (command: Command)
    ensures
        command == navigation_command(key),
{
    match key {
        Key::Down | Key::Char('j') => Command::Move { delta: 1 },
        Key::Up | Key::Char('k') => Command::Move { delta: -1 },
        Key::First => Command::JumpToFirst,
        Key::Last | Key::Char('G') => Command::JumpToLast,
        Key::HalfPageDown => Command::HalfPage { down: true },
        Key::HalfPageUp => Command::HalfPage { down: false },
        Key::PreviousLocation => Command::PreviousLocation,
        Key::NextLocation => Command::NextLocation,
        _ => Command::Nothing,
    }
}

fn main_view_key(key: Key, modes: &KeyModes) -> (decision: KeyDecision)
    ensures
        decision == main_decision(key, *modes),
{
    let unchanged = KeyDecision {
        command: Command::Nothing,
        awaiting_g: false,
        guide_prefix: None,
        awaiting_review: false,
    };
    if let Some(command) = general_key(key) {
        return KeyDecision { command, ..unchanged };
    }
    if let Some(command) = interaction_key(key, modes.focus) {
        return KeyDecision { command, ..unchanged };
    }
    match key {
        Key::Char('g') => return KeyDecision { awaiting_g: true, ..unchanged },
        Key::Char('r') => return KeyDecision { awaiting_review: true, ..unchanged },
        Key::Char('[') => return KeyDecision {
            guide_prefix: Some(SearchDirection::Backward),
            ..unchanged
        },
        Key::Char(']') => return KeyDecision {
            guide_prefix: Some(SearchDirection::Forward),
            ..unchanged
        },
        _ => {},
    }
    if let Some(command) = source_key(key, modes.focus, modes.has_source) {
        return KeyDecision { command, ..unchanged };
    }
    KeyDecision { command: navigation_key(key), ..unchanged }
}

/// What `key` does in the modes `modes`.
pub fn key_decision(key: Key, modes: &KeyModes) -> (decision: KeyDecision)
    ensures
        decision == decision_of(key, *modes),
{
    let kept = KeyDecision {
        command: Command::Nothing,
        awaiting_g: modes.awaiting_g,
        guide_prefix: modes.guide_prefix,
        awaiting_review: modes.awaiting_review,
    };
    if modes.context_menu {
        KeyDecision { command: menu_key(key), ..kept }
    } else if modes.locations {
        KeyDecision { command: locations_key(key), ..kept }
    } else if modes.hover {
        KeyDecision { command: hover_key(key), ..kept }
    } else if modes.search_editing {
        KeyDecision { command: search_key(key), ..kept }
    } else if modes.awaiting_g {
        KeyDecision { command: g_key(key), awaiting_g: false, ..kept }
    } else if let Some(direction) = modes.guide_prefix {
        KeyDecision { command: guide_key(key, direction), guide_prefix: None, ..kept }
    } else if modes.awaiting_review {
        KeyDecision { command: review_key(key), awaiting_review: false, ..kept }
    } else {
        main_view_key(key, modes)
    }
}

/// Whether any overlay, or a search being typed, takes the keys.
pub open spec fn overlay_takes_keys(modes: KeyModes) -> bool {
    modes.context_menu || modes.locations || modes.hover || modes.search_editing
}

/// While an overlay or a search being typed takes the keys, no key arms
/// or disarms a prefix key.
pub proof fn law_overlays_leave_prefix_keys_alone(key: Key, modes: KeyModes)
    requires
        overlay_takes_keys(modes),
    ensures
        decision_of(key, modes).awaiting_g == modes.awaiting_g,
        decision_of(key, modes).guide_prefix == modes.guide_prefix,
        decision_of(key, modes).awaiting_review == modes.awaiting_review,
{
}

/// How many prefix keys are pending.
pub open spec fn pending_prefixes(awaiting_g: bool, guide_prefix: Option<SearchDirection>, awaiting_review: bool) -> int {
    (if awaiting_g { 1int } else { 0 }) + (if guide_prefix is Some { 1int } else { 0 }) + (if awaiting_review {
        1int
    } else {
        0
    })
}

/// A prefix key waits for exactly one more key: outside the overlays, a
/// key leaves at most one prefix pending, and one only when it was itself
/// a prefix key pressed with none pending; it then asks for nothing else.
pub proof fn law_prefix_keys_wait_for_one_key(key: Key, modes: KeyModes)
    requires
        !overlay_takes_keys(modes),
        pending_prefixes(modes.awaiting_g, modes.guide_prefix, modes.awaiting_review) <= 1,
    ensures
        ({
            let after = decision_of(key, modes);
            let pending = pending_prefixes(after.awaiting_g, after.guide_prefix, after.awaiting_review);
            &&& pending <= 1
            &&& pending == 1 ==> is_prefix_key(key) && pending_prefixes(
                modes.awaiting_g,
                modes.guide_prefix,
                modes.awaiting_review,
            ) == 0
            &&& pending == 1 ==> after.command == Command::Nothing
        }),
{
}

/// In the main view with nothing pending, `q` and the quit key quit.
pub proof fn law_quit_keys_quit(modes: KeyModes)
    requires
        !overlay_takes_keys(modes),
        !modes.awaiting_g,
        modes.guide_prefix is None,
        !modes.awaiting_review,
    ensures
        decision_of(Key::Quit, modes).command == Command::Quit,
        decision_of(Key::Char('q'), modes).command == Command::Quit,
{
}

} // verus!

verus! {

/// In the main view with nothing pending, whichever pane has the focus, the
/// down keys (`Down`, `j`) move the cursor one row down and the up keys
/// (`Up`, `k`) one row up: opposite moves of one row each.
pub proof fn law_down_and_up_keys_move_one_row(modes: KeyModes)
    requires
        !overlay_takes_keys(modes),
        !modes.awaiting_g,
        modes.guide_prefix is None,
        !modes.awaiting_review,
    ensures
        decision_of(Key::Down, modes).command == (Command::Move { delta: 1 }),
        decision_of(Key::Char('j'), modes).command == (Command::Move { delta: 1 }),
        decision_of(Key::Up, modes).command == (Command::Move { delta: -1isize }),
        decision_of(Key::Char('k'), modes).command == (Command::Move { delta: -1isize }),
{
}

} // verus!
