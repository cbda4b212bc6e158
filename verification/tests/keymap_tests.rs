use review_ui::app::{Focus, Key};
use review_ui::keymap::{key_decision, Command, KeyDecision, KeyModes, LspRequest};
use review_ui::presentation::SearchDirection;

fn main_view(focus: Focus) -> KeyModes {
    KeyModes {
        context_menu: false,
        locations: false,
        hover: false,
        search_editing: false,
        awaiting_g: false,
        guide_prefix: None,
        awaiting_review: false,
        focus,
        has_source: true,
    }
}

fn command(key: Key, modes: &KeyModes) -> Command {
    key_decision(key, modes).command
}

#[test]
fn overlays_take_keys_in_order() {
    let mut modes = main_view(Focus::Diff);
    modes.context_menu = true;
    modes.locations = true;
    assert_eq!(command(Key::Char('j'), &modes), Command::MenuDown);
    assert_eq!(command(Key::Enter, &modes), Command::MenuChoose);
    modes.context_menu = false;
    assert_eq!(command(Key::Char('j'), &modes), Command::LocationMove { delta: 1 });
    assert_eq!(command(Key::Char('G'), &modes), Command::LocationLast);
    modes.locations = false;
    modes.hover = true;
    assert_eq!(command(Key::Up, &modes), Command::HoverScroll { down: false });
    modes.hover = false;
    modes.search_editing = true;
    assert_eq!(command(Key::Char('q'), &modes), Command::SearchType { character: 'q' });
    assert_eq!(command(Key::Escape, &modes), Command::SearchCancel);
}

#[test]
fn prefix_keys_wait_for_their_second_key() {
    let modes = main_view(Focus::Diff);
    let armed = key_decision(Key::Char('g'), &modes);
    assert_eq!(
        armed,
        KeyDecision {
            command: Command::Nothing,
            awaiting_g: true,
            guide_prefix: None,
            awaiting_review: false
        }
    );
    let mut waiting = modes;
    waiting.awaiting_g = true;
    let second = key_decision(Key::Char('d'), &waiting);
    assert_eq!(second.command, Command::Lsp { request: LspRequest::Definition });
    assert!(!second.awaiting_g);

    let mut guide = modes;
    guide.guide_prefix = Some(SearchDirection::Forward);
    let jump = key_decision(Key::Char('r'), &guide);
    assert_eq!(jump.command, Command::GuideComment { direction: SearchDirection::Forward });
    assert_eq!(jump.guide_prefix, None);

    let mut review = modes;
    review.awaiting_review = true;
    assert_eq!(command(Key::Char('a'), &review), Command::GenerateGuideForAll);
    assert_eq!(command(Key::Char('x'), &review), Command::Nothing);
}

#[test]
fn source_keys_act_only_in_the_diff_pane() {
    let diff = main_view(Focus::Diff);
    let files = main_view(Focus::Files);
    for key in [Key::Char('h'), Key::Char('l'), Key::Char('w'), Key::Char('b'), Key::Char('0'), Key::Char('$')] {
        assert_eq!(command(key, &files), Command::Nothing);
        assert_ne!(command(key, &diff), Command::Nothing);
    }
    assert_eq!(command(Key::Char('l'), &diff), Command::MoveColumn { forward: true });
    let mut gap = diff;
    gap.has_source = false;
    assert_eq!(command(Key::Char('l'), &gap), Command::ExpandGap);
    assert_eq!(command(Key::Char('v'), &files), Command::Nothing);
    assert_eq!(command(Key::Char('v'), &diff), Command::Visual);
    assert_eq!(command(Key::Enter, &files), Command::OutputSelectedPath);
    assert_eq!(command(Key::Enter, &diff), Command::Insert);
}

#[test]
fn main_view_keys_navigate_search_and_quit() {
    let modes = main_view(Focus::Files);
    assert_eq!(command(Key::Char('q'), &modes), Command::Quit);
    assert_eq!(command(Key::Tab, &modes), Command::SwitchFocus);
    assert_eq!(command(Key::Char('/'), &modes), Command::StartSearch);
    assert_eq!(
        command(Key::Char('p'), &modes),
        Command::RepeatSearch { direction: SearchDirection::Backward }
    );
    assert_eq!(command(Key::Char('k'), &modes), Command::Move { delta: -1 });
    assert_eq!(command(Key::Char('G'), &modes), Command::JumpToLast);
    assert_eq!(command(Key::HalfPageDown, &modes), Command::HalfPage { down: true });
    assert_eq!(command(Key::Char('z'), &modes), Command::Nothing);
}
