use review_ui::app::Rect;
use review_ui::help::{
    help_area, help_maximum_scroll, numbered_lines, visible_shortcut_count, ShortcutDefinition,
};

fn shortcuts(described: usize, hidden: usize) -> Vec<ShortcutDefinition> {
    let mut shortcuts = Vec::new();
    for index in 0..described {
        shortcuts.push(ShortcutDefinition {
            keys: format!("k{index}"),
            description: Some(format!("shortcut {index}")),
        });
    }
    for index in 0..hidden {
        shortcuts.push(ShortcutDefinition {
            keys: format!("h{index}"),
            description: None,
        });
    }
    shortcuts
}

#[test]
fn only_described_shortcuts_are_listed() {
    assert_eq!(visible_shortcut_count(&shortcuts(5, 3)), 5);
    assert_eq!(visible_shortcut_count(&[]), 0);
}

#[test]
fn the_help_popup_is_centered_and_fits_the_terminal() {
    assert_eq!(
        help_area(Rect::new(0, 0, 100, 40), &shortcuts(10, 2)),
        Rect::new(14, 14, 72, 12)
    );
    assert_eq!(
        help_area(Rect::new(0, 0, 50, 8), &shortcuts(10, 0)),
        Rect::new(0, 0, 50, 8)
    );
}

#[test]
fn the_help_scrolls_over_the_shortcuts_that_do_not_fit() {
    assert_eq!(help_maximum_scroll(8, &shortcuts(10, 0)), 4);
    assert_eq!(help_maximum_scroll(40, &shortcuts(10, 0)), 0);
    assert_eq!(help_maximum_scroll(1, &shortcuts(10, 0)), 10);
}

#[test]
fn numbered_lines_count_from_zero() {
    assert_eq!(numbered_lines(3), "line 0\nline 1\nline 2\n");
    assert_eq!(numbered_lines(0), "");
    assert_eq!(numbered_lines(12).lines().last(), Some("line 11"));
}
