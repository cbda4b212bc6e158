use review_ui::app::{row_background, RowBackground};
use review_ui::app::MenuItem;
use review_ui::app::{
    commit_message_area, ContextMenu, Key, Rect, Selection, SourceLoadMode,
};
use review_ui::layout::{NavigationTabs, PaneLayout, ReviewNavigation};

#[test]
fn only_external_sources_become_files() {
    assert!(SourceLoadMode::External.external());
    assert!(!SourceLoadMode::Preview.external());
    assert_ne!(Key::Char('a'), Key::Char('b'));
}

#[test]
fn selection_range_orders_its_ends() {
    let forward = Selection { anchor: 2, cursor: 5, fixed: false };
    let backward = Selection { anchor: 5, cursor: 2, fixed: true };
    assert_eq!(forward.range(), 2..=5);
    assert_eq!(backward.range(), 2..=5);
}

#[test]
fn context_menu_hit_area_is_clamped_to_the_terminal() {
    let menu = ContextMenu { column: 70, row: 20, selected: 0, enabled: true };
    let bounds = Rect::new(0, 0, 80, 24);
    assert_eq!(menu.area(bounds), Rect::new(58, 19, 22, 5));
    let small = Rect::new(0, 0, 10, 3);
    assert_eq!(menu.area(small), Rect::new(0, 0, 10, 3));
}

#[test]
fn rectangles_stay_within_the_coordinate_range() {
    let rect = Rect::new(65530, 10, 20, 5);
    assert_eq!(rect.width, 5);
    assert_eq!(rect.right(), 65535);
    assert_eq!(rect.bottom(), 15);
}

#[test]
fn commit_message_popup_takes_four_fifths() {
    assert_eq!(
        commit_message_area(Rect::new(0, 0, 100, 50)),
        Rect::new(10, 5, 80, 40)
    );
}

#[test]
fn navigation_tabs_have_exact_click_targets() {
    assert_eq!(NavigationTabs::width(false), 33);
    assert_eq!(NavigationTabs::width(true), 35);
    assert_eq!(NavigationTabs::minimum_pane_width(), 37);
    assert_eq!(NavigationTabs::mode_at(0, false), Some(ReviewNavigation::Files));
    assert_eq!(NavigationTabs::mode_at(8, false), Some(ReviewNavigation::Files));
    assert_eq!(NavigationTabs::mode_at(9, false), None);
    assert_eq!(NavigationTabs::mode_at(10, false), Some(ReviewNavigation::Threads));
    assert_eq!(NavigationTabs::mode_at(21, false), None);
    assert_eq!(NavigationTabs::mode_at(22, true), Some(ReviewNavigation::Threads));
    assert_eq!(NavigationTabs::mode_at(24, true), Some(ReviewNavigation::Explore));
    assert_eq!(NavigationTabs::mode_at(32, false), Some(ReviewNavigation::Explore));
    assert_eq!(NavigationTabs::mode_at(33, false), None);
}

#[test]
fn navigation_layout_keeps_room_for_the_tabs() {
    let layout = PaneLayout::new(100, 20, Some(30));
    assert!(layout.is_wide());
    assert_eq!(layout.file_width, 37);
    assert_eq!(layout.body_height(), 18);
    assert_eq!(layout.page_rows(), 16);
    assert!(layout.is_separator(36, 1));
    let explore = PaneLayout::for_navigation(100, 20, Some(30), ReviewNavigation::Explore);
    assert!(!explore.is_wide());
    assert_eq!(explore.file_width, 100);
    let narrow = PaneLayout::new(60, 10, None);
    assert!(!narrow.is_wide());
    assert_eq!(narrow.file_width, 60);
    let default = PaneLayout::new(200, 10, None);
    assert_eq!(default.file_width, 60);
}

use review_ui::app::{
    DiffControl, ShownFile, BASIC_DIFF_CONTROLS_TITLE, CONTRACT_ALL_LABEL, DIFF_CONTROLS_TITLE,
    EXPAND_ALL_LABEL, FILE_CONTROL_TITLE,
};
use unicode_width::UnicodeWidthStr;

fn shown(file_view: bool, can_show_file: bool) -> Option<ShownFile> {
    Some(ShownFile {
        temporary: false,
        file_view,
        can_show_file,
    })
}

#[test]
fn diff_controls_follow_the_title() {
    assert_eq!(DiffControl::title(None), BASIC_DIFF_CONTROLS_TITLE);
    assert_eq!(DiffControl::title(shown(false, true)), DIFF_CONTROLS_TITLE);
    assert_eq!(DiffControl::title(shown(true, true)), FILE_CONTROL_TITLE);

    let title_width = DIFF_CONTROLS_TITLE.width() as u16;
    let left = 60 - (title_width + 1);
    let file = shown(false, true);
    let expand = EXPAND_ALL_LABEL.width() as u16;
    let contract = CONTRACT_ALL_LABEL.width() as u16;
    let contract_start = left + expand + 1;
    let show_file_start = contract_start + contract + 1;
    assert_eq!(DiffControl::at(60, left - 1, file), None);
    assert_eq!(DiffControl::at(60, left, file), Some(DiffControl::ExpandAll));
    assert_eq!(
        DiffControl::at(60, left + expand - 1, file),
        Some(DiffControl::ExpandAll)
    );
    assert_eq!(DiffControl::at(60, left + expand, file), None);
    assert_eq!(
        DiffControl::at(60, contract_start, file),
        Some(DiffControl::ContractAll)
    );
    assert_eq!(
        DiffControl::at(60, show_file_start, file),
        Some(DiffControl::ShowFile)
    );
    assert_eq!(DiffControl::at(60, 59, file), None);
    let basic_left = 60 - (BASIC_DIFF_CONTROLS_TITLE.width() as u16 + 1);
    assert_eq!(
        DiffControl::at(60, basic_left + expand + 1, shown(false, false)),
        Some(DiffControl::ContractAll)
    );
    assert_eq!(
        DiffControl::at(60, basic_left + expand + contract + 2, shown(false, false)),
        None
    );

    let close_left = 60 - (FILE_CONTROL_TITLE.width() as u16 + 1);
    assert_eq!(
        DiffControl::at(60, close_left, shown(true, true)),
        Some(DiffControl::CloseFile)
    );
    assert_eq!(DiffControl::at(60, 59, shown(true, true)), None);
}

#[test]
fn diff_controls_hide_for_temporary_files_and_narrow_panes() {
    assert!(DiffControl::visible(40, None));
    assert!(!DiffControl::visible(31, None));
    assert!(DiffControl::visible(5, shown(true, true)));
    assert!(!DiffControl::visible(
        40,
        Some(ShownFile {
            temporary: true,
            file_view: false,
            can_show_file: true,
        })
    ));
}

#[test]
fn hover_popup_takes_three_quarters_of_the_area_centred() {
    let popup = review_ui::app::hover_area(Rect::new(0, 0, 80, 24));
    assert_eq!(popup, Rect::new(10, 3, 60, 18));
    let popup = review_ui::app::hover_area(Rect::new(4, 2, 10, 5));
    assert_eq!(popup, Rect::new(5, 3, 7, 3));
    let wide = review_ui::app::hover_area(Rect::new(0, 0, 40000, 4));
    assert_eq!(wide.width, u16::MAX / 4);
}

#[test]
fn context_menu_selection_stays_within_its_entries() {
    let mut menu = ContextMenu { column: 10, row: 5, selected: 0, enabled: false };
    menu.select_previous();
    assert_eq!(menu.selected, 0);
    for _ in 0..4 {
        menu.select_next();
    }
    assert_eq!(menu.selected, 2);
    assert_eq!(menu.chosen(), None);
    menu.enabled = true;
    assert_eq!(menu.chosen(), Some(MenuItem::FindReferences));
    assert_eq!(MenuItem::GoToDefinition.label(), "Go to definition");
}

#[test]
fn context_menu_clicks_pick_the_entry_on_the_row() {
    let menu = ContextMenu { column: 10, row: 5, selected: 0, enabled: true };
    let bounds = Rect::new(0, 0, 80, 24);
    assert_eq!(menu.item_at(bounds, 12, 6), Some(MenuItem::Documentation));
    assert_eq!(menu.item_at(bounds, 12, 8), Some(MenuItem::FindReferences));
    assert_eq!(menu.item_at(bounds, 12, 5), None);
    assert_eq!(menu.item_at(bounds, 12, 9), None);
    assert_eq!(menu.item_at(bounds, 40, 6), None);
    let disabled = ContextMenu { enabled: false, ..menu };
    assert_eq!(disabled.item_at(bounds, 12, 6), None);
}

#[test]
fn diff_controls_have_exact_click_targets() {
    assert!(!DiffControl::visible(31, None));
    assert!(DiffControl::visible(32, None));

    let width = 80;
    let controls = (0..width)
        .filter_map(|column| DiffControl::at(width, column, None).map(|control| (column, control)))
        .collect::<Vec<_>>();
    assert_eq!(
        controls,
        vec![
            (70, DiffControl::ExpandAll),
            (71, DiffControl::ExpandAll),
            (72, DiffControl::ExpandAll),
            (73, DiffControl::ExpandAll),
            (75, DiffControl::ContractAll),
            (76, DiffControl::ContractAll),
            (77, DiffControl::ContractAll),
            (78, DiffControl::ContractAll),
        ]
    );

    let temporary = ShownFile {
        temporary: true,
        file_view: false,
        can_show_file: false,
    };
    assert!(!DiffControl::visible(width, Some(temporary)));
}

#[test]
#[allow(unused_assignments)]
fn context_menu_keys_move_within_bounds_and_escape() {
    let mut menu = Some(ContextMenu {
        column: 10,
        row: 5,
        selected: 0,
        enabled: false,
    });

    menu.as_mut().unwrap().select_previous();
    assert_eq!(menu.as_ref().unwrap().selected, 0);
    for _ in 0..4 {
        menu.as_mut().unwrap().select_next();
    }
    assert_eq!(menu.as_ref().unwrap().selected, 2);
    let chosen = menu.take().and_then(|menu| menu.chosen());
    assert_eq!(chosen, None);
    assert!(menu.is_none());

    menu = Some(ContextMenu {
        column: 10,
        row: 5,
        selected: 1,
        enabled: false,
    });
    menu = None;
    assert!(menu.is_none());
}

#[test]
fn small_terminals_only_show_a_notice() {
    assert!(review_ui::app::terminal_fits(Rect::new(0, 0, 40, 6)));
    assert!(!review_ui::app::terminal_fits(Rect::new(0, 0, 39, 30)));
    assert!(!review_ui::app::terminal_fits(Rect::new(0, 0, 80, 5)));
}

#[test]
fn panes_split_the_body_in_the_wide_layout() {
    let wide = review_ui::app::PaneLayout::new(100, 20, Some(30));
    let body = Rect::new(0, 1, 100, 18);
    assert_eq!(
        review_ui::app::pane_areas(wide, body, review_ui::app::Focus::Diff),
        (Some(Rect::new(0, 1, 30, 18)), Some(Rect::new(30, 1, 70, 18)))
    );
    let narrow = review_ui::app::PaneLayout::new(60, 20, None);
    assert_eq!(
        review_ui::app::pane_areas(narrow, body, review_ui::app::Focus::Files),
        (Some(body), None)
    );
}

#[test]
fn commit_titles_take_the_first_line() {
    assert_eq!(review_ui::app::commit_title("Fix it\r\nmore"), "Fix it");
    assert_eq!(review_ui::app::commit_title("Only line"), "Only line");
    assert_eq!(review_ui::app::commit_title(""), "(no description set)");
    assert_eq!(review_ui::app::commit_title("\nbody"), "(no description set)");
}

#[test]
fn the_revision_selector_fits_its_list() {
    let area = Rect::new(0, 0, 100, 40);
    assert_eq!(review_ui::app::revision_selector_area(area, 3), Rect::new(10, 17, 80, 5));
    assert_eq!(review_ui::app::revision_selector_area(area, 90), Rect::new(10, 4, 80, 32));
    assert_eq!(review_ui::app::revision_selector_scroll(2, 5), 0);
    assert_eq!(review_ui::app::revision_selector_scroll(7, 5), 5);
    assert_eq!(review_ui::app::revision_selector_scroll(0, 1), 0);
}

#[test]
fn the_cursor_row_wins_over_the_selection() {
    let selection = Some(Selection { anchor: 4, cursor: 2, fixed: false });
    assert_eq!(row_background(3, 3, true, selection), RowBackground::Cursor);
    assert_eq!(row_background(3, 3, false, selection), RowBackground::Selection);
    assert_eq!(row_background(4, 2, true, selection), RowBackground::Selection);
    assert_eq!(row_background(5, 2, true, selection), RowBackground::Plain);
    assert_eq!(row_background(5, 2, true, None), RowBackground::Plain);
}
