use review_ui::app::{Focus, PaneLayout, Rect};
use review_ui::layout::{
    body_panes, location_selector_widths, navigation_content, tabs_area, BodyPanes, NavigationContent,
    PaneLayout as NavigationLayout, ReviewNavigation, ReviewPane,
};

#[test]
fn pane_layout_defines_all_visible_and_interactive_boundaries() {
    let wide = PaneLayout::new(100, 20, Some(30));
    assert!(wide.is_wide());
    assert_eq!(wide.file_width, 30);
    assert_eq!(wide.body_height(), 18);
    assert_eq!(wide.page_rows(), 16);
    assert_eq!(wide.diff_content_width(), 68);
    assert_eq!(wide.diff_content_start_column(), 31);

    assert!(wide.contains_body(0, 1));
    assert!(wide.contains_body(99, 17));
    assert!(!wide.contains_body(100, 1));
    assert!(!wide.contains_body(0, 0));
    assert!(wide.contains_body(0, 18));
    assert!(!wide.contains_body(0, 19));
    assert!(!wide.contains_pane_content(1));
    assert!(wide.contains_pane_content(2));
    assert!(wide.contains_pane_content(16));
    assert!(wide.contains_pane_content(17));
    assert!(!wide.contains_pane_content(18));

    assert_eq!(wide.focus_at(Focus::Diff, 29, 1), Some(Focus::Files));
    assert_eq!(wide.focus_at(Focus::Files, 30, 1), Some(Focus::Diff));
    assert_eq!(wide.focus_at(Focus::Files, 30, 0), None);
    assert!(!wide.is_separator(28, 1));
    assert!(wide.is_separator(29, 1));
    assert!(wide.is_separator(30, 1));
    assert!(wide.is_separator(31, 1));
    assert!(!wide.is_separator(30, 0));

    let narrow = PaneLayout::new(60, 10, Some(30));
    assert!(!narrow.is_wide());
    assert_eq!(narrow.file_width, 60);
    assert_eq!(narrow.diff_content_width(), 58);
    assert_eq!(narrow.diff_content_start_column(), 1);
    assert_eq!(narrow.focus_at(Focus::Files, 59, 1), Some(Focus::Files));
    assert_eq!(narrow.focus_at(Focus::Diff, 59, 1), Some(Focus::Diff));
}

#[test]
fn frames_split_into_header_body_and_footer() {
    let layout = NavigationLayout::new(100, 40, None);
    let regions = layout.regions(Rect::new(0, 0, 100, 40));
    assert_eq!(regions.header, Rect::new(0, 0, 100, 1));
    assert_eq!(regions.body, Rect::new(0, 1, 100, 38));
    assert_eq!(regions.footer, Rect::new(0, 39, 100, 1));
}

#[test]
fn body_panes_follow_the_navigation_and_the_layout() {
    let wide = NavigationLayout::new(100, 40, None);
    let narrow = NavigationLayout::new(60, 40, None);
    assert_eq!(
        body_panes(wide, ReviewNavigation::Files, false, ReviewPane::Detail),
        BodyPanes::Split
    );
    assert_eq!(
        body_panes(narrow, ReviewNavigation::Threads, false, ReviewPane::Detail),
        BodyPanes::Detail
    );
    assert_eq!(
        body_panes(narrow, ReviewNavigation::Files, true, ReviewPane::Navigation),
        BodyPanes::Navigation
    );
    assert_eq!(
        body_panes(wide, ReviewNavigation::Explore, true, ReviewPane::Navigation),
        BodyPanes::LocationsBesideExplore
    );
    assert_eq!(
        body_panes(wide, ReviewNavigation::Explore, false, ReviewPane::Detail),
        BodyPanes::Explore
    );
    assert_eq!(
        navigation_content(ReviewNavigation::Threads, false),
        NavigationContent::Threads
    );
    assert_eq!(
        navigation_content(ReviewNavigation::Threads, true),
        NavigationContent::Locations
    );
}

#[test]
fn the_tab_row_stays_inside_the_pane_borders() {
    assert_eq!(tabs_area(Rect::new(0, 1, 60, 20), false), Rect::new(1, 1, 33, 1));
    assert_eq!(tabs_area(Rect::new(0, 1, 60, 20), true), Rect::new(1, 1, 35, 1));
    assert_eq!(tabs_area(Rect::new(4, 1, 20, 20), true), Rect::new(5, 1, 18, 1));
}

#[test]
fn the_location_list_takes_its_preferred_width() {
    assert_eq!(location_selector_widths(Rect::new(0, 1, 100, 20), None), (30, 24));
    assert_eq!(location_selector_widths(Rect::new(0, 1, 40, 20), None), (18, 20));
    assert_eq!(location_selector_widths(Rect::new(0, 1, 100, 20), Some(50)), (50, 24));
}
