use review_ui::app::{Focus, Key, Rect};
use review_ui::layout::{PaneLayout, ReviewPane};
use review_ui::routing::{
    pointer_kind, pointer_position, ComponentArea, ComponentStates, Components, PointerInputKind,
    PointerPosition, PointerRoute, Routing, UserInput,
};

const FILES: u64 = 1;
const DIFF: u64 = 2;
const LOCATIONS: u64 = 3;
const STATUS: u64 = 4;
const OVERLAY: u64 = 5;
const REVISION: u64 = 6;

fn routing() -> Routing {
    Routing {
        components: Components {
            files: FILES,
            diff: DIFF,
            locations: LOCATIONS,
            status: STATUS,
            overlay: OVERLAY,
            revision: REVISION,
        },
        width: 100,
        height: 40,
        file_width: None,
        focus: Focus::Files,
        areas: Vec::new(),
        hovered: None,
        focused: FILES,
        modal: None,
        resize: None,
    }
}

const QUIET: ComponentStates = ComponentStates {
    locations_active: false,
    overlay_modal: false,
    revision_modal: false,
};

#[test]
fn pointer_inputs_have_a_position_and_a_kind() {
    let click = UserInput::MouseClick {
        column: 3,
        row: 4,
        insert_path: true,
    };
    assert_eq!(pointer_position(&click), Some((3, 4)));
    assert_eq!(
        pointer_kind(&click),
        Some(PointerInputKind::Click { insert: true })
    );
    assert_eq!(pointer_position(&UserInput::MouseRelease), None);
    assert_eq!(
        pointer_kind(&UserInput::MouseRelease),
        Some(PointerInputKind::Release)
    );
    assert_eq!(pointer_kind(&UserInput::Key(Key::Quit)), None);
    assert_eq!(
        pointer_kind(&UserInput::MouseScroll {
            column: 0,
            row: 0,
            delta: -3
        }),
        Some(PointerInputKind::Scroll(-3))
    );
}

#[test]
fn component_areas_follow_the_pane_layout() {
    let mut routing = routing();
    let sizes = routing.synchronize_component_areas(QUIET);

    assert_eq!(sizes.files_rows, Some(36));
    assert_eq!(sizes.diff_width, 61);
    assert_eq!(sizes.diff_height, 36);
    assert_eq!(
        routing.areas,
        vec![
            ComponentArea {
                target: FILES,
                area: Rect::new(1, 2, 35, 36),
            },
            ComponentArea {
                target: DIFF,
                area: Rect::new(37, 1, 63, 38),
            },
            ComponentArea {
                target: STATUS,
                area: Rect::new(0, 0, 100, 1),
            },
            ComponentArea {
                target: STATUS,
                area: Rect::new(0, 39, 100, 1),
            },
        ]
    );

    routing.synchronize_component_areas(ComponentStates {
        locations_active: true,
        overlay_modal: false,
        revision_modal: true,
    });
    assert_eq!(routing.areas.len(), 6);
    assert_eq!(routing.component_area_at(50, 10).unwrap().target, REVISION);
}

#[test]
fn clicks_move_the_focus_and_reach_the_component_under_the_pointer() {
    let mut routing = routing();
    routing.synchronize_component_areas(QUIET);

    let route = routing.route_pointer(&UserInput::MouseClick {
        column: 50,
        row: 10,
        insert_path: false,
    });
    assert_eq!(
        route,
        PointerRoute::Deliver {
            target: DIFF,
            kind: PointerInputKind::Click { insert: false },
            position: Some(PointerPosition {
                terminal_column: 50,
                terminal_row: 10,
                component_column: 13,
                component_row: 9,
            }),
        }
    );
    assert_eq!(routing.focus, Focus::Diff);
    assert_eq!(routing.focused, DIFF);
    assert_eq!(routing.hovered, Some(DIFF));

    let release = routing.route_pointer(&UserInput::MouseRelease);
    assert_eq!(
        release,
        PointerRoute::Deliver {
            target: DIFF,
            kind: PointerInputKind::Release,
            position: None,
        }
    );
    assert_eq!(routing.hovered, None);
    assert_eq!(
        routing.route_pointer(&UserInput::MouseRelease),
        PointerRoute::Ignored
    );

    routing.route_pointer(&UserInput::MouseDoubleClick { column: 5, row: 5 });
    assert_eq!(routing.focus, Focus::Files);
    assert_eq!(routing.focused, FILES);
}

#[test]
fn dragging_the_pane_boundary_resizes_and_saves_the_width() {
    let mut routing = routing();
    routing.synchronize_component_areas(QUIET);

    assert_eq!(
        routing.route_pointer(&UserInput::MouseClick {
            column: 37,
            row: 5,
            insert_path: false,
        }),
        PointerRoute::Resizing
    );
    assert_eq!(
        routing.route_pointer(&UserInput::MouseDrag { column: 50, row: 5 }),
        PointerRoute::Resizing
    );
    assert_eq!(routing.file_width, Some(50));
    assert_eq!(
        routing.route_pointer(&UserInput::MouseDrag { column: 99, row: 5 }),
        PointerRoute::Resizing
    );
    assert_eq!(routing.file_width, Some(84));
    assert_eq!(
        routing.route_pointer(&UserInput::MouseRelease),
        PointerRoute::SaveFilePaneWidth(84)
    );
    assert_eq!(routing.resize, None);
}

#[test]
fn modal_components_take_the_keyboard() {
    let mut routing = routing();
    routing.focus = Focus::Diff;
    routing.synchronize_input_routing(QUIET);
    assert_eq!(routing.modal, None);
    assert_eq!(routing.focused, DIFF);

    routing.synchronize_input_routing(ComponentStates {
        locations_active: true,
        overlay_modal: true,
        revision_modal: false,
    });
    assert_eq!(routing.modal, Some(OVERLAY));
    assert_eq!(routing.focused, DIFF);
}

#[test]
fn the_files_pane_shows_in_the_narrow_layout_only_with_the_focus() {
    let wide = PaneLayout::new(100, 40, None);
    assert_eq!(
        wide.files_content_area(ReviewPane::Detail),
        Some(Rect::new(1, 2, 35, 36))
    );
    let narrow = PaneLayout::new(60, 20, None);
    assert_eq!(narrow.files_content_area(ReviewPane::Detail), None);
    assert_eq!(
        narrow.files_content_area(ReviewPane::Navigation),
        Some(Rect::new(1, 2, 58, 16))
    );
}

#[test]
fn resize_drag_clamps_at_the_right_pane_minimum_width() {
    let mut routing = routing();
    routing.height = 20;
    routing.file_width = Some(30);
    routing.focus = Focus::Diff;
    routing.resize = Some(false);

    assert!(routing.file_pane_resize(&UserInput::MouseDrag { column: 95, row: 3 }));

    assert_eq!(routing.file_width, Some(84));
}

#[test]
fn laid_out_areas_give_each_component_its_place() {
    let mut routing = routing();
    let states = ComponentStates {
        locations_active: false,
        overlay_modal: true,
        revision_modal: false,
    };
    routing.synchronize_component_areas(states);
    let areas_of = |target: u64| {
        routing
            .areas
            .iter()
            .filter(|area| area.target == target)
            .map(|area| area.area)
            .collect::<Vec<_>>()
    };
    assert_eq!(
        areas_of(STATUS),
        vec![Rect::new(0, 0, 100, 1), Rect::new(0, 39, 100, 1)]
    );
    assert_eq!(areas_of(DIFF).len(), 1);
    assert_eq!(areas_of(FILES).len(), 1);
    assert_eq!(areas_of(LOCATIONS).len(), 0);
    assert_eq!(routing.component_area_at(50, 20).map(|area| area.target), Some(OVERLAY));
    routing.synchronize_component_areas(QUIET);
    assert_eq!(areas_of_after(&routing, DIFF), 1);
}

fn areas_of_after(routing: &Routing, target: u64) -> usize {
    routing.areas.iter().filter(|area| area.target == target).count()
}

#[test]
fn placing_and_dropping_components_keeps_one_area_each() {
    let mut routing = routing();
    routing.place_component(FILES, Rect::new(0, 0, 5, 5), 0);
    routing.place_component(FILES, Rect::new(1, 1, 5, 5), 0);
    routing.place_component(DIFF, Rect::new(5, 0, 5, 5), 1);
    assert_eq!(areas_of_after(&routing, FILES), 1);
    assert_eq!(areas_of_after(&routing, DIFF), 1);
    assert_eq!(routing.component_area_at(1, 1).map(|area| area.target), Some(FILES));
    routing.drop_component(FILES);
    assert_eq!(areas_of_after(&routing, FILES), 0);
}
