//! Where each component sits on screen, and which component a pointer
//! input goes to.

use vstd::prelude::*;

use crate::app::{sat_sub, Focus, Key, Rect};
use crate::layout::{PaneLayout, ReviewPane, NARROW_WIDTH};

verus! {

/// One normalized terminal input.
#[derive(Clone, Copy, Debug, PartialEq, Eq, Structural)]
pub enum UserInput {
    Resize { width: u16, height: u16 },
    MouseScroll { column: u16, row: u16, delta: isize },
    MouseClick { column: u16, row: u16, insert_path: bool },
    MouseControlClick { column: u16, row: u16 },
    MouseDoubleClick { column: u16, row: u16 },
    MouseRightClick { column: u16, row: u16 },
    MouseDrag { column: u16, row: u16 },
    MouseRelease,
    Key(Key),
}

/// What a pointer input does.
#[derive(Clone, Copy, Debug, PartialEq, Eq, Structural)]
pub enum PointerInputKind {
    Scroll(isize),
    Click { insert: bool },
    ControlClick,
    DoubleClick,
    RightClick,
    Drag,
    Release,
}

/// Where a pointer input happened, on the terminal and within the component
/// under it.
#[derive(Clone, Copy, Debug, PartialEq, Eq, Structural)]
pub struct PointerPosition {
    pub terminal_column: u16,
    pub terminal_row: u16,
    pub component_column: u16,
    pub component_row: u16,
}

/// The screen area of one mounted component.
#[derive(Clone, Copy, Debug, PartialEq, Eq, Structural)]
pub struct ComponentArea {
    pub target: u64,
    pub area: Rect,
}

/// The mounted components that take screen areas.
#[derive(Clone, Copy, Debug, PartialEq, Eq, Structural)]
pub struct Components {
    pub files: u64,
    pub diff: u64,
    pub locations: u64,
    pub status: u64,
    pub overlay: u64,
    pub revision: u64,
}

/// Whether the components that come and go are showing.
#[derive(Clone, Copy, Debug, PartialEq, Eq, Structural)]
pub struct ComponentStates {
    pub locations_active: bool,
    pub overlay_modal: bool,
    pub revision_modal: bool,
}

/// The viewport sizes to announce after the areas were laid out: the rows
/// of the files pane when it shows, and the inner size of the diff pane.
#[derive(Clone, Copy, Debug, PartialEq, Eq, Structural)]
pub struct ViewportSizes {
    pub files_rows: Option<usize>,
    pub diff_width: u16,
    pub diff_height: u16,
}

/// What a pointer input leads to.
#[derive(Clone, Copy, Debug, PartialEq, Eq, Structural)]
pub enum PointerRoute {
    /// Nothing is delivered.
    Ignored,
    /// The pane boundary was grabbed or dragged.
    Resizing,
    /// A drag of the pane boundary ended after it moved; the width is to be
    /// saved.
    SaveFilePaneWidth(u16),
    /// The input goes to `target`.
    Deliver { target: u64, kind: PointerInputKind, position: Option<PointerPosition> },
}

/// The cell a pointer input happened at.
pub open spec fn spec_pointer_position(message: UserInput) -> Option<(u16, u16)> {
    match message {
        UserInput::MouseScroll { column, row, .. } => Some((column, row)),
        UserInput::MouseClick { column, row, .. } => Some((column, row)),
        UserInput::MouseControlClick { column, row } => Some((column, row)),
        UserInput::MouseDoubleClick { column, row } => Some((column, row)),
        UserInput::MouseRightClick { column, row } => Some((column, row)),
        UserInput::MouseDrag { column, row } => Some((column, row)),
        _ => None,
    }
}

/// What kind of pointer input a message is.
pub open spec fn spec_pointer_kind(message: UserInput) -> Option<PointerInputKind> {
    match message {
        UserInput::MouseScroll { delta, .. } => Some(PointerInputKind::Scroll(delta)),
        UserInput::MouseClick { insert_path, .. } => Some(
            PointerInputKind::Click { insert: insert_path },
        ),
        UserInput::MouseControlClick { .. } => Some(PointerInputKind::ControlClick),
        UserInput::MouseDoubleClick { .. } => Some(PointerInputKind::DoubleClick),
        UserInput::MouseRightClick { .. } => Some(PointerInputKind::RightClick),
        UserInput::MouseDrag { .. } => Some(PointerInputKind::Drag),
        UserInput::MouseRelease => Some(PointerInputKind::Release),
        _ => None,
    }
}

/// The cell a pointer input happened at.
pub fn pointer_position(message: &UserInput) -> (position: Option<(u16, u16)>)
    ensures
        position == spec_pointer_position(*message),
{
    match message {
        UserInput::MouseScroll { column, row, .. } => Some((*column, *row)),
        UserInput::MouseClick { column, row, .. } => Some((*column, *row)),
        UserInput::MouseControlClick { column, row } => Some((*column, *row)),
        UserInput::MouseDoubleClick { column, row } => Some((*column, *row)),
        UserInput::MouseRightClick { column, row } => Some((*column, *row)),
        UserInput::MouseDrag { column, row } => Some((*column, *row)),
        _ => None,
    }
}

/// What kind of pointer input a message is.
pub fn pointer_kind(message: &UserInput) -> (kind: Option<PointerInputKind>)
    ensures
        kind == spec_pointer_kind(*message),
{
    match message {
        UserInput::MouseScroll { delta, .. } => Some(PointerInputKind::Scroll(*delta)),
        UserInput::MouseClick { insert_path, .. } => Some(
            PointerInputKind::Click { insert: *insert_path },
        ),
        UserInput::MouseControlClick { .. } => Some(PointerInputKind::ControlClick),
        UserInput::MouseDoubleClick { .. } => Some(PointerInputKind::DoubleClick),
        UserInput::MouseRightClick { .. } => Some(PointerInputKind::RightClick),
        UserInput::MouseDrag { .. } => Some(PointerInputKind::Drag),
        UserInput::MouseRelease => Some(PointerInputKind::Release),
        _ => None,
    }
}

/// The first area of `target`.
pub open spec fn area_index(areas: Seq<ComponentArea>, target: u64, hi: int) -> Option<int>
    decreases hi,
{
    if hi <= 0 {
        None
    } else {
        match area_index(areas, target, hi - 1) {
            Some(found) => Some(found),
            None => if areas[hi - 1].target == target {
                Some(hi - 1)
            } else {
                None
            },
        }
    }
}

/// The areas with the area of `target` set: its first area changed in
/// place, or a new area inserted at `insert_at` (at most the end).
pub open spec fn with_area(areas: Seq<ComponentArea>, target: u64, area: Rect, insert_at: int) -> Seq<
    ComponentArea,
> {
    match area_index(areas, target, areas.len() as int) {
        Some(index) => areas.update(index, ComponentArea { target, area }),
        None => areas.insert(
            if insert_at < areas.len() {
                insert_at
            } else {
                areas.len() as int
            },
            ComponentArea { target, area },
        ),
    }
}

/// The areas without those of `target`.
pub open spec fn without_target(areas: Seq<ComponentArea>, target: u64) -> Seq<ComponentArea>
    decreases areas.len(),
{
    if areas.len() == 0 {
        seq![]
    } else if areas.last().target == target {
        without_target(areas.drop_last(), target)
    } else {
        without_target(areas.drop_last(), target).push(areas.last())
    }
}

/// The last area that holds the cell: later areas lie on top.
pub open spec fn area_at(areas: Seq<ComponentArea>, column: u16, row: u16) -> Option<ComponentArea>
    decreases areas.len(),
{
    if areas.len() == 0 {
        None
    } else if areas.last().area.spec_contains(column, row) {
        Some(areas.last())
    } else {
        area_at(areas.drop_last(), column, row)
    }
}

/// The pane of a focus.
pub open spec fn pane_of(focus: Focus) -> ReviewPane {
    match focus {
        Focus::Files => ReviewPane::Navigation,
        Focus::Diff => ReviewPane::Detail,
    }
}

/// The area inside the borders of the files pane, when it shows.
pub open spec fn files_content_area(layout: PaneLayout, focus: Focus) -> Option<Rect> {
    if !layout.wide && pane_of(focus) != ReviewPane::Navigation {
        None
    } else {
        let pane_width = if layout.wide {
            layout.file_width
        } else {
            layout.width
        };
        Some(
            Rect {
                x: 1,
                y: 2,
                width: sat_sub(pane_width as int, 2) as u16,
                height: sat_sub(sat_sub(layout.height as int, 1 + layout.footer_height), 2) as u16,
            },
        )
    }
}

/// The area of the diff pane.
pub open spec fn diff_pane_area(layout: PaneLayout) -> Rect {
    let body = sat_sub(layout.height as int, 1 + layout.footer_height) as u16;
    if layout.wide {
        Rect::spec_new(
            layout.file_width,
            1,
            sat_sub(layout.width as int, layout.file_width as int) as u16,
            body,
        )
    } else {
        Rect::spec_new(0, 1, layout.width, body)
    }
}

/// The areas after laying out the components on a `width` by `height`
/// terminal: the files pane (when it shows) first, the diff pane second,
/// then the location list beside them while it is active, the status rows
/// at the top and bottom, and the overlay and revision selector over
/// everything while they are modal.
pub open spec fn laid_out_areas(
    areas: Seq<ComponentArea>,
    layout: PaneLayout,
    focus: Focus,
    components: Components,
    states: ComponentStates,
) -> Seq<ComponentArea> {
    let width = layout.width;
    let height = layout.height;
    let files_pane_width = if layout.wide {
        layout.file_width
    } else {
        width
    };
    let with_files = match files_content_area(layout, focus) {
        Some(area) => with_area(areas, components.files, area, 0),
        None => without_target(areas, components.files),
    };
    let with_diff = with_area(with_files, components.diff, diff_pane_area(layout), 1);
    let without_locations = without_target(with_diff, components.locations);
    let with_locations = if states.locations_active {
        without_locations.push(
            ComponentArea {
                target: components.locations,
                area: Rect::spec_new(0, 1, files_pane_width, sat_sub(height as int, 2) as u16),
            },
        )
    } else {
        without_locations
    };
    let with_status = without_target(with_locations, components.status).push(
        ComponentArea { target: components.status, area: Rect::spec_new(0, 0, width, 1) },
    ).push(
        ComponentArea {
            target: components.status,
            area: Rect::spec_new(0, sat_sub(height as int, 1) as u16, width, 1),
        },
    );
    let without_overlay = without_target(with_status, components.overlay);
    let with_overlay = if states.overlay_modal {
        without_overlay.push(
            ComponentArea { target: components.overlay, area: Rect::spec_new(0, 0, width, height) },
        )
    } else {
        without_overlay
    };
    let without_revision = without_target(with_overlay, components.revision);
    if states.revision_modal {
        without_revision.push(
            ComponentArea {
                target: components.revision,
                area: Rect::spec_new(0, 0, width, height),
            },
        )
    } else {
        without_revision
    }
}

proof fn lemma_area_index_bounds(areas: Seq<ComponentArea>, target: u64, hi: int)
    ensures
        area_index(areas, target, hi) matches Some(found) ==> 0 <= found < hi && areas[found].target
            == target,
    decreases hi,
{
    if hi > 0 {
        lemma_area_index_bounds(areas, target, hi - 1);
    }
}

/// The position of the first area of `target`.
fn area_position(areas: &Vec<ComponentArea>, target: u64) -> (found: Option<usize>)
    ensures
        match found {
            Some(index) => area_index(areas@, target, areas@.len() as int) == Some(index as int),
            None => area_index(areas@, target, areas@.len() as int) is None,
        },
        found matches Some(index) ==> index < areas@.len(),
{
    let mut i: usize = 0;
    while i < areas.len()
        invariant
            i <= areas@.len(),
            area_index(areas@, target, i as int) is None,
        decreases areas.len() - i,
    {
        if areas[i].target == target {
            proof {
                assert(area_index(areas@, target, i + 1) == Some(i as int));
                lemma_area_index_stays(areas@, target, i as int, i + 1, areas@.len() as int);
            }
            return Some(i);
        }
        i += 1;
    }
    None
}

proof fn lemma_area_index_stays(areas: Seq<ComponentArea>, target: u64, found: int, lo: int, hi: int)
    requires
        lo <= hi,
        area_index(areas, target, lo) == Some(found),
    ensures
        area_index(areas, target, hi) == Some(found),
    decreases hi - lo,
{
    if lo < hi {
        lemma_area_index_stays(areas, target, found, lo, hi - 1);
    }
}

/// Where components sit and which of them gets input.
pub struct Routing {
    pub components: Components,
    pub width: u16,
    pub height: u16,
    pub file_width: Option<u16>,
    pub focus: Focus,
    pub areas: Vec<ComponentArea>,
    pub hovered: Option<u64>,
    pub focused: u64,
    pub modal: Option<u64>,
    /// While the pane boundary is held: whether it moved.
    pub resize: Option<bool>,
}

/// The width the pane boundary is dragged to: the column, kept at least
/// 16 columns from either edge.
pub open spec fn dragged_width(column: u16, width: u16) -> u16 {
    let maximum = sat_sub(width as int, 16);
    if column < 16 {
        16
    } else if column > maximum {
        maximum as u16
    } else {
        column
    }
}

/// Whether the terminal is small enough that laying it out cannot
/// overflow.
pub open spec fn layout_fits(width: u16) -> bool {
    width >= NARROW_WIDTH ==> width * 30 <= u16::MAX
}

impl Routing {
    /// Remembers the terminal size from a resize.
    pub fn record_viewport_size(&mut self, message: &UserInput)
        ensures
            match *message {
                UserInput::Resize { width, height } => {
                    &&& final(self).width == width
                    &&& final(self).height == height
                },
                _ => {
                    &&& final(self).width == old(self).width
                    &&& final(self).height == old(self).height
                },
            },
            final(self).areas == old(self).areas,
            final(self).components == old(self).components,
            final(self).file_width == old(self).file_width,
            final(self).focus == old(self).focus,
            final(self).hovered == old(self).hovered,
            final(self).focused == old(self).focused,
            final(self).modal == old(self).modal,
            final(self).resize == old(self).resize,
    {
        if let UserInput::Resize { width, height } = message {
            self.width = *width;
            self.height = *height;
        }
    }

    /// Sets the area of `target`: changes its first area, or inserts one at
    /// `insert_at` (at most the end).
    pub fn set_component_area(&mut self, target: u64, area: Rect, insert_at: usize)
        ensures
            final(self).areas@ == with_area(old(self).areas@, target, area, insert_at as int),
            final(self).components == old(self).components,
            final(self).width == old(self).width,
            final(self).height == old(self).height,
            final(self).file_width == old(self).file_width,
            final(self).focus == old(self).focus,
            final(self).hovered == old(self).hovered,
            final(self).focused == old(self).focused,
            final(self).modal == old(self).modal,
            final(self).resize == old(self).resize,
    {
        match area_position(&self.areas, target) {
            Some(index) => {
                self.areas.set(index, ComponentArea { target, area });
            },
            None => {
                let count = self.areas.len();
                let at = if insert_at < count {
                    insert_at
                } else {
                    count
                };
                self.areas.insert(at, ComponentArea { target, area });
            },
        }
    }

    /// Drops every area of `target`.
    pub fn remove_component_area(&mut self, target: u64)
        ensures
            final(self).areas@ == without_target(old(self).areas@, target),
            final(self).components == old(self).components,
            final(self).width == old(self).width,
            final(self).height == old(self).height,
            final(self).file_width == old(self).file_width,
            final(self).focus == old(self).focus,
            final(self).hovered == old(self).hovered,
            final(self).focused == old(self).focused,
            final(self).modal == old(self).modal,
            final(self).resize == old(self).resize,
    {
        let ghost before = self.areas@;
        let mut kept: Vec<ComponentArea> = Vec::new();
        let mut i: usize = 0;
        while i < self.areas.len()
            invariant
                i <= self.areas@.len(),
                self.areas@ == before,
                kept@ == without_target(before.take(i as int), target),
            decreases self.areas.len() - i,
        {
            proof {
                assert(before.take(i + 1).drop_last() =~= before.take(i as int));
            }
            let area = self.areas[i];
            if area.target != target {
                kept.push(area);
            }
            i += 1;
        }
        assert(before.take(before.len() as int) =~= before);
        self.areas = kept;
    }

    /// The topmost area that holds the cell.
    pub fn component_area_at(&self, column: u16, row: u16) -> (found: Option<ComponentArea>)
        ensures
            found == area_at(self.areas@, column, row),
    {
        let mut i = self.areas.len();
        assert(self.areas@.take(i as int) =~= self.areas@);
        while i > 0
            invariant
                i <= self.areas@.len(),
                area_at(self.areas@, column, row) == area_at(self.areas@.take(i as int), column, row),
            decreases i,
        {
            proof {
                assert(self.areas@.take(i as int).drop_last() =~= self.areas@.take(i - 1));
            }
            let area = self.areas[i - 1];
            if area.area.contains(column, row) {
                return Some(area);
            }
            i -= 1;
        }
        None
    }
}

/// Rows moved by a page in a layout.
pub open spec fn layout_page_rows(layout: PaneLayout) -> int {
    let rows = sat_sub(sat_sub(layout.height as int, 1 + layout.footer_height), 2);
    if rows >= 1 {
        rows
    } else {
        1
    }
}

/// The component that takes keyboard input while modal: the revision
/// selector, else the overlay, else an active location list.
pub open spec fn modal_target(components: Components, states: ComponentStates) -> Option<u64> {
    if states.revision_modal {
        Some(components.revision)
    } else if states.overlay_modal {
        Some(components.overlay)
    } else if states.locations_active {
        Some(components.locations)
    } else {
        None
    }
}

/// Whether an input grabs or drags the pane boundary.
pub open spec fn grabs_boundary(routing: Routing, message: UserInput) -> bool {
    let layout = PaneLayout::spec_new(routing.width, routing.height, routing.file_width);
    match message {
        UserInput::MouseClick { column, row, .. } => layout.wide && column < layout.width && row > 0
            && row < sat_sub(layout.height as int, layout.footer_height as int) && column
            - layout.file_width <= 1 && layout.file_width - column <= 1,
        UserInput::MouseDrag { .. } => routing.resize is Some,
        _ => false,
    }
}

/// Where a pointer input happened relative to the area under it.
pub open spec fn position_in(position: Option<(u16, u16)>, area: Option<ComponentArea>) -> Option<
    PointerPosition,
> {
    match (position, area) {
        (Some((column, row)), Some(area)) => Some(
            PointerPosition {
                terminal_column: column,
                terminal_row: row,
                component_column: sat_sub(column as int, area.area.x as int) as u16,
                component_row: sat_sub(row as int, area.area.y as int) as u16,
            },
        ),
        _ => None,
    }
}

/// Whether two routing states agree on everything but the listed parts.
pub open spec fn same_setup(before: Routing, after: Routing) -> bool {
    &&& after.components == before.components
    &&& after.width == before.width
    &&& after.height == before.height
    &&& after.areas == before.areas
    &&& after.modal == before.modal
}

impl Routing {
    /// Lays out the component areas for the terminal size, focus and the
    /// components that show, and gives the viewport sizes to announce.
    pub fn synchronize_component_areas(&mut self, states: ComponentStates) -> (sizes: ViewportSizes)
        requires
            layout_fits(old(self).width),
        ensures
            ({
                let layout = PaneLayout::spec_new(old(self).width, old(self).height, old(self).file_width);
                let diff_area = diff_pane_area(layout);
                &&& final(self).areas@ == laid_out_areas(
                    old(self).areas@,
                    layout,
                    old(self).focus,
                    old(self).components,
                    states,
                )
                &&& sizes.files_rows == match files_content_area(layout, old(self).focus) {
                    Some(_) => Some(layout_page_rows(layout) as usize),
                    None => None,
                }
                &&& sizes.diff_width == sat_sub(diff_area.width as int, 2)
                &&& sizes.diff_height == sat_sub(diff_area.height as int, 2)
            }),
            final(self).components == old(self).components,
            final(self).width == old(self).width,
            final(self).height == old(self).height,
            final(self).file_width == old(self).file_width,
            final(self).focus == old(self).focus,
            final(self).hovered == old(self).hovered,
            final(self).focused == old(self).focused,
            final(self).modal == old(self).modal,
            final(self).resize == old(self).resize,
            old(self).well_formed() ==> final(self).well_formed(),
    {
        let ghost before = *self;
        let width = self.width;
        let height = self.height;
        let components = self.components;
        let layout = PaneLayout::new(width, height, self.file_width);
        assert(layout == PaneLayout::spec_new(width, height, self.file_width));
        let pane = match self.focus {
            Focus::Files => ReviewPane::Navigation,
            Focus::Diff => ReviewPane::Detail,
        };
        let files_area = layout.files_content_area(pane);
        let files_pane_width = if layout.is_wide() {
            layout.file_width
        } else {
            width
        };
        let files_rows = match files_area {
            Some(area) => {
                self.set_component_area(components.files, area, 0);
                Some(layout.page_rows())
            },
            None => {
                self.remove_component_area(components.files);
                None
            },
        };
        let body = layout.body_height();
        let diff_area = if layout.is_wide() {
            Rect::new(layout.file_width, 1, width.saturating_sub(layout.file_width), body)
        } else {
            Rect::new(0, 1, width, body)
        };
        self.set_component_area(components.diff, diff_area, 1);
        self.remove_component_area(components.locations);
        if states.locations_active {
            self.areas.push(
                ComponentArea {
                    target: components.locations,
                    area: Rect::new(0, 1, files_pane_width, height.saturating_sub(2)),
                },
            );
        }
        self.remove_component_area(components.status);
        self.areas.push(ComponentArea { target: components.status, area: Rect::new(0, 0, width, 1) });
        self.areas.push(
            ComponentArea {
                target: components.status,
                area: Rect::new(0, height.saturating_sub(1), width, 1),
            },
        );
        self.remove_component_area(components.overlay);
        if states.overlay_modal {
            self.areas.push(
                ComponentArea { target: components.overlay, area: Rect::new(0, 0, width, height) },
            );
        }
        self.remove_component_area(components.revision);
        if states.revision_modal {
            self.areas.push(
                ComponentArea { target: components.revision, area: Rect::new(0, 0, width, height) },
            );
        }
        proof {
            if before.well_formed() {
                law_laid_out_areas_place_each_component(
                    before.areas@,
                    PaneLayout::spec_new(before.width, before.height, before.file_width),
                    before.focus,
                    before.components,
                    states,
                    0,
                    0,
                );
            }
        }
        ViewportSizes {
            files_rows,
            diff_width: diff_area.width.saturating_sub(2),
            diff_height: diff_area.height.saturating_sub(2),
        }
    }

    /// Picks the modal component, and while none is modal keeps the focused
    /// pane component in step with the focus.
    pub fn synchronize_input_routing(&mut self, states: ComponentStates)
        ensures
            final(self).modal == modal_target(old(self).components, states),
            final(self).focused == if final(self).modal is None && (old(self).focused
                == old(self).components.diff || old(self).focused == old(self).components.files) {
                match old(self).focus {
                    Focus::Files => old(self).components.files,
                    Focus::Diff => old(self).components.diff,
                }
            } else {
                old(self).focused
            },
            final(self).components == old(self).components,
            final(self).width == old(self).width,
            final(self).height == old(self).height,
            final(self).file_width == old(self).file_width,
            final(self).focus == old(self).focus,
            final(self).areas == old(self).areas,
            final(self).hovered == old(self).hovered,
            final(self).resize == old(self).resize,
    {
        let components = self.components;
        self.modal = if states.revision_modal {
            Some(components.revision)
        } else if states.overlay_modal {
            Some(components.overlay)
        } else if states.locations_active {
            Some(components.locations)
        } else {
            None
        };
        if self.modal.is_none() && (self.focused == components.diff || self.focused
            == components.files) {
            self.focused = match self.focus {
                Focus::Files => components.files,
                Focus::Diff => components.diff,
            };
        }
    }

    /// Grabs the pane boundary on a click on it, and moves it on a drag
    /// while it is held; says whether the input was taken.
    pub fn file_pane_resize(&mut self, message: &UserInput) -> (taken: bool)
        requires
            layout_fits(old(self).width),
            old(self).resize is Some && message is MouseDrag ==> old(self).width >= 32,
        ensures
            taken == grabs_boundary(*old(self), *message),
            taken ==> match *message {
                UserInput::MouseDrag { column, .. } => final(self).resize == Some(true)
                    && final(self).file_width == Some(dragged_width(column, old(self).width)),
                _ => final(self).resize == Some(false) && final(self).file_width == old(
                    self,
                ).file_width,
            },
            !taken ==> final(self).resize == old(self).resize && final(self).file_width == old(
                self,
            ).file_width,
            same_setup(*old(self), *final(self)),
            final(self).focus == old(self).focus,
            final(self).hovered == old(self).hovered,
            final(self).focused == old(self).focused,
    {
        let layout = PaneLayout::new(self.width, self.height, self.file_width);
        match message {
            UserInput::MouseClick { column, row, .. } => {
                if layout.is_separator(*column, *row) {
                    self.resize = Some(false);
                    true
                } else {
                    false
                }
            },
            UserInput::MouseDrag { column, .. } => {
                if self.resize.is_some() {
                    let maximum = self.width.saturating_sub(16);
                    let width = if *column < 16 {
                        16
                    } else if *column > maximum {
                        maximum
                    } else {
                        *column
                    };
                    self.file_width = Some(width);
                    self.resize = Some(true);
                    true
                } else {
                    false
                }
            },
            _ => false,
        }
    }

    /// Decides where a pointer input goes: a grab or drag of the pane
    /// boundary resizes; the release of a held boundary saves the width if
    /// it moved; otherwise the input goes to the component under the
    /// pointer (a release to the hovered one), and a click on a pane moves
    /// the focus there.
    pub fn route_pointer(&mut self, message: &UserInput) -> (route: PointerRoute)
        requires
            layout_fits(old(self).width),
            old(self).resize is Some && message is MouseDrag ==> old(self).width >= 32,
        ensures
            same_setup(*old(self), *final(self)),
            grabs_boundary(*old(self), *message) ==> route == PointerRoute::Resizing,
            !grabs_boundary(*old(self), *message) ==> match spec_pointer_kind(*message) {
                None => route == PointerRoute::Ignored && *final(self) == *old(self),
                Some(kind) => match old(self).resize {
                    Some(moved) => {
                        &&& route == if moved {
                            PointerRoute::SaveFilePaneWidth(
                                match old(self).file_width {
                                    Some(width) => width,
                                    None => 0,
                                },
                            )
                        } else {
                            PointerRoute::Ignored
                        }
                        &&& final(self).hovered is None
                        &&& final(self).resize is None
                        &&& final(self).focus == old(self).focus
                        &&& final(self).focused == old(self).focused
                        &&& final(self).file_width == old(self).file_width
                    },
                    None => {
                        let position = spec_pointer_position(*message);
                        let area = match position {
                            Some((column, row)) => area_at(old(self).areas@, column, row),
                            None => None,
                        };
                        let target = if kind == PointerInputKind::Release {
                            old(self).hovered
                        } else {
                            match area {
                                Some(area) => Some(area.target),
                                None => None,
                            }
                        };
                        let clicked = kind is Click || kind is DoubleClick;
                        &&& final(self).resize is None
                        &&& final(self).file_width == old(self).file_width
                        &&& match target {
                            None => {
                                &&& route == PointerRoute::Ignored
                                &&& final(self).hovered is None
                                &&& final(self).focus == old(self).focus
                                &&& final(self).focused == old(self).focused
                            },
                            Some(target) => {
                                &&& route == (PointerRoute::Deliver {
                                    target,
                                    kind,
                                    position: position_in(position, area),
                                })
                                &&& final(self).hovered == if kind == PointerInputKind::Release {
                                    None
                                } else {
                                    Some(target)
                                }
                                &&& if clicked && target == old(self).components.files {
                                    final(self).focus == Focus::Files && final(self).focused
                                        == target
                                } else if clicked && target == old(self).components.diff {
                                    final(self).focus == Focus::Diff && final(self).focused
                                        == target
                                } else {
                                    final(self).focus == old(self).focus && final(self).focused
                                        == old(self).focused
                                }
                            },
                        }
                    },
                },
            },
    {
        if self.file_pane_resize(message) {
            return PointerRoute::Resizing;
        }
        let kind = match pointer_kind(message) {
            Some(kind) => kind,
            None => return PointerRoute::Ignored,
        };
        if let Some(moved) = self.resize {
            self.resize = None;
            self.hovered = None;
            if moved {
                let width = match self.file_width {
                    Some(width) => width,
                    None => 0,
                };
                return PointerRoute::SaveFilePaneWidth(width);
            }
            return PointerRoute::Ignored;
        }
        let position = pointer_position(message);
        let area = match position {
            Some((column, row)) => self.component_area_at(column, row),
            None => None,
        };
        let target = if kind == PointerInputKind::Release {
            self.hovered
        } else {
            match area {
                Some(area) => Some(area.target),
                None => None,
            }
        };
        let target = match target {
            Some(target) => target,
            None => {
                self.hovered = None;
                return PointerRoute::Ignored;
            },
        };
        let clicked = match kind {
            PointerInputKind::Click { .. } | PointerInputKind::DoubleClick => true,
            _ => false,
        };
        if clicked {
            if target == self.components.files {
                self.focus = Focus::Files;
                self.focused = self.components.files;
            } else if target == self.components.diff {
                self.focus = Focus::Diff;
                self.focused = self.components.diff;
            }
        }
        let position = match (position, area) {
            (Some((column, row)), Some(area)) => Some(
                PointerPosition {
                    terminal_column: column,
                    terminal_row: row,
                    component_column: column.saturating_sub(area.area.x),
                    component_row: row.saturating_sub(area.area.y),
                },
            ),
            _ => None,
        };
        self.hovered = if kind == PointerInputKind::Release {
            None
        } else {
            Some(target)
        };
        PointerRoute::Deliver { target, kind, position }
    }
}

// ---------------------------------------------------------------------------
// Laws
// ---------------------------------------------------------------------------

proof fn lemma_area_index_none(areas: Seq<ComponentArea>, target: u64, hi: int)
    requires
        0 <= hi <= areas.len(),
        forall|k: int| 0 <= k < hi ==> (#[trigger] areas[k]).target != target,
    ensures
        area_index(areas, target, hi) is None,
    decreases hi,
{
    if hi > 0 {
        lemma_area_index_none(areas, target, hi - 1);
    }
}

proof fn lemma_area_index_first(areas: Seq<ComponentArea>, target: u64, found: int, hi: int)
    requires
        0 <= found < hi <= areas.len(),
        areas[found].target == target,
        forall|k: int| 0 <= k < found ==> (#[trigger] areas[k]).target != target,
    ensures
        area_index(areas, target, hi) == Some(found),
    decreases hi,
{
    if hi > found + 1 {
        lemma_area_index_first(areas, target, found, hi - 1);
    } else {
        lemma_area_index_none(areas, target, found);
    }
}

proof fn lemma_area_index_facts(areas: Seq<ComponentArea>, target: u64, hi: int)
    requires
        0 <= hi <= areas.len(),
    ensures
        match area_index(areas, target, hi) {
            Some(found) => 0 <= found < hi && areas[found].target == target && forall|k: int|
                0 <= k < found ==> (#[trigger] areas[k]).target != target,
            None => forall|k: int| 0 <= k < hi ==> (#[trigger] areas[k]).target != target,
        },
    decreases hi,
{
    if hi > 0 {
        lemma_area_index_facts(areas, target, hi - 1);
    }
}

/// Setting the area of a component and then looking the component up gives
/// back the area that was set.
pub proof fn law_set_area_is_found(areas: Seq<ComponentArea>, target: u64, area: Rect, insert_at: int)
    requires
        insert_at >= 0,
    ensures
        ({
            let updated = with_area(areas, target, area, insert_at);
            match area_index(updated, target, updated.len() as int) {
                Some(found) => updated[found] == (ComponentArea { target, area }),
                None => false,
            }
        }),
{
    let updated = with_area(areas, target, area, insert_at);
    lemma_area_index_facts(areas, target, areas.len() as int);
    match area_index(areas, target, areas.len() as int) {
        Some(found) => {
            assert forall|k: int| 0 <= k < found implies (#[trigger] updated[k]).target != target by {
                assert(updated[k] == areas[k]);
            }
            lemma_area_index_first(updated, target, found, updated.len() as int);
        },
        None => {
            let at = if insert_at < areas.len() {
                insert_at
            } else {
                areas.len() as int
            };
            assert forall|k: int| 0 <= k < at implies (#[trigger] updated[k]).target != target by {
                assert(updated[k] == areas[k]);
            }
            lemma_area_index_first(updated, target, at, updated.len() as int);
        },
    }
}

/// After dropping the areas of a component none of its areas is left, and
/// the areas of the others keep their order.
pub proof fn law_removed_component_has_no_area(areas: Seq<ComponentArea>, target: u64)
    ensures
        forall|k: int|
            0 <= k < without_target(areas, target).len() ==> (#[trigger] without_target(
                areas,
                target,
            )[k]).target != target,
        without_target(areas, target).len() <= areas.len(),
    decreases areas.len(),
{
    if areas.len() > 0 {
        law_removed_component_has_no_area(areas.drop_last(), target);
        let rest = without_target(areas.drop_last(), target);
        if areas.last().target != target {
            assert forall|k: int| 0 <= k < rest.push(areas.last()).len() implies (
            #[trigger] rest.push(areas.last())[k]).target != target by {
                if k < rest.len() {
                    assert(rest.push(areas.last())[k] == rest[k]);
                }
            }
        }
    }
}

/// While the revision selector is modal it lies on top of every cell of the
/// terminal, so every pointer input on screen reaches it.
pub proof fn law_modal_revision_selector_is_on_top(
    areas: Seq<ComponentArea>,
    layout: PaneLayout,
    focus: Focus,
    components: Components,
    states: ComponentStates,
    column: u16,
    row: u16,
)
    requires
        states.revision_modal,
        column < layout.width,
        row < layout.height,
    ensures
        area_at(laid_out_areas(areas, layout, focus, components, states), column, row) matches Some(
            found,
        ) && found.target == components.revision,
{
    let laid = laid_out_areas(areas, layout, focus, components, states);
    assert(laid.last().target == components.revision);
    assert(laid.last().area == Rect::spec_new(0, 0, layout.width, layout.height));
    assert(laid.last().area.spec_contains(column, row));
}

} // verus!

verus! {

/// The areas of `target`, in order.
pub open spec fn areas_of(areas: Seq<ComponentArea>, target: u64) -> Seq<Rect>
    decreases areas.len(),
{
    if areas.len() == 0 {
        seq![]
    } else if areas.last().target == target {
        areas_of(areas.drop_last(), target).push(areas.last().area)
    } else {
        areas_of(areas.drop_last(), target)
    }
}

proof fn lemma_areas_of_push(areas: Seq<ComponentArea>, area: ComponentArea, target: u64)
    ensures
        areas_of(areas.push(area), target) == if area.target == target {
            areas_of(areas, target).push(area.area)
        } else {
            areas_of(areas, target)
        },
{
    assert(areas.push(area).drop_last() =~= areas);
}

proof fn lemma_areas_of_without(areas: Seq<ComponentArea>, removed: u64, target: u64)
    ensures
        areas_of(without_target(areas, removed), target) == if removed == target {
            Seq::<Rect>::empty()
        } else {
            areas_of(areas, target)
        },
    decreases areas.len(),
{
    if areas.len() > 0 {
        lemma_areas_of_without(areas.drop_last(), removed, target);
        if areas.last().target != removed {
            lemma_areas_of_push(without_target(areas.drop_last(), removed), areas.last(), target);
        }
    }
}

proof fn lemma_areas_of_none(areas: Seq<ComponentArea>, target: u64)
    requires
        forall|j: int| 0 <= j < areas.len() ==> (#[trigger] areas[j]).target != target,
    ensures
        areas_of(areas, target) == Seq::<Rect>::empty(),
    decreases areas.len(),
{
    if areas.len() > 0 {
        assert forall|j: int| 0 <= j < areas.drop_last().len() implies (#[trigger] areas.drop_last()[j]).target
            != target by {
            assert(areas.drop_last()[j] == areas[j]);
        }
        lemma_areas_of_none(areas.drop_last(), target);
        assert(areas.last() == areas[areas.len() - 1]);
    }
}

proof fn lemma_areas_of_some(areas: Seq<ComponentArea>, target: u64, index: int)
    requires
        0 <= index < areas.len(),
        areas[index].target == target,
    ensures
        areas_of(areas, target).len() > 0,
    decreases areas.len(),
{
    if index < areas.len() - 1 {
        assert(areas.drop_last()[index] == areas[index]);
        lemma_areas_of_some(areas.drop_last(), target, index);
    }
}

proof fn lemma_no_area_for_target(areas: Seq<ComponentArea>, target: u64, hi: int)
    requires
        hi <= areas.len(),
        area_index(areas, target, hi) is None,
    ensures
        forall|j: int| 0 <= j < hi ==> (#[trigger] areas[j]).target != target,
    decreases hi,
{
    if hi > 0 {
        lemma_no_area_for_target(areas, target, hi - 1);
    }
}

proof fn lemma_areas_of_update(areas: Seq<ComponentArea>, index: int, area: ComponentArea, target: u64)
    requires
        0 <= index < areas.len(),
        areas[index].target == area.target,
        areas_of(areas, area.target).len() <= 1,
    ensures
        areas_of(areas.update(index, area), target) == if area.target == target {
            seq![area.area]
        } else {
            areas_of(areas, target)
        },
    decreases areas.len(),
{
    let updated = areas.update(index, area);
    let init = areas.drop_last();
    if index == areas.len() - 1 {
        assert(updated.drop_last() =~= init);
        if init.len() > 0 && areas_of(init, area.target).len() > 0 {
            assert(areas_of(areas, area.target).len() == areas_of(init, area.target).len() + 1);
        }
        if area.target == target {
            assert(areas_of(init, target) =~= Seq::<Rect>::empty());
            assert(areas_of(updated, target) =~= seq![area.area]);
        }
    } else {
        assert(updated.drop_last() =~= init.update(index, area));
        assert(init[index] == areas[index]);
        lemma_areas_of_some(init, area.target, index);
        if areas.last().target == area.target {
            assert(areas_of(areas, area.target).len() == areas_of(init, area.target).len() + 1);
        }
        lemma_areas_of_update(init, index, area, target);
        assert(updated.last() == areas.last());
    }
}

proof fn lemma_areas_of_insert(areas: Seq<ComponentArea>, index: int, area: ComponentArea, target: u64)
    requires
        0 <= index <= areas.len(),
        areas_of(areas, area.target) == Seq::<Rect>::empty(),
    ensures
        areas_of(areas.insert(index, area), target) == if area.target == target {
            seq![area.area]
        } else {
            areas_of(areas, target)
        },
    decreases areas.len(),
{
    let inserted = areas.insert(index, area);
    if index == areas.len() {
        assert(inserted =~= areas.push(area));
        lemma_areas_of_push(areas, area, target);
        if area.target == target {
            assert(areas_of(areas, target).push(area.area) =~= seq![area.area]);
        }
    } else {
        let init = areas.drop_last();
        assert(inserted.drop_last() =~= init.insert(index, area));
        assert(inserted.last() == areas.last());
        if areas.last().target == area.target {
            assert(areas_of(areas, area.target).len() > 0);
        }
        lemma_areas_of_insert(init, index, area, target);
    }
}

proof fn lemma_areas_of_with_area(
    areas: Seq<ComponentArea>,
    placed: u64,
    rect: Rect,
    insert_at: int,
    target: u64,
)
    requires
        insert_at >= 0,
        areas_of(areas, placed).len() <= 1,
    ensures
        areas_of(with_area(areas, placed, rect, insert_at), target) == if placed == target {
            seq![rect]
        } else {
            areas_of(areas, target)
        },
{
    let area = ComponentArea { target: placed, area: rect };
    match area_index(areas, placed, areas.len() as int) {
        Some(index) => {
            lemma_area_index_bounds(areas, placed, areas.len() as int);
            lemma_areas_of_update(areas, index, area, target);
        },
        None => {
            lemma_no_area_for_target(areas, placed, areas.len() as int);
            lemma_areas_of_none(areas, placed);
            let at = if insert_at < areas.len() {
                insert_at
            } else {
                areas.len() as int
            };
            lemma_areas_of_insert(areas, at, area, target);
        },
    }
}

/// Laying out the components gives the status component the top row and
/// the bottom row of the terminal, the diff component the diff pane, the
/// files component the inside of the files pane exactly when that pane
/// shows, and the location list its column while it is active; while the
/// overlay is modal and the revision selector is not, the overlay lies on
/// top of every cell of the terminal. It holds where the components are
/// distinct and the files and diff components had at most one area before.
pub proof fn law_laid_out_areas_place_each_component(
    areas: Seq<ComponentArea>,
    layout: PaneLayout,
    focus: Focus,
    components: Components,
    states: ComponentStates,
    column: u16,
    row: u16,
)
    requires
        components.files != components.diff,
        components.files != components.locations,
        components.files != components.status,
        components.files != components.overlay,
        components.files != components.revision,
        components.diff != components.locations,
        components.diff != components.status,
        components.diff != components.overlay,
        components.diff != components.revision,
        components.locations != components.status,
        components.locations != components.overlay,
        components.locations != components.revision,
        components.status != components.overlay,
        components.status != components.revision,
        components.overlay != components.revision,
        areas_of(areas, components.files).len() <= 1,
        areas_of(areas, components.diff).len() <= 1,
    ensures
        ({
            let laid = laid_out_areas(areas, layout, focus, components, states);
            let files_pane_width = if layout.wide {
                layout.file_width
            } else {
                layout.width
            };
            &&& areas_of(laid, components.status) == seq![
                Rect::spec_new(0, 0, layout.width, 1),
                Rect::spec_new(0, sat_sub(layout.height as int, 1) as u16, layout.width, 1),
            ]
            &&& areas_of(laid, components.diff) == seq![diff_pane_area(layout)]
            &&& areas_of(laid, components.files) == match files_content_area(layout, focus) {
                Some(area) => seq![area],
                None => Seq::<Rect>::empty(),
            }
            &&& areas_of(laid, components.locations) == if states.locations_active {
                seq![Rect::spec_new(0, 1, files_pane_width, sat_sub(layout.height as int, 2) as u16)]
            } else {
                Seq::<Rect>::empty()
            }
            &&& (states.overlay_modal && !states.revision_modal && column < layout.width && row
                < layout.height) ==> (area_at(laid, column, row) matches Some(found) && found.target
                == components.overlay)
        }),
{
    let width = layout.width;
    let height = layout.height;
    let files_pane_width = if layout.wide {
        layout.file_width
    } else {
        width
    };
    let with_files = match files_content_area(layout, focus) {
        Some(area) => with_area(areas, components.files, area, 0),
        None => without_target(areas, components.files),
    };
    let with_diff = with_area(with_files, components.diff, diff_pane_area(layout), 1);
    let without_locations = without_target(with_diff, components.locations);
    let location_area = ComponentArea {
        target: components.locations,
        area: Rect::spec_new(0, 1, files_pane_width, sat_sub(height as int, 2) as u16),
    };
    let with_locations = if states.locations_active {
        without_locations.push(location_area)
    } else {
        without_locations
    };
    let top = ComponentArea { target: components.status, area: Rect::spec_new(0, 0, width, 1) };
    let bottom = ComponentArea {
        target: components.status,
        area: Rect::spec_new(0, sat_sub(height as int, 1) as u16, width, 1),
    };
    let cleared = without_target(with_locations, components.status);
    let with_status = cleared.push(top).push(bottom);
    let without_overlay = without_target(with_status, components.overlay);
    let overlay = ComponentArea { target: components.overlay, area: Rect::spec_new(0, 0, width, height) };
    let with_overlay = if states.overlay_modal {
        without_overlay.push(overlay)
    } else {
        without_overlay
    };
    let without_revision = without_target(with_overlay, components.revision);
    let revision = ComponentArea { target: components.revision, area: Rect::spec_new(0, 0, width, height) };
    let laid = laid_out_areas(areas, layout, focus, components, states);
    assert(laid == if states.revision_modal {
        without_revision.push(revision)
    } else {
        without_revision
    });
    let targets = seq![
        components.files,
        components.diff,
        components.locations,
        components.status,
        components.overlay,
        components.revision,
    ];
    assert forall|t: u64| #[trigger] targets.contains(t) implies areas_of(laid, t) == {
        let placed_files = match files_content_area(layout, focus) {
            Some(area) => if t == components.files {
                seq![area]
            } else {
                Seq::<Rect>::empty()
            },
            None => Seq::<Rect>::empty(),
        };
        if t == components.files {
            placed_files
        } else if t == components.diff {
            seq![diff_pane_area(layout)]
        } else if t == components.locations {
            if states.locations_active {
                seq![location_area.area]
            } else {
                Seq::<Rect>::empty()
            }
        } else if t == components.status {
            seq![top.area, bottom.area]
        } else if t == components.overlay {
            if states.overlay_modal {
                seq![overlay.area]
            } else {
                Seq::<Rect>::empty()
            }
        } else if states.revision_modal {
            seq![revision.area]
        } else {
            Seq::<Rect>::empty()
        }
    } by {
        match files_content_area(layout, focus) {
            Some(area) => lemma_areas_of_with_area(areas, components.files, area, 0, t),
            None => lemma_areas_of_without(areas, components.files, t),
        }
        match files_content_area(layout, focus) {
            Some(area) => lemma_areas_of_with_area(areas, components.files, area, 0, components.diff),
            None => lemma_areas_of_without(areas, components.files, components.diff),
        }
        lemma_areas_of_with_area(with_files, components.diff, diff_pane_area(layout), 1, t);
        lemma_areas_of_without(with_diff, components.locations, t);
        lemma_areas_of_push(without_locations, location_area, t);
        lemma_areas_of_without(with_locations, components.status, t);
        lemma_areas_of_push(cleared, top, t);
        lemma_areas_of_push(cleared.push(top), bottom, t);
        lemma_areas_of_without(with_status, components.overlay, t);
        lemma_areas_of_push(without_overlay, overlay, t);
        lemma_areas_of_without(with_overlay, components.revision, t);
        lemma_areas_of_push(without_revision, revision, t);
        if t == components.status {
            assert(Seq::<Rect>::empty().push(top.area).push(bottom.area) =~= seq![top.area, bottom.area]);
        }
        if t == components.locations && states.locations_active {
            assert(Seq::<Rect>::empty().push(location_area.area) =~= seq![location_area.area]);
        }
        if t == components.overlay && states.overlay_modal {
            assert(Seq::<Rect>::empty().push(overlay.area) =~= seq![overlay.area]);
        }
        if t == components.revision && states.revision_modal {
            assert(Seq::<Rect>::empty().push(revision.area) =~= seq![revision.area]);
        }
    }
    assert(targets.contains(components.files)) by { assert(targets[0] == components.files); }
    assert(targets.contains(components.diff)) by { assert(targets[1] == components.diff); }
    assert(targets.contains(components.locations)) by { assert(targets[2] == components.locations); }
    assert(targets.contains(components.status)) by { assert(targets[3] == components.status); }
    if states.overlay_modal && !states.revision_modal && column < width && row < height {
        assert(with_overlay.last() == overlay);
        assert(overlay.area.spec_contains(column, row));
        lemma_area_at_without_keeps_top(with_overlay, components.revision, column, row);
    }
}

/// Taking away the areas of another component keeps a top area that holds
/// the cell on top.
proof fn lemma_area_at_without_keeps_top(areas: Seq<ComponentArea>, removed: u64, column: u16, row: u16)
    requires
        areas.len() > 0,
        areas.last().target != removed,
        areas.last().area.spec_contains(column, row),
    ensures
        area_at(without_target(areas, removed), column, row) == Some(areas.last()),
{
    let kept = without_target(areas, removed);
    assert(kept == without_target(areas.drop_last(), removed).push(areas.last()));
    assert(kept.last() == areas.last());
}

} // verus!

verus! {

proof fn lemma_areas_of_update_other(areas: Seq<ComponentArea>, index: int, area: ComponentArea, target: u64)
    requires
        0 <= index < areas.len(),
        areas[index].target == area.target,
        area.target != target,
    ensures
        areas_of(areas.update(index, area), target) == areas_of(areas, target),
    decreases areas.len(),
{
    let updated = areas.update(index, area);
    let init = areas.drop_last();
    if index == areas.len() - 1 {
        assert(updated.drop_last() =~= init);
    } else {
        assert(updated.drop_last() =~= init.update(index, area));
        assert(init[index] == areas[index]);
        lemma_areas_of_update_other(init, index, area, target);
        assert(updated.last() == areas.last());
    }
}

proof fn lemma_areas_of_insert_other(areas: Seq<ComponentArea>, index: int, area: ComponentArea, target: u64)
    requires
        0 <= index <= areas.len(),
        area.target != target,
    ensures
        areas_of(areas.insert(index, area), target) == areas_of(areas, target),
    decreases areas.len(),
{
    let inserted = areas.insert(index, area);
    if index == areas.len() {
        assert(inserted =~= areas.push(area));
        lemma_areas_of_push(areas, area, target);
    } else {
        let init = areas.drop_last();
        assert(inserted.drop_last() =~= init.insert(index, area));
        assert(inserted.last() == areas.last());
        lemma_areas_of_insert_other(init, index, area, target);
    }
}

/// Setting the area of one component leaves the areas of the others.
proof fn lemma_areas_of_with_other_area(
    areas: Seq<ComponentArea>,
    placed: u64,
    rect: Rect,
    insert_at: int,
    target: u64,
)
    requires
        insert_at >= 0,
        placed != target,
    ensures
        areas_of(with_area(areas, placed, rect, insert_at), target) == areas_of(areas, target),
{
    let area = ComponentArea { target: placed, area: rect };
    match area_index(areas, placed, areas.len() as int) {
        Some(index) => {
            lemma_area_index_bounds(areas, placed, areas.len() as int);
            lemma_areas_of_update_other(areas, index, area, target);
        },
        None => {
            let at = if insert_at < areas.len() {
                insert_at
            } else {
                areas.len() as int
            };
            lemma_areas_of_insert_other(areas, at, area, target);
        },
    }
}

/// Whether the components are distinct.
pub open spec fn distinct_components(components: Components) -> bool {
    &&& components.files != components.diff
    &&& components.files != components.locations
    &&& components.files != components.status
    &&& components.files != components.overlay
    &&& components.files != components.revision
    &&& components.diff != components.locations
    &&& components.diff != components.status
    &&& components.diff != components.overlay
    &&& components.diff != components.revision
    &&& components.locations != components.status
    &&& components.locations != components.overlay
    &&& components.locations != components.revision
    &&& components.status != components.overlay
    &&& components.status != components.revision
    &&& components.overlay != components.revision
}

impl Routing {
    /// The components are distinct, and the files and diff components have
    /// at most one area each.
    pub open spec fn well_formed(&self) -> bool {
        &&& distinct_components(self.components)
        &&& areas_of(self.areas@, self.components.files).len() <= 1
        &&& areas_of(self.areas@, self.components.diff).len() <= 1
    }

    /// Sets the area of `target` (see `set_component_area`), keeping the
    /// routing well formed.
    pub fn place_component(&mut self, target: u64, area: Rect, insert_at: usize)
        requires
            old(self).well_formed(),
        ensures
            final(self).well_formed(),
            final(self).areas@ == with_area(old(self).areas@, target, area, insert_at as int),
            final(self).components == old(self).components,
    {
        let ghost before = self.areas@;
        self.set_component_area(target, area, insert_at);
        proof {
            let c = self.components;
            if target == c.files {
                lemma_areas_of_with_area(before, target, area, insert_at as int, c.files);
                lemma_areas_of_with_other_area(before, target, area, insert_at as int, c.diff);
            } else if target == c.diff {
                lemma_areas_of_with_area(before, target, area, insert_at as int, c.diff);
                lemma_areas_of_with_other_area(before, target, area, insert_at as int, c.files);
            } else {
                lemma_areas_of_with_other_area(before, target, area, insert_at as int, c.files);
                lemma_areas_of_with_other_area(before, target, area, insert_at as int, c.diff);
            }
        }
    }

    /// Drops the areas of `target`, keeping the routing well formed.
    pub fn drop_component(&mut self, target: u64)
        requires
            old(self).well_formed(),
        ensures
            final(self).well_formed(),
            final(self).areas@ == without_target(old(self).areas@, target),
            final(self).components == old(self).components,
    {
        let ghost before = self.areas@;
        self.remove_component_area(target);
        proof {
            lemma_areas_of_without(before, target, self.components.files);
            lemma_areas_of_without(before, target, self.components.diff);
        }
    }
}

/// Laying out the components of a well-formed routing (as
/// `synchronize_component_areas` does) gives the status component the top
/// and bottom rows, the diff component the diff pane, the files component
/// the inside of the files pane exactly when that pane shows, and the
/// location list its column while it is active; while the overlay is modal
/// and the revision selector is not, the overlay lies on top of every cell;
/// and the routing stays well formed.
pub proof fn law_well_formed_routing_lays_out_each_component(
    routing: Routing,
    states: ComponentStates,
    column: u16,
    row: u16,
)
    requires
        routing.well_formed(),
    ensures
        ({
            let layout = PaneLayout::spec_new(routing.width, routing.height, routing.file_width);
            let laid = laid_out_areas(routing.areas@, layout, routing.focus, routing.components, states);
            let components = routing.components;
            let files_pane_width = if layout.wide {
                layout.file_width
            } else {
                layout.width
            };
            &&& areas_of(laid, components.status) == seq![
                Rect::spec_new(0, 0, layout.width, 1),
                Rect::spec_new(0, sat_sub(layout.height as int, 1) as u16, layout.width, 1),
            ]
            &&& areas_of(laid, components.diff) == seq![diff_pane_area(layout)]
            &&& areas_of(laid, components.files) == match files_content_area(layout, routing.focus) {
                Some(area) => seq![area],
                None => Seq::<Rect>::empty(),
            }
            &&& areas_of(laid, components.locations) == if states.locations_active {
                seq![Rect::spec_new(0, 1, files_pane_width, sat_sub(layout.height as int, 2) as u16)]
            } else {
                Seq::<Rect>::empty()
            }
            &&& (states.overlay_modal && !states.revision_modal && column < layout.width && row
                < layout.height) ==> (area_at(laid, column, row) matches Some(found) && found.target
                == components.overlay)
        }),
{
    law_laid_out_areas_place_each_component(
        routing.areas@,
        PaneLayout::spec_new(routing.width, routing.height, routing.file_width),
        routing.focus,
        routing.components,
        states,
        column,
        row,
    );
}

} // verus!
