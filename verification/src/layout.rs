//! Application pane layout with the navigation tabs above the files pane.

use vstd::prelude::*;
use vstd::string::StringSliceAdditionalSpecFns;
use vstd::utf8::{is_ascii_chars, is_ascii_chars_encode_utf8};

use crate::app::{sat_sub, spec_min, Rect};

verus! {

/// Terminal width below which the navigation and content panes share one
/// column.
pub const NARROW_WIDTH: u16 = 72;

/// Narrowest width the content pane keeps in the wide layout.
pub const MINIMUM_DIFF_WIDTH: u16 = 16;

/// Label of the files tab.
pub const FILES: &'static str = " [F]iles ";

/// Label of the explore tab.
pub const EXPLORE: &'static str = " [E]xplore ";

/// Label of the threads tab.
pub const THREADS: &'static str = " [T]hreads ";

/// Separator between two tabs.
pub const SEPARATOR: &'static str = "|";

/// Marker added to the threads tab while a reply is unread.
pub const UNREAD: &'static str = "● ";

proof fn lemma_tab_labels()
    ensures
        FILES.spec_bytes().len() == 9,
        EXPLORE.spec_bytes().len() == 11,
        THREADS.spec_bytes().len() == 11,
        SEPARATOR.spec_bytes().len() == 1,
        UNREAD@.len() == 2,
{
    reveal_strlit(" [F]iles ");
    reveal_strlit(" [E]xplore ");
    reveal_strlit(" [T]hreads ");
    reveal_strlit("|");
    reveal_strlit("● ");
    assert(is_ascii_chars(FILES@));
    assert(is_ascii_chars(EXPLORE@));
    assert(is_ascii_chars(THREADS@));
    assert(is_ascii_chars(SEPARATOR@));
    is_ascii_chars_encode_utf8(FILES@);
    is_ascii_chars_encode_utf8(EXPLORE@);
    is_ascii_chars_encode_utf8(THREADS@);
    is_ascii_chars_encode_utf8(SEPARATOR@);
}

/// The navigation view shown in the left pane.
#[derive(Clone, Copy, Debug, PartialEq, Eq, Structural)]
pub enum ReviewNavigation {
    Files,
    Threads,
    Explore,
}

/// The tab row above the navigation pane: files, threads and explore.
pub struct NavigationTabs;

impl NavigationTabs {
    /// Columns taken by the tab row, including the unread marker.
    pub fn width(unread: bool) -> (columns: usize)
        ensures
            columns == 33 + if unread { 2int } else { 0 },
    {
        proof {
            lemma_tab_labels();
        }
        let marker = crate::text::chars_of(UNREAD).len();
        assert(marker == 2);
        let unread_width: usize = if unread {
            marker
        } else {
            0
        };
        FILES.len() + SEPARATOR.len() + THREADS.len() + SEPARATOR.len() + EXPLORE.len()
            + unread_width
    }

    /// Narrowest navigation pane that shows the whole tab row and borders.
    pub fn minimum_pane_width() -> (columns: u16)
        ensures
            columns == 37,
    {
        (Self::width(true) + 2) as u16
    }

    /// The tab under column `column` of the tab row.
    pub fn mode_at(column: u16, unread: bool) -> (mode: Option<ReviewNavigation>)
        ensures
            mode == (if column < 9 {
                Some(ReviewNavigation::Files)
            } else if 10 <= column < 21 + if unread { 2int } else { 0 } {
                Some(ReviewNavigation::Threads)
            } else if 22 + (if unread { 2int } else { 0 }) <= column < 33 + if unread {
                2int
            } else {
                0
            } {
                Some(ReviewNavigation::Explore)
            } else {
                None
            }),
    {
        proof {
            lemma_tab_labels();
        }
        let column = column as usize;
        let marker: usize = if unread {
            2
        } else {
            0
        };
        let threads_start = FILES.len() + SEPARATOR.len();
        let threads_end = threads_start + THREADS.len() + marker;
        if column < FILES.len() {
            Some(ReviewNavigation::Files)
        } else if threads_start <= column && column < threads_end {
            Some(ReviewNavigation::Threads)
        } else if threads_end + SEPARATOR.len() <= column && column < Self::width(unread) {
            Some(ReviewNavigation::Explore)
        } else {
            None
        }
    }
}

/// The pane that holds the keyboard focus.
#[derive(Clone, Copy, Debug, PartialEq, Eq, Structural)]
pub enum ReviewPane {
    /// The navigation pane on the left.
    Navigation,
    /// The content pane on the right.
    Detail,
}

/// Geometry of the navigation pane and the content pane.
#[derive(Clone, Copy, Debug, PartialEq, Eq, Structural)]
pub struct PaneLayout {
    pub width: u16,
    pub height: u16,
    pub footer_height: u16,
    pub file_width: u16,
    pub wide: bool,
}

impl PaneLayout {
    /// Lay out a terminal: in the wide layout the navigation pane takes the
    /// stored width (30% by default), at least the tab row and at most all
    /// but `MINIMUM_DIFF_WIDTH` columns; otherwise the whole width.
    pub fn new(width: u16, height: u16, file_width: Option<u16>) -> (layout: Self)
        requires
            width >= NARROW_WIDTH ==> width * 30 <= u16::MAX,
        ensures
            layout.width == width,
            layout.height == height,
            layout.footer_height == 1,
            layout.wide == (width >= NARROW_WIDTH),
            layout.file_width == (if width >= NARROW_WIDTH {
                let preferred: int = match file_width {
                    Some(w) => w as int,
                    None => (width * 30) / 100,
                };
                if preferred < 37 {
                    37
                } else if preferred > width - MINIMUM_DIFF_WIDTH {
                    width - MINIMUM_DIFF_WIDTH
                } else {
                    preferred
                }
            } else {
                width as int
            }),
    {
        let file_width = if width >= NARROW_WIDTH {
            let preferred = match file_width {
                Some(w) => w,
                None => width * 30 / 100,
            };
            let lower = NavigationTabs::minimum_pane_width();
            let upper = width - MINIMUM_DIFF_WIDTH;
            if preferred < lower {
                lower
            } else if preferred > upper {
                upper
            } else {
                preferred
            }
        } else {
            width
        };
        PaneLayout { width, height, wide: width >= NARROW_WIDTH, footer_height: 1, file_width }
    }

    /// The layout for a navigation view: the explore view always takes the
    /// whole width.
    pub fn for_navigation(
        width: u16,
        height: u16,
        file_width: Option<u16>,
        navigation: ReviewNavigation,
    ) -> (layout: Self)
        requires
            width >= NARROW_WIDTH ==> width * 30 <= u16::MAX,
        ensures
            navigation == ReviewNavigation::Explore ==> !layout.wide && layout.file_width == width,
            navigation != ReviewNavigation::Explore ==> layout == Self::spec_new(
                width,
                height,
                file_width,
            ),
            layout.width == width && layout.height == height && layout.footer_height == 1,
    {
        let mut layout = Self::new(width, height, file_width);
        if navigation == ReviewNavigation::Explore {
            layout.wide = false;
            layout.file_width = width;
        }
        layout
    }

    /// The layout `new` returns.
    pub open spec fn spec_new(width: u16, height: u16, file_width: Option<u16>) -> Self {
        PaneLayout {
            width,
            height,
            footer_height: 1,
            wide: width >= NARROW_WIDTH,
            file_width: (if width >= NARROW_WIDTH {
                let preferred: int = match file_width {
                    Some(w) => w as int,
                    None => (width * 30) / 100,
                };
                if preferred < 37 {
                    37
                } else if preferred > width - MINIMUM_DIFF_WIDTH {
                    width - MINIMUM_DIFF_WIDTH
                } else {
                    preferred
                }
            } else {
                width as int
            }) as u16,
        }
    }

    /// Whether the panes stand side by side.
    pub fn is_wide(self) -> (wide: bool)
        ensures
            wide == self.wide,
    {
        self.wide
    }

    /// Rows between the tab row and the footer.
    pub fn body_height(self) -> (rows: u16)
        ensures
            rows == sat_sub(self.height as int, 1 + self.footer_height),
    {
        self.height.saturating_sub(1u16.saturating_add(self.footer_height))
    }

    /// Whether a cell lies between the tab row and the footer.
    pub fn contains_body(self, column: u16, row: u16) -> (inside: bool)
        ensures
            inside == (column < self.width && row > 0 && row < sat_sub(
                self.height as int,
                self.footer_height as int,
            )),
    {
        column < self.width && row > 0 && row < self.height.saturating_sub(self.footer_height)
    }

    /// Whether a body cell lies on the draggable pane boundary.
    pub fn is_separator(self, column: u16, row: u16) -> (on_boundary: bool)
        ensures
            on_boundary == (self.wide && column < self.width && row > 0 && row < sat_sub(
                self.height as int,
                self.footer_height as int,
            ) && column - self.file_width <= 1 && self.file_width - column <= 1),
    {
        let distance = if column >= self.file_width {
            column - self.file_width
        } else {
            self.file_width - column
        };
        self.is_wide() && self.contains_body(column, row) && distance <= 1
    }

    /// Rows moved by a page: the body without the pane borders, at least one.
    pub fn page_rows(self) -> (rows: usize)
        ensures
            rows == (if sat_sub(sat_sub(self.height as int, 1 + self.footer_height), 2) >= 1 {
                sat_sub(sat_sub(self.height as int, 1 + self.footer_height), 2)
            } else {
                1
            }),
    {
        let rows = self.body_height().saturating_sub(2);
        if rows >= 1 {
            rows as usize
        } else {
            1
        }
    }
}

impl PaneLayout {
    /// The area inside the borders of the files pane, when it is shown:
    /// always in the wide layout, else only while the navigation pane has
    /// the focus.
    pub fn files_content_area(self, focus: ReviewPane) -> (area: Option<Rect>)
        ensures
            area == if !self.wide && focus != ReviewPane::Navigation {
                None
            } else {
                let pane_width = if self.wide {
                    self.file_width
                } else {
                    self.width
                };
                Some(
                    Rect {
                        x: 1,
                        y: 2,
                        width: sat_sub(pane_width as int, 2) as u16,
                        height: sat_sub(sat_sub(self.height as int, 1 + self.footer_height), 2) as u16,
                    },
                )
            },
    {
        if !self.is_wide() && focus != ReviewPane::Navigation {
            return None;
        }
        let pane_width = if self.is_wide() {
            self.file_width
        } else {
            self.width
        };
        Some(Rect::new(1, 2, pane_width.saturating_sub(2), self.body_height().saturating_sub(2)))
    }
}

/// The header row, the body and the footer rows of a frame.
#[derive(Clone, Copy, Debug, PartialEq, Eq, Structural)]
pub struct FrameRegions {
    pub header: Rect,
    pub body: Rect,
    pub footer: Rect,
}

/// What the body of a frame shows.
#[derive(Clone, Copy, Debug, PartialEq, Eq, Structural)]
pub enum BodyPanes {
    /// The explore view over the whole body.
    Explore,
    /// The location list on the left, the explore view on the right.
    LocationsBesideExplore,
    /// The navigation pane and the content pane side by side.
    Split,
    /// Only the navigation pane.
    Navigation,
    /// Only the content pane.
    Detail,
}

/// What the navigation pane shows.
#[derive(Clone, Copy, Debug, PartialEq, Eq, Structural)]
pub enum NavigationContent {
    Locations,
    Files,
    Threads,
    Explore,
}

impl PaneLayout {
    /// The regions of a frame drawn in `area`: the header row at the top,
    /// the body below it, and the footer rows at the bottom.
    pub fn regions(self, area: Rect) -> (regions: FrameRegions)
        requires
            area.y + 1 <= u16::MAX,
            self.footer_height <= area.spec_bottom(),
        ensures
            regions.header == Rect::spec_new(area.x, area.y, area.width, 1),
            regions.body == Rect::spec_new(
                area.x,
                (area.y + 1) as u16,
                area.width,
                sat_sub(self.height as int, 1 + self.footer_height) as u16,
            ),
            regions.footer == Rect::spec_new(
                area.x,
                (area.spec_bottom() - self.footer_height) as u16,
                area.width,
                self.footer_height,
            ),
    {
        FrameRegions {
            header: Rect::new(area.x, area.y, area.width, 1),
            body: Rect::new(area.x, area.y + 1, area.width, self.body_height()),
            footer: Rect::new(area.x, area.bottom() - self.footer_height, area.width, self.footer_height),
        }
    }
}

/// The panes of the body: the explore view takes the whole body, beside
/// the location list when it is open; else the panes stand side by side
/// in the wide layout, and only the focused one shows in the narrow one.
pub open spec fn panes_of(
    layout: PaneLayout,
    navigation: ReviewNavigation,
    locations_active: bool,
    focus: ReviewPane,
) -> BodyPanes {
    if navigation == ReviewNavigation::Explore {
        if locations_active {
            BodyPanes::LocationsBesideExplore
        } else {
            BodyPanes::Explore
        }
    } else if layout.wide {
        BodyPanes::Split
    } else if focus == ReviewPane::Navigation {
        BodyPanes::Navigation
    } else {
        BodyPanes::Detail
    }
}

/// The panes the body of a frame shows.
pub fn body_panes(
    layout: PaneLayout,
    navigation: ReviewNavigation,
    locations_active: bool,
    focus: ReviewPane,
) -> (panes: BodyPanes)
    ensures
        panes == panes_of(layout, navigation, locations_active, focus),
{
    match navigation {
        ReviewNavigation::Explore => {
            if locations_active {
                BodyPanes::LocationsBesideExplore
            } else {
                BodyPanes::Explore
            }
        },
        _ => {
            if layout.is_wide() {
                BodyPanes::Split
            } else {
                match focus {
                    ReviewPane::Navigation => BodyPanes::Navigation,
                    ReviewPane::Detail => BodyPanes::Detail,
                }
            }
        },
    }
}

/// What the navigation pane shows: the location list while it is open,
/// else the view of the selected tab.
pub fn navigation_content(navigation: ReviewNavigation, locations_active: bool) -> (content:
    NavigationContent)
    ensures
        content == (if locations_active {
            NavigationContent::Locations
        } else {
            match navigation {
                ReviewNavigation::Files => NavigationContent::Files,
                ReviewNavigation::Threads => NavigationContent::Threads,
                ReviewNavigation::Explore => NavigationContent::Explore,
            }
        }),
{
    if locations_active {
        return NavigationContent::Locations;
    }
    match navigation {
        ReviewNavigation::Files => NavigationContent::Files,
        ReviewNavigation::Threads => NavigationContent::Threads,
        ReviewNavigation::Explore => NavigationContent::Explore,
    }
}

/// The tab row drawn over the top border of a pane at `area`: one column
/// in from the left, as wide as the tabs but inside the borders.
pub fn tabs_area(area: Rect, unread: bool) -> (tabs: Rect)
    requires
        area.x + 1 <= u16::MAX,
    ensures
        tabs == Rect::spec_new(
            (area.x + 1) as u16,
            area.y,
            spec_min(33 + if unread { 2int } else { 0 }, sat_sub(area.width as int, 2)) as u16,
            1,
        ),
{
    let tabs_width = NavigationTabs::width(unread) as u16;
    let room = area.width.saturating_sub(2);
    let width = if tabs_width < room {
        tabs_width
    } else {
        room
    };
    Rect::new(area.x + 1, area.y, width, 1)
}

/// The split of the explore body while the location list is open: the
/// list's preferred width (the stored one, else 30% of the body) but at
/// least 18 columns, and the narrowest the list may get, 24 columns or
/// half the body.
pub fn location_selector_widths(body: Rect, preferred_width: Option<u16>) -> (widths: (u16, u16))
    requires
        body.width * 30 <= u16::MAX,
    ensures
        widths.0 == (if (match preferred_width {
            Some(w) => w as int,
            None => body.width * 30 / 100,
        }) >= 18 {
            match preferred_width {
                Some(w) => w as int,
                None => body.width * 30 / 100,
            }
        } else {
            18
        }),
        widths.1 == spec_min(24, (body.width / 2) as int),
{
    let preferred = match preferred_width {
        Some(w) => w,
        None => body.width * 30 / 100,
    };
    let half = body.width / 2;
    (if preferred >= 18 {
        preferred
    } else {
        18
    }, if half < 24 {
        half
    } else {
        24
    })
}

} // verus!
