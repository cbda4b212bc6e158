//! Review state primitives: keys, focus, pane geometry and text columns.

use vstd::prelude::*;
use vstd::utf8::encode_utf8;

use crate::diff::TAB_DISPLAY_WIDTH;
use crate::text::chars_of;
use crate::unicode::{
    byte_len, concat, display_width, extended_graphemes, grapheme_indices, lemma_concat_push,
    lemma_encode_utf8_concat, str_width,
};

verus! {

/// Terminal width below which the files and diff panes share one column.
pub const NARROW_WIDTH: u16 = 72;

/// Narrowest width that either pane may be given in the wide layout.
pub const MIN_PANE_WIDTH: u16 = 16;

/// How loaded source is presented and whether it becomes the current file.
#[derive(Clone, Copy, Debug, PartialEq, Eq, Structural)]
pub enum SourceLoadMode {
    /// Show the source only as a result-list preview.
    Preview,
    /// Select the source with flat external-file presentation.
    External,
}

impl SourceLoadMode {
    /// Whether the source becomes the selected external file.
    pub fn external(self) -> (external: bool)
        ensures
            external == (self == SourceLoadMode::External),
    {
        match self {
            SourceLoadMode::External => true,
            SourceLoadMode::Preview => false,
        }
    }
}

/// One normalized keyboard input.
#[derive(Clone, Copy, Debug, PartialEq, Eq, Structural)]
pub enum Key {
    Char(char),
    Backspace,
    Tab,
    Down,
    Up,
    First,
    Last,
    HalfPageDown,
    HalfPageUp,
    PreviousLocation,
    NextLocation,
    Visual,
    Expand,
    CommitMessage,
    Escape,
    Enter,
    Space,
    Quit,
}

/// A rectangle of terminal cells, as the terminal backend lays it out.
#[derive(Clone, Copy, Debug, PartialEq, Eq, Structural)]
pub struct Rect {
    pub x: u16,
    pub y: u16,
    pub width: u16,
    pub height: u16,
}

impl Rect {
    /// A rectangle at (`x`, `y`); the width and height are clipped so that
    /// the right and bottom edges stay within `u16`.
    pub fn new(x: u16, y: u16, width: u16, height: u16) -> (rect: Self)
        ensures
            rect == Rect::spec_new(x, y, width, height),
    {
        let max_width = u16::MAX - x;
        let max_height = u16::MAX - y;
        let width = if width > max_width {
            max_width
        } else {
            width
        };
        let height = if height > max_height {
            max_height
        } else {
            height
        };
        Rect { x, y, width, height }
    }

    /// The rectangle `new` gives.
    pub open spec fn spec_new(x: u16, y: u16, width: u16, height: u16) -> Rect {
        Rect {
            x,
            y,
            width: (if width > u16::MAX - x {
                u16::MAX - x
            } else {
                width as int
            }) as u16,
            height: (if height > u16::MAX - y {
                u16::MAX - y
            } else {
                height as int
            }) as u16,
        }
    }

    /// Whether the cell at (`column`, `row`) lies inside.
    pub open spec fn spec_contains(self, column: u16, row: u16) -> bool {
        self.x <= column < self.spec_right() && self.y <= row < self.spec_bottom()
    }

    /// Whether the cell at (`column`, `row`) lies inside.
    pub fn contains(self, column: u16, row: u16) -> (inside: bool)
        ensures
            inside == self.spec_contains(column, row),
    {
        self.x <= column && column < self.right() && self.y <= row && row < self.bottom()
    }

    pub open spec fn spec_right(self) -> int {
        if self.x + self.width <= u16::MAX { self.x + self.width } else { u16::MAX as int }
    }

    pub open spec fn spec_bottom(self) -> int {
        if self.y + self.height <= u16::MAX { self.y + self.height } else { u16::MAX as int }
    }

    /// The column just right of the rectangle.
    pub fn right(self) -> (column: u16)
        ensures
            column == self.spec_right(),
    {
        self.x.saturating_add(self.width)
    }

    /// The row just below the rectangle.
    pub fn bottom(self) -> (row: u16)
        ensures
            row == self.spec_bottom(),
    {
        self.y.saturating_add(self.height)
    }
}

/// The rows of a visual selection.
#[derive(Clone, Copy, Debug, PartialEq, Eq, Structural)]
pub struct Selection {
    pub anchor: usize,
    pub cursor: usize,
    pub fixed: bool,
}

impl Selection {
    /// The rows between the anchor and the cursor, both included.
    pub fn range(self) -> (rows: std::ops::RangeInclusive<usize>)
        ensures
            rows@.start == (if self.anchor <= self.cursor { self.anchor } else { self.cursor }),
            rows@.end == (if self.anchor <= self.cursor { self.cursor } else { self.anchor }),
            !rows@.exhausted,
    {
        if self.anchor <= self.cursor {
            std::ops::RangeInclusive::new(self.anchor, self.cursor)
        } else {
            std::ops::RangeInclusive::new(self.cursor, self.anchor)
        }
    }
}

/// The background a diff row takes in the viewport.
#[derive(Clone, Copy, Debug, PartialEq, Eq, Structural)]
pub enum RowBackground {
    Plain,
    Selection,
    Cursor,
}

/// Whether row `index` lies in the visual selection.
pub open spec fn selects(selection: Option<Selection>, index: usize) -> bool {
    match selection {
        Some(s) => (if s.anchor <= s.cursor { s.anchor } else { s.cursor }) <= index <= (if s.anchor
            <= s.cursor {
            s.cursor
        } else {
            s.anchor
        }),
        None => false,
    }
}

/// The background of diff row `index`: the cursor's row in a focused pane,
/// else a row of the visual selection, else none.
pub fn row_background(index: usize, cursor: usize, focused: bool, selection: Option<Selection>) -> (background: RowBackground)
    ensures
        background == if focused && index == cursor {
            RowBackground::Cursor
        } else if selects(selection, index) {
            RowBackground::Selection
        } else {
            RowBackground::Plain
        },
{
    if focused && index == cursor {
        return RowBackground::Cursor;
    }
    match selection {
        Some(s) => {
            let (low, high) = if s.anchor <= s.cursor {
                (s.anchor, s.cursor)
            } else {
                (s.cursor, s.anchor)
            };
            if low <= index && index <= high {
                RowBackground::Selection
            } else {
                RowBackground::Plain
            }
        },
        None => RowBackground::Plain,
    }
}

/// The language-server menu opened by a right click.
#[derive(Clone, Copy, Debug, PartialEq, Eq, Structural)]
pub struct ContextMenu {
    pub column: u16,
    pub row: u16,
    pub selected: usize,
    pub enabled: bool,
}

pub open spec fn spec_min(a: int, b: int) -> int {
    if a <= b { a } else { b }
}

impl ContextMenu {
    /// The menu rectangle: 22 x 5 cells (smaller when the bounds are),
    /// at the clicked cell but moved left and up to stay inside `bounds`.
    pub open spec fn spec_area(self, bounds: Rect) -> Rect {
        let width = spec_min(22, bounds.width as int);
        let height = spec_min(5, bounds.height as int);
        let x = spec_min(self.column as int, sat_sub(bounds.spec_right(), width));
        let y = spec_min(self.row as int, sat_sub(bounds.spec_bottom(), height));
        Rect::spec_new(x as u16, y as u16, width as u16, height as u16)
    }

    /// The menu rectangle inside `bounds`.
    pub fn area(&self, bounds: Rect) -> (area: Rect)
        ensures
            area == self.spec_area(bounds),
    {
        let width = if bounds.width < 22 {
            bounds.width
        } else {
            22
        };
        let height = if bounds.height < 5 {
            bounds.height
        } else {
            5
        };
        let right = bounds.right().saturating_sub(width);
        let bottom = bounds.bottom().saturating_sub(height);
        let x = if self.column < right {
            self.column
        } else {
            right
        };
        let y = if self.row < bottom {
            self.row
        } else {
            bottom
        };
        Rect::new(x, y, width, height)
    }

    /// Down: the next entry is selected, the last one stays selected.
    pub fn select_next(&mut self)
        requires
            old(self).selected < usize::MAX,
        ensures
            final(self).selected == spec_min(old(self).selected + 1, 2),
            final(self).column == old(self).column,
            final(self).row == old(self).row,
            final(self).enabled == old(self).enabled,
    {
        let next = self.selected + 1;
        self.selected = if next < 2 {
            next
        } else {
            2
        };
    }

    /// Up: the previous entry is selected, the first one stays selected.
    pub fn select_previous(&mut self)
        ensures
            final(self).selected == (if old(self).selected > 0 { old(self).selected - 1 } else { 0 }),
            final(self).column == old(self).column,
            final(self).row == old(self).row,
            final(self).enabled == old(self).enabled,
    {
        self.selected = self.selected.saturating_sub(1);
    }

    /// Enter: the selected entry, when the menu is enabled.
    pub fn chosen(&self) -> (item: Option<MenuItem>)
        ensures
            item == (if self.enabled { menu_item_at(self.selected as int) } else { None }),
    {
        if self.enabled {
            MenuItem::from_index(self.selected)
        } else {
            None
        }
    }

    /// A click at (`column`, `row`): the entry on that row of the menu,
    /// when the menu is enabled and the cell lies inside it.
    pub fn item_at(&self, bounds: Rect, column: u16, row: u16) -> (item: Option<MenuItem>)
        ensures
            ({
                let area = self.spec_area(bounds);
                item == (if self.enabled && area.spec_contains(column, row) && row >= area.y + 1 {
                    menu_item_at(row - area.y - 1)
                } else {
                    None
                })
            }),
    {
        let area = self.area(bounds);
        let first = area.y.saturating_add(1);
        if area.contains(column, row) && self.enabled && row >= first {
            MenuItem::from_index((row - first) as usize)
        } else {
            None
        }
    }
}

/// The entries of the context menu, top to bottom.
#[derive(Clone, Copy, Debug, PartialEq, Eq, Structural)]
pub enum MenuItem {
    Documentation,
    GoToDefinition,
    FindReferences,
}

/// The entry at `index` of the menu, counted from the top.
pub open spec fn menu_item_at(index: int) -> Option<MenuItem> {
    if index == 0 {
        Some(MenuItem::Documentation)
    } else if index == 1 {
        Some(MenuItem::GoToDefinition)
    } else if index == 2 {
        Some(MenuItem::FindReferences)
    } else {
        None
    }
}

pub open spec fn menu_label(item: MenuItem) -> Seq<char> {
    match item {
        MenuItem::Documentation => "Documentation"@,
        MenuItem::GoToDefinition => "Go to definition"@,
        MenuItem::FindReferences => "Find references"@,
    }
}

impl MenuItem {
    /// The entry at `index`, counted from the top.
    pub fn from_index(index: usize) -> (item: Option<MenuItem>)
        ensures
            item == menu_item_at(index as int),
    {
        if index == 0 {
            Some(MenuItem::Documentation)
        } else if index == 1 {
            Some(MenuItem::GoToDefinition)
        } else if index == 2 {
            Some(MenuItem::FindReferences)
        } else {
            None
        }
    }

    /// The entry's text in the menu.
    pub fn label(self) -> (label: &'static str)
        ensures
            label@ == menu_label(self),
    {
        match self {
            MenuItem::Documentation => "Documentation",
            MenuItem::GoToDefinition => "Go to definition",
            MenuItem::FindReferences => "Find references",
        }
    }
}

/// The centered popup that shows hover documentation: three quarters of
/// the terminal in each direction.
pub fn hover_area(area: Rect) -> (popup: Rect)
    requires
        area.x + (area.width - (if area.width * 3 <= u16::MAX { area.width * 3 } else { u16::MAX as int }) / 4) / 2 <= u16::MAX,
        area.y + (area.height - (if area.height * 3 <= u16::MAX { area.height * 3 } else { u16::MAX as int }) / 4) / 2 <= u16::MAX,
    ensures
        ({
            let width = (if area.width * 3 <= u16::MAX { area.width * 3 } else { u16::MAX as int }) / 4;
            let height = (if area.height * 3 <= u16::MAX { area.height * 3 } else { u16::MAX as int }) / 4;
            let x = area.x + (area.width - width) / 2;
            let y = area.y + (area.height - height) / 2;
            &&& popup.x == x
            &&& popup.y == y
            &&& popup.width == spec_min(width, u16::MAX - x)
            &&& popup.height == spec_min(height, u16::MAX - y)
        }),
{
    let width = (if area.width <= u16::MAX / 3 {
        area.width * 3
    } else {
        u16::MAX
    }) / 4;
    let height = (if area.height <= u16::MAX / 3 {
        area.height * 3
    } else {
        u16::MAX
    }) / 4;
    Rect::new(
        area.x + (area.width - width) / 2,
        area.y + (area.height - height) / 2,
        width,
        height,
    )
}

/// The centered popup that shows the commit message: four fifths of the
/// terminal in each direction.
pub fn commit_message_area(area: Rect) -> (popup: Rect)
    requires
        area.x + (area.width - (if area.width * 4 <= u16::MAX { area.width * 4 } else { u16::MAX as int }) / 5) / 2 <= u16::MAX,
        area.y + (area.height - (if area.height * 4 <= u16::MAX { area.height * 4 } else { u16::MAX as int }) / 5) / 2 <= u16::MAX,
    ensures
        ({
            let width = (if area.width * 4 <= u16::MAX { area.width * 4 } else { u16::MAX as int }) / 5;
            let height = (if area.height * 4 <= u16::MAX { area.height * 4 } else { u16::MAX as int }) / 5;
            let x = area.x + (area.width - width) / 2;
            let y = area.y + (area.height - height) / 2;
            &&& popup.x == x
            &&& popup.y == y
            &&& popup.width == spec_min(width, u16::MAX - x)
            &&& popup.height == spec_min(height, u16::MAX - y)
        }),
{
    let width = (if area.width <= u16::MAX / 4 {
        area.width * 4
    } else {
        u16::MAX
    }) / 5;
    let height = (if area.height <= u16::MAX / 4 {
        area.height * 4
    } else {
        u16::MAX
    }) / 5;
    Rect::new(
        area.x + (area.width - width) / 2,
        area.y + (area.height - height) / 2,
        width,
        height,
    )
}

/// The pane that receives navigation keys.
#[derive(Clone, Copy, Debug, PartialEq, Eq, Structural)]
pub enum Focus {
    /// The changed-file list.
    Files,
    /// The selected file diff.
    Diff,
}

/// Column geometry of the two-pane review screen.
#[derive(Clone, Copy, Debug, PartialEq, Eq, Structural)]
pub struct PaneLayout {
    pub width: u16,
    pub height: u16,
    pub footer_height: u16,
    pub file_width: u16,
}

/// The width given to the files pane: the preferred width (30% of the
/// terminal when none is stored) clamped so that both panes keep at least
/// `MIN_PANE_WIDTH` columns; the whole terminal in the narrow layout.
pub open spec fn spec_file_pane_width(width: u16, file_width: Option<u16>) -> int {
    if width >= NARROW_WIDTH {
        let preferred: int = match file_width {
            Some(w) => w as int,
            None => (width as int * 30) / 100,
        };
        let upper = width - MIN_PANE_WIDTH;
        if preferred < MIN_PANE_WIDTH as int {
            MIN_PANE_WIDTH as int
        } else if preferred > upper {
            upper
        } else {
            preferred
        }
    } else {
        width as int
    }
}

pub open spec fn sat_sub(a: int, b: int) -> int {
    if a >= b { a - b } else { 0 }
}

impl PaneLayout {
    pub open spec fn spec_is_wide(self) -> bool {
        self.width >= NARROW_WIDTH
    }

    pub open spec fn spec_body_height(self) -> int {
        sat_sub(self.height as int, 1 + self.footer_height as int)
    }

    pub open spec fn spec_contains_body(self, column: u16, row: u16) -> bool {
        column < self.width && row > 0 && row < sat_sub(self.height as int, self.footer_height as int)
    }

    /// Lay out a terminal of `width` x `height` cells with an optional stored
    /// files-pane width.
    pub fn new(width: u16, height: u16, file_width: Option<u16>) -> (layout: Self)
        requires
            width >= NARROW_WIDTH ==> width * 30 <= u16::MAX,
        ensures
            layout.width == width,
            layout.height == height,
            layout.footer_height == 1,
            layout.file_width == spec_file_pane_width(width, file_width),
    {
        let file_width = if width >= NARROW_WIDTH {
            let preferred = match file_width {
                Some(w) => w,
                None => width * 30 / 100,
            };
            let upper = width - MIN_PANE_WIDTH;
            if preferred < MIN_PANE_WIDTH {
                MIN_PANE_WIDTH
            } else if preferred > upper {
                upper
            } else {
                preferred
            }
        } else {
            width
        };
        PaneLayout { width, height, footer_height: 1, file_width }
    }

    /// Whether the files and diff panes stand side by side.
    pub fn is_wide(self) -> (wide: bool)
        ensures
            wide == self.spec_is_wide(),
    {
        self.width >= NARROW_WIDTH
    }

    /// Rows between the header row and the footer.
    pub fn body_height(self) -> (rows: u16)
        ensures
            rows == self.spec_body_height(),
    {
        self.height.saturating_sub(1u16.saturating_add(self.footer_height))
    }

    /// Whether a screen cell lies between the header row and the footer.
    pub fn contains_body(self, column: u16, row: u16) -> (inside: bool)
        ensures
            inside == self.spec_contains_body(column, row),
    {
        column < self.width && row > 0 && row < self.height.saturating_sub(self.footer_height)
    }

    /// Whether a screen row shows pane content below the pane title.
    pub fn contains_pane_content(self, row: u16) -> (inside: bool)
        ensures
            inside == (row >= 2 && row < sat_sub(self.height as int, self.footer_height + 1)),
    {
        row >= 2 && row < self.height.saturating_sub(self.footer_height.saturating_add(1))
    }

    /// The pane under a body cell: the current pane in the narrow layout,
    /// otherwise the pane on that side of the files-pane boundary.
    pub fn focus_at(self, current: Focus, column: u16, row: u16) -> (focus: Option<Focus>)
        ensures
            focus == (if !self.spec_contains_body(column, row) {
                None
            } else if !self.spec_is_wide() {
                Some(current)
            } else if column < self.file_width {
                Some(Focus::Files)
            } else {
                Some(Focus::Diff)
            }),
    {
        if !self.contains_body(column, row) {
            None
        } else if !self.is_wide() {
            Some(current)
        } else if column < self.file_width {
            Some(Focus::Files)
        } else {
            Some(Focus::Diff)
        }
    }

    /// Whether a body cell lies on the draggable boundary between the panes.
    pub fn is_separator(self, column: u16, row: u16) -> (on_boundary: bool)
        ensures
            on_boundary == (self.spec_is_wide() && self.spec_contains_body(column, row) && (
            column - self.file_width <= 1 && self.file_width - column <= 1)),
    {
        let distance = if column >= self.file_width {
            column - self.file_width
        } else {
            self.file_width - column
        };
        self.is_wide() && self.contains_body(column, row) && distance <= 1
    }

    /// Rows moved by a page: the body without the pane borders, at least one.
    pub fn page_rows(self) -> (rows: usize)
        ensures
            rows == (if sat_sub(self.spec_body_height(), 2) >= 1 {
                sat_sub(self.spec_body_height(), 2)
            } else {
                1
            }),
    {
        let rows = self.body_height().saturating_sub(2);
        if rows >= 1 {
            rows as usize
        } else {
            1
        }
    }

    /// Columns of diff text inside the diff pane borders, at least one.
    pub fn diff_content_width(self) -> (columns: u16)
        ensures
            columns == ({
                let pane: int = if self.spec_is_wide() {
                    sat_sub(self.width as int, self.file_width as int)
                } else {
                    self.width as int
                };
                if sat_sub(pane, 2) >= 1 { sat_sub(pane, 2) } else { 1 }
            }),
    {
        let pane_width = if self.is_wide() {
            self.width.saturating_sub(self.file_width)
        } else {
            self.width
        };
        let columns = pane_width.saturating_sub(2);
        if columns >= 1 {
            columns
        } else {
            1
        }
    }

    /// Screen column of the first diff text cell.
    pub fn diff_content_start_column(self) -> (column: u16)
        ensures
            column == (if self.spec_is_wide() {
                if self.file_width + 1 <= u16::MAX { self.file_width + 1 } else { u16::MAX as int }
            } else {
                1
            }),
    {
        if self.is_wide() {
            self.file_width.saturating_add(1)
        } else {
            1
        }
    }
}

/// Display width of one grapheme: a tab spans `TAB_DISPLAY_WIDTH` columns,
/// any other text its Unicode width.
pub open spec fn grapheme_display_width(grapheme: Seq<char>) -> int {
    if grapheme == seq!['\t'] {
        TAB_DISPLAY_WIDTH as int
    } else {
        str_width(grapheme) as int
    }
}

/// The display width of one grapheme.
pub fn text_display_width(text: &str) -> (width: usize)
    ensures
        width == grapheme_display_width(text@),
{
    let chars = chars_of(text);
    if chars.len() == 1 && chars[0] == '\t' {
        assert(text@ =~= seq!['\t']);
        TAB_DISPLAY_WIDTH
    } else {
        assert(text@ != seq!['\t']) by {
            if text@ == seq!['\t'] {
                assert(chars@.len() == 1 && chars@[0] == '\t');
            }
        }
        display_width(text)
    }
}

/// The byte offset reached by walking `graphemes` from the start until the
/// first grapheme whose right edge passes display column `column`; the
/// byte length of all of them when none does.
pub open spec fn byte_at_display_column(graphemes: Seq<Seq<char>>, column: int) -> int
    decreases graphemes.len(),
{
    if graphemes.len() == 0 {
        0
    } else {
        let width = grapheme_display_width(graphemes[0]);
        if width > column {
            0
        } else {
            byte_len(graphemes[0]) + byte_at_display_column(graphemes.drop_first(), column - width)
        }
    }
}

pub open spec fn grapheme_texts(graphemes: Seq<(usize, String)>) -> Seq<Seq<char>> {
    graphemes.map_values(|g: (usize, String)| g.1@)
}

/// The byte offset of the grapheme of `line` that covers display column
/// `display_column`, or the length of `line` when the line is narrower.
pub fn display_column_to_byte(line: &str, display_column: usize) -> (byte: usize)
    ensures
        byte == byte_at_display_column(extended_graphemes(line@), display_column as int),
{
    let graphemes = grapheme_indices(line);
    let ghost texts = grapheme_texts(graphemes@);
    proof {
        assert(texts =~= extended_graphemes(line@));
    }
    let mut display: usize = 0;
    let mut k: usize = 0;
    proof {
        assert(texts.take(0) =~= Seq::<Seq<char>>::empty());
        assert(encode_utf8(concat(texts.take(0))) =~= Seq::<u8>::empty());
        assert(texts.skip(0) =~= texts);
    }
    while k < graphemes.len()
        invariant
            k <= graphemes.len() == texts.len(),
            texts == grapheme_texts(graphemes@),
            texts == extended_graphemes(line@),
            concat(texts) == line@,
            forall|j: int|
                0 <= j < graphemes@.len() ==> (#[trigger] graphemes@[j]).0 as nat == byte_len(
                    concat(texts.take(j)),
                ),
            display <= display_column,
            byte_at_display_column(texts, display_column as int) == byte_len(concat(texts.take(k as int)))
                + byte_at_display_column(texts.skip(k as int), display_column - display),
        decreases graphemes.len() - k,
    {
        let width = text_display_width(graphemes[k].1.as_str());
        proof {
            assert(texts.skip(k as int)[0] == texts[k as int]);
            assert(texts.skip(k as int).drop_first() =~= texts.skip(k + 1));
            assert(texts[k as int] == graphemes@[k as int].1@);
        }
        if width > display_column - display {
            return graphemes[k].0;
        }
        proof {
            assert(texts.take(k + 1) =~= texts.take(k as int).push(texts[k as int]));
            lemma_concat_push(texts.take(k as int), texts[k as int]);
            lemma_encode_utf8_concat(concat(texts.take(k as int)), texts[k as int]);
        }
        display = display + width;
        k += 1;
    }
    proof {
        assert(texts.take(k as int) =~= texts);
        assert(texts.skip(k as int) =~= Seq::<Seq<char>>::empty());
    }
    let bytes = line.as_bytes();
    assert(bytes@.len() == bytes.len());
    bytes.len()
}

// ---------------------------------------------------------------------------
// Diff pane controls
// ---------------------------------------------------------------------------

/// Title of the diff pane controls when the whole file can be shown.
pub const DIFF_CONTROLS_TITLE: &'static str = "[←→] [→←] [👁 ]";

/// Title of the diff pane controls when only gaps can be folded.
pub const BASIC_DIFF_CONTROLS_TITLE: &'static str = "[←→] [→←]";

/// Title of the control that closes the file view.
pub const FILE_CONTROL_TITLE: &'static str = "[x]";

/// Label of the control that expands every gap.
pub const EXPAND_ALL_LABEL: &'static str = "[←→]";

/// Label of the control that contracts every gap.
pub const CONTRACT_ALL_LABEL: &'static str = "[→←]";

/// Narrowest diff pane that shows the controls of a diff.
pub const MIN_DIFF_CONTROLS_WIDTH: u16 = 32;

/// A control in the title of the diff pane.
#[derive(Clone, Copy, Debug, PartialEq, Eq, Structural)]
pub enum DiffControl {
    ExpandAll,
    ContractAll,
    ShowFile,
    CloseFile,
}

/// The displayed file, as the diff pane controls read it.
#[derive(Clone, Copy, Debug, PartialEq, Eq, Structural)]
pub struct ShownFile {
    /// Whether the file is a temporary view of a source location.
    pub temporary: bool,
    /// Whether the whole file is shown in place of the diff.
    pub file_view: bool,
    /// Whether the whole file can be shown.
    pub can_show_file: bool,
}

/// The controls shown for a file.
pub open spec fn control_title(file: Option<ShownFile>) -> Seq<char> {
    match file {
        Some(file) => if file.file_view {
            FILE_CONTROL_TITLE@
        } else if file.can_show_file {
            DIFF_CONTROLS_TITLE@
        } else {
            BASIC_DIFF_CONTROLS_TITLE@
        },
        None => BASIC_DIFF_CONTROLS_TITLE@,
    }
}

/// Whether the controls show in a diff pane `width` columns wide: never for
/// a temporary file, else when the pane fits them.
pub open spec fn controls_visible(width: u16, file: Option<ShownFile>) -> bool {
    if file matches Some(f) && f.temporary {
        false
    } else {
        let minimum = if file matches Some(f) && f.file_view {
            if str_width(FILE_CONTROL_TITLE@) + 2 <= u16::MAX {
                str_width(FILE_CONTROL_TITLE@) + 2
            } else {
                u16::MAX as int
            }
        } else {
            MIN_DIFF_CONTROLS_WIDTH as int
        };
        width >= minimum
    }
}

/// The control under column `column` of a pane `width` columns wide whose
/// title ends one column before its right edge.
pub open spec fn control_at(width: u16, column: u16, file: Option<ShownFile>) -> Option<DiffControl> {
    let title_width = str_width(control_title(file)) as int;
    let expand_width = str_width(EXPAND_ALL_LABEL@) as int;
    let contract_width = str_width(CONTRACT_ALL_LABEL@) as int;
    let left = sat_sub(width as int, if title_width + 1 <= u16::MAX {
        title_width + 1
    } else {
        u16::MAX as int
    });
    let offset = column - left;
    let contract_start = expand_width + 1;
    let show_file_start = contract_start + contract_width + 1;
    if title_width > u16::MAX || offset < 0 {
        None
    } else if file matches Some(f) && f.file_view {
        if offset < title_width {
            Some(DiffControl::CloseFile)
        } else {
            None
        }
    } else if contract_start + contract_width + 1 > u16::MAX {
        None
    } else if offset < contract_start - 1 {
        Some(DiffControl::ExpandAll)
    } else if contract_start <= offset < contract_start + contract_width {
        Some(DiffControl::ContractAll)
    } else if (file matches Some(f) && f.can_show_file) && show_file_start <= offset < title_width {
        Some(DiffControl::ShowFile)
    } else {
        None
    }
}

/// A width as a `u16`, when it fits.
fn width_u16(text: &str) -> (width: Option<u16>)
    ensures
        width == if str_width(text@) <= u16::MAX {
            Some(str_width(text@) as u16)
        } else {
            None
        },
{
    let width = display_width(text);
    if width <= u16::MAX as usize {
        Some(width as u16)
    } else {
        None
    }
}

impl DiffControl {
    /// The controls shown in the title of the diff pane.
    pub fn title(file: Option<ShownFile>) -> (title: &'static str)
        ensures
            title@ == control_title(file),
    {
        match file {
            Some(file) => if file.file_view {
                FILE_CONTROL_TITLE
            } else if file.can_show_file {
                DIFF_CONTROLS_TITLE
            } else {
                BASIC_DIFF_CONTROLS_TITLE
            },
            None => BASIC_DIFF_CONTROLS_TITLE,
        }
    }

    /// Whether the controls show in a diff pane `width` columns wide.
    pub fn visible(width: u16, file: Option<ShownFile>) -> (visible: bool)
        ensures
            visible == controls_visible(width, file),
    {
        if let Some(file) = file {
            if file.temporary {
                return false;
            }
        }
        let file_view = match file {
            Some(file) => file.file_view,
            None => false,
        };
        let minimum = if file_view {
            let title = display_width(FILE_CONTROL_TITLE);
            if title <= (u16::MAX - 2) as usize {
                (title + 2) as u16
            } else {
                u16::MAX
            }
        } else {
            MIN_DIFF_CONTROLS_WIDTH
        };
        width >= minimum
    }

    /// The control under column `column` of the title row of a diff pane
    /// `width` columns wide.
    pub fn at(width: u16, column: u16, file: Option<ShownFile>) -> (control: Option<DiffControl>)
        ensures
            control == control_at(width, column, file),
    {
        let title = Self::title(file);
        let title_width = match width_u16(title) {
            Some(title_width) => title_width,
            None => return None,
        };
        let left = width.saturating_sub(title_width.saturating_add(1));
        if column < left {
            return None;
        }
        let offset = column - left;
        let file_view = match file {
            Some(file) => file.file_view,
            None => false,
        };
        if file_view {
            return if offset < title_width {
                Some(DiffControl::CloseFile)
            } else {
                None
            };
        }
        let expand_width = match width_u16(EXPAND_ALL_LABEL) {
            Some(expand_width) => expand_width,
            None => return None,
        };
        let contract_width = match width_u16(CONTRACT_ALL_LABEL) {
            Some(contract_width) => contract_width,
            None => return None,
        };
        if expand_width as u32 + contract_width as u32 + 2 > u16::MAX as u32 {
            return None;
        }
        let contract_start = expand_width + 1;
        let show_file_start = contract_start + contract_width + 1;
        let can_show_file = match file {
            Some(file) => file.can_show_file,
            None => false,
        };
        if offset < contract_start - 1 {
            Some(DiffControl::ExpandAll)
        } else if offset >= contract_start && offset < contract_start + contract_width {
            Some(DiffControl::ContractAll)
        } else if can_show_file && offset >= show_file_start && offset < title_width {
            Some(DiffControl::ShowFile)
        } else {
            None
        }
    }
}

impl PaneLayout {
    /// The control under a cell of the title row of the diff pane.
    pub fn diff_control_at(self, current: Focus, column: u16, row: u16, file: Option<ShownFile>) -> (control:
        Option<DiffControl>)
        ensures
            control == ({
                let diff_width = if self.spec_is_wide() {
                    sat_sub(self.width as int, self.file_width as int) as u16
                } else {
                    self.width
                };
                let focus = if !self.spec_contains_body(column, row) {
                    None
                } else if !self.spec_is_wide() {
                    Some(current)
                } else if column < self.file_width {
                    Some(Focus::Files)
                } else {
                    Some(Focus::Diff)
                };
                if row == 1 && controls_visible(diff_width, file) && focus == Some(Focus::Diff) {
                    control_at(self.width, column, file)
                } else {
                    None
                }
            }),
    {
        let diff_width = if self.is_wide() {
            self.width.saturating_sub(self.file_width)
        } else {
            self.width
        };
        if row == 1 && DiffControl::visible(diff_width, file) && self.focus_at(current, column, row)
            == Some(Focus::Diff) {
            DiffControl::at(self.width, column, file)
        } else {
            None
        }
    }
}

/// Narrowest terminal the review is drawn in.
pub const MIN_WIDTH: u16 = 40;

/// Shortest terminal the review is drawn in.
pub const MIN_HEIGHT: u16 = 6;

/// Whether the review fits into `area`; a smaller terminal only shows a
/// notice.
pub fn terminal_fits(area: Rect) -> (fits: bool)
    ensures
        fits == (area.width >= MIN_WIDTH && area.height >= MIN_HEIGHT),
{
    area.width >= MIN_WIDTH && area.height >= MIN_HEIGHT
}

/// Where the two panes of the review are drawn in `body`: side by side in
/// the wide layout, else only the focused one over the whole body.
pub fn pane_areas(layout: PaneLayout, body: Rect, focus: Focus) -> (areas: (Option<Rect>, Option<Rect>))
    requires
        layout.spec_is_wide() ==> body.x + layout.file_width <= u16::MAX && layout.file_width <= body.width,
    ensures
        layout.spec_is_wide() ==> areas == (
            Some(Rect::spec_new(body.x, body.y, layout.file_width, body.height)),
            Some(
                Rect::spec_new(
                    (body.x + layout.file_width) as u16,
                    body.y,
                    (body.width - layout.file_width) as u16,
                    body.height,
                ),
            ),
        ),
        !layout.spec_is_wide() ==> areas == (if focus == Focus::Files {
            (Some(body), None)
        } else {
            (None, Some(body))
        }),
{
    if layout.is_wide() {
        let file_width = layout.file_width;
        (
            Some(Rect::new(body.x, body.y, file_width, body.height)),
            Some(Rect::new(body.x + file_width, body.y, body.width - file_width, body.height)),
        )
    } else {
        match focus {
            Focus::Files => (Some(body), None),
            Focus::Diff => (None, Some(body)),
        }
    }
}

/// The first line of `text`, without its line feed and a carriage return
/// before it.
pub open spec fn first_line(text: Seq<char>) -> Seq<char> {
    let line = if exists|i: int| 0 <= i < text.len() && text[i] == '\n' {
        text.take(choose|i: int| 0 <= i < text.len() && text[i] == '\n' && forall|j: int| 0 <= j < i ==> text[j] != '\n')
    } else {
        text
    };
    if line.len() > 0 && line.last() == '\r' {
        line.drop_last()
    } else {
        line
    }
}

/// The title of a commit: the first line of its description, or a notice
/// that it has none.
pub open spec fn commit_title_text(description: Seq<char>) -> Seq<char> {
    if first_line(description).len() > 0 {
        first_line(description)
    } else {
        "(no description set)"@
    }
}

/// The title of a commit.
pub fn commit_title(description: &str) -> (title: String)
    ensures
        title@ == commit_title_text(description@),
{
    let chars = crate::text::chars_of(description);
    let mut end: usize = 0;
    while end < chars.len() && chars[end] != '\n'
        invariant
            end <= chars@.len(),
            chars@ == description@,
            forall|j: int| 0 <= j < end ==> chars@[j] != '\n',
        decreases chars@.len() - end,
    {
        end += 1;
    }
    let ghost line = if end < chars.len() {
        description@.take(end as int)
    } else {
        description@
    };
    proof {
        if end < chars.len() {
            let chosen = choose|i: int|
                0 <= i < chars@.len() && chars@[i] == '\n' && forall|j: int| 0 <= j < i ==> chars@[j] != '\n';
            if chosen < end {
            } else if chosen > end {
                assert(chars@[end as int] == '\n');
            }
        }
        if end == chars.len() {
            assert(description@.take(end as int) =~= description@);
        }
    }
    let mut stop = end;
    if stop > 0 && chars[stop - 1] == '\r' {
        stop -= 1;
    }
    if stop == 0 {
        proof {
            reveal_strlit("(no description set)");
        }
        return "(no description set)".to_string();
    }
    let title = crate::text::string_from_chars(&chars, 0, stop);
    proof {
        assert(chars@.subrange(0, stop as int) =~= first_line(description@));
    }
    title
}

/// The width of the revision selector: four fifths of the terminal.
pub open spec fn selector_width(area: Rect) -> int {
    (if area.width * 4 <= u16::MAX { area.width * 4 } else { u16::MAX as int }) / 5
}

/// The height of the revision selector: the list and its borders, up to
/// four fifths of the terminal.
pub open spec fn selector_height(area: Rect, count: usize) -> int {
    spec_min(
        if count + 2 <= u16::MAX { count + 2 } else { u16::MAX as int },
        (if area.height * 4 <= u16::MAX { area.height * 4 } else { u16::MAX as int }) / 5,
    )
}

/// The centred popup that lists `count` revisions.
pub fn revision_selector_area(area: Rect, count: usize) -> (popup: Rect)
    requires
        area.x + sat_sub(area.width as int, selector_width(area)) / 2 <= u16::MAX,
        area.y + sat_sub(area.height as int, selector_height(area, count)) / 2 <= u16::MAX,
    ensures
        ({
            let x = area.x + sat_sub(area.width as int, selector_width(area)) / 2;
            let y = area.y + sat_sub(area.height as int, selector_height(area, count)) / 2;
            &&& popup.x == x
            &&& popup.y == y
            &&& popup.width == spec_min(selector_width(area), u16::MAX - x)
            &&& popup.height == spec_min(selector_height(area, count), u16::MAX - y)
        }),
{
    let width = (if area.width <= u16::MAX / 4 {
        area.width * 4
    } else {
        u16::MAX
    }) / 5;
    let rows: u16 = if count <= (u16::MAX - 2) as usize {
        count as u16 + 2
    } else {
        u16::MAX
    };
    let tallest = (if area.height <= u16::MAX / 4 {
        area.height * 4
    } else {
        u16::MAX
    }) / 5;
    let height = if rows < tallest {
        rows
    } else {
        tallest
    };
    Rect::new(
        area.x + area.width.saturating_sub(width) / 2,
        area.y + area.height.saturating_sub(height) / 2,
        width,
        height,
    )
}

/// The scroll of the revision list that keeps the selected revision on
/// the last visible row once it moves past the popup's height.
pub fn revision_selector_scroll(selected: usize, popup_height: u16) -> (scroll: u16)
    ensures
        ({
            let visible = if popup_height >= 3 { popup_height - 2 } else { 1 };
            let wanted = sat_sub(selected + 1, visible);
            scroll == (if wanted <= u16::MAX { wanted } else { u16::MAX as int })
        }),
{
    let visible = if popup_height >= 3 {
        (popup_height - 2) as usize
    } else {
        1
    };
    let wanted = selected.saturating_add(1).saturating_sub(visible);
    if wanted <= u16::MAX as usize {
        wanted as u16
    } else {
        u16::MAX
    }
}

} // verus!
