//! The scroll and selection state that the views share.

use vstd::prelude::*;
use crate::config::{default_bindings, AppConfig};

verus! {

/// Offsets of the selection and of the viewports.
pub struct AppState {
    horizontal_offset: usize,
    vertical_offset: usize,
    tree_scroll_offset: usize,
    data_vertical_scroll: usize,
    visible_data_rows: usize,
    pub config: AppConfig,
}

/// The numbers that an `AppState` holds.
pub struct Offsets {
    pub horizontal_offset: usize,
    pub vertical_offset: usize,
    pub tree_scroll_offset: usize,
    pub data_vertical_scroll: usize,
    pub visible_data_rows: usize,
}

/// `a - b`, or zero where `b` is the greater.
pub open spec fn minus_or_zero(a: int, b: int) -> int {
    if a >= b {
        a - b
    } else {
        0
    }
}

/// The smaller of two numbers.
pub open spec fn smaller(a: int, b: int) -> int {
    if a <= b {
        a
    } else {
        b
    }
}

/// The scroll offset that keeps row `selected` inside a viewport of
/// `visible` rows over `max_rows` rows: the viewport moves up to a selection
/// above it and down to one below it, and never past the last page.
pub open spec fn scroll_to_selection(
    selected: int,
    scroll: int,
    visible: int,
    max_rows: int,
) -> int {
    let moved = if selected < scroll {
        selected
    } else if selected - scroll >= visible {
        minus_or_zero(selected, visible - 1)
    } else {
        scroll
    };
    smaller(moved, minus_or_zero(max_rows, visible))
}

impl View for AppState {
    type V = Offsets;

    closed spec fn view(&self) -> Offsets {
        Offsets {
            horizontal_offset: self.horizontal_offset,
            vertical_offset: self.vertical_offset,
            tree_scroll_offset: self.tree_scroll_offset,
            data_vertical_scroll: self.data_vertical_scroll,
            visible_data_rows: self.visible_data_rows,
        }
    }
}

impl Default for AppState {
    fn default() -> (state: AppState)
        ensures
            state@ == (Offsets {
                horizontal_offset: 0,
                vertical_offset: 0,
                tree_scroll_offset: 0,
                data_vertical_scroll: 0,
                visible_data_rows: 20,
            }),
            state.configuration().keymap.bindings() == default_bindings(),
    {
        AppState::new(AppConfig::default())
    }
}

impl AppState {
    /// The configuration that the state carries.
    pub closed spec fn configuration(&self) -> AppConfig {
        self.config
    }

    /// The configuration that the state carries.
    pub fn settings(&self) -> (config: &AppConfig)
        ensures
            *config == self.configuration(),
    {
        &self.config
    }

    /// A state with everything at the origin and twenty visible rows.
    pub fn new(config: AppConfig) -> (state: AppState)
        ensures
            state@ == (Offsets {
                horizontal_offset: 0,
                vertical_offset: 0,
                tree_scroll_offset: 0,
                data_vertical_scroll: 0,
                visible_data_rows: 20,
            }),
            state.configuration() == config,
    {
        AppState {
            horizontal_offset: 0,
            vertical_offset: 0,
            tree_scroll_offset: 0,
            data_vertical_scroll: 0,
            visible_data_rows: 20,
            config,
        }
    }

    /// Puts every offset back to the origin. The number of visible rows
    /// stays.
    pub fn reset(&mut self)
        ensures
            final(self)@ == (Offsets {
                horizontal_offset: 0,
                vertical_offset: 0,
                tree_scroll_offset: 0,
                data_vertical_scroll: 0,
                visible_data_rows: old(self)@.visible_data_rows,
            }),
            final(self).configuration() == old(self).configuration(),
    {
        self.horizontal_offset = 0;
        self.vertical_offset = 0;
        self.tree_scroll_offset = 0;
        self.data_vertical_scroll = 0;
    }

    /// The selected column.
    pub fn horizontal_offset(&self) -> (n: usize)
        ensures
            n == self@.horizontal_offset,
    {
        self.horizontal_offset
    }

    /// The selected row.
    pub fn vertical_offset(&self) -> (n: usize)
        ensures
            n == self@.vertical_offset,
    {
        self.vertical_offset
    }

    /// Moves the selection one row down.
    pub fn down(&mut self)
        requires
            old(self)@.vertical_offset < usize::MAX,
        ensures
            final(self)@ == (Offsets {
                vertical_offset: (old(self)@.vertical_offset + 1) as usize,
                ..old(self)@
            }),
            final(self).configuration() == old(self).configuration(),
    {
        self.vertical_offset += 1;
    }

    /// Moves the selection one row up, unless it is on the first row.
    pub fn up(&mut self)
        ensures
            final(self)@ == (Offsets {
                vertical_offset: minus_or_zero(old(self)@.vertical_offset as int, 1) as usize,
                ..old(self)@
            }),
            final(self).configuration() == old(self).configuration(),
    {
        self.vertical_offset = self.vertical_offset.saturating_sub(1);
    }

    /// Moves the selection one column to the right.
    pub fn right(&mut self)
        requires
            old(self)@.horizontal_offset < usize::MAX,
        ensures
            final(self)@ == (Offsets {
                horizontal_offset: (old(self)@.horizontal_offset + 1) as usize,
                ..old(self)@
            }),
            final(self).configuration() == old(self).configuration(),
    {
        self.horizontal_offset += 1;
    }

    /// Moves the selection one column to the left, unless it is on the
    /// first column.
    pub fn left(&mut self)
        ensures
            final(self)@ == (Offsets {
                horizontal_offset: minus_or_zero(old(self)@.horizontal_offset as int, 1) as usize,
                ..old(self)@
            }),
            final(self).configuration() == old(self).configuration(),
    {
        self.horizontal_offset = self.horizontal_offset.saturating_sub(1);
    }

    /// How far the tree is scrolled.
    pub fn tree_scroll_offset(&self) -> (n: usize)
        ensures
            n == self@.tree_scroll_offset,
    {
        self.tree_scroll_offset
    }

    /// Scrolls the tree one line up, unless it is at the top.
    pub fn tree_scroll_up(&mut self)
        ensures
            final(self)@ == (Offsets {
                tree_scroll_offset: minus_or_zero(old(self)@.tree_scroll_offset as int, 1) as usize,
                ..old(self)@
            }),
            final(self).configuration() == old(self).configuration(),
    {
        self.tree_scroll_offset = self.tree_scroll_offset.saturating_sub(1);
    }

    /// Scrolls the tree one line down.
    pub fn tree_scroll_down(&mut self)
        requires
            old(self)@.tree_scroll_offset < usize::MAX,
        ensures
            final(self)@ == (Offsets {
                tree_scroll_offset: (old(self)@.tree_scroll_offset + 1) as usize,
                ..old(self)@
            }),
            final(self).configuration() == old(self).configuration(),
    {
        self.tree_scroll_offset += 1;
    }

    /// The first row of sample data in view.
    pub fn data_vertical_scroll(&self) -> (n: usize)
        ensures
            n == self@.data_vertical_scroll,
    {
        self.data_vertical_scroll
    }

    /// Sets the first row of sample data in view.
    pub fn set_data_vertical_scroll(&mut self, scroll: usize)
        ensures
            final(self)@ == (Offsets { data_vertical_scroll: scroll, ..old(self)@ }),
            final(self).configuration() == old(self).configuration(),
    {
        self.data_vertical_scroll = scroll;
    }

    /// The number of rows of sample data that fit the screen.
    pub fn visible_data_rows(&self) -> (n: usize)
        ensures
            n == self@.visible_data_rows,
    {
        self.visible_data_rows
    }

    /// Sets the number of rows of sample data that fit the screen.
    pub fn set_visible_data_rows(&mut self, rows: usize)
        ensures
            final(self)@ == (Offsets { visible_data_rows: rows, ..old(self)@ }),
            final(self).configuration() == old(self).configuration(),
    {
        self.visible_data_rows = rows;
    }

    /// Moves the selection up by a page and keeps it in view.
    pub fn page_up(&mut self, visible_rows: usize, max_rows: usize)
        requires
            visible_rows > 0 || old(self)@.vertical_offset < old(self)@.data_vertical_scroll,
        ensures
            final(self)@ == (Offsets {
                vertical_offset: minus_or_zero(
                    old(self)@.vertical_offset as int,
                    visible_rows as int,
                ) as usize,
                data_vertical_scroll: scroll_to_selection(
                    minus_or_zero(old(self)@.vertical_offset as int, visible_rows as int),
                    old(self)@.data_vertical_scroll as int,
                    visible_rows as int,
                    max_rows as int,
                ) as usize,
                ..old(self)@
            }),
            final(self).configuration() == old(self).configuration(),
    {
        self.vertical_offset = self.vertical_offset.saturating_sub(visible_rows);
        self.adjust_scroll_to_selection(visible_rows, max_rows);
    }

    /// Moves the selection down by a page, not past the last row, and keeps
    /// it in view.
    pub fn page_down(&mut self, visible_rows: usize, max_rows: usize)
        requires
            visible_rows > 0 || smaller(
                old(self)@.vertical_offset as int,
                minus_or_zero(max_rows as int, 1),
            ) < old(self)@.data_vertical_scroll,
            old(self)@.vertical_offset + visible_rows <= usize::MAX,
        ensures
            final(self)@ == (Offsets {
                vertical_offset: smaller(
                    old(self)@.vertical_offset + visible_rows,
                    minus_or_zero(max_rows as int, 1),
                ) as usize,
                data_vertical_scroll: scroll_to_selection(
                    smaller(
                        old(self)@.vertical_offset + visible_rows,
                        minus_or_zero(max_rows as int, 1),
                    ),
                    old(self)@.data_vertical_scroll as int,
                    visible_rows as int,
                    max_rows as int,
                ) as usize,
                ..old(self)@
            }),
            final(self).configuration() == old(self).configuration(),
    {
        let target: usize = self.vertical_offset + visible_rows;
        let last: usize = max_rows.saturating_sub(1);
        self.vertical_offset = if target < last {
            target
        } else {
            last
        };
        self.adjust_scroll_to_selection(visible_rows, max_rows);
    }

    /// Moves the viewport so that the selected row is inside it.
    pub fn adjust_scroll_to_selection(&mut self, visible_rows: usize, max_rows: usize)
        requires
            visible_rows > 0 || old(self)@.vertical_offset < old(self)@.data_vertical_scroll,
        ensures
            final(self)@ == (Offsets {
                data_vertical_scroll: scroll_to_selection(
                    old(self)@.vertical_offset as int,
                    old(self)@.data_vertical_scroll as int,
                    visible_rows as int,
                    max_rows as int,
                ) as usize,
                ..old(self)@
            }),
            final(self).configuration() == old(self).configuration(),
    {
        if self.vertical_offset < self.data_vertical_scroll {
            self.data_vertical_scroll = self.vertical_offset;
        } else if self.vertical_offset - self.data_vertical_scroll >= visible_rows {
            self.data_vertical_scroll = self.vertical_offset.saturating_sub(visible_rows - 1);
        }
        let max_scroll: usize = max_rows.saturating_sub(visible_rows);
        if max_scroll < self.data_vertical_scroll {
            self.data_vertical_scroll = max_scroll;
        }
    }
}

} // verus!
