//! The tabs and what a key does in each of them.
//!
//! Every tab answers a key with a change of the shared state. The set of tabs
//! is closed, so the manager matches on the kind of the active tab.

use vstd::prelude::*;
use crate::app::{minus_or_zero, scroll_to_selection, smaller, AppState, Offsets};
use crate::config::{lookup_action, Action, KeyCode};

verus! {

/// The state after a navigation action in a tab that scrolls a tree against
/// a table: the selection moves one step and stays within the limits.
pub open spec fn navigated(
    offsets: Offsets,
    action: Option<Action>,
    max_horizontal: Option<usize>,
    max_vertical: Option<usize>,
) -> Offsets {
    match action {
        Some(Action::Up) => Offsets {
            vertical_offset: minus_or_zero(offsets.vertical_offset as int, 1) as usize,
            ..offsets
        },
        Some(Action::Down) => if offsets.vertical_offset < limit(max_vertical) {
            Offsets { vertical_offset: (offsets.vertical_offset + 1) as usize, ..offsets }
        } else {
            offsets
        },
        Some(Action::Left) => Offsets {
            horizontal_offset: minus_or_zero(offsets.horizontal_offset as int, 1) as usize,
            ..offsets
        },
        Some(Action::Right) => if offsets.horizontal_offset < limit(max_horizontal) {
            Offsets { horizontal_offset: (offsets.horizontal_offset + 1) as usize, ..offsets }
        } else {
            offsets
        },
        _ => offsets,
    }
}

/// A limit, or the greatest number where there is none.
pub open spec fn limit(max: Option<usize>) -> usize {
    match max {
        Some(n) => n,
        None => usize::MAX,
    }
}

fn navigate(
    action: Option<Action>,
    max_horizontal: Option<usize>,
    max_vertical: Option<usize>,
    state: &mut AppState,
)
    ensures
        final(state)@ == navigated(old(state)@, action, max_horizontal, max_vertical),
        final(state).configuration() == old(state).configuration(),
{
    match action {
        Some(Action::Up) => {
            if state.vertical_offset() > 0 {
                state.up();
            }
        },
        Some(Action::Down) => {
            let max: usize = match max_vertical {
                Some(n) => n,
                None => usize::MAX,
            };
            if state.vertical_offset() < max {
                state.down();
            }
        },
        Some(Action::Left) => {
            if state.horizontal_offset() > 0 {
                state.left();
            }
        },
        Some(Action::Right) => {
            let max: usize = match max_horizontal {
                Some(n) => n,
                None => usize::MAX,
            };
            if state.horizontal_offset() < max {
                state.right();
            }
        },
        _ => {},
    }
}

/// The tab that shows the file's metadata.
pub struct MetadataTab {
    pub max_horizontal_scroll: Option<usize>,
    pub max_vertical_scroll: Option<usize>,
}

impl Default for MetadataTab {
    fn default() -> (tab: MetadataTab)
        ensures
            tab.max_horizontal_scroll is None,
            tab.max_vertical_scroll is None,
    {
        MetadataTab::new()
    }
}

impl MetadataTab {
    /// A tab without limits.
    pub fn new() -> (tab: MetadataTab)
        ensures
            tab.max_horizontal_scroll is None,
            tab.max_vertical_scroll is None,
    {
        MetadataTab { max_horizontal_scroll: None, max_vertical_scroll: None }
    }

    /// The tab with a limit to the horizontal offset.
    pub fn with_max_horizontal_scroll(self, max_horizontal_scroll: usize) -> (tab: MetadataTab)
        ensures
            tab.max_horizontal_scroll == Some(max_horizontal_scroll),
            tab.max_vertical_scroll == self.max_vertical_scroll,
    {
        MetadataTab {
            max_horizontal_scroll: Some(max_horizontal_scroll),
            max_vertical_scroll: self.max_vertical_scroll,
        }
    }

    /// The tab with a limit to the vertical offset.
    pub fn with_max_vertical_scroll(self, max_vertical_scroll: usize) -> (tab: MetadataTab)
        ensures
            tab.max_horizontal_scroll == self.max_horizontal_scroll,
            tab.max_vertical_scroll == Some(max_vertical_scroll),
    {
        MetadataTab {
            max_horizontal_scroll: self.max_horizontal_scroll,
            max_vertical_scroll: Some(max_vertical_scroll),
        }
    }

    /// No key changes anything in this tab.
    pub fn on_event(&self, code: KeyCode, state: &mut AppState)
        ensures
            final(state)@ == old(state)@,
            final(state).configuration() == old(state).configuration(),
    {
    }

    /// The name of the tab.
    pub fn title(&self) -> (s: String)
        ensures
            s@ == "Metadata"@,
    {
        "Metadata".to_owned()
    }
}

/// The tab that shows one row group at a time.
pub struct RowGroupsTab {
    pub max_horizontal_scroll: Option<usize>,
    pub max_vertical_scroll: Option<usize>,
}

impl Default for RowGroupsTab {
    fn default() -> (tab: RowGroupsTab)
        ensures
            tab.max_horizontal_scroll is None,
            tab.max_vertical_scroll is None,
    {
        RowGroupsTab::new()
    }
}

impl RowGroupsTab {
    /// A tab without limits.
    pub fn new() -> (tab: RowGroupsTab)
        ensures
            tab.max_horizontal_scroll is None,
            tab.max_vertical_scroll is None,
    {
        RowGroupsTab { max_horizontal_scroll: None, max_vertical_scroll: None }
    }

    /// The tab with a limit to the horizontal offset.
    pub fn with_max_horizontal_scroll(self, max_horizontal_scroll: usize) -> (tab: RowGroupsTab)
        ensures
            tab.max_horizontal_scroll == Some(max_horizontal_scroll),
            tab.max_vertical_scroll == self.max_vertical_scroll,
    {
        RowGroupsTab {
            max_horizontal_scroll: Some(max_horizontal_scroll),
            max_vertical_scroll: self.max_vertical_scroll,
        }
    }

    /// The tab with a limit to the vertical offset.
    pub fn with_max_vertical_scroll(self, max_vertical_scroll: usize) -> (tab: RowGroupsTab)
        ensures
            tab.max_horizontal_scroll == self.max_horizontal_scroll,
            tab.max_vertical_scroll == Some(max_vertical_scroll),
    {
        RowGroupsTab {
            max_horizontal_scroll: self.max_horizontal_scroll,
            max_vertical_scroll: Some(max_vertical_scroll),
        }
    }

    /// Left and right step through the row groups, up and down through the
    /// columns.
    pub fn on_event(&self, code: KeyCode, state: &mut AppState)
        ensures
            final(state)@ == navigated(
                old(state)@,
                lookup_action(old(state).configuration().keymap.bindings(), code),
                self.max_horizontal_scroll,
                self.max_vertical_scroll,
            ),
            final(state).configuration() == old(state).configuration(),
    {
        let action = state.settings().keymap.get_action(code);
        navigate(action, self.max_horizontal_scroll, self.max_vertical_scroll, state);
    }

    /// The name of the tab.
    pub fn title(&self) -> (s: String)
        ensures
            s@ == "Row Groups"@,
    {
        "Row Groups".to_owned()
    }
}

/// The tab that shows the schema tree beside the table of columns.
pub struct SchemaTab {
    pub max_horizontal_scroll: Option<usize>,
    pub max_vertical_scroll: Option<usize>,
}

impl Default for SchemaTab {
    fn default() -> (tab: SchemaTab)
        ensures
            tab.max_horizontal_scroll is None,
            tab.max_vertical_scroll is None,
    {
        SchemaTab::new()
    }
}

impl SchemaTab {
    /// A tab without limits.
    pub fn new() -> (tab: SchemaTab)
        ensures
            tab.max_horizontal_scroll is None,
            tab.max_vertical_scroll is None,
    {
        SchemaTab { max_horizontal_scroll: None, max_vertical_scroll: None }
    }

    /// The tab with a limit to the horizontal offset.
    pub fn with_max_horizontal_scroll(self, max_horizontal_scroll: usize) -> (tab: SchemaTab)
        ensures
            tab.max_horizontal_scroll == Some(max_horizontal_scroll),
            tab.max_vertical_scroll == self.max_vertical_scroll,
    {
        SchemaTab {
            max_horizontal_scroll: Some(max_horizontal_scroll),
            max_vertical_scroll: self.max_vertical_scroll,
        }
    }

    /// The tab with a limit to the vertical offset.
    pub fn with_max_vertical_scroll(self, max_vertical_scroll: usize) -> (tab: SchemaTab)
        ensures
            tab.max_horizontal_scroll == self.max_horizontal_scroll,
            tab.max_vertical_scroll == Some(max_vertical_scroll),
    {
        SchemaTab {
            max_horizontal_scroll: self.max_horizontal_scroll,
            max_vertical_scroll: Some(max_vertical_scroll),
        }
    }

    /// Left and right scroll the table, up and down step through the
    /// columns.
    pub fn on_event(&self, code: KeyCode, state: &mut AppState)
        ensures
            final(state)@ == navigated(
                old(state)@,
                lookup_action(old(state).configuration().keymap.bindings(), code),
                self.max_horizontal_scroll,
                self.max_vertical_scroll,
            ),
            final(state).configuration() == old(state).configuration(),
    {
        let action = state.settings().keymap.get_action(code);
        navigate(action, self.max_horizontal_scroll, self.max_vertical_scroll, state);
    }

    /// The name of the tab.
    pub fn title(&self) -> (s: String)
        ensures
            s@ == "Schema"@,
    {
        "Schema".to_owned()
    }
}

/// The tab that shows sample rows.
pub struct VisualizeTab {
    pub max_horizontal_scroll: Option<usize>,
    pub max_rows: Option<usize>,
    pub visible_rows: Option<usize>,
}

/// The number of rows, none where it is not known.
pub open spec fn rows_of(max_rows: Option<usize>) -> usize {
    match max_rows {
        Some(n) => n,
        None => 0,
    }
}

/// The state with the selection on row `selected` and the viewport moved to
/// show it.
pub open spec fn selected_row(offsets: Offsets, selected: int, max_rows: int) -> Offsets {
    Offsets {
        vertical_offset: selected as usize,
        data_vertical_scroll: scroll_to_selection(
            selected,
            offsets.data_vertical_scroll as int,
            offsets.visible_data_rows as int,
            max_rows,
        ) as usize,
        ..offsets
    }
}

/// The state after a key in the tab of sample rows. The arrows move the
/// selection by one row or column, `u` and `d` by a page.
pub open spec fn browsed(
    offsets: Offsets,
    code: KeyCode,
    max_horizontal: Option<usize>,
    max_rows: Option<usize>,
) -> Offsets {
    let rows = rows_of(max_rows) as int;
    let v = offsets.vertical_offset as int;
    match code {
        KeyCode::Up => if v > 0 {
            selected_row(offsets, v - 1, rows)
        } else {
            offsets
        },
        KeyCode::Down => if v < minus_or_zero(rows, 1) {
            selected_row(offsets, v + 1, rows)
        } else {
            offsets
        },
        KeyCode::Char(c) => if c == 'u' || c == 'U' {
            selected_row(offsets, minus_or_zero(v, offsets.visible_data_rows as int), rows)
        } else if c == 'd' || c == 'D' {
            selected_row(
                offsets,
                smaller(v + offsets.visible_data_rows, minus_or_zero(rows, 1)),
                rows,
            )
        } else {
            offsets
        },
        KeyCode::Left => Offsets {
            horizontal_offset: minus_or_zero(offsets.horizontal_offset as int, 1) as usize,
            ..offsets
        },
        KeyCode::Right => if offsets.horizontal_offset < limit(max_horizontal) - 1 {
            Offsets { horizontal_offset: (offsets.horizontal_offset + 1) as usize, ..offsets }
        } else {
            offsets
        },
        _ => offsets,
    }
}

/// The keys that the tab of sample rows can answer in a state: a step or a
/// page needs a viewport of at least one row unless the selection lands above
/// the viewport, a page down must stay within the machine's numbers, and a step
/// to the right needs a horizontal limit other than zero.
pub open spec fn browsable(
    offsets: Offsets,
    code: KeyCode,
    max_horizontal: Option<usize>,
    max_rows: Option<usize>,
) -> bool {
    let rows = rows_of(max_rows) as int;
    let v = offsets.vertical_offset as int;
    let scroll = offsets.data_vertical_scroll as int;
    let visible = offsets.visible_data_rows as int;
    match code {
        KeyCode::Up => v > 0 ==> visible > 0 || v - 1 < scroll,
        KeyCode::Down => v < minus_or_zero(rows, 1) ==> visible > 0 || v + 1 < scroll,
        KeyCode::Char(c) => if c == 'u' || c == 'U' {
            visible > 0 || v < scroll
        } else if c == 'd' || c == 'D' {
            v + visible <= usize::MAX && (visible > 0 || smaller(v, minus_or_zero(rows, 1))
                < scroll)
        } else {
            true
        },
        KeyCode::Right => max_horizontal != Some(0usize),
        _ => true,
    }
}

impl Default for VisualizeTab {
    fn default() -> (tab: VisualizeTab)
        ensures
            tab.max_horizontal_scroll is None,
            tab.max_rows is None,
            tab.visible_rows is None,
    {
        VisualizeTab::new()
    }
}

impl VisualizeTab {
    /// A tab without limits.
    pub fn new() -> (tab: VisualizeTab)
        ensures
            tab.max_horizontal_scroll is None,
            tab.max_rows is None,
            tab.visible_rows is None,
    {
        VisualizeTab { max_horizontal_scroll: None, max_rows: None, visible_rows: None }
    }

    /// The tab with a limit to the horizontal offset.
    pub fn with_max_horizontal_scroll(self, max_horizontal_scroll: usize) -> (tab: VisualizeTab)
        ensures
            tab.max_horizontal_scroll == Some(max_horizontal_scroll),
            tab.max_rows == self.max_rows,
            tab.visible_rows == self.visible_rows,
    {
        VisualizeTab {
            max_horizontal_scroll: Some(max_horizontal_scroll),
            max_rows: self.max_rows,
            visible_rows: self.visible_rows,
        }
    }

    /// The tab with the number of sample rows.
    pub fn with_max_rows(self, max_rows: usize) -> (tab: VisualizeTab)
        ensures
            tab.max_horizontal_scroll == self.max_horizontal_scroll,
            tab.max_rows == Some(max_rows),
            tab.visible_rows == self.visible_rows,
    {
        VisualizeTab {
            max_horizontal_scroll: self.max_horizontal_scroll,
            max_rows: Some(max_rows),
            visible_rows: self.visible_rows,
        }
    }

    /// The tab with the number of rows that fit the screen.
    pub fn with_visible_rows(self, visible_rows: usize) -> (tab: VisualizeTab)
        ensures
            tab.max_horizontal_scroll == self.max_horizontal_scroll,
            tab.max_rows == self.max_rows,
            tab.visible_rows == Some(visible_rows),
    {
        VisualizeTab {
            max_horizontal_scroll: self.max_horizontal_scroll,
            max_rows: self.max_rows,
            visible_rows: Some(visible_rows),
        }
    }

    /// Tells whether the tab can answer a key in a state.
    pub fn accepts(&self, code: KeyCode, state: &AppState) -> (r: bool)
        ensures
            r == browsable(state@, code, self.max_horizontal_scroll, self.max_rows),
    {
        let rows: usize = match self.max_rows {
            Some(n) => n,
            None => 0,
        };
        let last: usize = rows.saturating_sub(1);
        let v: usize = state.vertical_offset();
        let scroll: usize = state.data_vertical_scroll();
        let visible: usize = state.visible_data_rows();
        match code {
            KeyCode::Up => v == 0 || visible > 0 || v - 1 < scroll,
            KeyCode::Down => v >= last || visible > 0 || v + 1 < scroll,
            KeyCode::Char(c) => {
                if c == 'u' || c == 'U' {
                    visible > 0 || v < scroll
                } else if c == 'd' || c == 'D' {
                    let landing: usize = if v < last {
                        v
                    } else {
                        last
                    };
                    visible <= usize::MAX - v && (visible > 0 || landing < scroll)
                } else {
                    true
                }
            },
            KeyCode::Right => match self.max_horizontal_scroll {
                Some(n) => n != 0,
                None => true,
            },
            _ => true,
        }
    }

    /// Moves through the sample rows.
    pub fn on_event(&self, code: KeyCode, state: &mut AppState)
        requires
            browsable(old(state)@, code, self.max_horizontal_scroll, self.max_rows),
        ensures
            final(state)@ == browsed(old(state)@, code, self.max_horizontal_scroll, self.max_rows),
            final(state).configuration() == old(state).configuration(),
    {
        let max_rows: usize = match self.max_rows {
            Some(n) => n,
            None => 0,
        };
        let visible_rows: usize = state.visible_data_rows();
        match code {
            KeyCode::Up => {
                if state.vertical_offset() > 0 {
                    state.up();
                    state.adjust_scroll_to_selection(visible_rows, max_rows);
                }
            },
            KeyCode::Down => {
                if state.vertical_offset() < max_rows.saturating_sub(1) {
                    state.down();
                    state.adjust_scroll_to_selection(visible_rows, max_rows);
                }
            },
            KeyCode::Char(c) => {
                if c == 'u' || c == 'U' {
                    state.page_up(visible_rows, max_rows);
                } else if c == 'd' || c == 'D' {
                    state.page_down(visible_rows, max_rows);
                }
            },
            KeyCode::Left => {
                if state.horizontal_offset() > 0 {
                    state.left();
                }
            },
            KeyCode::Right => {
                let max: usize = match self.max_horizontal_scroll {
                    Some(n) => n,
                    None => usize::MAX,
                };
                if state.horizontal_offset() < max - 1 {
                    state.right();
                }
            },
            _ => {},
        }
    }

    /// The name of the tab.
    pub fn title(&self) -> (s: String)
        ensures
            s@ == "Visualize"@,
    {
        "Visualize".to_owned()
    }
}

/// The kinds of tabs.
#[derive(Debug, Clone, Copy, PartialEq, Eq, Structural)]
pub enum TabType {
    Visualize,
    Metadata,
    Schema,
    RowGroups,
}

impl TabType {
    /// The name of the tab as it is shown.
    pub open spec fn title_text(self) -> Seq<char> {
        match self {
            TabType::Visualize => "Visualize"@,
            TabType::Metadata => "Metadata"@,
            TabType::Schema => "Schema"@,
            TabType::RowGroups => "Row Groups"@,
        }
    }

    /// The name of the tab as it is shown.
    pub fn title(&self) -> (s: String)
        ensures
            s@ == self.title_text(),
    {
        match self {
            TabType::Visualize => "Visualize".to_owned(),
            TabType::Metadata => "Metadata".to_owned(),
            TabType::Schema => "Schema".to_owned(),
            TabType::RowGroups => "Row Groups".to_owned(),
        }
    }
}

/// The tabs of the application and which of them is active.
pub struct TabManager {
    pub visualize: VisualizeTab,
    pub metadata: MetadataTab,
    pub schema: SchemaTab,
    pub row_groups: RowGroupsTab,
    pub tabs: Vec<TabType>,
    pub active_tab: usize,
    pub title: String,
}

/// The order of the tabs.
pub open spec fn tab_order() -> Seq<TabType> {
    seq![TabType::Visualize, TabType::Metadata, TabType::Schema, TabType::RowGroups]
}

impl TabManager {
    /// There is a tab, and the active one is one of them.
    pub open spec fn well_formed(&self) -> bool {
        self.active_tab < self.tabs@.len()
    }

    /// The two managers hold the same tabs under the same title; they may
    /// differ in which tab is active.
    pub open spec fn same_tabs(&self, other: TabManager) -> bool {
        &&& self.visualize == other.visualize
        &&& self.metadata == other.metadata
        &&& self.schema == other.schema
        &&& self.row_groups == other.row_groups
        &&& self.tabs == other.tabs
        &&& self.title == other.title
    }

    /// The tabs for a file with the given numbers of leaf columns, row groups
    /// and sample rows. The first tab is active.
    pub fn new(num_columns: usize, num_row_groups: usize, sample_rows: usize) -> (manager:
        TabManager)
        requires
            num_row_groups > 0,
        ensures
            manager.well_formed(),
            manager.tabs@ == tab_order(),
            manager.active_tab == 0,
            manager.title@ == "Tabs"@,
            manager.visualize.max_horizontal_scroll == Some(num_columns),
            manager.visualize.max_rows == Some(sample_rows),
            manager.visualize.visible_rows is None,
            manager.metadata.max_horizontal_scroll == Some(num_columns),
            manager.metadata.max_vertical_scroll == Some(num_row_groups),
            manager.schema.max_horizontal_scroll is None,
            manager.schema.max_vertical_scroll == Some(num_columns),
            manager.row_groups.max_horizontal_scroll == Some((num_row_groups - 1) as usize),
            manager.row_groups.max_vertical_scroll == Some(num_columns),
    {
        let mut tabs: Vec<TabType> = Vec::new();
        tabs.push(TabType::Visualize);
        tabs.push(TabType::Metadata);
        tabs.push(TabType::Schema);
        tabs.push(TabType::RowGroups);
        assert(tabs@ =~= tab_order());
        TabManager {
            visualize: VisualizeTab::new().with_max_horizontal_scroll(num_columns).with_max_rows(
                sample_rows,
            ),
            metadata: MetadataTab::new().with_max_horizontal_scroll(
                num_columns,
            ).with_max_vertical_scroll(num_row_groups),
            schema: SchemaTab::new().with_max_vertical_scroll(num_columns),
            row_groups: RowGroupsTab::new().with_max_horizontal_scroll(
                num_row_groups - 1,
            ).with_max_vertical_scroll(num_columns),
            tabs,
            active_tab: 0,
            title: "Tabs".to_owned(),
        }
    }

    /// Makes the tab to the right active; the first follows the last.
    pub fn next(&mut self)
        requires
            old(self).tabs@.len() > 0,
            old(self).active_tab < usize::MAX,
        ensures
            final(self).active_tab == (old(self).active_tab + 1) % (old(self).tabs@.len() as int),
            final(self).same_tabs(*old(self)),
            final(self).well_formed(),
    {
        self.active_tab = (self.active_tab + 1) % self.tabs.len();
    }

    /// Makes the tab to the left active; the last precedes the first.
    pub fn prev(&mut self)
        requires
            old(self).tabs@.len() > 0,
        ensures
            final(self).active_tab == if old(self).active_tab == 0 {
                old(self).tabs@.len() - 1
            } else {
                (old(self).active_tab - 1) % (old(self).tabs@.len() as int)
            },
            final(self).same_tabs(*old(self)),
            final(self).well_formed(),
    {
        if self.active_tab == 0 {
            self.active_tab = self.tabs.len() - 1;
        } else {
            self.active_tab = (self.active_tab - 1) % self.tabs.len();
        }
    }

    /// The kind of the active tab.
    pub fn active_tab(&self) -> (tab: &TabType)
        requires
            self.well_formed(),
        ensures
            *tab == self.tabs@[self.active_tab as int],
    {
        &self.tabs[self.active_tab]
    }

    /// Makes the tab at a position active.
    pub fn with_selected_tab(self, active_tab: usize) -> (manager: TabManager)
        ensures
            manager.active_tab == active_tab,
            manager.same_tabs(self),
    {
        TabManager {
            visualize: self.visualize,
            metadata: self.metadata,
            schema: self.schema,
            row_groups: self.row_groups,
            tabs: self.tabs,
            active_tab,
            title: self.title,
        }
    }
}

/// The state after the active tab has answered a key.
pub open spec fn answered(manager: TabManager, offsets: Offsets, code: KeyCode, action: Option<
    Action,
>) -> Offsets {
    match manager.tabs@[manager.active_tab as int] {
        TabType::Visualize => browsed(
            offsets,
            code,
            manager.visualize.max_horizontal_scroll,
            manager.visualize.max_rows,
        ),
        TabType::Metadata => offsets,
        TabType::Schema => navigated(
            offsets,
            action,
            manager.schema.max_horizontal_scroll,
            manager.schema.max_vertical_scroll,
        ),
        TabType::RowGroups => navigated(
            offsets,
            action,
            manager.row_groups.max_horizontal_scroll,
            manager.row_groups.max_vertical_scroll,
        ),
    }
}

/// The state with every offset at the origin.
pub open spec fn at_origin(offsets: Offsets) -> Offsets {
    Offsets {
        horizontal_offset: 0,
        vertical_offset: 0,
        tree_scroll_offset: 0,
        data_vertical_scroll: 0,
        visible_data_rows: offsets.visible_data_rows,
    }
}

impl TabManager {
    /// The keys that the active tab can answer in a state.
    pub open spec fn answerable(&self, offsets: Offsets, code: KeyCode) -> bool {
        &&& self.well_formed()
        &&& self.tabs@[self.active_tab as int] == TabType::Visualize ==> browsable(
            offsets,
            code,
            self.visualize.max_horizontal_scroll,
            self.visualize.max_rows,
        )
    }

    /// Tells whether the active tab can answer a key in a state.
    pub fn accepts(&self, code: KeyCode, state: &AppState) -> (r: bool)
        ensures
            r == self.answerable(state@, code),
    {
        if self.active_tab >= self.tabs.len() {
            return false;
        }
        match self.tabs[self.active_tab] {
            TabType::Visualize => self.visualize.accepts(code, state),
            _ => true,
        }
    }

    /// Hands a key to the active tab.
    pub fn on_event(&self, code: KeyCode, state: &mut AppState)
        requires
            self.answerable(old(state)@, code),
        ensures
            final(state)@ == answered(
                *self,
                old(state)@,
                code,
                lookup_action(old(state).configuration().keymap.bindings(), code),
            ),
            final(state).configuration() == old(state).configuration(),
    {
        match self.tabs[self.active_tab] {
            TabType::Visualize => self.visualize.on_event(code, state),
            TabType::Metadata => self.metadata.on_event(code, state),
            TabType::Schema => self.schema.on_event(code, state),
            TabType::RowGroups => self.row_groups.on_event(code, state),
        }
    }
}

/// The action is none of the application's own and goes to the active tab.
pub open spec fn handed_on(action: Option<Action>) -> bool {
    match action {
        None => false,
        Some(Action::Quit) => false,
        Some(Action::Reset) => false,
        Some(Action::NextTab) => false,
        Some(Action::PrevTab) => false,
        Some(_) => true,
    }
}

/// Tells whether a key press can be answered: the active tab is one of the
/// tabs, and a key that goes to it is one that it can answer.
pub fn can_handle_key_event(tabs: &TabManager, state: &AppState, code: KeyCode) -> (r: bool)
    ensures
        r == (tabs.well_formed() && tabs.active_tab < usize::MAX && (handed_on(
            lookup_action(state.configuration().keymap.bindings(), code),
        ) ==> tabs.answerable(state@, code))),
{
    if tabs.active_tab >= tabs.tabs.len() || tabs.active_tab == usize::MAX {
        return false;
    }
    match state.settings().keymap.get_action(code) {
        None => true,
        Some(Action::Quit) => true,
        Some(Action::Reset) => true,
        Some(Action::NextTab) => true,
        Some(Action::PrevTab) => true,
        Some(_) => tabs.accepts(code, state),
    }
}

/// What a key press leads to: whether the application ends, which tab is
/// active afterwards, and the offsets afterwards. A key without an action
/// changes nothing. Quitting ends the application, a reset puts the offsets
/// back to the origin, a change of tab does so too, and any other action is
/// answered by the active tab.
pub open spec fn key_outcome(
    tabs: TabManager,
    offsets: Offsets,
    code: KeyCode,
    action: Option<Action>,
) -> (bool, int, Offsets) {
    let count = tabs.tabs@.len() as int;
    let active = tabs.active_tab as int;
    match action {
        None => (false, active, offsets),
        Some(Action::Quit) => (true, active, offsets),
        Some(Action::Reset) => (false, active, at_origin(offsets)),
        Some(Action::NextTab) => (false, (active + 1) % count, at_origin(offsets)),
        Some(Action::PrevTab) => (
            false,
            if active == 0 {
                count - 1
            } else {
                (active - 1) % count
            },
            at_origin(offsets),
        ),
        Some(other) => (false, active, answered(tabs, offsets, code, Some(other))),
    }
}

/// Answers a key press. The result tells whether the application is to
/// end.
pub fn handle_key_event(tabs: &mut TabManager, state: &mut AppState, code: KeyCode) -> (exit: bool)
    requires
        old(tabs).well_formed(),
        old(tabs).active_tab < usize::MAX,
        handed_on(lookup_action(old(state).configuration().keymap.bindings(), code))
            ==> old(tabs).answerable(old(state)@, code),
    ensures
        final(state).configuration() == old(state).configuration(),
        final(tabs).same_tabs(*old(tabs)),
        final(tabs).well_formed(),
        (exit, final(tabs).active_tab as int, final(state)@) == key_outcome(
            *old(tabs),
            old(state)@,
            code,
            lookup_action(old(state).configuration().keymap.bindings(), code),
        ),
{
    let action = state.settings().keymap.get_action(code);
    match action {
        None => false,
        Some(Action::Quit) => true,
        Some(Action::Reset) => {
            state.reset();
            false
        },
        Some(Action::NextTab) => {
            tabs.next();
            state.reset();
            false
        },
        Some(Action::PrevTab) => {
            tabs.prev();
            state.reset();
            false
        },
        Some(_) => {
            tabs.on_event(code, state);
            false
        },
    }
}

} // verus!
