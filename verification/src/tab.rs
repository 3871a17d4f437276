//! The tabs of the application, by name and position.

use vstd::prelude::*;

verus! {

/// The identity of a tab.
#[derive(Debug, Clone, Copy, PartialEq, Eq, Hash, Structural)]
pub enum TabId {
    Schema,
    RowGroups,
    Visualize,
}

impl Default for TabId {
    fn default() -> (tab: TabId)
        ensures
            tab == TabId::Schema,
    {
        TabId::Schema
    }
}

impl TabId {
    /// The position of the tab, counted from zero.
    pub open spec fn position(self) -> int {
        match self {
            TabId::Schema => 0,
            TabId::RowGroups => 1,
            TabId::Visualize => 2,
        }
    }

    /// The tab at a position, positions counted round and round.
    pub open spec fn at(i: int) -> TabId {
        if i % 3 == 0 {
            TabId::Schema
        } else if i % 3 == 1 {
            TabId::RowGroups
        } else {
            TabId::Visualize
        }
    }

    /// The name of the tab as it is shown.
    pub open spec fn title(self) -> Seq<char> {
        match self {
            TabId::Schema => "Schema"@,
            TabId::RowGroups => "Row Groups"@,
            TabId::Visualize => "Visualize"@,
        }
    }

    /// The tab at position `i`, positions counted round and round.
    pub fn from_index(i: usize) -> (tab: TabId)
        ensures
            tab == TabId::at(i as int),
    {
        let r: usize = i % 3;
        if r == 0 {
            TabId::Schema
        } else if r == 1 {
            TabId::RowGroups
        } else {
            TabId::Visualize
        }
    }

    /// The name of the tab as it is shown.
    pub fn name(&self) -> (s: &'static str)
        ensures
            s@ == self.title(),
    {
        match self {
            TabId::Schema => "Schema",
            TabId::RowGroups => "Row Groups",
            TabId::Visualize => "Visualize",
        }
    }

    /// The position of the tab, counted from zero.
    pub fn index(self) -> (i: usize)
        ensures
            i == self.position(),
    {
        match self {
            TabId::Schema => 0,
            TabId::RowGroups => 1,
            TabId::Visualize => 2,
        }
    }

    /// The tab to the right; the first one follows the last.
    pub fn next(self) -> (tab: TabId)
        ensures
            tab == TabId::at(self.position() + 1),
    {
        TabId::from_index(self.index() + 1)
    }

    /// The tab to the left. The first tab has none and stays.
    pub fn prev(self) -> (tab: TabId)
        ensures
            tab == if self.position() == 0 {
                TabId::Schema
            } else {
                TabId::at(self.position() - 1)
            },
    {
        match self {
            TabId::Schema => TabId::Schema,
            TabId::RowGroups => TabId::Schema,
            TabId::Visualize => TabId::RowGroups,
        }
    }

    /// The names of all tabs, in their order.
    pub fn all_tab_names(&self) -> (names: Vec<&'static str>)
        ensures
            names@.len() == 3,
            forall|i: int| 0 <= i < 3 ==> (#[trigger] names@[i])@ == TabId::at(i).title(),
    {
        let mut names: Vec<&'static str> = Vec::new();
        names.push("Schema");
        names.push("Row Groups");
        names.push("Visualize");
        names
    }
}

} // verus!
