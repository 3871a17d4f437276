//! The parts of the screen, as far as they are data: what each part shows and
//! the numbers it is laid out by.

use vstd::prelude::*;
use crate::row_groups::{RowGroupColumnMetadata, RowGroupStats};
use crate::schema::{FileSchema, SchemaInfo, SchemaInfoView};
use crate::tab::TabId;
use crate::text::{decimal_text, unsigned_to_string};

verus! {

/// The direction of a scrollbar.
#[derive(Debug, Clone, Copy, PartialEq, Eq, Structural)]
pub enum ScrollbarOrientation {
    Vertical,
    Horizontal,
}

/// The compressed size of a leaf line, zero for any other line.
pub open spec fn line_compressed(line: SchemaInfoView) -> nat {
    match line {
        SchemaInfoView::Primitive { stats, .. } => stats.total_compressed_size,
        _ => 0,
    }
}

/// The uncompressed size of a leaf line, zero for any other line.
pub open spec fn line_uncompressed(line: SchemaInfoView) -> nat {
    match line {
        SchemaInfoView::Primitive { stats, .. } => stats.total_uncompressed_size,
        _ => 0,
    }
}

/// The greatest compressed size among the lines, zero where there is none.
pub open spec fn largest_compressed(lines: Seq<SchemaInfoView>) -> nat
    decreases lines.len(),
{
    if lines.len() == 0 {
        0
    } else {
        let before = largest_compressed(lines.drop_last());
        if line_compressed(lines.last()) > before {
            line_compressed(lines.last())
        } else {
            before
        }
    }
}

/// The greatest uncompressed size among the lines, zero where there is
/// none.
pub open spec fn largest_uncompressed(lines: Seq<SchemaInfoView>) -> nat
    decreases lines.len(),
{
    if lines.len() == 0 {
        0
    } else {
        let before = largest_uncompressed(lines.drop_last());
        if line_uncompressed(lines.last()) > before {
            line_uncompressed(lines.last())
        } else {
            before
        }
    }
}

/// A chart of the sizes of all columns, compressed to the left of a centre
/// line and uncompressed to the right.
pub struct ColumnSizesButterflyChart<'a> {
    pub schema: &'a FileSchema,
    pub max_compressed_size: u64,
    pub max_uncompressed_size: u64,
}

impl<'a> ColumnSizesButterflyChart<'a> {
    /// A chart scaled to the greatest sizes in the schema.
    pub fn new(schema: &'a FileSchema) -> (chart: Self)
        ensures
            chart.schema == schema,
            chart.max_compressed_size == largest_compressed(schema@),
            chart.max_uncompressed_size == largest_uncompressed(schema@),
    {
        let mut max_compressed_size: u64 = 0;
        let mut max_uncompressed_size: u64 = 0;
        let mut i: usize = 0;
        proof {
            assert(schema@.take(0) =~= Seq::<SchemaInfoView>::empty());
        }
        while i < schema.columns.len()
            invariant
                i <= schema.columns@.len(),
                max_compressed_size == largest_compressed(schema@.take(i as int)),
                max_uncompressed_size == largest_uncompressed(schema@.take(i as int)),
            decreases schema.columns@.len() - i,
        {
            proof {
                assert(schema@.take(i + 1).drop_last() =~= schema@.take(i as int));
                assert(schema@.take(i + 1).last() == schema.columns@[i as int]@);
            }
            if let SchemaInfo::Primitive { stats, .. } = &schema.columns[i] {
                if stats.total_compressed_size > max_compressed_size {
                    max_compressed_size = stats.total_compressed_size;
                }
                if stats.total_uncompressed_size > max_uncompressed_size {
                    max_uncompressed_size = stats.total_uncompressed_size;
                }
            }
            i = i + 1;
        }
        proof {
            assert(schema@.take(i as int) =~= schema@);
        }
        ColumnSizesButterflyChart { schema, max_compressed_size, max_uncompressed_size }
    }
}

/// The panel with the metadata of a file.
pub struct MetadataComponent {
    pub file_name: String,
    pub title: String,
}

impl MetadataComponent {
    /// A panel for the file of the given name, with the usual title.
    pub fn new(file_name: String) -> (component: Self)
        ensures
            component.file_name == file_name,
            component.title@ == "File Metadata"@,
    {
        MetadataComponent { file_name, title: "File Metadata".to_owned() }
    }

    /// The panel under another title.
    pub fn with_title(self, title: String) -> (component: Self)
        ensures
            component.file_name == self.file_name,
            component.title == title,
    {
        MetadataComponent { file_name: self.file_name, title }
    }
}

/// The bar that shows which row group is selected.
pub struct RowGroupProgressBar<'a> {
    pub row_group_stats: &'a [RowGroupStats],
    pub selected_idx: usize,
}

impl<'a> RowGroupProgressBar<'a> {
    /// A bar over the given row groups with one of them selected.
    pub fn new(row_group_stats: &'a [RowGroupStats], selected_idx: usize) -> (bar: Self)
        ensures
            bar.row_group_stats == row_group_stats,
            bar.selected_idx == selected_idx,
    {
        RowGroupProgressBar { row_group_stats, selected_idx }
    }
}

/// The panel with the metadata of one column chunk.
pub struct RowGroupColumnMetadataComponent<'a> {
    pub column_metadata: &'a RowGroupColumnMetadata,
}

impl<'a> RowGroupColumnMetadataComponent<'a> {
    /// A panel for the given column chunk.
    pub fn new(column_metadata: &'a RowGroupColumnMetadata) -> (component: Self)
        ensures
            component.column_metadata == column_metadata,
    {
        RowGroupColumnMetadataComponent { column_metadata }
    }
}

/// The numbers written under the horizontal axis of the row group charts:
/// every row group where there are at most three, else the first, the last
/// and the two that lie a third and two thirds of the way between them.
pub open spec fn x_label_numbers(num_points: nat) -> Seq<nat> {
    if num_points <= 3 {
        Seq::new(num_points, |i: int| (i + 1) as nat)
    } else {
        seq![
            1nat,
            (1 + (num_points - 1) / 3) as nat,
            (1 + (num_points - 1) * 2 / 3) as nat,
            num_points,
        ]
    }
}

/// The panel with the sizes of one row group and the charts over all of
/// them.
pub struct RowGroupMetadata<'a> {
    pub row_group_stats: &'a [RowGroupStats],
    pub selected_idx: usize,
}

impl<'a> RowGroupMetadata<'a> {
    /// A panel over the given row groups with one of them selected.
    pub fn new(row_group_stats: &'a [RowGroupStats], selected_idx: usize) -> (panel: Self)
        ensures
            panel.row_group_stats == row_group_stats,
            panel.selected_idx == selected_idx,
    {
        RowGroupMetadata { row_group_stats, selected_idx }
    }

    /// The labels of the horizontal axis, in ascending order and without
    /// repetition.
    pub fn make_x_labels(&self) -> (labels: Vec<String>)
        requires
            self.row_group_stats@.len() <= usize::MAX / 2 + 1,
        ensures
            labels@.len() == x_label_numbers(self.row_group_stats@.len()).len(),
            forall|i: int|
                0 <= i < labels@.len() ==> (#[trigger] labels@[i])@ == decimal_text(
                    x_label_numbers(self.row_group_stats@.len())[i] as int,
                ),
            forall|i: int, j: int|
                0 <= i < j < labels@.len() ==> x_label_numbers(self.row_group_stats@.len())[i]
                    < x_label_numbers(self.row_group_stats@.len())[j],
    {
        let n: usize = self.row_group_stats.len();
        let mut labels: Vec<String> = Vec::new();
        if n <= 3 {
            let mut i: usize = 0;
            while i < n
                invariant
                    i <= n <= 3,
                    labels@.len() == i,
                    forall|k: int|
                        0 <= k < i ==> (#[trigger] labels@[k])@ == decimal_text(k + 1),
                decreases n - i,
            {
                labels.push(unsigned_to_string((i + 1) as u64));
                i = i + 1;
            }
        } else {
            labels.push(unsigned_to_string(1));
            labels.push(unsigned_to_string((1 + (n - 1) / 3) as u64));
            labels.push(unsigned_to_string((1 + (n - 1) * 2 / 3) as u64));
            labels.push(unsigned_to_string(n as u64));
        }
        labels
    }
}

/// The row of tab titles.
pub struct TabsComponent<'a> {
    pub tabs: Vec<&'a str>,
    pub active_tab: TabId,
    pub title: String,
}

impl<'a> TabsComponent<'a> {
    /// A row of the given titles, with the usual title and selection.
    pub fn new(tabs: Vec<&'a str>) -> (component: Self)
        ensures
            component.tabs == tabs,
            component.active_tab == TabId::RowGroups,
            component.title@ == "Tabs"@,
    {
        TabsComponent { tabs, active_tab: TabId::RowGroups, title: "Tabs".to_owned() }
    }

    /// The row with another tab selected.
    pub fn with_selected_tab(self, active_tab: TabId) -> (component: Self)
        ensures
            component.tabs == self.tabs,
            component.active_tab == active_tab,
            component.title == self.title,
    {
        TabsComponent { tabs: self.tabs, active_tab, title: self.title }
    }

    /// The row under another title.
    pub fn with_title(self, title: String) -> (component: Self)
        ensures
            component.tabs == self.tabs,
            component.active_tab == self.active_tab,
            component.title == title,
    {
        TabsComponent { tabs: self.tabs, active_tab: self.active_tab, title }
    }
}

/// The length and the place of the thumb of a scrollbar on a track of
/// `track_length` cells: the thumb covers the share of the items that is
/// visible, at least one cell, and stands where the position lies between the
/// first and the last page.
pub open spec fn thumb_geometry(
    total_items: int,
    visible_items: int,
    position: int,
    track_length: int,
) -> (int, int) {
    if total_items <= visible_items {
        (track_length, 0)
    } else {
        let share = (visible_items * track_length) / total_items;
        let size = if share < 1 {
            1
        } else {
            share
        };
        (size, (position * (track_length - size)) / (total_items - visible_items))
    }
}

/// Computes the length and the place of the thumb of a scrollbar.
pub fn calculate_thumb_info(
    total_items: usize,
    visible_items: usize,
    position: usize,
    track_length: usize,
) -> (r: (usize, usize))
    requires
        visible_items * track_length <= usize::MAX,
        position * track_length <= usize::MAX,
        total_items > visible_items ==> track_length >= 1,
    ensures
        r.0 == thumb_geometry(
            total_items as int,
            visible_items as int,
            position as int,
            track_length as int,
        ).0,
        r.1 == thumb_geometry(
            total_items as int,
            visible_items as int,
            position as int,
            track_length as int,
        ).1,
{
    if total_items <= visible_items {
        return (track_length, 0);
    }
    let share: usize = (visible_items * track_length) / total_items;
    let thumb_size: usize = if share < 1 {
        1
    } else {
        share
    };
    let max_position: usize = total_items - visible_items;
    assert(share <= track_length) by (nonlinear_arith)
        requires
            share == (visible_items * track_length) / (total_items as int),
            visible_items < total_items,
            track_length >= 0,
    ;
    assert(position * (track_length - thumb_size) <= position * track_length)
        by (nonlinear_arith)
        requires
            0 <= thumb_size <= track_length,
            position >= 0,
    ;
    let thumb_position: usize = (position * (track_length - thumb_size)) / max_position;
    (thumb_size, thumb_position)
}

} // verus!
