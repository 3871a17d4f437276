//! The table of columns beside the schema tree: one row per leaf column and
//! per group, ten cells wide.

use vstd::prelude::*;
use vstd::utf8::encode_utf8;
use crate::double::{nearest, quotient, Double};
use crate::schema::{
    primitive_count,
    ColumnSchemaInfoView,
    FileSchema,
    SchemaInfo,
    SchemaInfoView,
};
use crate::stats::ColumnStatsView;
use crate::text::{decimal_digits, unsigned_to_string, views};
use crate::utils::{format_size, format_size_text};

verus! {

/// One row of the table.
pub struct TableRow {
    pub cells: Vec<String>,
    /// The row is the selected one and is to be highlighted.
    pub selected: bool,
    /// The row stands for a group and not for a leaf column.
    pub group: bool,
}

/// What a `TableRow` holds.
pub struct TableRowView {
    pub cells: Seq<Seq<char>>,
    pub selected: bool,
    pub group: bool,
}

impl View for TableRow {
    type V = TableRowView;

    open spec fn view(&self) -> TableRowView {
        TableRowView { cells: views(self.cells@), selected: self.selected, group: self.group }
    }
}

/// What a list of rows holds.
pub open spec fn row_views(rows: Seq<TableRow>) -> Seq<TableRowView> {
    Seq::new(rows.len(), |i: int| rows[i]@)
}

/// The uncompressed size over the compressed size with two decimal places,
/// or a note where the column holds nothing.
pub open spec fn ratio_cell(compressed: nat, uncompressed: nat) -> Seq<char> {
    if uncompressed > 0 {
        quotient(nearest(false, uncompressed), nearest(false, compressed)).text(2) + "x"@
    } else {
        "N/A"@
    }
}

/// A value, or the word for none.
pub open spec fn or_null(value: Option<Seq<char>>) -> Seq<char> {
    match value {
        Some(v) => v,
        None => "NULL"@,
    }
}

/// The ten cells of a leaf column.
pub open spec fn primitive_cells(info: ColumnSchemaInfoView, stats: ColumnStatsView) -> Seq<
    Seq<char>,
> {
    seq![
        info.repetition,
        info.physical,
        format_size_text(stats.total_compressed_size),
        format_size_text(stats.total_uncompressed_size),
        ratio_cell(stats.total_compressed_size, stats.total_uncompressed_size),
        info.encoding,
        info.codec,
        or_null(stats.min),
        or_null(stats.max),
        decimal_digits(stats.nulls),
    ]
}

/// The ten cells of a group: its repetition, the word for a group, and
/// nothing else.
pub open spec fn group_cells(repetition: Seq<char>) -> Seq<Seq<char>> {
    seq![
        repetition,
        "group"@,
        Seq::empty(),
        Seq::empty(),
        Seq::empty(),
        Seq::empty(),
        Seq::empty(),
        Seq::empty(),
        Seq::empty(),
        Seq::empty(),
    ]
}

/// The cells from `start` on, at most `count` of them.
pub open spec fn visible<A>(cells: Seq<A>, start: int, count: int) -> Seq<A> {
    if start >= cells.len() {
        Seq::empty()
    } else if start + count >= cells.len() {
        cells.skip(start)
    } else {
        cells.subrange(start, start + count)
    }
}

/// The rows of all lines, every leaf row with all its cells and every group
/// row with its first two. The `selected`-th leaf row is the selected one,
/// leaves counted from one.
pub open spec fn plain_rows(lines: Seq<SchemaInfoView>, selected: Option<usize>) -> Seq<
    TableRowView,
>
    decreases lines.len(),
{
    if lines.len() == 0 {
        Seq::empty()
    } else {
        let before = plain_rows(lines.drop_last(), selected);
        match lines.last() {
            SchemaInfoView::Primitive { info, stats, .. } => before.push(
                TableRowView {
                    cells: primitive_cells(info, stats),
                    selected: selected == Some(primitive_count(lines) as usize),
                    group: false,
                },
            ),
            SchemaInfoView::Group { repetition, .. } => before.push(
                TableRowView {
                    cells: visible(group_cells(repetition), 0, 2),
                    selected: false,
                    group: true,
                },
            ),
            SchemaInfoView::Root { .. } => before,
        }
    }
}

/// The rows of a window of lines, cut to the visible cells. The
/// `selected`-th leaf row of the window is the selected one, leaves counted
/// from one; nothing is selected where `selected` is no positive number.
pub open spec fn window_rows(
    lines: Seq<SchemaInfoView>,
    selected: int,
    start_col: int,
    num_cols: int,
) -> Seq<TableRowView>
    decreases lines.len(),
{
    if lines.len() == 0 {
        Seq::empty()
    } else {
        let before = window_rows(lines.drop_last(), selected, start_col, num_cols);
        match lines.last() {
            SchemaInfoView::Primitive { info, stats, .. } => before.push(
                TableRowView {
                    cells: visible(primitive_cells(info, stats), start_col, num_cols),
                    selected: selected == primitive_count(lines),
                    group: false,
                },
            ),
            SchemaInfoView::Group { repetition, .. } => before.push(
                TableRowView {
                    cells: visible(group_cells(repetition), start_col, num_cols),
                    selected: false,
                    group: true,
                },
            ),
            SchemaInfoView::Root { .. } => before,
        }
    }
}

/// The width in bytes of the widest cell in column `column` of the rows,
/// zero where no row has such a cell.
pub open spec fn column_width(rows: Seq<TableRowView>, column: int) -> nat
    decreases rows.len(),
{
    if rows.len() == 0 {
        0
    } else {
        let before = column_width(rows.drop_last(), column);
        if 0 <= column < rows.last().cells.len() && encode_utf8(rows.last().cells[column]).len()
            > before {
            encode_utf8(rows.last().cells[column]).len()
        } else {
            before
        }
    }
}

/// The lines of a schema that a window shows: those after the root from
/// line `start_row` on, at most `num_rows` of them.
pub open spec fn window_lines(lines: Seq<SchemaInfoView>, start_row: int, num_rows: int) -> Seq<
    SchemaInfoView,
> {
    visible(lines, start_row + 1, num_rows)
}

fn ratio_string(compressed: u64, uncompressed: u64) -> (s: String)
    ensures
        s@ == ratio_cell(compressed as nat, uncompressed as nat),
{
    if uncompressed > 0 {
        let q = Double::from_u64(uncompressed).divide(Double::from_u64(compressed));
        proof {
            crate::double::lemma_pow2_values();
        }
        let mut s = q.to_fixed(2);
        s.append("x");
        s
    } else {
        "N/A".to_owned()
    }
}

fn or_null_string(value: &Option<String>) -> (s: String)
    ensures
        s@ == or_null(
            match *value {
                Some(v) => Some(v@),
                None => None,
            },
        ),
{
    match value {
        Some(v) => v.clone(),
        None => "NULL".to_owned(),
    }
}

/// The ten cells of a line, none for the root.
fn line_cells(line: &SchemaInfo) -> (cells: Vec<String>)
    ensures
        views(cells@) == match line@ {
            SchemaInfoView::Primitive { info, stats, .. } => primitive_cells(info, stats),
            SchemaInfoView::Group { repetition, .. } => group_cells(repetition),
            SchemaInfoView::Root { .. } => Seq::empty(),
        },
{
    let mut cells: Vec<String> = Vec::new();
    match line {
        SchemaInfo::Primitive { info, stats, .. } => {
            cells.push(info.repetition.clone());
            cells.push(info.physical.clone());
            cells.push(format_size(stats.total_compressed_size));
            cells.push(format_size(stats.total_uncompressed_size));
            cells.push(ratio_string(stats.total_compressed_size, stats.total_uncompressed_size));
            cells.push(info.encoding.clone());
            cells.push(info.codec.clone());
            cells.push(or_null_string(&stats.min));
            cells.push(or_null_string(&stats.max));
            cells.push(unsigned_to_string(stats.nulls));
            proof {
                assert(views(cells@) =~= primitive_cells(info@, stats@));
            }
        },
        SchemaInfo::Group { repetition, .. } => {
            cells.push(repetition.clone());
            cells.push("group".to_owned());
            let mut i: usize = 2;
            while i < 10
                invariant
                    2 <= i <= 10,
                    cells@.len() == i,
                    cells@[0]@ == repetition@,
                    cells@[1]@ == "group"@,
                    forall|k: int| 2 <= k < i ==> (#[trigger] cells@[k])@ == Seq::<char>::empty(),
                decreases 10 - i,
            {
                cells.push(String::new());
                i = i + 1;
            }
            proof {
                assert(views(cells@) =~= group_cells(repetition@));
            }
        },
        SchemaInfo::Root { .. } => {
            proof {
                assert(views(cells@) =~= Seq::<Seq<char>>::empty());
            }
        },
    }
    cells
}

/// The cells of a row from `start` on, at most `count` of them.
pub fn visible_window(cells: &Vec<String>, start: usize, count: usize) -> (out: Vec<String>)
    ensures
        views(out@) == visible(views(cells@), start as int, count as int),
{
    let mut out: Vec<String> = Vec::new();
    let len: usize = cells.len();
    if start >= len {
        proof {
            assert(views(out@) =~= Seq::<Seq<char>>::empty());
        }
        return out;
    }
    let end: usize = if count >= len - start {
        len
    } else {
        start + count
    };
    let mut i: usize = start;
    while i < end
        invariant
            start <= i <= end <= len == cells@.len(),
            out@.len() == i - start,
            forall|k: int| 0 <= k < out@.len() ==> (#[trigger] out@[k])@ == cells@[start + k]@,
        decreases end - i,
    {
        out.push(cells[i].clone());
        i = i + 1;
    }
    proof {
        assert(views(out@) =~= visible(views(cells@), start as int, count as int));
    }
    out
}

impl FileSchema {
    /// The rows of the table, all lines and all cells.
    pub fn generate_table_rows(&self, selected_index: Option<usize>) -> (rows: Vec<TableRow>)
        ensures
            row_views(rows@) == plain_rows(self@, selected_index),
    {
        let mut rows: Vec<TableRow> = Vec::new();
        let mut seen: usize = 0;
        let mut i: usize = 0;
        proof {
            assert(self@.take(0) =~= Seq::<SchemaInfoView>::empty());
            assert(row_views(rows@) =~= Seq::<TableRowView>::empty());
        }
        while i < self.columns.len()
            invariant
                i <= self.columns@.len(),
                seen == primitive_count(self@.take(i as int)),
                seen <= i,
                row_views(rows@) == plain_rows(self@.take(i as int), selected_index),
            decreases self.columns@.len() - i,
        {
            proof {
                assert(self@.take(i + 1).drop_last() =~= self@.take(i as int));
                assert(self@.take(i + 1).last() == self.columns@[i as int]@);
            }
            let line = &self.columns[i];
            match line {
                SchemaInfo::Primitive { .. } => {
                    let cells = line_cells(line);
                    let selected: bool = match selected_index {
                        Some(s) => s > 0 && s - 1 == seen,
                        None => false,
                    };
                    let row = TableRow { cells, selected, group: false };
                    proof {
                        assert(row_views(rows@.push(row)) =~= row_views(rows@).push(row@));
                    }
                    rows.push(row);
                    seen = seen + 1;
                },
                SchemaInfo::Group { .. } => {
                    let all = line_cells(line);
                    let cells = visible_window(&all, 0, 2);
                    let row = TableRow { cells, selected: false, group: true };
                    proof {
                        assert(row_views(rows@.push(row)) =~= row_views(rows@).push(row@));
                    }
                    rows.push(row);
                },
                SchemaInfo::Root { .. } => {},
            }
            i = i + 1;
        }
        proof {
            assert(self@.take(i as int) =~= self@);
        }
        rows
    }

    /// The rows of the table and the width of every visible column, for a
    /// window of `num_cols` columns from column `start_col` on.
    pub fn generate_table_rows_with_columns(
        &self,
        selected_index: usize,
        start_col: usize,
        num_cols: usize,
    ) -> (r: (Vec<TableRow>, Vec<usize>))
        ensures
            row_views(r.0@) == window_rows(
                window_lines(self@, 0, self@.len() as int),
                if selected_index > 0 {
                    selected_index as int
                } else {
                    -1
                },
                start_col as int,
                num_cols as int,
            ),
            r.1@.len() == num_cols,
            forall|k: int|
                0 <= k < num_cols ==> #[trigger] r.1@[k] == column_width(row_views(r.0@), k),
    {
        self.generate_table_rows_with_scroll(
            selected_index,
            start_col,
            num_cols,
            0,
            self.columns.len(),
        )
    }

    /// The rows of the table and the width of every visible column, for a
    /// window of `num_rows` lines from line `start_row` on and of `num_cols`
    /// columns from column `start_col` on. The selection counts the leaf
    /// columns from one and is none where it is zero.
    pub fn generate_table_rows_with_scroll(
        &self,
        selected_index: usize,
        start_col: usize,
        num_cols: usize,
        start_row: usize,
        num_rows: usize,
    ) -> (r: (Vec<TableRow>, Vec<usize>))
        ensures
            row_views(r.0@) == window_rows(
                window_lines(self@, start_row as int, num_rows as int),
                if selected_index > 0 {
                    selected_index - start_row
                } else {
                    -1
                },
                start_col as int,
                num_cols as int,
            ),
            r.1@.len() == num_cols,
            forall|k: int|
                0 <= k < num_cols ==> #[trigger] r.1@[k] == column_width(row_views(r.0@), k),
    {
        let mut widths: Vec<usize> = Vec::new();
        let mut w: usize = 0;
        while w < num_cols
            invariant
                w <= num_cols,
                widths@.len() == w,
                forall|k: int| 0 <= k < w ==> #[trigger] widths@[k] == 0,
            decreases num_cols - w,
        {
            widths.push(0);
            w = w + 1;
        }
        let mut rows: Vec<TableRow> = Vec::new();
        let len: usize = self.columns.len();
        let first: usize = if start_row < len {
            start_row + 1
        } else {
            len
        };
        let ghost window = window_lines(self@, start_row as int, num_rows as int);
        let ghost wanted: int = if selected_index > 0 {
            selected_index - start_row
        } else {
            -1
        };
        if first >= len {
            proof {
                assert(row_views(rows@) =~= Seq::<TableRowView>::empty());
            }
            return (rows, widths);
        }
        let end: usize = if num_rows >= len - first {
            len
        } else {
            first + num_rows
        };
        proof {
            assert(window =~= self@.subrange(first as int, end as int));
            assert(window.take(0) =~= Seq::<SchemaInfoView>::empty());
            assert(row_views(rows@) =~= Seq::<TableRowView>::empty());
        }
        let mut seen: usize = 0;
        let mut i: usize = first;
        while i < end
            invariant
                first <= i <= end <= len == self.columns@.len(),
                window == self@.subrange(first as int, end as int),
                seen == primitive_count(window.take(i - first)),
                seen <= i - first,
                row_views(rows@) == window_rows(
                    window.take(i - first),
                    wanted,
                    start_col as int,
                    num_cols as int,
                ),
                wanted == if selected_index > 0 {
                    selected_index - start_row
                } else {
                    -1
                },
                widths@.len() == num_cols,
                forall|k: int|
                    0 <= k < num_cols ==> #[trigger] widths@[k] == column_width(
                        row_views(rows@),
                        k,
                    ),
            decreases end - i,
        {
            proof {
                assert(window.take(i - first + 1).drop_last() =~= window.take(i - first));
                assert(window.take(i - first + 1).last() == self.columns@[i as int]@);
            }
            let line = &self.columns[i];
            let is_root: bool = match line {
                SchemaInfo::Root { .. } => true,
                _ => false,
            };
            if !is_root {
                let is_group: bool = match line {
                    SchemaInfo::Group { .. } => true,
                    _ => false,
                };
                let all = line_cells(line);
                let cells = visible_window(&all, start_col, num_cols);
                let selected: bool = !is_group && selected_index > start_row && selected_index
                    - start_row - 1 == seen;
                let ghost old_rows = row_views(rows@);
                let mut k: usize = 0;
                let shown: usize = cells.len();
                proof {
                    assert(shown <= num_cols) by {
                        assert(views(cells@).len() == cells@.len());
                    }
                }
                let row = TableRow { cells, selected, group: is_group };
                let ghost new_rows = old_rows.push(row@);
                proof {
                    assert(new_rows.drop_last() =~= old_rows);
                }
                while k < shown
                    invariant
                        k <= shown <= num_cols,
                        shown == row.cells@.len(),
                        widths@.len() == num_cols,
                        new_rows == old_rows.push(row@),
                        new_rows.drop_last() == old_rows,
                        forall|j: int|
                            0 <= j < k ==> #[trigger] widths@[j] == column_width(new_rows, j),
                        forall|j: int|
                            k <= j < num_cols ==> #[trigger] widths@[j] == column_width(
                                old_rows,
                                j,
                            ),
                    decreases shown - k,
                {
                    let width: usize = row.cells[k].as_str().as_bytes().len();
                    proof {
                        assert(row@.cells[k as int] == row.cells@[k as int]@);
                    }
                    if width > widths[k] {
                        widths.set(k, width);
                    }
                    k = k + 1;
                }
                proof {
                    assert(row_views(rows@.push(row)) =~= new_rows);
                }
                rows.push(row);
                if !is_group {
                    seen = seen + 1;
                }
            }
            i = i + 1;
        }
        proof {
            assert(window.take(i - first) =~= window);
        }
        (rows, widths)
    }
}

} // verus!
