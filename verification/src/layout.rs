//! The numbers that the screen is laid out by: which line of the tree stands
//! for the selected column, how far the tree is scrolled to show it, and how
//! the table of sample rows is cut to the width at hand.

use vstd::prelude::*;
use vstd::string::StrSliceExecFns;
use vstd::utf8::encode_utf8;
use crate::app::minus_or_zero;
use crate::schema::{primitive_count, FileSchema, SchemaInfo, SchemaInfoView};
use crate::text::views;
use crate::utils::ellipsis;

verus! {

/// The index of the `n`-th leaf line among `lines`, leaves counted from
/// one.
pub open spec fn nth_primitive(lines: Seq<SchemaInfoView>, n: int) -> Option<int>
    decreases lines.len(),
{
    if lines.len() == 0 {
        None
    } else {
        match nth_primitive(lines.drop_last(), n) {
            Some(p) => Some(p),
            None => if lines.last() is Primitive && primitive_count(lines) == n {
                Some(lines.len() - 1)
            } else {
                None
            },
        }
    }
}

/// The line of the tree that stands for the selected column. The selection
/// counts the leaf columns from one; zero selects nothing.
pub fn calculate_selected_tree_index(schema: &FileSchema, vertical_offset: usize) -> (r: Option<
    usize,
>)
    ensures
        match r {
            Some(p) => vertical_offset > 0 && nth_primitive(schema@, vertical_offset as int)
                == Some(p as int),
            None => vertical_offset == 0 || nth_primitive(schema@, vertical_offset as int)
                is None,
        },
{
    if vertical_offset == 0 {
        return None;
    }
    let mut seen: usize = 0;
    let mut i: usize = 0;
    proof {
        assert(schema@.take(0) =~= Seq::<SchemaInfoView>::empty());
    }
    while i < schema.columns.len()
        invariant
            i <= schema.columns@.len(),
            vertical_offset > 0,
            seen == primitive_count(schema@.take(i as int)),
            seen < vertical_offset,
            nth_primitive(schema@.take(i as int), vertical_offset as int) is None,
        decreases schema.columns@.len() - i,
    {
        proof {
            assert(schema@.take(i + 1).drop_last() =~= schema@.take(i as int));
            assert(schema@.take(i + 1).last() == schema.columns@[i as int]@);
        }
        if let SchemaInfo::Primitive { .. } = &schema.columns[i] {
            seen = seen + 1;
            if seen == vertical_offset {
                proof {
                    lemma_nth_primitive_stays(schema@, i + 1, vertical_offset as int);
                }
                return Some(i);
            }
        }
        i = i + 1;
    }
    proof {
        assert(schema@.take(i as int) =~= schema@);
    }
    None
}

/// A leaf that was found among the first lines is the one found among all.
proof fn lemma_nth_primitive_stays(lines: Seq<SchemaInfoView>, k: int, n: int)
    requires
        0 <= k <= lines.len(),
        nth_primitive(lines.take(k), n) is Some,
    ensures
        nth_primitive(lines, n) == nth_primitive(lines.take(k), n),
    decreases lines.len() - k,
{
    if k < lines.len() {
        assert(lines.take(k + 1).drop_last() =~= lines.take(k));
        lemma_nth_primitive_stays(lines, k + 1, n);
    } else {
        assert(lines.take(k) =~= lines);
    }
}

/// The scroll offset that shows the selected line in a viewport of
/// `visible_items` lines: the viewport moves up to a line above it and down to
/// a line below it.
pub open spec fn scroll_to_show(
    selected: Option<usize>,
    current_scroll: int,
    visible_items: int,
) -> int {
    match selected {
        Some(idx) => if idx < current_scroll {
            idx as int
        } else if idx - current_scroll >= visible_items {
            minus_or_zero(idx as int, visible_items - 1)
        } else {
            current_scroll
        },
        None => current_scroll,
    }
}

/// The scroll offset that keeps the selected line of the tree visible.
pub fn calculate_scroll_to_show_item(
    selected_tree_idx: Option<usize>,
    current_scroll: usize,
    visible_items: usize,
) -> (r: usize)
    requires
        selected_tree_idx matches Some(idx) ==> visible_items > 0 || idx < current_scroll,
    ensures
        r == scroll_to_show(selected_tree_idx, current_scroll as int, visible_items as int),
{
    match selected_tree_idx {
        Some(idx) => {
            if idx < current_scroll {
                idx
            } else if idx - current_scroll >= visible_items {
                idx.saturating_sub(visible_items - 1)
            } else {
                current_scroll
            }
        },
        None => current_scroll,
    }
}

/// The width of the tree with its margin, and with a scrollbar where one is
/// needed.
pub fn calculate_tree_width(tree_width: u16, needs_scrollbar: bool) -> (w: u16)
    requires
        tree_width <= u16::MAX - 2,
    ensures
        w == if needs_scrollbar {
            tree_width + 2
        } else {
            tree_width + 1
        },
{
    if needs_scrollbar {
        tree_width + 2
    } else {
        tree_width + 1
    }
}

/// The width of the tree beside the row groups, which has no margin of its
/// own.
pub fn calculate_tree_width_for_row_groups(tree_width: u16, needs_scrollbar: bool) -> (w: u16)
    requires
        tree_width <= u16::MAX - 2,
    ensures
        w == if needs_scrollbar {
            tree_width + 2
        } else {
            tree_width as int
        },
{
    if needs_scrollbar {
        tree_width + 2
    } else {
        tree_width
    }
}

/// The least width of a column of sample data.
pub const MIN_COLUMN_WIDTH: u16 = 12;

/// The space between two columns of sample data.
pub const COLUMN_SPACING: u16 = 2;

/// How many columns fit into a width, and at least one.
pub fn max_visible_columns(available_width: u16) -> (n: usize)
    ensures
        n == if available_width / MIN_COLUMN_WIDTH < 1 {
            1
        } else {
            (available_width / MIN_COLUMN_WIDTH) as int
        },
{
    let n: u16 = available_width / MIN_COLUMN_WIDTH;
    if n < 1 {
        1
    } else {
        n as usize
    }
}

/// The horizontal scroll that still leaves `visible` columns to show.
pub fn clamp_scroll(scroll: usize, total_columns: usize, visible: usize) -> (r: usize)
    ensures
        r == if scroll < minus_or_zero(total_columns as int, visible as int) {
            scroll as int
        } else {
            minus_or_zero(total_columns as int, visible as int)
        },
{
    let max_scroll: usize = total_columns.saturating_sub(visible);
    if scroll < max_scroll {
        scroll
    } else {
        max_scroll
    }
}

/// The width in bytes of the widest of a header and the cells below it.
pub open spec fn widest_cell(header: Seq<char>, rows: Seq<Seq<Seq<char>>>, column: int) -> nat
    decreases rows.len(),
{
    if rows.len() == 0 {
        encode_utf8(header).len()
    } else {
        let before = widest_cell(header, rows.drop_last(), column);
        if 0 <= column < rows.last().len() && encode_utf8(rows.last()[column]).len() > before {
            encode_utf8(rows.last()[column]).len()
        } else {
            before
        }
    }
}

/// The width given to a column whose widest cell has `content` bytes: at
/// least eight and at most twenty-five, and the spacing.
pub open spec fn fitted_width(content: nat) -> int {
    (if content < 8 {
        8
    } else if content > 25 {
        25
    } else {
        content as int
    }) + COLUMN_SPACING
}

/// What the rows of a table hold.
pub open spec fn cell_views(rows: Seq<Vec<String>>) -> Seq<Seq<Seq<char>>> {
    Seq::new(rows.len(), |i: int| views(rows[i]@))
}

/// The widths of the columns of sample data, one per header.
pub fn calculate_column_widths(headers: &Vec<String>, visible_rows: &Vec<Vec<String>>) -> (widths:
    Vec<u16>)
    ensures
        widths@.len() == headers@.len(),
        forall|c: int|
            0 <= c < headers@.len() ==> #[trigger] widths@[c] == fitted_width(
                widest_cell(headers@[c]@, cell_views(visible_rows@), c),
            ),
{
    let mut widths: Vec<u16> = Vec::new();
    let mut c: usize = 0;
    let ghost rows = cell_views(visible_rows@);
    while c < headers.len()
        invariant
            c <= headers@.len(),
            rows == cell_views(visible_rows@),
            widths@.len() == c,
            forall|k: int|
                0 <= k < c ==> #[trigger] widths@[k] == fitted_width(
                    widest_cell(headers@[k]@, rows, k),
                ),
        decreases headers@.len() - c,
    {
        let mut max_width: usize = headers[c].as_str().as_bytes().len();
        let mut r: usize = 0;
        proof {
            assert(rows.take(0) =~= Seq::<Seq<Seq<char>>>::empty());
        }
        while r < visible_rows.len()
            invariant
                r <= visible_rows@.len(),
                c < headers@.len(),
                rows == cell_views(visible_rows@),
                max_width == widest_cell(headers@[c as int]@, rows.take(r as int), c as int),
            decreases visible_rows@.len() - r,
        {
            proof {
                assert(rows.take(r + 1).drop_last() =~= rows.take(r as int));
                assert(rows.take(r + 1).last() == views(visible_rows@[r as int]@));
            }
            let row = &visible_rows[r];
            if c < row.len() {
                let width: usize = row[c].as_str().as_bytes().len();
                proof {
                    assert(views(row@)[c as int] == row@[c as int]@);
                }
                if width > max_width {
                    max_width = width;
                }
            }
            r = r + 1;
        }
        proof {
            assert(rows.take(r as int) =~= rows);
        }
        let fitted: u16 = if max_width < 8 {
            8
        } else if max_width > 25 {
            25
        } else {
            max_width as u16
        };
        widths.push(fitted + COLUMN_SPACING);
        c = c + 1;
    }
    widths
}

/// A cell cut to a width in characters: a cell that is longer keeps one
/// character less than the width, and the ellipsis follows.
pub open spec fn cut_cell(cell: Seq<char>, width: nat) -> Seq<char> {
    if cell.len() > width {
        cell.take(minus_or_zero(width as int, 1)) + ellipsis()
    } else {
        cell
    }
}

/// Cuts a cell of sample data to the width of its column.
pub fn truncate_cell(cell: &str, width: usize) -> (out: String)
    ensures
        out@ == cut_cell(cell@, width as nat),
{
    if cell.unicode_len() > width {
        let head = cell.substring_char(0, width.saturating_sub(1));
        let mut out = head.to_owned();
        out.append("â€¦");
        out
    } else {
        cell.to_owned()
    }
}

/// A header cut to a width in characters: a header that is longer keeps
/// three characters less than the width, and three dots follow.
pub open spec fn cut_header(header: Seq<char>, width: nat) -> Seq<char> {
    if header.len() > width {
        header.take(minus_or_zero(width as int, 3)) + "..."@
    } else {
        header
    }
}

/// Cuts a header of sample data to the width of its column.
pub fn truncate_header(header: &str, width: usize) -> (out: String)
    ensures
        out@ == cut_header(header@, width as nat),
{
    if header.unicode_len() > width {
        let head = header.substring_char(0, width.saturating_sub(3));
        let mut out = head.to_owned();
        out.append("...");
        out
    } else {
        header.to_owned()
    }
}

} // verus!
