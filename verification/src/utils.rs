//! Small renderings for the views: sizes, counts, truncated text, and the
//! scroll offset that keeps a selected line visible.

use vstd::prelude::*;
use vstd::string::StrSliceExecFns;
use crate::app::minus_or_zero;
use crate::double::{at_least, lemma_lead_is, lemma_pow2_values, nearest, quotient, Double};
use crate::fixed::{fixed_string, fixed_text};
use crate::text::{decimal_digits, unsigned_to_string};

verus! {

/// How many times a size is divided by 1024 before it is shown: as long as
/// it is no less than 1024, and at most four times.
pub open spec fn size_unit(bytes: nat) -> nat {
    if bytes < 0x400 {
        0
    } else if bytes < 0x10_0000 {
        1
    } else if bytes < 0x4000_0000 {
        2
    } else if bytes < 0x100_0000_0000 {
        3
    } else {
        4
    }
}

/// A size in the unit that suits it, with `places` decimal places. The size
/// is taken as the double nearest to it, which is exact below two to the
/// power 53, and every division by 1024 lowers the exponent by ten.
pub open spec fn scaled_size_text(bytes: nat, places: nat) -> Seq<char> {
    match nearest(false, bytes) {
        Double::Finite { mantissa, exponent, .. } => fixed_text(
            false,
            mantissa as nat,
            exponent - 10 * size_unit(bytes),
            places,
        ),
        _ => Seq::empty(),
    }
}

/// The name of the unit after `index` divisions by 1024, in the binary
/// style.
pub open spec fn binary_unit_text(index: nat) -> Seq<char> {
    if index == 0 {
        "B"@
    } else if index == 1 {
        "KiB"@
    } else if index == 2 {
        "MiB"@
    } else if index == 3 {
        "GiB"@
    } else {
        "TiB"@
    }
}

/// The name of the unit after `index` divisions by 1024, in the short
/// style.
pub open spec fn short_unit_text(index: nat) -> Seq<char> {
    if index == 0 {
        "B"@
    } else if index == 1 {
        "KB"@
    } else if index == 2 {
        "MB"@
    } else if index == 3 {
        "GB"@
    } else {
        "TB"@
    }
}

/// A byte count for reading: whole bytes below 1024, else two decimal places
/// of KiB, MiB, GiB or TiB.
pub open spec fn human_readable_bytes_text(bytes: nat) -> Seq<char> {
    if size_unit(bytes) == 0 {
        decimal_digits(bytes) + " B"@
    } else {
        scaled_size_text(bytes, 2) + " "@ + binary_unit_text(size_unit(bytes))
    }
}

/// A byte count for a table cell: whole bytes below 1024, else one decimal
/// place of KB, MB, GB or TB.
pub open spec fn format_size_text(bytes: nat) -> Seq<char> {
    if size_unit(bytes) == 0 {
        decimal_digits(bytes) + " B"@
    } else {
        scaled_size_text(bytes, 1) + " "@ + short_unit_text(size_unit(bytes))
    }
}

fn unit_of(bytes: u64) -> (k: u8)
    ensures
        k == size_unit(bytes as nat),
{
    if bytes < 0x400 {
        0
    } else if bytes < 0x10_0000 {
        1
    } else if bytes < 0x4000_0000 {
        2
    } else if bytes < 0x100_0000_0000 {
        3
    } else {
        4
    }
}

fn scaled_size(bytes: u64, places: u8) -> (s: String)
    requires
        places <= 9,
    ensures
        s@ == scaled_size_text(bytes as nat, places as nat),
{
    let unit: u8 = unit_of(bytes);
    match Double::from_u64(bytes) {
        Double::Finite { mantissa, exponent, .. } => fixed_string(
            false,
            mantissa,
            exponent - 10 * (unit as i32),
            places,
        ),
        _ => String::new(),
    }
}

/// A count after its divisions by a thousand: it is divided as long as it
/// is no less than a thousand, and at most three times in all. Every division
/// rounds to the nearest double.
pub open spec fn thousands(value: Double, unit: nat) -> (Double, nat)
    decreases 3 - unit,
{
    if unit < 3 && at_least(value, 1000) {
        thousands(quotient(value, nearest(false, 1000)), unit + 1)
    } else {
        (value, unit)
    }
}

/// The letter of the unit after `index` divisions by a thousand.
pub open spec fn count_unit_text(index: nat) -> Seq<char> {
    if index == 1 {
        "K"@
    } else if index == 2 {
        "M"@
    } else {
        "B"@
    }
}

/// A count for reading: itself below a thousand, else one decimal place of
/// thousands, millions or billions.
pub open spec fn human_readable_count_text(n: nat) -> Seq<char> {
    let scaled = thousands(nearest(false, n), 0);
    if scaled.1 == 0 {
        decimal_digits(n)
    } else {
        scaled.0.text(1) + " "@ + count_unit_text(scaled.1)
    }
}

/// Converts a count into a readable number such as `1.5 K`.
pub fn human_readable_count(n: u64) -> (s: String)
    ensures
        s@ == human_readable_count_text(n as nat),
{
    let thousand = Double::from_u64(1000);
    let mut value = Double::from_u64(n);
    let mut unit: u8 = 0;
    proof {
        lemma_pow2_values();
        lemma_lead_is(1000, 43);
    }
    while unit < 3 && value.is_at_least(1000)
        invariant
            unit <= 3,
            thousand == nearest(false, 1000),
            thousand matches Double::Finite { mantissa, exponent, .. } && exponent == -43
                && mantissa != 0,
            thousand.well_formed(),
            value.well_formed(),
            value matches Double::Finite { exponent, .. } && -52 - 10 * unit <= exponent <= 12,
            thousands(nearest(false, n as nat), 0) == thousands(value, unit as nat),
        decreases 3 - unit,
    {
        value = value.divide(thousand);
        unit = unit + 1;
    }
    if unit == 0 {
        unsigned_to_string(n)
    } else {
        let mut s = value.to_fixed(1);
        s.append(" ");
        if unit == 1 {
            s.append("K");
        } else if unit == 2 {
            s.append("M");
        } else {
            s.append("B");
        }
        s
    }
}

/// Converts a byte count into a readable size such as `1.50 KiB`.
pub fn human_readable_bytes(bytes: u64) -> (s: String)
    ensures
        s@ == human_readable_bytes_text(bytes as nat),
{
    let unit: u8 = unit_of(bytes);
    if unit == 0 {
        let mut s = unsigned_to_string(bytes);
        s.append(" B");
        s
    } else {
        let mut s = scaled_size(bytes, 2);
        s.append(" ");
        if unit == 1 {
            s.append("KiB");
        } else if unit == 2 {
            s.append("MiB");
        } else if unit == 3 {
            s.append("GiB");
        } else {
            s.append("TiB");
        }
        s
    }
}

/// Converts a byte count into a short size such as `1.5 KB`.
pub fn format_size(bytes: u64) -> (s: String)
    ensures
        s@ == format_size_text(bytes as nat),
{
    let unit: u8 = unit_of(bytes);
    if unit == 0 {
        let mut s = unsigned_to_string(bytes);
        s.append(" B");
        s
    } else {
        let mut s = scaled_size(bytes, 1);
        s.append(" ");
        if unit == 1 {
            s.append("KB");
        } else if unit == 2 {
            s.append("MB");
        } else if unit == 3 {
            s.append("GB");
        } else {
            s.append("TB");
        }
        s
    }
}

/// The first `upto` of `digits`, with a comma before every digit but the
/// first whose distance from the end is a multiple of three.
pub open spec fn grouped(digits: Seq<char>, upto: int) -> Seq<char>
    decreases upto,
{
    if upto <= 0 {
        Seq::empty()
    } else {
        let i = upto - 1;
        if i > 0 && (digits.len() - i) % 3 == 0 {
            grouped(digits, i).push(',').push(digits[i])
        } else {
            grouped(digits, i).push(digits[i])
        }
    }
}

/// A number with its digits in groups of three.
pub open spec fn commas_text(n: nat) -> Seq<char> {
    grouped(decimal_digits(n), decimal_digits(n).len() as int)
}

/// Writes a number with a comma between its groups of three digits.
pub fn commas(n: u64) -> (s: String)
    ensures
        s@ == commas_text(n as nat),
{
    let digits = unsigned_to_string(n);
    let len: usize = digits.as_str().unicode_len();
    let mut s = String::new();
    let mut i: usize = 0;
    while i < len
        invariant
            i <= len == digits@.len(),
            digits@ == decimal_digits(n as nat),
            s@ == grouped(digits@, i as int),
        decreases len - i,
    {
        if i > 0 && (len - i) % 3 == 0 {
            s.push(',');
        }
        s.push(digits.as_str().get_char(i));
        i = i + 1;
    }
    s
}

/// What is written in place of the end of a text that was cut.
pub open spec fn ellipsis() -> Seq<char> {
    "â€¦"@
}

/// A text cut to `max` characters: a text that is longer keeps its first
/// `max - 1` characters, and the ellipsis follows them.
pub open spec fn truncated_text(s: Seq<char>, max: nat) -> Seq<char> {
    if s.len() > max {
        s.take(max - 1) + ellipsis()
    } else {
        s
    }
}

/// Cuts a text to `max` characters.
pub fn truncate_str(s: &str, max: usize) -> (out: String)
    requires
        max > 0 || s@.len() == 0,
    ensures
        out@ == truncated_text(s@, max as nat),
{
    if s.unicode_len() > max {
        let head = s.substring_char(0, max - 1);
        let mut out = head.to_owned();
        out.append("â€¦");
        out
    } else {
        s.to_owned()
    }
}

/// The scroll offset that shows line `selected` of a tree in a viewport of
/// `viewport_height` lines whose first line is taken by the root: zero as long
/// as the selection fits, else as much as brings it to the last line.
pub open spec fn viewport_scroll(column_selected: Option<usize>, viewport_height: int) -> int {
    match column_selected {
        Some(selected) => minus_or_zero(selected + 1, viewport_height),
        None => 0,
    }
}

/// The scroll offset that keeps the selected line of the tree visible.
pub fn adjust_scroll_for_viewport(column_selected: Option<usize>, viewport_height: usize) -> (r:
    usize)
    requires
        column_selected matches Some(selected) ==> selected >= 1 && viewport_height >= 2,
    ensures
        r == viewport_scroll(column_selected, viewport_height as int),
{
    let mut scroll_offset: usize = 0;
    if let Some(selected_idx) = column_selected {
        let effective_viewport: usize = viewport_height.saturating_sub(1);
        let relative_selected: usize = selected_idx - 1;
        if relative_selected > effective_viewport - 1 {
            scroll_offset = relative_selected.saturating_sub(effective_viewport - 1);
        }
    }
    scroll_offset
}

/// The scroll offset that keeps the selected line visible in a tree of the
/// given height.
pub fn adjust_scroll_for_selection(column_selected: Option<usize>, schema_tree_height: usize) -> (r:
    usize)
    requires
        column_selected matches Some(selected) ==> selected >= 1 && schema_tree_height >= 2,
    ensures
        r == viewport_scroll(column_selected, schema_tree_height as int),
{
    adjust_scroll_for_viewport(column_selected, schema_tree_height)
}

} // verus!
