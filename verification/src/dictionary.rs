//! Decoding of dictionary pages.
//!
//! A dictionary page holds the distinct values of a column chunk in PLAIN
//! encoding: byte arrays as a four-byte little-endian length followed by the
//! payload, every other type in records of a fixed width. A record that would
//! reach past the end of the buffer ends the page; what was decoded before it
//! is kept.

use vstd::prelude::*;
use vstd::slice::slice_subrange;
use crate::decode::{decode_with_places, decoded_text, le_value, read_le, PhysicalType};
use crate::text::{hex_string_spaced, hex_text_spaced, views};

verus! {

/// The kind of a page in a column chunk.
#[derive(Clone, Copy, Debug, PartialEq, Eq, Structural)]
pub enum PageKind {
    DataPage,
    IndexPage,
    DictionaryPage,
    DataPageV2,
}

/// A page as the reader hands it out: its payload, copied, and the number of
/// values that its header announces.
pub struct Page {
    pub kind: PageKind,
    pub buffer: Vec<u8>,
    pub num_values: usize,
}

/// One step of a page stream: a page, or the failure that ends the stream.
pub enum PageEvent {
    Read(Page),
    Failed,
}

/// The first `n` items of `s`, or all of them where there are fewer.
pub open spec fn prefix<A>(s: Seq<A>, n: nat) -> Seq<A> {
    if n < s.len() {
        s.take(n as int)
    } else {
        s
    }
}

/// The smaller of two numbers.
pub open spec fn min_nat(a: nat, b: nat) -> nat {
    if a < b {
        a
    } else {
        b
    }
}

/// The entries of a page of fixed-width records: as many as the buffer holds
/// whole and the header announces. A dictionary writes a DOUBLE with six
/// decimal places.
pub open spec fn fixed_entries(
    buffer: Seq<u8>,
    physical: PhysicalType,
    width: nat,
    num_values: nat,
) -> Seq<Seq<char>> {
    Seq::new(
        min_nat(buffer.len() / width, num_values),
        |i: int| decoded_text(buffer.subrange(i * width, (i + 1) * width), physical, 6),
    )
}

/// The entries of a page of byte arrays, at most `num_values` of them.
pub open spec fn byte_array_entries(buffer: Seq<u8>, num_values: nat) -> Seq<Seq<char>>
    decreases num_values,
{
    if num_values == 0 || buffer.len() < 4 {
        Seq::empty()
    } else {
        let length = le_value(buffer.subrange(0, 4)) as int;
        if 4 + length > buffer.len() {
            Seq::empty()
        } else {
            seq![decoded_text(buffer.subrange(4, 4 + length), PhysicalType::BYTE_ARRAY, 6)]
                + byte_array_entries(
                buffer.skip(4 + length),
                (num_values - 1) as nat,
            )
        }
    }
}

/// The one entry that stands for a page of a type without a PLAIN layout
/// here: the type's name and the first 32 bytes in hexadecimal.
pub open spec fn preview_text(physical: PhysicalType, buffer: Seq<u8>) -> Seq<char> {
    "Binary("@ + physical.name_text() + "): "@ + hex_text_spaced(
        buffer.take(
            if 32 < buffer.len() {
                32
            } else {
                buffer.len() as int
            },
        ),
    )
}

/// All entries of a dictionary page.
pub open spec fn page_entries(physical: PhysicalType, buffer: Seq<u8>, num_values: nat) -> Seq<
    Seq<char>,
> {
    match physical {
        PhysicalType::BYTE_ARRAY => byte_array_entries(buffer, num_values),
        PhysicalType::INT32 | PhysicalType::FLOAT => fixed_entries(
            buffer,
            physical,
            4,
            num_values,
        ),
        PhysicalType::INT64 | PhysicalType::DOUBLE => fixed_entries(
            buffer,
            physical,
            8,
            num_values,
        ),
        PhysicalType::INT96 => fixed_entries(buffer, physical, 12, num_values),
        _ => seq![preview_text(physical, buffer)],
    }
}

proof fn lemma_byte_array_prefix(buffer: Seq<u8>, num_values: nat, max_items: nat)
    ensures
        byte_array_entries(buffer, min_nat(num_values, max_items)) == prefix(
            byte_array_entries(buffer, num_values),
            max_items,
        ),
        byte_array_entries(buffer, num_values).len() <= num_values,
    decreases num_values,
{
    let all = byte_array_entries(buffer, num_values);
    let some = byte_array_entries(buffer, min_nat(num_values, max_items));
    if num_values == 0 || buffer.len() < 4 {
        assert(some =~= prefix(all, max_items));
    } else {
        let length = le_value(buffer.subrange(0, 4)) as int;
        if 4 + length > buffer.len() {
            assert(some =~= prefix(all, max_items));
        } else if max_items == 0 {
            lemma_byte_array_prefix(buffer.skip(4 + length), (num_values - 1) as nat, 0);
            assert(some =~= prefix(all, max_items));
        } else {
            lemma_byte_array_prefix(
                buffer.skip(4 + length),
                (num_values - 1) as nat,
                (max_items - 1) as nat,
            );
            assert(min_nat(num_values, max_items) - 1 == min_nat(
                (num_values - 1) as nat,
                (max_items - 1) as nat,
            ));
            assert(some =~= prefix(all, max_items));
        }
    }
}

/// Decodes a page of fixed-width records.
fn parse_fixed_plain(
    buffer: &[u8],
    physical: PhysicalType,
    width: usize,
    num_values: usize,
    max_items: usize,
) -> (values: Vec<String>)
    requires
        width == 4 || width == 8 || width == 12,
    ensures
        views(values@) == prefix(
            fixed_entries(buffer@, physical, width as nat, num_values as nat),
            max_items as nat,
        ),
{
    let len: usize = buffer.len();
    let available: usize = len / width;
    let wanted: usize = if num_values < max_items {
        num_values
    } else {
        max_items
    };
    let count: usize = if available < wanted {
        available
    } else {
        wanted
    };
    let mut values: Vec<String> = Vec::new();
    let mut i: usize = 0;
    let mut offset: usize = 0;
    let ghost all = fixed_entries(buffer@, physical, width as nat, num_values as nat);
    assert(count * width <= buffer@.len()) by (nonlinear_arith)
        requires
            count <= buffer@.len() / (width as nat),
            width > 0,
    ;
    while i < count
        invariant
            i <= count,
            count <= all.len(),
            count * width <= len == buffer@.len(),
            width == 4 || width == 8 || width == 12,
            offset == i * width,
            all == fixed_entries(buffer@, physical, width as nat, num_values as nat),
            values@.len() == i,
            forall|j: int| 0 <= j < i ==> (#[trigger] values@[j])@ == all[j],
        decreases count - i,
    {
        assert((i + 1) * width <= count * width) by (nonlinear_arith)
            requires
                i + 1 <= count,
                width > 0,
        ;
        assert((i + 1) * width == i * width + width) by (nonlinear_arith);
        let record = slice_subrange(buffer, offset, offset + width);
        let text = decode_with_places(record, physical, 6);
        values.push(text);
        offset = offset + width;
        i = i + 1;
    }
    assert(views(values@) =~= prefix(all, max_items as nat));
    values
}

/// Decodes a PLAIN-encoded page of byte arrays: each record is a four-byte
/// little-endian length and that many bytes, read as UTF-8 or written as
/// hexadecimal.
pub fn parse_byte_array_plain(buffer: &[u8], num_values: usize, max_items: usize) -> (values:
    Vec<String>)
    ensures
        views(values@) == prefix(
            byte_array_entries(buffer@, num_values as nat),
            max_items as nat,
        ),
{
    let limit: usize = if num_values < max_items {
        num_values
    } else {
        max_items
    };
    let mut values: Vec<String> = Vec::new();
    let mut offset: usize = 0;
    let ghost target = byte_array_entries(buffer@, limit as nat);
    proof {
        assert(buffer@.skip(0) =~= buffer@);
        assert(views(values@) =~= Seq::<Seq<char>>::empty());
    }
    while values.len() < limit
        invariant
            values@.len() <= limit,
            offset <= buffer@.len(),
            target == views(values@) + byte_array_entries(
                buffer@.skip(offset as int),
                (limit - values@.len()) as nat,
            ),
        ensures
            target == views(values@),
        decreases limit - values@.len(),
    {
        let rest: usize = buffer.len() - offset;
        let ghost tail = buffer@.skip(offset as int);
        if rest < 4 {
            proof {
                assert(views(values@) + Seq::<Seq<char>>::empty() =~= views(values@));
            }
            break ;
        }
        let length: u64 = read_le(buffer, offset, 4);
        proof {
            assert(tail.subrange(0, 4) =~= buffer@.subrange(offset as int, offset + 4));
        }
        if length > (rest - 4) as u64 {
            proof {
                assert(views(values@) + Seq::<Seq<char>>::empty() =~= views(values@));
            }
            break ;
        }
        let start: usize = offset + 4;
        let end: usize = start + length as usize;
        let record = slice_subrange(buffer, start, end);
        let text = decode_with_places(record, PhysicalType::BYTE_ARRAY, 6);
        proof {
            assert(tail.subrange(4, 4 + length) =~= buffer@.subrange(start as int, end as int));
            assert(tail.skip(4 + length) =~= buffer@.skip(end as int));
            assert(views(values@.push(text)) =~= views(values@).push(text@));
            assert(views(values@).push(text@) + byte_array_entries(
                buffer@.skip(end as int),
                (limit - values@.len() - 1) as nat,
            ) =~= views(values@) + (seq![text@] + byte_array_entries(
                buffer@.skip(end as int),
                (limit - values@.len() - 1) as nat,
            )));
        }
        values.push(text);
        offset = end;
    }
    proof {
        if values@.len() >= limit {
            assert(views(values@) + Seq::<Seq<char>>::empty() =~= views(values@));
        }
        lemma_byte_array_prefix(buffer@, num_values as nat, max_items as nat);
    }
    values
}

/// Decodes a PLAIN-encoded page of 32-bit integers.
pub fn parse_int32_plain(buffer: &[u8], num_values: usize, max_items: usize) -> (values: Vec<
    String,
>)
    ensures
        views(values@) == prefix(
            fixed_entries(buffer@, PhysicalType::INT32, 4, num_values as nat),
            max_items as nat,
        ),
{
    parse_fixed_plain(buffer, PhysicalType::INT32, 4, num_values, max_items)
}

/// Decodes a PLAIN-encoded page of 64-bit integers.
pub fn parse_int64_plain(buffer: &[u8], num_values: usize, max_items: usize) -> (values: Vec<
    String,
>)
    ensures
        views(values@) == prefix(
            fixed_entries(buffer@, PhysicalType::INT64, 8, num_values as nat),
            max_items as nat,
        ),
{
    parse_fixed_plain(buffer, PhysicalType::INT64, 8, num_values, max_items)
}

/// Decodes a PLAIN-encoded page of 96-bit timestamps.
pub fn parse_int96_plain(buffer: &[u8], num_values: usize, max_items: usize) -> (values: Vec<
    String,
>)
    ensures
        views(values@) == prefix(
            fixed_entries(buffer@, PhysicalType::INT96, 12, num_values as nat),
            max_items as nat,
        ),
{
    parse_fixed_plain(buffer, PhysicalType::INT96, 12, num_values, max_items)
}

/// Decodes a PLAIN-encoded page of 32-bit floating-point numbers.
pub fn parse_float_plain(buffer: &[u8], num_values: usize, max_items: usize) -> (values: Vec<
    String,
>)
    ensures
        views(values@) == prefix(
            fixed_entries(buffer@, PhysicalType::FLOAT, 4, num_values as nat),
            max_items as nat,
        ),
{
    parse_fixed_plain(buffer, PhysicalType::FLOAT, 4, num_values, max_items)
}

/// Decodes a PLAIN-encoded page of 64-bit floating-point numbers.
pub fn parse_double_plain(buffer: &[u8], num_values: usize, max_items: usize) -> (values: Vec<
    String,
>)
    ensures
        views(values@) == prefix(
            fixed_entries(buffer@, PhysicalType::DOUBLE, 8, num_values as nat),
            max_items as nat,
        ),
{
    parse_fixed_plain(buffer, PhysicalType::DOUBLE, 8, num_values, max_items)
}

/// Renders the start of a buffer whose type has no PLAIN layout here.
pub fn unknown_as_hex_preview(physical: PhysicalType, buffer: &[u8]) -> (s: String)
    ensures
        s@ == preview_text(physical, buffer@),
{
    let mut s = "Binary(".to_owned();
    let name = physical.name();
    s.append(name.as_str());
    s.append("): ");
    let hex = hex_string_spaced(buffer, 32);
    s.append(hex.as_str());
    s
}

/// Decodes one dictionary page, giving at most `max_items` entries.
pub fn parse_dictionary_page(
    physical: PhysicalType,
    buffer: &[u8],
    num_values: usize,
    max_items: usize,
) -> (values: Vec<String>)
    ensures
        views(values@) == prefix(
            page_entries(physical, buffer@, num_values as nat),
            max_items as nat,
        ),
{
    match physical {
        PhysicalType::BYTE_ARRAY => parse_byte_array_plain(buffer, num_values, max_items),
        PhysicalType::INT32 => parse_int32_plain(buffer, num_values, max_items),
        PhysicalType::INT64 => parse_int64_plain(buffer, num_values, max_items),
        PhysicalType::INT96 => parse_int96_plain(buffer, num_values, max_items),
        PhysicalType::FLOAT => parse_float_plain(buffer, num_values, max_items),
        PhysicalType::DOUBLE => parse_double_plain(buffer, num_values, max_items),
        _ => {
            let mut values: Vec<String> = Vec::new();
            if max_items > 0 {
                let text = unknown_as_hex_preview(physical, buffer);
                values.push(text);
            }
            assert(views(values@) =~= prefix(
                page_entries(physical, buffer@, num_values as nat),
                max_items as nat,
            ));
            values
        },
    }
}

/// The entries that one step of a page stream adds: those of a dictionary
/// page, none for any other page.
pub open spec fn event_entries(event: PageEvent, physical: PhysicalType) -> Seq<Seq<char>> {
    match event {
        PageEvent::Read(page) => if page.kind == PageKind::DictionaryPage {
            page_entries(physical, page.buffer@, page.num_values as nat)
        } else {
            Seq::empty()
        },
        PageEvent::Failed => Seq::empty(),
    }
}

/// The entries of all dictionary pages of a stream, in the order of the
/// stream.
pub open spec fn stream_entries(events: Seq<PageEvent>, physical: PhysicalType) -> Seq<Seq<char>>
    decreases events.len(),
{
    if events.len() == 0 {
        Seq::empty()
    } else {
        stream_entries(events.drop_last(), physical) + event_entries(events.last(), physical)
    }
}

/// The number of steps before the first failure of a stream.
pub open spec fn first_failure(events: Seq<PageEvent>) -> nat
    decreases events.len(),
{
    if events.len() == 0 || events[0] is Failed {
        0
    } else {
        1 + first_failure(events.drop_first())
    }
}

proof fn lemma_first_failure_bound(events: Seq<PageEvent>)
    ensures
        first_failure(events) <= events.len(),
    decreases events.len(),
{
    if events.len() > 0 && !(events[0] is Failed) {
        lemma_first_failure_bound(events.drop_first());
    }
}

proof fn lemma_stream_entries_grow(events: Seq<PageEvent>, physical: PhysicalType, i: int, j: int)
    requires
        0 <= i <= j <= events.len(),
    ensures
        stream_entries(events.take(i), physical).len() <= stream_entries(
            events.take(j),
            physical,
        ).len(),
        stream_entries(events.take(i), physical) == stream_entries(events.take(j), physical).take(
            stream_entries(events.take(i), physical).len() as int,
        ),
    decreases j - i,
{
    let a = stream_entries(events.take(i), physical);
    if i < j {
        lemma_stream_entries_grow(events, physical, i, j - 1);
        assert(events.take(j).drop_last() =~= events.take(j - 1));
        let b = stream_entries(events.take(j - 1), physical);
        let c = stream_entries(events.take(j), physical);
        assert(c == b + event_entries(events.take(j).last(), physical));
        assert(a =~= c.take(a.len() as int));
    } else {
        assert(a =~= a.take(a.len() as int));
    }
}

/// Collects the dictionary entries of a column from its page stream, all row
/// groups in order. The scan ends at the first failure of the stream and when
/// `max_items` entries are there; what was collected until then is returned.
pub fn extract_dictionary_values(
    events: &Vec<PageEvent>,
    physical: PhysicalType,
    max_items: usize,
) -> (values: Vec<String>)
    ensures
        views(values@) == prefix(
            stream_entries(events@.take(first_failure(events@) as int), physical),
            max_items as nat,
        ),
{
    let mut values: Vec<String> = Vec::new();
    let mut i: usize = 0;
    let ghost stop = first_failure(events@);
    proof {
        lemma_first_failure_bound(events@);
        assert(events@.skip(0) =~= events@);
        assert(events@.take(0) =~= Seq::<PageEvent>::empty());
        assert(views(values@) =~= Seq::<Seq<char>>::empty());
    }
    while i < events.len()
        invariant
            i <= events@.len(),
            stop == first_failure(events@),
            stop <= events@.len(),
            stop == i + first_failure(events@.skip(i as int)),
            views(values@) == prefix(
                stream_entries(events@.take(i as int), physical),
                max_items as nat,
            ),
        ensures
            views(values@) == prefix(
                stream_entries(events@.take(stop as int), physical),
                max_items as nat,
            ),
        decreases events@.len() - i,
    {
        if values.len() >= max_items {
            proof {
                lemma_stream_entries_grow(events@, physical, i as int, stop as int);
                let a = stream_entries(events@.take(i as int), physical);
                let b = stream_entries(events@.take(stop as int), physical);
                assert(views(values@).len() == values@.len());
                assert(prefix(a, max_items as nat) =~= prefix(b, max_items as nat));
            }
            break ;
        }
        match &events[i] {
            PageEvent::Failed => {
                proof {
                    assert(events@.skip(i as int)[0] == events@[i as int]);
                }
                break ;
            },
            PageEvent::Read(page) => {
                proof {
                    assert(events@.skip(i as int)[0] == events@[i as int]);
                    assert(events@.skip(i as int).drop_first() =~= events@.skip(i + 1));
                    assert(events@.take(i + 1).drop_last() =~= events@.take(i as int));
                    assert(events@.take(i + 1).last() == events@[i as int]);
                }
                if page.kind == PageKind::DictionaryPage {
                    let remaining: usize = max_items - values.len();
                    let mut found = parse_dictionary_page(
                        physical,
                        page.buffer.as_slice(),
                        page.num_values,
                        remaining,
                    );
                    let ghost before = values@;
                    let ghost added = found@;
                    values.append(&mut found);
                    proof {
                        assert(views(before + added) =~= views(before) + views(added));
                        let a = stream_entries(events@.take(i as int), physical);
                        let e = page_entries(physical, page.buffer@, page.num_values as nat);
                        assert(views(before) == a);
                        assert(a + prefix(e, remaining as nat) =~= prefix(a + e, max_items as nat));
                    }
                } else {
                    proof {
                        let a = stream_entries(events@.take(i as int), physical);
                        assert(a + Seq::<Seq<char>>::empty() =~= a);
                    }
                }
            },
        }
        i = i + 1;
    }
    proof {
        if i >= events@.len() {
            assert(events@.skip(i as int) =~= Seq::<PageEvent>::empty());
        }
    }
    values
}

/// A scan never gives more than `max_items` entries, and gives fewer only
/// where the stream, up to its first failure, holds fewer.
pub proof fn lemma_scan_is_capped(entries: Seq<Seq<char>>, max_items: nat)
    ensures
        prefix(entries, max_items).len() <= max_items,
        prefix(entries, max_items).len() < max_items ==> prefix(entries, max_items) == entries,
{
}

} // verus!
