//! Decoding of raw values into display text, one physical type at a time.
//!
//! Every decoder is total: bytes whose length does not fit the physical type
//! are rendered as hexadecimal.

use vstd::prelude::*;
use vstd::arithmetic::div_mod::lemma_fundamental_div_mod_converse;
use crate::fixed::{float32_string, float32_text, float64_string, float64_text};
use crate::text::{
    decimal_digits,
    decimal_text,
    hex_string,
    hex_text,
    push_decimal,
    signed_to_string,
    utf8_or_hex,
    utf8_or_hex_text,
};

verus! {

/// The on-disk storage type of a column.
#[allow(non_camel_case_types)]
#[derive(Clone, Copy, Debug, PartialEq, Eq, Structural)]
pub enum PhysicalType {
    BOOLEAN,
    INT32,
    INT64,
    INT96,
    FLOAT,
    DOUBLE,
    BYTE_ARRAY,
    FIXED_LEN_BYTE_ARRAY,
}

impl PhysicalType {
    /// The name of the type as the file format writes it.
    pub open spec fn name_text(self) -> Seq<char> {
        match self {
            PhysicalType::BOOLEAN => "BOOLEAN"@,
            PhysicalType::INT32 => "INT32"@,
            PhysicalType::INT64 => "INT64"@,
            PhysicalType::INT96 => "INT96"@,
            PhysicalType::FLOAT => "FLOAT"@,
            PhysicalType::DOUBLE => "DOUBLE"@,
            PhysicalType::BYTE_ARRAY => "BYTE_ARRAY"@,
            PhysicalType::FIXED_LEN_BYTE_ARRAY => "FIXED_LEN_BYTE_ARRAY"@,
        }
    }

    /// The name of the type as the file format writes it.
    pub fn name(self) -> (s: String)
        ensures
            s@ == self.name_text(),
    {
        match self {
            PhysicalType::BOOLEAN => "BOOLEAN".to_owned(),
            PhysicalType::INT32 => "INT32".to_owned(),
            PhysicalType::INT64 => "INT64".to_owned(),
            PhysicalType::INT96 => "INT96".to_owned(),
            PhysicalType::FLOAT => "FLOAT".to_owned(),
            PhysicalType::DOUBLE => "DOUBLE".to_owned(),
            PhysicalType::BYTE_ARRAY => "BYTE_ARRAY".to_owned(),
            PhysicalType::FIXED_LEN_BYTE_ARRAY => "FIXED_LEN_BYTE_ARRAY".to_owned(),
        }
    }
}

/// 256 to the power `k`.
pub open spec fn pow256(k: nat) -> nat
    decreases k,
{
    if k == 0 {
        1
    } else {
        256 * pow256((k - 1) as nat)
    }
}

/// The number that bytes spell in little-endian order.
pub open spec fn le_value(bytes: Seq<u8>) -> nat
    decreases bytes.len(),
{
    if bytes.len() == 0 {
        0
    } else {
        bytes[0] as nat + 256 * le_value(bytes.drop_first())
    }
}

/// The `width` little-endian bytes of `v`; the digits above them are dropped.
pub open spec fn le_bytes(v: nat, width: nat) -> Seq<u8>
    decreases width,
{
    if width == 0 {
        Seq::empty()
    } else {
        seq![(v % 256) as u8] + le_bytes(v / 256, (width - 1) as nat)
    }
}

/// A number read as two's complement of `width` bytes.
pub open spec fn twos_complement(v: nat, width: nat) -> int {
    if 2 * v >= pow256(width) {
        v - pow256(width)
    } else {
        v as int
    }
}

/// Bytes spell a number below 256 to the power of their count.
pub proof fn lemma_le_value_bound(bytes: Seq<u8>)
    ensures
        le_value(bytes) < pow256(bytes.len()),
    decreases bytes.len(),
{
    if bytes.len() > 0 {
        lemma_le_value_bound(bytes.drop_first());
    }
}

/// Little-endian encoding and decoding are inverse on numbers that fit.
pub proof fn lemma_le_round_trip(v: nat, width: nat)
    requires
        v < pow256(width),
    ensures
        le_bytes(v, width).len() == width,
        le_value(le_bytes(v, width)) == v,
    decreases width,
{
    if width > 0 {
        let rest = le_bytes(v / 256, (width - 1) as nat);
        lemma_le_round_trip(v / 256, (width - 1) as nat);
        assert(le_bytes(v, width).drop_first() =~= rest);
    }
}

proof fn lemma_pow256_values()
    ensures
        pow256(0) == 1,
        pow256(1) == 0x100,
        pow256(2) == 0x1_0000,
        pow256(3) == 0x100_0000,
        pow256(4) == 0x1_0000_0000,
        pow256(5) == 0x100_0000_0000,
        pow256(6) == 0x1_0000_0000_0000,
        pow256(7) == 0x100_0000_0000_0000,
        pow256(8) == 0x1_0000_0000_0000_0000,
{
    reveal_with_fuel(pow256, 10);
}

/// Reads `width` bytes at `offset` as a little-endian number.
pub fn read_le(buffer: &[u8], offset: usize, width: usize) -> (v: u64)
    requires
        width <= 8,
        offset + width <= buffer@.len(),
    ensures
        v == le_value(buffer@.subrange(offset as int, offset + width)),
{
    let mut v: u64 = 0;
    let mut i: usize = width;
    let len: usize = buffer.len();
    proof {
        assert(buffer@.subrange(offset + width, offset + width) =~= Seq::<u8>::empty());
    }
    while i > 0
        invariant
            i <= width <= 8,
            offset + width <= len == buffer@.len(),
            v == le_value(buffer@.subrange(offset + i, offset + width)),
        decreases i,
    {
        proof {
            let tail = buffer@.subrange(offset + i, offset + width);
            lemma_le_value_bound(tail);
            lemma_pow256_values();
            assert(pow256(tail.len()) <= pow256(7)) by {
                if tail.len() == 0 {
                } else if tail.len() == 1 {
                } else if tail.len() == 2 {
                } else if tail.len() == 3 {
                } else if tail.len() == 4 {
                } else if tail.len() == 5 {
                } else if tail.len() == 6 {
                } else {
                    assert(tail.len() == 7);
                }
            }
            assert(buffer@.subrange(offset + i - 1, offset + width).drop_first() =~= tail);
        }
        i = i - 1;
        v = v * 256 + buffer[offset + i] as u64;
    }
    v
}

/// The raw pair of an INT96 value, for instants that cannot be shown as a
/// date.
pub open spec fn int96_raw_text(nanos: nat, julian_day: nat) -> Seq<char> {
    "INT96(nanos="@ + decimal_digits(nanos) + ", julian_day="@ + decimal_digits(julian_day)
        + ")"@
}

/// The nanoseconds between the Unix epoch and the instant of an INT96 value.
/// Julian day number 2440588 is 1970-01-01.
pub open spec fn int96_total_nanos(nanos: nat, julian_day: nat) -> int {
    (julian_day - 2440588) * 86400 * 1_000_000_000 + nanos
}

/// The text that chrono's formatter gives the instant `secs` seconds and
/// `nanos` nanoseconds after the Unix epoch in the layout
/// `%Y-%m-%d %H:%M:%S%.9f UTC`, or `None` where chrono has no such instant.
pub uninterp spec fn utc_timestamp_text(secs: int, nanos: int) -> Option<Seq<char>>;

/// `chrono::DateTime::from_timestamp` followed by `format` with the layout
/// `%Y-%m-%d %H:%M:%S%.9f UTC`. The result depends on the two numbers alone;
/// nothing else is claimed of it.
#[verifier::external_body]
fn utc_timestamp(secs: i64, nanos: u32) -> (r: Option<String>)
    ensures
        r is Some <==> utc_timestamp_text(secs as int, nanos as int) is Some,
        r matches Some(s) ==> utc_timestamp_text(secs as int, nanos as int) == Some(s@),
{
    match chrono::DateTime::from_timestamp(secs, nanos) {
        Some(t) => Some(t.format("%Y-%m-%d %H:%M:%S%.9f UTC").to_string()),
        None => None,
    }
}

/// The text of an INT96 timestamp: the date and time of the instant where the
/// count of nanoseconds since the epoch fits in 64 bits and the instant exists
/// in the calendar, the raw pair otherwise.
pub open spec fn int96_text(nanos: nat, julian_day: nat) -> Seq<char> {
    let total = int96_total_nanos(nanos, julian_day);
    if i64::MIN <= total <= i64::MAX {
        timestamp_or_raw_text(
            utc_timestamp_text(total / 1_000_000_000, total % 1_000_000_000),
            nanos,
            julian_day,
        )
    } else {
        int96_raw_text(nanos, julian_day)
    }
}

/// The rendered instant where there is one, the raw pair otherwise.
pub open spec fn timestamp_or_raw_text(
    rendered: Option<Seq<char>>,
    nanos: nat,
    julian_day: nat,
) -> Seq<char> {
    match rendered {
        Some(t) => t,
        None => int96_raw_text(nanos, julian_day),
    }
}

/// Renders the raw pair of an INT96 value.
pub fn int96_raw(nanos: u64, julian_day: u32) -> (s: String)
    ensures
        s@ == int96_raw_text(nanos as nat, julian_day as nat),
{
    let mut s = "INT96(nanos=".to_owned();
    push_decimal(&mut s, nanos as u128);
    s.append(", julian_day=");
    push_decimal(&mut s, julian_day as u128);
    s.append(")");
    s
}

/// Chooses between a rendered instant and the raw pair.
pub fn timestamp_or_raw(rendered: Option<String>, nanos: u64, julian_day: u32) -> (s: String)
    ensures
        s@ == timestamp_or_raw_text(
            match rendered {
                Some(t) => Some(t@),
                None => None,
            },
            nanos as nat,
            julian_day as nat,
        ),
{
    match rendered {
        Some(t) => t,
        None => int96_raw(nanos, julian_day),
    }
}

/// Renders an INT96 timestamp given as nanoseconds within the day and a
/// Julian day number.
pub fn format_int96(nanos: u64, julian_day: u32) -> (s: String)
    ensures
        s@ == int96_text(nanos as nat, julian_day as nat),
{
    let days: i128 = julian_day as i128 - 2440588;
    let total: i128 = days * 86_400_000_000_000 + nanos as i128;
    assert(total == int96_total_nanos(nanos as nat, julian_day as nat)) by (nonlinear_arith)
        requires
            days == julian_day as int - 2440588,
            total == days * 86_400_000_000_000 + nanos as int,
    ;
    if total < -0x8000_0000_0000_0000 || total > 0x7FFF_FFFF_FFFF_FFFF {
        return int96_raw(nanos, julian_day);
    }
    let secs: i64;
    let sub: u32;
    if total >= 0 {
        let t: u64 = total as u64;
        secs = (t / 1_000_000_000) as i64;
        sub = (t % 1_000_000_000) as u32;
    } else {
        let m: u64 = (-total) as u64;
        let q: u64 = m / 1_000_000_000;
        let r: u64 = m % 1_000_000_000;
        if r == 0 {
            secs = -(q as i64);
            sub = 0;
        } else {
            secs = -(q as i64) - 1;
            sub = (1_000_000_000 - r) as u32;
        }
        proof {
            lemma_fundamental_div_mod_converse(
                total as int,
                1_000_000_000,
                secs as int,
                sub as int,
            );
        }
    }
    timestamp_or_raw(utc_timestamp(secs, sub), nanos, julian_day)
}

/// The text of a value of the given physical type. A DOUBLE is written with
/// `double_places` decimal places, a FLOAT with four. Bytes of a length that
/// the type does not have are written as hexadecimal.
pub open spec fn decoded_text(bytes: Seq<u8>, physical: PhysicalType, double_places: nat) -> Seq<
    char,
> {
    match physical {
        PhysicalType::BOOLEAN => if bytes.len() == 1 {
            if bytes[0] != 0 {
                "true"@
            } else {
                "false"@
            }
        } else {
            hex_text(bytes)
        },
        PhysicalType::INT32 => if bytes.len() == 4 {
            decimal_text(twos_complement(le_value(bytes), 4))
        } else {
            hex_text(bytes)
        },
        PhysicalType::INT64 => if bytes.len() == 8 {
            decimal_text(twos_complement(le_value(bytes), 8))
        } else {
            hex_text(bytes)
        },
        PhysicalType::INT96 => if bytes.len() == 12 {
            int96_text(le_value(bytes.subrange(0, 8)), le_value(bytes.subrange(8, 12)))
        } else {
            hex_text(bytes)
        },
        PhysicalType::FLOAT => if bytes.len() == 4 {
            float32_text(le_value(bytes) as u32, 4)
        } else {
            hex_text(bytes)
        },
        PhysicalType::DOUBLE => if bytes.len() == 8 {
            float64_text(le_value(bytes) as u64, double_places)
        } else {
            hex_text(bytes)
        },
        PhysicalType::BYTE_ARRAY | PhysicalType::FIXED_LEN_BYTE_ARRAY => utf8_or_hex_text(bytes),
    }
}

/// Decodes one value, writing a DOUBLE with `double_places` decimal places.
pub fn decode_with_places(bytes: &[u8], physical: PhysicalType, double_places: u8) -> (s: String)
    requires
        double_places <= 9,
    ensures
        s@ == decoded_text(bytes@, physical, double_places as nat),
{
    proof {
        lemma_pow256_values();
        lemma_le_value_bound(bytes@);
        assert(bytes@.subrange(0, bytes@.len() as int) =~= bytes@);
    }
    match physical {
        PhysicalType::BOOLEAN => {
            if bytes.len() == 1 {
                if bytes[0] != 0 {
                    "true".to_owned()
                } else {
                    "false".to_owned()
                }
            } else {
                hex_string(bytes)
            }
        },
        PhysicalType::INT32 => {
            if bytes.len() == 4 {
                let v: u64 = read_le(bytes, 0, 4);
                let n: i64 = if v >= 0x8000_0000 {
                    v as i64 - 0x1_0000_0000
                } else {
                    v as i64
                };
                signed_to_string(n)
            } else {
                hex_string(bytes)
            }
        },
        PhysicalType::INT64 => {
            if bytes.len() == 8 {
                let v: u64 = read_le(bytes, 0, 8);
                let n: i64 = if v >= 0x8000_0000_0000_0000 {
                    ((v - 0x8000_0000_0000_0000) as i64) - 0x4000_0000_0000_0000
                        - 0x4000_0000_0000_0000
                } else {
                    v as i64
                };
                signed_to_string(n)
            } else {
                hex_string(bytes)
            }
        },
        PhysicalType::INT96 => {
            if bytes.len() == 12 {
                proof {
                    lemma_le_value_bound(bytes@.subrange(8, 12));
                }
                let nanos: u64 = read_le(bytes, 0, 8);
                let day: u64 = read_le(bytes, 8, 4);
                format_int96(nanos, day as u32)
            } else {
                hex_string(bytes)
            }
        },
        PhysicalType::FLOAT => {
            if bytes.len() == 4 {
                let v: u64 = read_le(bytes, 0, 4);
                float32_string(v as u32, 4)
            } else {
                hex_string(bytes)
            }
        },
        PhysicalType::DOUBLE => {
            if bytes.len() == 8 {
                let v: u64 = read_le(bytes, 0, 8);
                float64_string(v, double_places)
            } else {
                hex_string(bytes)
            }
        },
        PhysicalType::BYTE_ARRAY | PhysicalType::FIXED_LEN_BYTE_ARRAY => utf8_or_hex(bytes),
    }
}

/// Decodes raw statistics bytes into display text. Floating-point values are
/// written with four decimal places.
pub fn decode_value(bytes: &[u8], physical: PhysicalType) -> (s: String)
    ensures
        s@ == decoded_text(bytes@, physical, 4),
{
    decode_with_places(bytes, physical, 4)
}

/// Decoding the little-endian bytes of a 32-bit integer gives its decimal
/// text.
pub proof fn lemma_int32_round_trip(x: i32)
    ensures
        decoded_text(
            le_bytes(
                (if x < 0 {
                    x + 0x1_0000_0000
                } else {
                    x as int
                }) as nat,
                4,
            ),
            PhysicalType::INT32,
            4,
        ) == decimal_text(x as int),
{
    lemma_pow256_values();
    let v = (if x < 0 {
        x + 0x1_0000_0000
    } else {
        x as int
    }) as nat;
    lemma_le_round_trip(v, 4);
}

/// Decoding the little-endian bytes of a 64-bit integer gives its decimal
/// text.
pub proof fn lemma_int64_round_trip(x: i64)
    ensures
        decoded_text(
            le_bytes(
                (if x < 0 {
                    x + 0x1_0000_0000_0000_0000
                } else {
                    x as int
                }) as nat,
                8,
            ),
            PhysicalType::INT64,
            4,
        ) == decimal_text(x as int),
{
    lemma_pow256_values();
    let v = (if x < 0 {
        x + 0x1_0000_0000_0000_0000
    } else {
        x as int
    }) as nat;
    lemma_le_round_trip(v, 8);
}

/// Decoding the little-endian bytes of a 32-bit floating-point number
/// gives the text of that number.
pub proof fn lemma_float_round_trip(bits: u32)
    ensures
        decoded_text(le_bytes(bits as nat, 4), PhysicalType::FLOAT, 4) == float32_text(bits, 4),
{
    lemma_pow256_values();
    lemma_le_round_trip(bits as nat, 4);
}

/// Decoding the little-endian bytes of a 64-bit floating-point number
/// gives the text of that number.
pub proof fn lemma_double_round_trip(bits: u64, places: nat)
    ensures
        decoded_text(le_bytes(bits as nat, 8), PhysicalType::DOUBLE, places) == float64_text(
            bits,
            places,
        ),
{
    lemma_pow256_values();
    lemma_le_round_trip(bits as nat, 8);
}

} // verus!
