//! Fixed-point decimal rendering of binary fractions.
//!
//! A binary fraction is a value `mantissa * 2^exponent`. Rendering it with a
//! fixed number of decimal places rounds to the nearest representable decimal,
//! ties going to the even neighbour. Every IEEE-754 number is such a fraction,
//! so the 32-bit and 64-bit formats are rendered from their bit patterns with
//! integer arithmetic alone.

use vstd::prelude::*;
use vstd::arithmetic::div_mod::*;
use crate::text::{decimal_digits, digit_char, push_decimal};

verus! {

/// Two to the power `k`.
pub open spec fn pow2(k: nat) -> nat
    decreases k,
{
    if k == 0 {
        1
    } else {
        2 * pow2((k - 1) as nat)
    }
}

/// Ten to the power `k`.
pub open spec fn pow10(k: nat) -> nat
    decreases k,
{
    if k == 0 {
        1
    } else {
        10 * pow10((k - 1) as nat)
    }
}

/// `num / den` rounded to the nearest integer; a tie goes to the even one.
pub open spec fn round_half_even(num: nat, den: nat) -> nat {
    let q = num / den;
    let r = num % den;
    if 2 * r > den || (2 * r == den && q % 2 == 1) {
        q + 1
    } else {
        q
    }
}

/// `mantissa * 2^exponent * 10^places`, rounded to the nearest integer with
/// ties to even.
pub open spec fn scaled(mantissa: nat, exponent: int, places: nat) -> nat {
    if exponent >= 0 {
        mantissa * pow2(exponent as nat) * pow10(places)
    } else {
        round_half_even(mantissa * pow10(places), pow2((-exponent) as nat))
    }
}

/// The last `width` decimal digits of `v`, zero-padded on the left.
pub open spec fn padded_digits(v: nat, width: nat) -> Seq<char>
    decreases width,
{
    if width == 0 {
        Seq::empty()
    } else {
        padded_digits(v / 10, (width - 1) as nat).push(digit_char((v % 10) as int))
    }
}

/// The text of `value / 10^places`: the whole part, and after a point the
/// fraction in exactly `places` digits. No point is written for zero places.
pub open spec fn fixed_point_text(value: nat, places: nat) -> Seq<char> {
    let whole = decimal_digits(value / pow10(places));
    if places == 0 {
        whole
    } else {
        whole + seq!['.'] + padded_digits(value % pow10(places), places)
    }
}

/// The text of a signed binary fraction with a fixed number of places. The
/// sign is written for every negative value, also where it rounds to zero.
pub open spec fn fixed_text(negative: bool, mantissa: nat, exponent: int, places: nat) -> Seq<
    char,
> {
    let body = fixed_point_text(scaled(mantissa, exponent, places), places);
    if negative {
        seq!['-'] + body
    } else {
        body
    }
}

/// Every power of two is positive.
pub proof fn lemma_pow2_positive(k: nat)
    ensures
        pow2(k) > 0,
    decreases k,
{
    if k > 0 {
        lemma_pow2_positive((k - 1) as nat);
    }
}

/// Every power of ten is positive.
pub proof fn lemma_pow10_positive(k: nat)
    ensures
        pow10(k) > 0,
    decreases k,
{
    if k > 0 {
        lemma_pow10_positive((k - 1) as nat);
    }
}

proof fn lemma_pow10_small(k: nat)
    requires
        k <= 9,
    ensures
        pow10(k) <= 1_000_000_000,
        k < 9 ==> pow10(k) <= 100_000_000,
{
    reveal_with_fuel(pow10, 11);
}

/// Ten to the power `places`.
fn power_of_ten(places: u8) -> (p: u128)
    requires
        places <= 9,
    ensures
        p == pow10(places as nat),
        1 <= p <= 1_000_000_000,
{
    let mut p: u128 = 1;
    let mut i: u8 = 0;
    while i < places
        invariant
            i <= places <= 9,
            p == pow10(i as nat),
        decreases places - i,
    {
        proof {
            lemma_pow10_small(i as nat);
        }
        p = p * 10;
        i = i + 1;
    }
    proof {
        lemma_pow10_small(places as nat);
        lemma_pow10_positive(places as nat);
    }
    p
}

/// Appends the last `width` decimal digits of `v`, zero-padded.
fn push_padded(out: &mut String, v: u128, width: u8)
    ensures
        final(out)@ == old(out)@ + padded_digits(v as nat, width as nat),
    decreases width,
{
    if width > 0 {
        push_padded(out, v / 10, width - 1);
        let d: u8 = (v % 10) as u8;
        out.push((48u8 + d) as char);
        assert((old(out)@ + padded_digits((v / 10) as nat, (width - 1) as nat)).push(
            digit_char((v % 10) as int),
        ) =~= old(out)@ + padded_digits(v as nat, width as nat));
    } else {
        assert(old(out)@ + padded_digits(v as nat, 0) =~= old(out)@);
    }
}

/// Divides by a power of two, rounding to nearest with ties to even.
pub fn shift_round(x: u128, k: u32) -> (s: u128)
    requires
        k >= 1,
        x < u128::MAX,
    ensures
        s == round_half_even(x as nat, pow2(k as nat)),
{
    // `bit` is the bit shifted out last, `sticky` tells whether any bit
    // shifted out before it was set.
    let mut q: u128 = x / 2;
    let mut bit: bool = x % 2 == 1;
    let mut sticky: bool = false;
    let mut i: u32 = 1;
    proof {
        reveal_with_fuel(pow2, 2);
        assert(pow2(0) == 1 && pow2(1) == 2);
        assert(x as nat / 1 == x as nat);
    }
    while i < k
        invariant
            1 <= i <= k,
            q == x as nat / pow2(i as nat),
            bit == ((x as nat / pow2((i - 1) as nat)) % 2 == 1),
            sticky == (x as nat % pow2((i - 1) as nat) != 0),
        decreases k - i,
    {
        proof {
            let lo = pow2((i - 1) as nat);
            let hi = pow2(i as nat);
            lemma_pow2_positive((i - 1) as nat);
            lemma_pow2_positive(i as nat);
            assert(hi == 2 * lo);
            assert(pow2((i + 1) as nat) == 2 * hi);
            lemma_div_denominator(x as int, hi as int, 2);
            assert(hi * 2 == 2 * hi) by (nonlinear_arith);
            lemma_breakdown(x as int, lo as int, 2);
            assert(lo * 2 == hi) by (nonlinear_arith)
                requires
                    hi == 2 * lo,
            ;
            assert(x as int % (hi as int) == lo * ((x as int / (lo as int)) % 2) + x as int % (
            lo as int)) by {
                assert(lo as int * 2 == hi as int);
            }
            if (x as nat / lo) % 2 == 1 {
                assert(lo * ((x as int / (lo as int)) % 2) == lo) by (nonlinear_arith)
                    requires
                        (x as int / (lo as int)) % 2 == 1,
                ;
            } else {
                assert((x as int / (lo as int)) % 2 == 0);
                assert(lo * ((x as int / (lo as int)) % 2) == 0) by (nonlinear_arith)
                    requires
                        (x as int / (lo as int)) % 2 == 0,
                ;
            }
        }
        sticky = sticky || bit;
        bit = q % 2 == 1;
        q = q / 2;
        i = i + 1;
    }
    proof {
        let lo = pow2((k - 1) as nat);
        let den = pow2(k as nat);
        lemma_pow2_positive((k - 1) as nat);
        assert(den == 2 * lo);
        lemma_breakdown(x as int, lo as int, 2);
        assert(lo * 2 == den) by (nonlinear_arith)
            requires
                den == 2 * lo,
        ;
        assert(x as int % (den as int) == lo * ((x as int / (lo as int)) % 2) + x as int % (
        lo as int)) by {
            assert(lo as int * 2 == den as int);
        }
        if bit {
            assert(lo * ((x as int / (lo as int)) % 2) == lo) by (nonlinear_arith)
                requires
                    (x as int / (lo as int)) % 2 == 1,
            ;
        } else {
            assert(lo * ((x as int / (lo as int)) % 2) == 0) by (nonlinear_arith)
                requires
                    (x as int / (lo as int)) % 2 == 0,
            ;
        }
        assert(0 <= x as int % (lo as int) < lo);
    }
    if bit && (sticky || q % 2 == 1) {
        q + 1
    } else {
        q
    }
}

/// The value of decimal digits written least significant first.
pub open spec fn digits_value(ds: Seq<u8>) -> nat
    decreases ds.len(),
{
    if ds.len() == 0 {
        0
    } else {
        ds[0] as nat + 10 * digits_value(ds.drop_first())
    }
}

/// The digits written most significant first, as characters.
pub open spec fn digits_text(ds: Seq<u8>) -> Seq<char>
    decreases ds.len(),
{
    if ds.len() == 0 {
        Seq::empty()
    } else {
        digits_text(ds.drop_first()).push(digit_char(ds[0] as int))
    }
}

/// At least one digit, each below ten, and no leading zero but for zero
/// itself.
pub open spec fn canonical_digits(ds: Seq<u8>) -> bool {
    &&& ds.len() >= 1
    &&& forall|i: int| 0 <= i < ds.len() ==> #[trigger] ds[i] < 10
    &&& ds.len() > 1 ==> ds.last() != 0
}

proof fn lemma_digits_value_push(ds: Seq<u8>, d: u8)
    ensures
        digits_value(ds.push(d)) == digits_value(ds) + d as nat * pow10(ds.len()),
    decreases ds.len(),
{
    if ds.len() == 0 {
        assert(ds.push(d).drop_first() =~= Seq::<u8>::empty());
        assert(digits_value(ds.push(d)) == d as nat + 10 * digits_value(Seq::<u8>::empty()));
        assert(d as nat * pow10(0) == d as nat) by (nonlinear_arith)
            requires
                pow10(0) == 1,
        ;
    } else {
        assert(ds.push(d).drop_first() =~= ds.drop_first().push(d));
        assert(ds.push(d)[0] == ds[0]);
        lemma_digits_value_push(ds.drop_first(), d);
        assert(pow10(ds.len()) == 10 * pow10((ds.len() - 1) as nat));
        assert(10 * (d as nat * pow10((ds.len() - 1) as nat)) == d as nat * pow10(ds.len()))
            by (nonlinear_arith)
            requires
                pow10(ds.len()) == 10 * pow10((ds.len() - 1) as nat),
        ;
    }
}

proof fn lemma_canonical_positive(ds: Seq<u8>)
    requires
        canonical_digits(ds),
        ds.len() > 1,
    ensures
        digits_value(ds) >= 10,
    decreases ds.len(),
{
    let tail = ds.drop_first();
    if tail.len() > 1 {
        assert(tail.last() == ds.last());
        assert forall|i: int| 0 <= i < tail.len() implies #[trigger] tail[i] < 10 by {
            assert(tail[i] == ds[i + 1]);
        }
        lemma_canonical_positive(tail);
    } else {
        assert(tail[0] == ds.last());
        assert(tail.drop_first() =~= Seq::<u8>::empty());
        assert(digits_value(tail) == tail[0] as nat + 10 * digits_value(Seq::<u8>::empty()));
    }
}

/// Canonical digits are the decimal digits of their value.
proof fn lemma_digits_text(ds: Seq<u8>)
    requires
        canonical_digits(ds),
    ensures
        digits_text(ds) == decimal_digits(digits_value(ds)),
    decreases ds.len(),
{
    let tail = ds.drop_first();
    if ds.len() == 1 {
        assert(tail =~= Seq::<u8>::empty());
        assert(digits_text(tail) =~= Seq::<char>::empty());
        assert(digits_value(ds) == ds[0] as nat + 10 * digits_value(tail));
        assert(digits_text(ds) =~= seq![digit_char(ds[0] as int)]);
    } else {
        assert(ds.last() == tail.last());
        assert forall|i: int| 0 <= i < tail.len() implies #[trigger] tail[i] < 10 by {
            assert(tail[i] == ds[i + 1]);
        }
        lemma_digits_text(tail);
        lemma_canonical_positive(ds);
        let v = digits_value(ds);
        assert(ds[0] < 10);
        assert(v / 10 == digits_value(tail) && v % 10 == ds[0] as nat);
    }
}

/// The canonical digits of `n`, least significant first.
fn digits_of(n: u64) -> (ds: Vec<u8>)
    ensures
        canonical_digits(ds@),
        digits_value(ds@) == n,
{
    let mut ds: Vec<u8> = Vec::new();
    let mut rest: u64 = n / 10;
    ds.push((n % 10) as u8);
    proof {
        assert(ds@ =~= Seq::<u8>::empty().push((n % 10) as u8));
        lemma_digits_value_push(Seq::<u8>::empty(), (n % 10) as u8);
        reveal_with_fuel(pow10, 2);
        assert(pow10(0) == 1 && pow10(1) == 10);
        assert(digits_value(Seq::<u8>::empty()) == 0);
        assert(((n % 10) as u8) as nat * pow10(0) == n % 10) by (nonlinear_arith)
            requires
                pow10(0) == 1,
                ((n % 10) as u8) as nat == n % 10,
        ;
        assert(rest * pow10(1) == 10 * (n / 10)) by (nonlinear_arith)
            requires
                pow10(1) == 10,
                rest == n / 10,
        ;
    }
    while rest > 0
        invariant
            ds@.len() >= 1,
            forall|i: int| 0 <= i < ds@.len() ==> #[trigger] ds@[i] < 10,
            digits_value(ds@) + rest * pow10(ds@.len()) == n,
            rest == 0 ==> canonical_digits(ds@),
        decreases rest,
    {
        let d: u8 = (rest % 10) as u8;
        proof {
            lemma_digits_value_push(ds@, d);
            let p = pow10(ds@.len());
            assert(pow10((ds@.len() + 1) as nat) == 10 * p);
            assert(d as nat * p + (rest / 10) * (10 * p) == rest * p) by (nonlinear_arith)
                requires
                    d as nat == rest % 10,
                    rest == 10 * (rest / 10) + rest % 10,
            ;
        }
        ds.push(d);
        rest = rest / 10;
    }
    ds
}

/// Doubles a number held as canonical digits.
fn double_digits(ds: &Vec<u8>) -> (out: Vec<u8>)
    requires
        canonical_digits(ds@),
    ensures
        canonical_digits(out@),
        digits_value(out@) == 2 * digits_value(ds@),
{
    let mut out: Vec<u8> = Vec::new();
    let mut carry: u8 = 0;
    let mut i: usize = 0;
    while i < ds.len()
        invariant
            i <= ds.len(),
            canonical_digits(ds@),
            out@.len() == i,
            carry <= 1,
            forall|j: int| 0 <= j < out@.len() ==> #[trigger] out@[j] < 10,
            digits_value(out@) + carry as nat * pow10(i as nat) == 2 * digits_value(
                ds@.take(i as int),
            ),
            i > 0 && carry == 0 ==> out@[i - 1] >= ds@[i - 1],
        decreases ds.len() - i,
    {
        let t: u8 = 2 * ds[i] + carry;
        let d: u8 = t % 10;
        proof {
            let p = pow10(i as nat);
            lemma_digits_value_push(out@, d);
            assert(ds@.take(i as int + 1) =~= ds@.take(i as int).push(ds@[i as int]));
            lemma_digits_value_push(ds@.take(i as int), ds@[i as int]);
            assert(pow10((i + 1) as nat) == 10 * p);
            assert(d as nat * p + (t / 10) as nat * (10 * p) == 2 * (ds@[i as int] as nat * p)
                + carry as nat * p) by (nonlinear_arith)
                requires
                    t as nat == 2 * ds@[i as int] as nat + carry as nat,
                    t as nat == 10 * (t / 10) as nat + d as nat,
            ;
        }
        out.push(d);
        carry = t / 10;
        i = i + 1;
    }
    proof {
        assert(ds@.take(i as int) =~= ds@);
    }
    if carry > 0 {
        proof {
            lemma_digits_value_push(out@, carry);
        }
        out.push(carry);
    }
    out
}

/// Appends digits held least significant first, most significant first.
fn push_digits(out: &mut String, ds: &Vec<u8>)
    requires
        forall|i: int| 0 <= i < ds@.len() ==> #[trigger] ds@[i] < 10,
    ensures
        final(out)@ == old(out)@ + digits_text(ds@),
{
    let mut i: usize = ds.len();
    proof {
        assert(ds@.skip(i as int) =~= Seq::<u8>::empty());
        assert(old(out)@ + digits_text(Seq::<u8>::empty()) =~= old(out)@);
    }
    while i > 0
        invariant
            i <= ds.len(),
            forall|j: int| 0 <= j < ds@.len() ==> #[trigger] ds@[j] < 10,
            out@ == old(out)@ + digits_text(ds@.skip(i as int)),
        decreases i,
    {
        i = i - 1;
        out.push((48u8 + ds[i]) as char);
        proof {
            assert(ds@.skip(i as int).drop_first() =~= ds@.skip(i as int + 1));
            assert((old(out)@ + digits_text(ds@.skip(i as int + 1))).push(
                digit_char(ds@[i as int] as int),
            ) =~= old(out)@ + digits_text(ds@.skip(i as int)));
        }
    }
    proof {
        assert(ds@.skip(0) =~= ds@);
    }
}

/// Appends the decimal digits of `mantissa * 2^exponent`.
fn push_scaled_up(out: &mut String, mantissa: u64, exponent: u32)
    ensures
        final(out)@ == old(out)@ + decimal_digits(mantissa as nat * pow2(exponent as nat)),
{
    let mut ds = digits_of(mantissa);
    let mut i: u32 = 0;
    assert(mantissa as nat * pow2(0) == mantissa as nat) by (nonlinear_arith)
        requires
            pow2(0) == 1,
    ;
    while i < exponent
        invariant
            i <= exponent,
            canonical_digits(ds@),
            digits_value(ds@) == mantissa as nat * pow2(i as nat),
        decreases exponent - i,
    {
        proof {
            assert(pow2((i + 1) as nat) == 2 * pow2(i as nat));
            assert(2 * (mantissa as nat * pow2(i as nat)) == mantissa as nat * (2 * pow2(
                i as nat,
            ))) by (nonlinear_arith);
        }
        ds = double_digits(&ds);
        i = i + 1;
    }
    proof {
        lemma_digits_text(ds@);
    }
    push_digits(out, &ds);
}

/// What `fixed_point_text` is of a whole number of units.
proof fn lemma_fixed_point_whole(whole: nat, places: nat)
    ensures
        (whole * pow10(places)) / pow10(places) == whole,
        (whole * pow10(places)) % pow10(places) == 0,
{
    lemma_pow10_positive(places);
    lemma_div_by_multiple(whole as int, pow10(places) as int);
    lemma_mod_multiples_basic(whole as int, pow10(places) as int);
}

/// Renders `mantissa * 2^exponent` with `places` decimal places, rounding to
/// nearest with ties to even.
pub fn fixed_string(negative: bool, mantissa: u64, exponent: i32, places: u8) -> (s: String)
    requires
        places <= 9,
        exponent > i32::MIN,
    ensures
        s@ == fixed_text(negative, mantissa as nat, exponent as int, places as nat),
{
    let mut s = String::new();
    if negative {
        s.push('-');
    }
    let ghost sign = s@;
    let ghost value = scaled(mantissa as nat, exponent as int, places as nat);
    if exponent >= 0 {
        push_scaled_up(&mut s, mantissa, exponent as u32);
        proof {
            lemma_fixed_point_whole(
                mantissa as nat * pow2(exponent as nat),
                places as nat,
            );
        }
        if places > 0 {
            s.push('.');
            push_padded(&mut s, 0, places);
        }
    } else {
        let unit: u128 = power_of_ten(places);
        assert(mantissa as nat * unit as nat <= 0xFFFF_FFFF_FFFF_FFFF * 1_000_000_000)
            by (nonlinear_arith)
            requires
                mantissa <= 0xFFFF_FFFF_FFFF_FFFF,
                unit <= 1_000_000_000,
        ;
        let x: u128 = (mantissa as u128) * unit;
        let v: u128 = shift_round(x, (-exponent) as u32);
        push_decimal(&mut s, v / unit);
        if places > 0 {
            s.push('.');
            push_padded(&mut s, v % unit, places);
        }
    }
    proof {
        let body = fixed_point_text(value, places as nat);
        if negative {
            assert(sign =~= seq!['-']);
        } else {
            assert(sign =~= Seq::<char>::empty());
        }
        if places > 0 {
            assert(s@ =~= sign + body);
        } else {
            assert(s@ =~= sign + body);
        }
        assert(Seq::<char>::empty() + body =~= body);
    }
    s
}

/// The text of an IEEE-754 binary32 number, given by its bit pattern: the
/// sign bit, eight exponent bits, twenty-three fraction bits.
pub open spec fn float32_text(bits: u32, places: nat) -> Seq<char> {
    let negative = bits >= 0x8000_0000;
    let biased = (bits % 0x8000_0000) / 0x80_0000;
    let fraction = bits % 0x80_0000;
    if biased == 255 {
        special_text(negative, fraction != 0)
    } else if biased == 0 {
        fixed_text(negative, fraction as nat, -149, places)
    } else {
        fixed_text(negative, (fraction + 0x80_0000) as nat, biased - 150, places)
    }
}

/// The text of an IEEE-754 binary64 number, given by its bit pattern: the
/// sign bit, eleven exponent bits, fifty-two fraction bits.
pub open spec fn float64_text(bits: u64, places: nat) -> Seq<char> {
    let negative = bits >= 0x8000_0000_0000_0000;
    let biased = (bits % 0x8000_0000_0000_0000) / 0x10_0000_0000_0000;
    let fraction = bits % 0x10_0000_0000_0000;
    if biased == 2047 {
        special_text(negative, fraction != 0)
    } else if biased == 0 {
        fixed_text(negative, fraction as nat, -1074, places)
    } else {
        fixed_text(negative, (fraction + 0x10_0000_0000_0000) as nat, biased - 1075, places)
    }
}

/// The text of the values that are no numbers: `NaN` without a sign, and the
/// two infinities.
pub open spec fn special_text(negative: bool, nan: bool) -> Seq<char> {
    if nan {
        "NaN"@
    } else if negative {
        "-inf"@
    } else {
        "inf"@
    }
}

fn special_string(negative: bool, nan: bool) -> (s: String)
    ensures
        s@ == special_text(negative, nan),
{
    if nan {
        "NaN".to_owned()
    } else if negative {
        "-inf".to_owned()
    } else {
        "inf".to_owned()
    }
}

/// Renders a binary32 bit pattern with `places` decimal places.
pub fn float32_string(bits: u32, places: u8) -> (s: String)
    requires
        places <= 9,
    ensures
        s@ == float32_text(bits, places as nat),
{
    let negative: bool = bits >= 0x8000_0000;
    let biased: u32 = (bits % 0x8000_0000) / 0x80_0000;
    let fraction: u32 = bits % 0x80_0000;
    if biased == 255 {
        special_string(negative, fraction != 0)
    } else if biased == 0 {
        fixed_string(negative, fraction as u64, -149, places)
    } else {
        fixed_string(negative, (fraction + 0x80_0000) as u64, biased as i32 - 150, places)
    }
}

/// Renders a binary64 bit pattern with `places` decimal places.
pub fn float64_string(bits: u64, places: u8) -> (s: String)
    requires
        places <= 9,
    ensures
        s@ == float64_text(bits, places as nat),
{
    let negative: bool = bits >= 0x8000_0000_0000_0000;
    let biased: u64 = (bits % 0x8000_0000_0000_0000) / 0x10_0000_0000_0000;
    let fraction: u64 = bits % 0x10_0000_0000_0000;
    if biased == 2047 {
        special_string(negative, fraction != 0)
    } else if biased == 0 {
        fixed_string(negative, fraction, -1074, places)
    } else {
        fixed_string(negative, fraction + 0x10_0000_0000_0000, biased as i32 - 1075, places)
    }
}

} // verus!
