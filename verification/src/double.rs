//! Arithmetic on double-precision numbers held as integers.
//!
//! A finite number is a mantissa of at most 53 bits times a power of two. The
//! operations round as IEEE-754 does, to the nearest number with ties to the
//! even mantissa. Exponents stay far inside the range of the format for the
//! numbers met here, which come from 64-bit integers and a few divisions, so
//! overflow and gradual underflow are not modelled.

use vstd::prelude::*;
use vstd::arithmetic::div_mod::{lemma_div_is_ordered_by_denominator, lemma_fundamental_div_mod};
use crate::fixed::{
    fixed_string,
    fixed_text,
    lemma_pow2_positive,
    pow2,
    round_half_even,
    special_text,
};

verus! {

/// Two to the power 52, the least mantissa of a normal number.
pub const MANTISSA_MIN: u64 = 0x10_0000_0000_0000;

/// Two to the power 53, the bound of the mantissas.
pub const MANTISSA_END: u64 = 0x20_0000_0000_0000;

/// A double-precision number.
#[derive(Clone, Copy, Debug, PartialEq, Eq, Structural)]
pub enum Double {
    /// `mantissa * 2^exponent`, negated where `negative` holds. The mantissa
    /// is zero or lies between two to the power 52 and two to the power 53.
    Finite { negative: bool, mantissa: u64, exponent: i32 },
    Infinite { negative: bool },
    NotANumber,
}

impl Double {
    /// A finite number is zero or has a mantissa of exactly 53 bits, and its
    /// exponent is far from the limits of the machine's numbers.
    pub open spec fn well_formed(self) -> bool {
        match self {
            Double::Finite { mantissa, exponent, .. } => {
                &&& mantissa == 0 || MANTISSA_MIN <= mantissa < MANTISSA_END
                &&& -0x2000_0000 <= exponent <= 0x2000_0000
            },
            _ => true,
        }
    }

    /// The text of the number with a fixed number of decimal places.
    pub open spec fn text(self, places: nat) -> Seq<char> {
        match self {
            Double::Finite { negative, mantissa, exponent } => fixed_text(
                negative,
                mantissa as nat,
                exponent as int,
                places,
            ),
            Double::Infinite { negative } => special_text(negative, false),
            Double::NotANumber => special_text(false, true),
        }
    }
}

/// The number of doublings that bring `m` to 53 bits.
pub open spec fn lead(m: nat) -> nat
    decreases MANTISSA_END - m,
{
    if m == 0 || m >= MANTISSA_MIN {
        0
    } else {
        1 + lead(2 * m)
    }
}

/// The number of halvings that bring `n` to 53 bits.
pub open spec fn excess(n: nat) -> nat
    decreases n,
{
    if n < MANTISSA_END {
        0
    } else {
        1 + excess(n / 2)
    }
}

/// A mantissa that rounding has carried to two to the power 53 is written
/// with the next exponent.
pub open spec fn carried(negative: bool, mantissa: nat, exponent: int) -> Double {
    if mantissa >= MANTISSA_END {
        Double::Finite { negative, mantissa: MANTISSA_MIN, exponent: (exponent + 1) as i32 }
    } else {
        Double::Finite { negative, mantissa: mantissa as u64, exponent: exponent as i32 }
    }
}

/// The double nearest to a natural number.
pub open spec fn nearest(negative: bool, n: nat) -> Double {
    if n == 0 {
        Double::Finite { negative, mantissa: 0, exponent: 0 }
    } else if n < MANTISSA_END {
        Double::Finite {
            negative,
            mantissa: (n * pow2(lead(n))) as u64,
            exponent: (-(lead(n) as int)) as i32,
        }
    } else {
        carried(negative, round_half_even(n, pow2(excess(n))), excess(n) as int)
    }
}

/// The double nearest to the quotient of two doubles.
pub open spec fn quotient(a: Double, b: Double) -> Double {
    match (a, b) {
        (Double::NotANumber, _) => Double::NotANumber,
        (_, Double::NotANumber) => Double::NotANumber,
        (Double::Infinite { .. }, Double::Infinite { .. }) => Double::NotANumber,
        (Double::Infinite { negative }, Double::Finite { negative: other, .. }) => {
            Double::Infinite { negative: negative != other }
        },
        (Double::Finite { negative, .. }, Double::Infinite { negative: other }) => {
            Double::Finite { negative: negative != other, mantissa: 0, exponent: 0 }
        },
        (
            Double::Finite { negative, mantissa, exponent },
            Double::Finite { negative: other, mantissa: divisor, exponent: scale },
        ) => {
            if divisor == 0 {
                if mantissa == 0 {
                    Double::NotANumber
                } else {
                    Double::Infinite { negative: negative != other }
                }
            } else if mantissa == 0 {
                Double::Finite { negative: negative != other, mantissa: 0, exponent: 0 }
            } else {
                let drop: nat = if mantissa >= divisor {
                    12
                } else {
                    11
                };
                carried(
                    negative != other,
                    round_half_even(mantissa as nat * pow2(64), divisor as nat * pow2(drop)),
                    exponent - scale - 64 + drop,
                )
            }
        },
    }
}

/// A double is at least the whole number `n`, for `n` below two to the power
/// 52.
pub open spec fn at_least(a: Double, n: nat) -> bool {
    match a {
        Double::Finite { negative, mantissa, exponent } => {
            if n == 0 {
                true
            } else if negative || mantissa == 0 {
                false
            } else if exponent >= 0 {
                true
            } else {
                mantissa >= n * pow2((-exponent) as nat)
            }
        },
        Double::Infinite { negative } => !negative,
        Double::NotANumber => false,
    }
}

/// The whole part of a double as an unsigned 64-bit number: zero for what
/// is negative or no number, the greatest number for what is too great.
pub open spec fn whole_part(a: Double) -> nat {
    match a {
        Double::Finite { negative, mantissa, exponent } => {
            if negative || mantissa == 0 {
                0
            } else if exponent >= 12 {
                u64::MAX as nat
            } else if exponent >= 0 {
                mantissa as nat * pow2(exponent as nat)
            } else {
                mantissa as nat / pow2((-exponent) as nat)
            }
        },
        Double::Infinite { negative } => if negative {
            0
        } else {
            u64::MAX as nat
        },
        Double::NotANumber => 0,
    }
}

/// The power of a sum is the product of the powers.
pub proof fn lemma_pow2_adds(a: nat, b: nat)
    ensures
        pow2(a + b) == pow2(a) * pow2(b),
    decreases b,
{
    if b == 0 {
        assert(pow2(a) * pow2(0) == pow2(a)) by (nonlinear_arith)
            requires
                pow2(0) == 1,
        ;
    } else {
        lemma_pow2_adds(a, (b - 1) as nat);
        assert(pow2(a + b) == 2 * pow2((a + b - 1) as nat));
        assert(pow2(a) * (2 * pow2((b - 1) as nat)) == 2 * (pow2(a) * pow2((b - 1) as nat)))
            by (nonlinear_arith);
    }
}

/// A greater exponent gives no smaller power.
pub proof fn lemma_pow2_grows(a: nat, b: nat)
    requires
        a <= b,
    ensures
        pow2(a) <= pow2(b),
    decreases b - a,
{
    if a < b {
        lemma_pow2_grows(a, (b - 1) as nat);
    }
}

/// The powers of two that the format is made of.
pub proof fn lemma_pow2_values()
    ensures
        pow2(0) == 1,
        pow2(1) == 2,
        pow2(10) == 0x400,
        pow2(11) == 0x800,
        pow2(12) == 0x1000,
        pow2(32) == 0x1_0000_0000,
        pow2(42) == 0x400_0000_0000,
        pow2(43) == 0x800_0000_0000,
        pow2(44) == 0x1000_0000_0000,
        pow2(52) == 0x10_0000_0000_0000,
        pow2(53) == 0x20_0000_0000_0000,
        pow2(63) == 0x8000_0000_0000_0000,
        pow2(64) == 0x1_0000_0000_0000_0000,
{
    reveal_with_fuel(pow2, 13);
    assert(pow2(10) == 0x400);
    assert(pow2(11) == 0x800);
    assert(pow2(12) == 0x1000);
    lemma_pow2_adds(10, 11);
    lemma_pow2_adds(21, 11);
    lemma_pow2_adds(32, 10);
    lemma_pow2_adds(32, 11);
    lemma_pow2_adds(32, 12);
    lemma_pow2_adds(42, 10);
    lemma_pow2_adds(42, 11);
    lemma_pow2_adds(52, 11);
    lemma_pow2_adds(52, 12);
    assert(pow2(21) == 0x20_0000) by (nonlinear_arith)
        requires
            pow2(21) == pow2(10) * pow2(11),
            pow2(10) == 0x400,
            pow2(11) == 0x800,
    ;
    assert(pow2(32) == 0x1_0000_0000) by (nonlinear_arith)
        requires
            pow2(32) == pow2(21) * pow2(11),
            pow2(21) == 0x20_0000,
            pow2(11) == 0x800,
    ;
    assert(pow2(42) == 0x400_0000_0000) by (nonlinear_arith)
        requires
            pow2(42) == pow2(32) * pow2(10),
            pow2(32) == 0x1_0000_0000,
            pow2(10) == 0x400,
    ;
    assert(pow2(43) == 0x800_0000_0000) by (nonlinear_arith)
        requires
            pow2(43) == pow2(32) * pow2(11),
            pow2(32) == 0x1_0000_0000,
            pow2(11) == 0x800,
    ;
    assert(pow2(44) == 0x1000_0000_0000) by (nonlinear_arith)
        requires
            pow2(44) == pow2(32) * pow2(12),
            pow2(32) == 0x1_0000_0000,
            pow2(12) == 0x1000,
    ;
    assert(pow2(52) == 0x10_0000_0000_0000) by (nonlinear_arith)
        requires
            pow2(52) == pow2(42) * pow2(10),
            pow2(42) == 0x400_0000_0000,
            pow2(10) == 0x400,
    ;
    assert(pow2(53) == 0x20_0000_0000_0000) by (nonlinear_arith)
        requires
            pow2(53) == pow2(42) * pow2(11),
            pow2(42) == 0x400_0000_0000,
            pow2(11) == 0x800,
    ;
    assert(pow2(63) == 0x8000_0000_0000_0000) by (nonlinear_arith)
        requires
            pow2(63) == pow2(52) * pow2(11),
            pow2(52) == 0x10_0000_0000_0000,
            pow2(11) == 0x800,
    ;
    assert(pow2(64) == 0x1_0000_0000_0000_0000) by (nonlinear_arith)
        requires
            pow2(64) == pow2(52) * pow2(12),
            pow2(52) == 0x10_0000_0000_0000,
            pow2(12) == 0x1000,
    ;
}

/// Two to the power `k`.
fn power_of_two(k: u32) -> (p: u128)
    requires
        k <= 64,
    ensures
        p == pow2(k as nat),
{
    let mut p: u128 = 1;
    let mut i: u32 = 0;
    while i < k
        invariant
            i <= k <= 64,
            p == pow2(i as nat),
        decreases k - i,
    {
        proof {
            lemma_pow2_values();
            lemma_pow2_grows(i as nat, 63);
        }
        p = p * 2;
        i = i + 1;
    }
    p
}

/// A quotient lies between two numbers where the dividend lies between
/// their multiples of the divisor.
proof fn lemma_quotient_between(n: int, d: int, low: int, high: int)
    requires
        d > 0,
        low * d <= n < high * d,
    ensures
        low <= n / d < high,
{
    lemma_fundamental_div_mod(n, d);
    let q = n / d;
    let r = n % d;
    assert(0 <= r < d);
    if q < low {
        assert(d * q + d <= d * low) by (nonlinear_arith)
            requires
                q + 1 <= low,
                d > 0,
        ;
        assert(d * low == low * d) by (nonlinear_arith);
    }
    if q >= high {
        assert(d * q >= d * high) by (nonlinear_arith)
            requires
                q >= high,
                d > 0,
        ;
        assert(d * high == high * d) by (nonlinear_arith);
    }
}

/// Rounds `num / den` to nearest with ties to even.
fn divide_round(num: u128, den: u128) -> (q: u128)
    requires
        den > 0,
        num / den < u128::MAX,
    ensures
        q == round_half_even(num as nat, den as nat),
{
    let q: u128 = num / den;
    let r: u128 = num % den;
    if r > den - r || (r == den - r && q % 2 == 1) {
        q + 1
    } else {
        q
    }
}

impl Double {
    /// The double nearest to an unsigned number.
    pub fn from_u64(n: u64) -> (d: Double)
        ensures
            d == nearest(false, n as nat),
            d.well_formed(),
            d matches Double::Finite { exponent, .. } && -52 <= exponent <= 12,
    {
        Double::from_magnitude(false, n)
    }

    /// The double nearest to a signed number.
    pub fn from_i64(n: i64) -> (d: Double)
        ensures
            d == nearest(
                n < 0,
                (if n < 0 {
                    -n
                } else {
                    n as int
                }) as nat,
            ),
            d.well_formed(),
            d matches Double::Finite { exponent, .. } && -52 <= exponent <= 12,
    {
        if n < 0 {
            let magnitude: u64 = if n == i64::MIN {
                0x8000_0000_0000_0000
            } else {
                (-n) as u64
            };
            Double::from_magnitude(true, magnitude)
        } else {
            Double::from_magnitude(false, n as u64)
        }
    }

    fn from_magnitude(negative: bool, n: u64) -> (d: Double)
        ensures
            d == nearest(negative, n as nat),
            d.well_formed(),
            d matches Double::Finite { exponent, .. } && -52 <= exponent <= 12,
    {
        if n == 0 {
            return Double::Finite { negative, mantissa: 0, exponent: 0 };
        }
        if n < MANTISSA_END {
            let mut m: u64 = n;
            let mut k: i32 = 0;
            assert(n as nat * pow2(0) == n) by (nonlinear_arith)
                requires
                    pow2(0) == 1,
            ;
            while m < MANTISSA_MIN
                invariant
                    1 <= m < MANTISSA_END,
                    0 <= k <= 52,
                    m == n as nat * pow2(k as nat),
                    lead(n as nat) == k + lead(m as nat),
                decreases MANTISSA_END - m,
            {
                proof {
                    assert(pow2((k + 1) as nat) == 2 * pow2(k as nat));
                    assert(n as nat * (2 * pow2(k as nat)) == 2 * (n as nat * pow2(k as nat)))
                        by (nonlinear_arith);
                    if k >= 52 {
                        lemma_pow2_values();
                        lemma_pow2_grows(52, k as nat);
                        assert(n as nat * pow2(k as nat) >= pow2(52)) by (nonlinear_arith)
                            requires
                                n >= 1,
                                pow2(k as nat) >= pow2(52),
                        ;
                    }
                }
                m = m * 2;
                k = k + 1;
            }
            Double::Finite { negative, mantissa: m, exponent: -k }
        } else {
            let mut rest: u64 = n;
            let mut shift: u32 = 0;
            assert(n as nat / 1 == n as nat);
            while rest >= MANTISSA_END
                invariant
                    excess(n as nat) == shift + excess(rest as nat),
                    rest == n as nat / pow2(shift as nat),
                    shift <= 11,
                decreases rest,
            {
                proof {
                    let d = pow2(shift as nat);
                    lemma_pow2_positive(shift as nat);
                    assert(pow2((shift + 1) as nat) == 2 * d);
                    vstd::arithmetic::div_mod::lemma_div_denominator(n as int, d as int, 2);
                    assert(d * 2 == 2 * d) by (nonlinear_arith);
                    if shift >= 11 {
                        lemma_pow2_values();
                        lemma_pow2_grows(11, shift as nat);
                        lemma_div_is_ordered_by_denominator(n as int, 0x800, d as int);
                        assert(n as int / 0x800 < 0x20_0000_0000_0000);
                        assert(n as int / (d as int) == rest);
                        assert(false);
                    }
                }
                rest = rest / 2;
                shift = shift + 1;
            }
            proof {
                let d = pow2(shift as nat);
                let half = pow2((shift - 1) as nat);
                lemma_pow2_positive((shift - 1) as nat);
                assert(d == 2 * half);
                lemma_pow2_values();
                lemma_pow2_grows(1, shift as nat);
                lemma_div_is_ordered_by_denominator(n as int, 2, d as int);
                // The last halving left at least 53 bits before it.
                assert(n as nat / half >= MANTISSA_END) by {
                    if shift == 1 {
                        assert(n as nat / 1 == n as nat);
                    } else {
                        lemma_excess_stops(n as nat, (shift - 1) as nat);
                    }
                }
                vstd::arithmetic::div_mod::lemma_div_denominator(n as int, half as int, 2);
                assert(half * 2 == d) by (nonlinear_arith)
                    requires
                        d == 2 * half,
                ;
            }
            let m: u128 = crate::fixed::shift_round(n as u128, shift);
            if m >= MANTISSA_END as u128 {
                Double::Finite { negative, mantissa: MANTISSA_MIN, exponent: shift as i32 + 1 }
            } else {
                Double::Finite { negative, mantissa: m as u64, exponent: shift as i32 }
            }
        }
    }

    /// The double nearest to the quotient of two doubles.
    pub fn divide(self, other: Double) -> (d: Double)
        requires
            self.well_formed(),
            other.well_formed(),
        ensures
            d == quotient(self, other),
            d matches Double::Finite { mantissa, .. } ==> mantissa == 0 || MANTISSA_MIN
                <= mantissa < MANTISSA_END,
    {
        match (self, other) {
            (Double::NotANumber, _) => Double::NotANumber,
            (_, Double::NotANumber) => Double::NotANumber,
            (Double::Infinite { .. }, Double::Infinite { .. }) => Double::NotANumber,
            (Double::Infinite { negative }, Double::Finite { negative: other, .. }) => {
                Double::Infinite { negative: negative != other }
            },
            (Double::Finite { negative, .. }, Double::Infinite { negative: other }) => {
                Double::Finite { negative: negative != other, mantissa: 0, exponent: 0 }
            },
            (
                Double::Finite { negative, mantissa, exponent },
                Double::Finite { negative: other, mantissa: divisor, exponent: scale },
            ) => {
                let sign: bool = negative != other;
                if divisor == 0 {
                    if mantissa == 0 {
                        Double::NotANumber
                    } else {
                        Double::Infinite { negative: sign }
                    }
                } else if mantissa == 0 {
                    Double::Finite { negative: sign, mantissa: 0, exponent: 0 }
                } else {
                    let drop: i32 = if mantissa >= divisor {
                        12
                    } else {
                        11
                    };
                    let scale_up: u128 = 0x1_0000_0000_0000_0000;
                    let scale_down: u128 = if mantissa >= divisor {
                        0x1000
                    } else {
                        0x800
                    };
                    let num: u128 = (mantissa as u128) * scale_up;
                    let den: u128 = (divisor as u128) * scale_down;
                    proof {
                        lemma_pow2_values();
                        if mantissa >= divisor {
                            assert(0x10_0000_0000_0000 * den <= num) by (nonlinear_arith)
                                requires
                                    den == divisor * 0x1000,
                                    num == mantissa * 0x1_0000_0000_0000_0000,
                                    mantissa >= divisor,
                            ;
                            assert(num < 0x20_0000_0000_0000 * den) by (nonlinear_arith)
                                requires
                                    den == divisor * 0x1000,
                                    num == mantissa * 0x1_0000_0000_0000_0000,
                                    mantissa < 0x20_0000_0000_0000,
                                    divisor >= 0x10_0000_0000_0000,
                            ;
                        } else {
                            assert(0x10_0000_0000_0000 * den <= num) by (nonlinear_arith)
                                requires
                                    den == divisor * 0x800,
                                    num == mantissa * 0x1_0000_0000_0000_0000,
                                    mantissa >= 0x10_0000_0000_0000,
                                    divisor < 0x20_0000_0000_0000,
                            ;
                            assert(num < 0x20_0000_0000_0000 * den) by (nonlinear_arith)
                                requires
                                    den == divisor * 0x800,
                                    num == mantissa * 0x1_0000_0000_0000_0000,
                                    mantissa < divisor,
                            ;
                        }
                        lemma_quotient_between(
                            num as int,
                            den as int,
                            0x10_0000_0000_0000,
                            0x20_0000_0000_0000,
                        );
                    }
                    let m: u128 = divide_round(num, den);
                    let e: i32 = exponent - scale - 64 + drop;
                    if m >= MANTISSA_END as u128 {
                        Double::Finite { negative: sign, mantissa: MANTISSA_MIN, exponent: e + 1 }
                    } else {
                        Double::Finite { negative: sign, mantissa: m as u64, exponent: e }
                    }
                }
            },
        }
    }

    /// Tells whether the number is at least the whole number `n`.
    pub fn is_at_least(self, n: u64) -> (r: bool)
        requires
            self.well_formed(),
            n < MANTISSA_MIN,
        ensures
            r == at_least(self, n as nat),
    {
        match self {
            Double::Finite { negative, mantissa, exponent } => {
                if n == 0 {
                    true
                } else if negative || mantissa == 0 {
                    false
                } else if exponent >= 0 {
                    true
                } else if exponent < -52 {
                    proof {
                        lemma_pow2_values();
                        lemma_pow2_grows(53, (-exponent) as nat);
                        assert(n as nat * pow2((-exponent) as nat) >= pow2(53)) by (nonlinear_arith)
                            requires
                                n >= 1,
                                pow2((-exponent) as nat) >= pow2(53),
                        ;
                    }
                    false
                } else {
                    let p: u128 = power_of_two((-exponent) as u32);
                    proof {
                        lemma_pow2_values();
                        lemma_pow2_grows((-exponent) as nat, 52);
                        assert(n as nat * p as nat <= 0x10_0000_0000_0000 * 0x10_0000_0000_0000)
                            by (nonlinear_arith)
                            requires
                                n <= 0x10_0000_0000_0000,
                                p <= 0x10_0000_0000_0000,
                        ;
                    }
                    mantissa as u128 >= (n as u128) * p
                }
            },
            Double::Infinite { negative } => !negative,
            Double::NotANumber => false,
        }
    }

    /// The whole part of the number, within the unsigned 64-bit numbers.
    pub fn to_u64(self) -> (r: u64)
        requires
            self.well_formed(),
        ensures
            r == whole_part(self),
    {
        match self {
            Double::Finite { negative, mantissa, exponent } => {
                if negative || mantissa == 0 {
                    0
                } else if exponent >= 12 {
                    u64::MAX
                } else if exponent >= 0 {
                    let p: u128 = power_of_two(exponent as u32);
                    proof {
                        lemma_pow2_values();
                        lemma_pow2_grows(exponent as nat, 11);
                        assert(mantissa as nat * p as nat <= 0x1F_FFFF_FFFF_FFFF * 0x800)
                            by (nonlinear_arith)
                            requires
                                mantissa <= 0x1F_FFFF_FFFF_FFFF,
                                p <= 0x800,
                        ;
                    }
                    ((mantissa as u128) * p) as u64
                } else if exponent < -53 {
                    proof {
                        lemma_pow2_values();
                        lemma_pow2_grows(53, (-exponent) as nat);
                        vstd::arithmetic::div_mod::lemma_basic_div(
                            mantissa as int,
                            pow2((-exponent) as nat) as int,
                        );
                    }
                    0
                } else {
                    let p: u128 = power_of_two((-exponent) as u32);
                    proof {
                        lemma_pow2_positive((-exponent) as nat);
                    }
                    ((mantissa as u128) / p) as u64
                }
            },
            Double::Infinite { negative } => if negative {
                0
            } else {
                u64::MAX
            },
            Double::NotANumber => 0,
        }
    }

    /// Renders the number with a fixed number of decimal places.
    pub fn to_fixed(self, places: u8) -> (s: String)
        requires
            places <= 9,
            self.well_formed(),
        ensures
            s@ == self.text(places as nat),
    {
        match self {
            Double::Finite { negative, mantissa, exponent } => fixed_string(
                negative,
                mantissa,
                exponent,
                places,
            ),
            Double::Infinite { negative } => if negative {
                "-inf".to_owned()
            } else {
                "inf".to_owned()
            },
            Double::NotANumber => "NaN".to_owned(),
        }
    }
}

/// The number of doublings that bring `m` to 53 bits is the one that does.
pub proof fn lemma_lead_is(m: nat, k: nat)
    requires
        MANTISSA_MIN <= m * pow2(k) < MANTISSA_END,
    ensures
        lead(m) == k,
    decreases k,
{
    if k == 0 {
        assert(m * pow2(0) == m) by (nonlinear_arith)
            requires
                pow2(0) == 1,
        ;
    } else {
        let p = pow2((k - 1) as nat);
        lemma_pow2_positive((k - 1) as nat);
        assert(pow2(k) == 2 * p);
        assert(m * (2 * p) == (2 * m) * p) by (nonlinear_arith);
        assert(m >= 1 && m < MANTISSA_MIN) by (nonlinear_arith)
            requires
                MANTISSA_MIN <= m * (2 * p) < MANTISSA_END,
                p >= 1,
                MANTISSA_END == 2 * MANTISSA_MIN,
        ;
        lemma_lead_is(2 * m, (k - 1) as nat);
    }
}

/// Before the last of its halvings a number still has more than 53 bits.
proof fn lemma_excess_stops(n: nat, k: nat)
    requires
        k < excess(n),
    ensures
        n / pow2(k) >= MANTISSA_END,
    decreases k,
{
    if k == 0 {
        assert(n / 1 == n);
    } else {
        // excess(n) = 1 + excess(n / 2), and k - 1 < excess(n / 2).
        lemma_excess_stops(n / 2, (k - 1) as nat);
        lemma_pow2_positive((k - 1) as nat);
        vstd::arithmetic::div_mod::lemma_div_denominator(n as int, 2, pow2((k - 1) as nat) as int);
    }
}

} // verus!
