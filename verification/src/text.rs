//! Text building blocks: decimal and hexadecimal rendering, UTF-8 decoding,
//! the byte order on strings, and joining.

use vstd::prelude::*;
use vstd::utf8::*;

verus! {

/// `String::push` appends one character to the end of the string.
pub assume_specification[ String::push ](s: &mut String, c: char)
    ensures
        final(s)@ == old(s)@.push(c),
;

/// The character of a decimal digit `d`, for `0 <= d < 10`.
pub open spec fn digit_char(d: int) -> char {
    ((48 + d) as u8) as char
}

/// The decimal digits of `n`, most significant first, without leading zeros.
pub open spec fn decimal_digits(n: nat) -> Seq<char>
    decreases n,
{
    if n < 10 {
        seq![digit_char(n as int)]
    } else {
        decimal_digits(n / 10).push(digit_char((n % 10) as int))
    }
}

/// The decimal text of an integer: a minus sign for negative numbers, then
/// the digits of the magnitude.
pub open spec fn decimal_text(n: int) -> Seq<char> {
    if n < 0 {
        seq!['-'] + decimal_digits((-n) as nat)
    } else {
        decimal_digits(n as nat)
    }
}

/// Appends the decimal digits of `n` to `out`.
pub fn push_decimal(out: &mut String, n: u128)
    ensures
        final(out)@ == old(out)@ + decimal_digits(n as nat),
    decreases n,
{
    if n >= 10 {
        push_decimal(out, n / 10);
    }
    let d: u8 = (n % 10) as u8;
    out.push((48u8 + d) as char);
    proof {
        if n < 10 {
            assert(old(out)@.push(digit_char(n as int)) =~= old(out)@ + decimal_digits(n as nat));
        } else {
            assert((old(out)@ + decimal_digits((n / 10) as nat)).push(digit_char((n % 10) as int))
                =~= old(out)@ + decimal_digits(n as nat));
        }
    }
}

/// The decimal text of an unsigned integer.
pub fn unsigned_to_string(n: u64) -> (s: String)
    ensures
        s@ == decimal_text(n as int),
{
    let mut s = String::new();
    push_decimal(&mut s, n as u128);
    assert(Seq::<char>::empty() + decimal_digits(n as nat) =~= decimal_digits(n as nat));
    s
}

/// The decimal text of a signed integer.
pub fn signed_to_string(n: i64) -> (s: String)
    ensures
        s@ == decimal_text(n as int),
{
    let mut s = String::new();
    if n < 0 {
        s.push('-');
        let magnitude: u128 = (-(n as i128)) as u128;
        push_decimal(&mut s, magnitude);
        assert(Seq::<char>::empty().push('-') + decimal_digits((-n) as nat) =~= seq!['-']
            + decimal_digits((-n) as nat));
    } else {
        push_decimal(&mut s, n as u128);
        assert(Seq::<char>::empty() + decimal_digits(n as nat) =~= decimal_digits(n as nat));
    }
    s
}

/// The upper-case hexadecimal digit of `d`, for `0 <= d < 16`.
pub open spec fn hex_digit(d: int) -> char {
    if d < 10 {
        ((48 + d) as u8) as char
    } else {
        ((55 + d) as u8) as char
    }
}

/// The two hexadecimal digits of one byte, high nibble first.
pub open spec fn hex_pair(b: u8) -> Seq<char> {
    seq![hex_digit(b as int / 16), hex_digit(b as int % 16)]
}

/// Every byte as two upper-case hexadecimal digits, nothing in between.
pub open spec fn hex_text(bytes: Seq<u8>) -> Seq<char>
    decreases bytes.len(),
{
    if bytes.len() == 0 {
        Seq::empty()
    } else {
        hex_text(bytes.drop_last()) + hex_pair(bytes.last())
    }
}

/// Every byte as two upper-case hexadecimal digits, one space between bytes.
pub open spec fn hex_text_spaced(bytes: Seq<u8>) -> Seq<char>
    decreases bytes.len(),
{
    if bytes.len() == 0 {
        Seq::empty()
    } else if bytes.len() == 1 {
        hex_pair(bytes[0])
    } else {
        hex_text_spaced(bytes.drop_last()) + seq![' '] + hex_pair(bytes.last())
    }
}

fn hex_digit_of(d: u8) -> (c: char)
    requires
        d < 16,
    ensures
        c == hex_digit(d as int),
{
    if d < 10 {
        (48u8 + d) as char
    } else {
        (55u8 + d) as char
    }
}

/// Appends the two hexadecimal digits of `b` to `out`.
pub fn push_hex_byte(out: &mut String, b: u8)
    ensures
        final(out)@ == old(out)@ + hex_pair(b),
{
    out.push(hex_digit_of(b / 16));
    out.push(hex_digit_of(b % 16));
    assert(old(out)@.push(hex_digit(b as int / 16)).push(hex_digit(b as int % 16)) =~= old(out)@
        + hex_pair(b));
}

/// Renders bytes as upper-case hexadecimal.
pub fn hex_string(bytes: &[u8]) -> (s: String)
    ensures
        s@ == hex_text(bytes@),
{
    let mut s = String::new();
    let mut i: usize = 0;
    while i < bytes.len()
        invariant
            i <= bytes.len(),
            s@ == hex_text(bytes@.take(i as int)),
        decreases bytes.len() - i,
    {
        proof {
            assert(bytes@.take(i as int + 1).drop_last() =~= bytes@.take(i as int));
        }
        push_hex_byte(&mut s, bytes[i]);
        i = i + 1;
    }
    assert(bytes@.take(i as int) =~= bytes@);
    s
}

/// Renders the first `limit` bytes as upper-case hexadecimal, separated by
/// single spaces.
pub fn hex_string_spaced(bytes: &[u8], limit: usize) -> (s: String)
    ensures
        s@ == hex_text_spaced(
            bytes@.take(if limit < bytes.len() { limit as int } else { bytes.len() as int }),
        ),
{
    let end: usize = if limit < bytes.len() { limit } else { bytes.len() };
    let mut s = String::new();
    let mut i: usize = 0;
    while i < end
        invariant
            i <= end <= bytes.len(),
            s@ == hex_text_spaced(bytes@.take(i as int)),
        decreases end - i,
    {
        proof {
            assert(bytes@.take(i as int + 1).drop_last() =~= bytes@.take(i as int));
        }
        if i > 0 {
            s.push(' ');
        }
        push_hex_byte(&mut s, bytes[i]);
        proof {
            if i > 0 {
                assert(s@ =~= hex_text_spaced(bytes@.take(i as int)) + seq![' '] + hex_pair(
                    bytes[i as int],
                ));
            } else {
                assert(s@ =~= hex_pair(bytes[0]));
            }
        }
        i = i + 1;
    }
    s
}

/// `std::str::from_utf8` accepts exactly the well-formed UTF-8 byte strings
/// and returns the text they encode.
#[verifier::external_body]
pub(crate) fn utf8_text<'a>(bytes: &'a [u8]) -> (r: Option<&'a str>)
    ensures
        r is Some <==> valid_utf8(bytes@),
        r matches Some(s) ==> s@ == decode_utf8(bytes@),
{
    match std::str::from_utf8(bytes) {
        Ok(s) => Some(s),
        Err(_) => None,
    }
}

/// The text of a byte string: what it encodes as UTF-8 where it is
/// well-formed, its hexadecimal rendering otherwise.
pub open spec fn utf8_or_hex_text(bytes: Seq<u8>) -> Seq<char> {
    if valid_utf8(bytes) {
        decode_utf8(bytes)
    } else {
        hex_text(bytes)
    }
}

/// Decodes bytes as UTF-8, falling back to upper-case hexadecimal.
pub fn utf8_or_hex(bytes: &[u8]) -> (s: String)
    ensures
        s@ == utf8_or_hex_text(bytes@),
{
    match utf8_text(bytes) {
        Some(s) => s.to_owned(),
        None => hex_string(bytes),
    }
}

/// The parts in order, with `sep` between neighbours.
pub open spec fn join(parts: Seq<Seq<char>>, sep: Seq<char>) -> Seq<char>
    decreases parts.len(),
{
    if parts.len() == 0 {
        Seq::empty()
    } else if parts.len() == 1 {
        parts[0]
    } else {
        join(parts.drop_last(), sep) + sep + parts.last()
    }
}

/// The views of a vector of strings.
pub open spec fn views(parts: Seq<String>) -> Seq<Seq<char>> {
    Seq::new(parts.len(), |i: int| parts[i]@)
}

/// Joins strings with a separator.
pub fn join_strings(parts: &Vec<String>, sep: &str) -> (s: String)
    ensures
        s@ == join(views(parts@), sep@),
{
    let mut s = String::new();
    let mut i: usize = 0;
    while i < parts.len()
        invariant
            i <= parts.len(),
            s@ == join(views(parts@).take(i as int), sep@),
        decreases parts.len() - i,
    {
        proof {
            assert(views(parts@).take(i as int + 1).drop_last() =~= views(parts@).take(i as int));
        }
        if i > 0 {
            s.append(sep);
        }
        s.append(parts[i].as_str());
        proof {
            if i == 0 {
                assert(s@ =~= parts[0]@);
            }
        }
        i = i + 1;
    }
    assert(views(parts@).take(i as int) =~= views(parts@));
    s
}

/// Lexicographic order on byte strings: at the first position where they
/// differ the smaller byte decides, and a proper prefix comes first.
pub open spec fn bytes_less(a: Seq<u8>, b: Seq<u8>) -> bool {
    exists|k: int| #[trigger] differ_at(a, b, k) && (k == a.len() || a[k] < b[k])
}

/// `a` and `b` agree on their first `k` bytes, `b` goes on beyond them, and
/// `a` either ends there or has another byte there.
pub open spec fn differ_at(a: Seq<u8>, b: Seq<u8>, k: int) -> bool {
    &&& 0 <= k <= a.len()
    &&& k < b.len()
    &&& a.take(k) == b.take(k)
    &&& k < a.len() ==> a[k] != b[k]
}

/// Decides the lexicographic order of two byte strings.
pub fn slice_less(a: &[u8], b: &[u8]) -> (r: bool)
    ensures
        r == bytes_less(a@, b@),
{
    let mut i: usize = 0;
    while i < a.len() && i < b.len()
        invariant
            i <= a.len(),
            i <= b.len(),
            a@.take(i as int) == b@.take(i as int),
        decreases a.len() - i,
    {
        if a[i] != b[i] {
            proof {
                let k: int = i as int;
                if a[k] < b[k] {
                    assert(differ_at(a@, b@, k));
                } else {
                    assert forall|j: int| #[trigger] differ_at(a@, b@, j) implies !(j == a@.len()
                        || a@[j] < b@[j]) by {
                        lemma_first_difference(a@, b@, k, j);
                    }
                }
            }
            return a[i] < b[i];
        }
        proof {
            assert(a@.take(i as int + 1) =~= a@.take(i as int).push(a@[i as int]));
            assert(b@.take(i as int + 1) =~= b@.take(i as int).push(b@[i as int]));
        }
        i = i + 1;
    }
    proof {
        let k: int = i as int;
        if a.len() < b.len() {
            assert(differ_at(a@, b@, k));
        } else {
            assert forall|j: int| #[trigger] differ_at(a@, b@, j) implies !(j == a@.len() || a@[j]
                < b@[j]) by {
                if j < k {
                    assert(a@.take(k)[j] == b@.take(k)[j]);
                }
            }
        }
    }
    a.len() < b.len()
}

/// Two byte strings that differ at `k` after a common prefix differ nowhere
/// earlier and are compared nowhere later.
pub proof fn lemma_first_difference(a: Seq<u8>, b: Seq<u8>, k: int, j: int)
    requires
        0 <= k < a.len(),
        k < b.len(),
        a.take(k) == b.take(k),
        a[k] != b[k],
        differ_at(a, b, j),
    ensures
        j == k,
{
    if j < k {
        assert(a.take(k)[j] == a[j]);
        assert(b.take(k)[j] == b[j]);
        assert(a[j] != b[j]);
    } else if j > k {
        assert(a.take(j)[k] == a[k]);
        assert(b.take(j)[k] == b[k]);
    }
}

/// The order is irreflexive and total: of two different byte strings exactly
/// one comes first.
pub proof fn lemma_bytes_less_total(a: Seq<u8>, b: Seq<u8>)
    ensures
        !bytes_less(a, a),
        a != b ==> (bytes_less(a, b) <==> !bytes_less(b, a)),
        a == b ==> !bytes_less(a, b),
{
    assert forall|k: int| #[trigger] differ_at(a, a, k) implies false by {}
    if a != b {
        let k = first_difference(a, b, 0);
        assert(a.take(0) =~= b.take(0));
        lemma_first_difference_index(a, b, 0);
        if k < a.len() && k < b.len() {
            if a[k] < b[k] {
                assert(differ_at(a, b, k));
                assert forall|j: int| #[trigger] differ_at(b, a, j) implies !(j == b.len() || b[j]
                    < a[j]) by {
                    lemma_first_difference(b, a, k, j);
                }
            } else {
                assert(differ_at(b, a, k));
                assert forall|j: int| #[trigger] differ_at(a, b, j) implies !(j == a.len() || a[j]
                    < b[j]) by {
                    lemma_first_difference(a, b, k, j);
                }
            }
        } else if k == a.len() {
            assert(k < b.len()) by {
                if k >= b.len() {
                    assert(a =~= a.take(k));
                    assert(b =~= b.take(k));
                }
            }
            assert(differ_at(a, b, k));
            assert forall|j: int| #[trigger] differ_at(b, a, j) implies !(j == b.len() || b[j]
                < a[j]) by {
                if j < k {
                    assert(a.take(k)[j] == b.take(k)[j]);
                }
            }
        } else {
            assert(differ_at(b, a, k));
            assert forall|j: int| #[trigger] differ_at(a, b, j) implies !(j == a.len() || a[j]
                < b[j]) by {
                if j < k {
                    assert(a.take(k)[j] == b.take(k)[j]);
                }
            }
        }
    }
}

/// The first index from `from` on at which `a` and `b` differ, or the length
/// of the shorter one.
pub open spec fn first_difference(a: Seq<u8>, b: Seq<u8>, from: int) -> int
    decreases a.len() - from,
{
    if 0 <= from < a.len() && from < b.len() && a[from] == b[from] {
        first_difference(a, b, from + 1)
    } else {
        from
    }
}

proof fn lemma_first_difference_index(a: Seq<u8>, b: Seq<u8>, from: int)
    requires
        0 <= from <= a.len(),
        from <= b.len(),
        a.take(from) == b.take(from),
    ensures
        ({
            let k = first_difference(a, b, from);
            &&& from <= k <= a.len()
            &&& k <= b.len()
            &&& a.take(k) == b.take(k)
            &&& k < a.len() && k < b.len() ==> a[k] != b[k]
        }),
    decreases a.len() - from,
{
    if from < a.len() && from < b.len() && a[from] == b[from] {
        assert(a.take(from + 1) =~= a.take(from).push(a[from]));
        assert(b.take(from + 1) =~= b.take(from).push(b[from]));
        lemma_first_difference_index(a, b, from + 1);
    }
}

/// The order is transitive.
pub proof fn lemma_bytes_less_transitive(a: Seq<u8>, b: Seq<u8>, c: Seq<u8>)
    requires
        bytes_less(a, b),
        bytes_less(b, c),
    ensures
        bytes_less(a, c),
{
    let i = choose|k: int| #[trigger] differ_at(a, b, k) && (k == a.len() || a[k] < b[k]);
    let j = choose|k: int| #[trigger] differ_at(b, c, k) && (k == b.len() || b[k] < c[k]);
    let m = if i <= j { i } else { j };
    assert(a.take(m) =~= c.take(m)) by {
        assert forall|t: int| 0 <= t < m implies a[t] == c[t] by {
            assert(a.take(i)[t] == b.take(i)[t]);
            assert(b.take(j)[t] == c.take(j)[t]);
        }
    }
    if i < j {
        assert(b.take(j)[i] == c.take(j)[i]);
    } else if j < i {
        assert(a.take(i)[j] == b.take(i)[j]);
    }
    assert(differ_at(a, c, m));
}

} // verus!
