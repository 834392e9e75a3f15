//! Byte-level text helpers shared by the decoders and scanners.
use vstd::prelude::*;
use vstd::utf8::*;

use crate::std_text::string_from_utf8_lossy;

verus! {

/// Every byte is 7-bit ASCII.
pub open spec fn is_ascii_bytes(b: Seq<u8>) -> bool {
    forall|i: int| 0 <= i < b.len() ==> b[i] < 128
}

/// ASCII bytes read as characters, one per byte.
pub open spec fn ascii_chars(b: Seq<u8>) -> Seq<char> {
    Seq::new(b.len(), |i: int| b[i] as char)
}

/// ASCII bytes are valid UTF-8 and decode to one character per byte.
pub proof fn lemma_ascii_decode(b: Seq<u8>)
    requires
        is_ascii_bytes(b),
    ensures
        valid_utf8(b),
        decode_utf8(b) == ascii_chars(b),
    decreases b.len(),
{
    if b.len() > 0 {
        let rest = b.subrange(1, b.len() as int);
        assert(is_ascii_bytes(rest));
        lemma_ascii_decode(rest);
        let x = b[0];
        assert(x & 0x7f == x) by (bit_vector)
            requires
                x < 128,
        ;
        assert(is_leading_byte_width_1(b[0]));
        assert(length_of_first_scalar(b) == 1);
        assert(pop_first_scalar(b) =~= rest);
        assert(valid_first_scalar(b));
        assert(decode_utf8(b) =~= ascii_chars(b));
    }
}

/// Build a `String` from ASCII bytes.
pub fn ascii_string(bytes: &Vec<u8>) -> (s: String)
    requires
        is_ascii_bytes(bytes@),
    ensures
        s@ == ascii_chars(bytes@),
{
    proof {
        lemma_ascii_decode(bytes@);
    }
    string_from_utf8_lossy(bytes.as_slice())
}

/// Decimal digits of `n`, most significant first, `"0"` for zero.
pub open spec fn dec_digits(n: nat) -> Seq<u8>
    decreases n,
{
    if n < 10 {
        seq![(48 + n) as u8]
    } else {
        dec_digits(n / 10).push((48 + n % 10) as u8)
    }
}

/// `s` left-padded with `'0'` up to `width` bytes.
pub open spec fn zero_pad(s: Seq<u8>, width: nat) -> Seq<u8> {
    if s.len() >= width {
        s
    } else {
        Seq::new((width - s.len()) as nat, |i: int| 48u8) + s
    }
}

/// `Display` text of a signed integer.
pub open spec fn int_text(v: int) -> Seq<u8> {
    if v < 0 {
        seq![45u8] + dec_digits((-v) as nat)
    } else {
        dec_digits(v as nat)
    }
}

pub proof fn lemma_dec_digits_ascii(n: nat)
    ensures
        is_ascii_bytes(dec_digits(n)),
        dec_digits(n).len() >= 1,
        forall|i: int| 0 <= i < dec_digits(n).len() ==> 48 <= #[trigger] dec_digits(n)[i] <= 57,
    decreases n,
{
    if n >= 10 {
        lemma_dec_digits_ascii(n / 10);
    }
}

/// Append the decimal digits of `n` to `out`.
pub fn push_decimal(out: &mut Vec<u8>, n: u64)
    ensures
        final(out)@ == old(out)@ + dec_digits(n as nat),
    decreases n,
{
    if n >= 10 {
        push_decimal(out, n / 10);
    }
    out.push((48 + n % 10) as u8);
    proof {
        if n >= 10 {
            assert(final(out)@ =~= old(out)@ + dec_digits(n as nat));
        }
    }
}

/// Append the `Display` text of a signed 64-bit integer to `out`.
pub fn push_int(out: &mut Vec<u8>, v: i64)
    ensures
        final(out)@ == old(out)@ + int_text(v as int),
{
    if v < 0 {
        out.push(45u8);
        let mag: u64 = if v == i64::MIN {
            0x8000_0000_0000_0000u64
        } else {
            (-v) as u64
        };
        push_decimal(out, mag);
        assert(final(out)@ =~= old(out)@ + int_text(v as int));
    } else {
        push_decimal(out, v as u64);
    }
}

pub proof fn lemma_int_text_ascii(v: int)
    ensures
        is_ascii_bytes(int_text(v)),
{
    if v < 0 {
        lemma_dec_digits_ascii((-v) as nat);
        assert(is_ascii_bytes(int_text(v)));
    } else {
        lemma_dec_digits_ascii(v as nat);
    }
}

/// ASCII digit byte.
pub open spec fn is_digit(b: u8) -> bool {
    48 <= b <= 57
}

/// Value of the ASCII decimal digits `b` (most significant first).
pub open spec fn digits_value(b: Seq<u8>) -> int
    decreases b.len(),
{
    if b.len() == 0 {
        0
    } else {
        10 * digits_value(b.drop_last()) + (b.last() - 48)
    }
}

/// Length of the optional leading `+`/`-` sign.
pub open spec fn sign_len(b: Seq<u8>) -> int {
    if b.len() > 0 && (b[0] == 45 || b[0] == 43) {
        1
    } else {
        0
    }
}

/// All bytes are ASCII digits.
pub open spec fn all_digits(d: Seq<u8>) -> bool {
    forall|i: int| 0 <= i < d.len() ==> is_digit(#[trigger] d[i])
}

/// `str::parse::<i32>`: an optional `+`/`-` sign followed by at least one
/// ASCII digit, with the value in `i32` range.
pub open spec fn parse_i32_spec(b: Seq<u8>) -> Option<i32> {
    let digits = b.subrange(sign_len(b), b.len() as int);
    let v = if b.len() > 0 && b[0] == 45 { -digits_value(digits) } else { digits_value(digits) };
    if digits.len() == 0 || !all_digits(digits) {
        None
    } else if i32::MIN <= v <= i32::MAX {
        Some(v as i32)
    } else {
        None
    }
}

proof fn lemma_digits_value_nonneg(b: Seq<u8>)
    requires
        forall|i: int| 0 <= i < b.len() ==> is_digit(#[trigger] b[i]),
    ensures
        digits_value(b) >= 0,
    decreases b.len(),
{
    if b.len() > 0 {
        lemma_digits_value_nonneg(b.drop_last());
    }
}

/// Parse a decimal `i32` the way `str::parse::<i32>` does.
pub fn parse_i32(b: &[u8]) -> (r: Option<i32>)
    ensures
        r == parse_i32_spec(b@),
{
    let n = b.len();
    if n == 0 {
        return None;
    }
    let neg = b[0] == 45u8;
    let start: usize = if b[0] == 45u8 || b[0] == 43u8 { 1 } else { 0 };
    if start == n {
        return None;
    }
    let ghost digits = b@.subrange(start as int, n as int);
    assert(start == sign_len(b@));
    let mut acc: i64 = 0;
    let mut i = start;
    while i < n
        invariant
            start <= i <= n,
            n == b@.len(),
            n > 0,
            start == sign_len(b@),
            neg == (b@[0] == 45),
            digits == b@.subrange(start as int, n as int),
            forall|j: int| start <= j < i ==> is_digit(#[trigger] b@[j]),
            acc == digits_value(b@.subrange(start as int, i as int)),
            0 <= acc <= 2147483648,
        decreases n - i,
    {
        let c = b[i];
        if c < 48u8 || c > 57u8 {
            assert(digits[i - start] == c);
            assert(!is_digit(digits[i - start]));
            return None;
        }
        let ghost prefix = b@.subrange(start as int, i as int + 1);
        assert(prefix.drop_last() =~= b@.subrange(start as int, i as int));
        let next = acc * 10 + (c - 48u8) as i64;
        if next > 2147483648 {
            // Every further digit keeps the value out of range.
            proof {
                assert(digits.subrange(0, i + 1 - start) =~= prefix);
                assert(digits_value(prefix) == next);
                assert forall|j: int| 0 <= j < i + 1 - start implies is_digit(#[trigger] digits[j]) by {
                    assert(digits[j] == b@[start + j]);
                }
                lemma_digits_prefix_bound(digits, (i + 1 - start) as int);
            }
            return None;
        }
        acc = next;
        i = i + 1;
    }
    assert(b@.subrange(start as int, n as int) =~= digits);
    assert forall|j: int| 0 <= j < digits.len() implies is_digit(#[trigger] digits[j]) by {
        assert(digits[j] == b@[start + j]);
    }
    if neg {
        Some((0 - acc) as i32)
    } else if acc > 2147483647 {
        None
    } else {
        Some(acc as i32)
    }
}

/// A digit string is worth at least any of its prefixes.
proof fn lemma_digits_prefix_bound(d: Seq<u8>, k: int)
    requires
        0 <= k <= d.len(),
        forall|i: int| 0 <= i < k ==> is_digit(#[trigger] d[i]),
    ensures
        (forall|i: int| 0 <= i < d.len() ==> is_digit(#[trigger] d[i])) ==> digits_value(d) >= digits_value(
            d.subrange(0, k),
        ),
    decreases d.len(),
{
    if (forall|i: int| 0 <= i < d.len() ==> is_digit(#[trigger] d[i])) {
        if d.len() > k {
            lemma_digits_prefix_bound(d.drop_last(), k);
            assert(d.drop_last().subrange(0, k) =~= d.subrange(0, k));
            lemma_digits_value_nonneg(d.drop_last());
            assert(forall|i: int| 0 <= i < d.drop_last().len() ==> is_digit(#[trigger] d.drop_last()[i]));
        } else {
            assert(d.subrange(0, k) =~= d);
        }
    }
}

/// `str::parse::<i64>`: an optional `+`/`-` sign followed by at least one
/// ASCII digit, with the value in `i64` range.
pub open spec fn parse_i64_spec(b: Seq<u8>) -> Option<i64> {
    let digits = b.subrange(sign_len(b), b.len() as int);
    let v = if b.len() > 0 && b[0] == 45 { -digits_value(digits) } else { digits_value(digits) };
    if digits.len() == 0 || !all_digits(digits) {
        None
    } else if i64::MIN <= v <= i64::MAX {
        Some(v as i64)
    } else {
        None
    }
}

/// Parse a decimal `i64` the way `str::parse::<i64>` does.
pub fn parse_i64(b: &[u8]) -> (r: Option<i64>)
    ensures
        r == parse_i64_spec(b@),
{
    let n = b.len();
    if n == 0 {
        return None;
    }
    let neg = b[0] == 45u8;
    let start: usize = if b[0] == 45u8 || b[0] == 43u8 { 1 } else { 0 };
    if start == n {
        return None;
    }
    let ghost digits = b@.subrange(start as int, n as int);
    assert(start == sign_len(b@));
    let mut acc: i128 = 0;
    let mut i = start;
    while i < n
        invariant
            start <= i <= n,
            n == b@.len(),
            n > 0,
            start == sign_len(b@),
            neg == (b@[0] == 45),
            digits == b@.subrange(start as int, n as int),
            forall|j: int| start <= j < i ==> is_digit(#[trigger] b@[j]),
            acc == digits_value(b@.subrange(start as int, i as int)),
            0 <= acc <= 9223372036854775808,
        decreases n - i,
    {
        let c = b[i];
        if c < 48u8 || c > 57u8 {
            assert(digits[i - start] == c);
            assert(!is_digit(digits[i - start]));
            return None;
        }
        let ghost prefix = b@.subrange(start as int, i as int + 1);
        assert(prefix.drop_last() =~= b@.subrange(start as int, i as int));
        let next = acc * 10 + (c - 48u8) as i128;
        if next > 9223372036854775808 {
            proof {
                assert(digits.subrange(0, i + 1 - start) =~= prefix);
                assert(digits_value(prefix) == next);
                assert forall|j: int| 0 <= j < i + 1 - start implies is_digit(#[trigger] digits[j]) by {
                    assert(digits[j] == b@[start + j]);
                }
                lemma_digits_prefix_bound(digits, (i + 1 - start) as int);
            }
            return None;
        }
        acc = next;
        i = i + 1;
    }
    assert(b@.subrange(start as int, n as int) =~= digits);
    assert forall|j: int| 0 <= j < digits.len() implies is_digit(#[trigger] digits[j]) by {
        assert(digits[j] == b@[start + j]);
    }
    if neg {
        Some((0 - acc) as i64)
    } else if acc > 9223372036854775807 {
        None
    } else {
        Some(acc as i64)
    }
}

/// The digits of `n` are worth `n`.
pub proof fn lemma_dec_digits_value(n: nat)
    ensures
        digits_value(dec_digits(n)) == n,
        all_digits(dec_digits(n)),
    decreases n,
{
    lemma_dec_digits_ascii(n);
    let d = dec_digits(n);
    if n >= 10 {
        lemma_dec_digits_value(n / 10);
        assert(d.drop_last() =~= dec_digits(n / 10));
        assert(d.last() == (48 + n % 10) as u8);
        assert(d.last() - 48 == n % 10);
        assert(digits_value(d) == 10 * digits_value(d.drop_last()) + (d.last() - 48));
        assert(10 * (n / 10) + n % 10 == n) by (nonlinear_arith);
    } else {
        assert(d.drop_last() =~= Seq::<u8>::empty());
        assert(digits_value(d) == 10 * digits_value(d.drop_last()) + (d.last() - 48));
    }
}

/// A number below `10^6` has at most six digits.
pub proof fn lemma_dec_digits_len6(n: nat)
    requires
        n < 1_000_000,
    ensures
        dec_digits(n).len() <= 6,
{
    reveal_with_fuel(dec_digits, 7);
}

/// A leading `'0'` does not change the value of a digit string.
pub proof fn lemma_leading_zero_value(t: Seq<u8>)
    ensures
        digits_value(seq![48u8] + t) == digits_value(t),
    decreases t.len(),
{
    let z = seq![48u8] + t;
    if t.len() > 0 {
        lemma_leading_zero_value(t.drop_last());
        assert(z.drop_last() =~= seq![48u8] + t.drop_last());
        assert(z.last() == t.last());
        assert(digits_value(z) == 10 * digits_value(z.drop_last()) + (z.last() - 48));
        assert(digits_value(t) == 10 * digits_value(t.drop_last()) + (t.last() - 48));
    } else {
        assert(z.drop_last() =~= Seq::<u8>::empty());
        assert(digits_value(z) == 10 * digits_value(z.drop_last()) + (z.last() - 48));
    }
}

/// Zero padding keeps a digit string's value and its digits.
pub proof fn lemma_zero_pad_value(s: Seq<u8>, width: nat)
    requires
        all_digits(s),
    ensures
        digits_value(zero_pad(s, width)) == digits_value(s),
        all_digits(zero_pad(s, width)),
        zero_pad(s, width).len() == if s.len() >= width { s.len() } else { width },
    decreases width,
{
    if s.len() < width {
        let w1 = (width - 1) as nat;
        lemma_zero_pad_value(s, w1);
        let inner = zero_pad(s, w1);
        assert(zero_pad(s, width) =~= seq![48u8] + inner);
        lemma_leading_zero_value(inner);
    }
}

/// ASCII bytes read as characters and encoded again as UTF-8 are the same bytes.
pub proof fn lemma_ascii_encode(b: Seq<u8>)
    requires
        is_ascii_bytes(b),
    ensures
        encode_utf8(ascii_chars(b)) == b,
{
    lemma_ascii_decode(b);
    decode_utf8_encode_utf8(b);
}

} // verus!
