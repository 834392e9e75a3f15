//! Decimal text of IEEE-754 single-precision values, computed exactly from
//! their bit patterns with integer arithmetic.
//!
//! The binary shape dumper prints each 32-bit scalar the same way the
//! textual shape format does: non-finite values and magnitudes above 10^12
//! print as `0`; values within 10^-6 of an integer print as that integer
//! (rounded half away from zero, keeping the sign of negative values);
//! anything else prints with exactly six decimals, rounded half to even.
use vstd::arithmetic::div_mod::{lemma_fundamental_div_mod, lemma_mod_bound, lemma_div_pos_is_pos};
use vstd::arithmetic::power2::{lemma2_to64, lemma2_to64_rest, lemma_pow2_pos, lemma_pow2_strictly_increases, lemma_pow2_unfold, pow2};
use vstd::prelude::*;

use crate::text::{dec_digits, is_ascii_bytes, lemma_dec_digits_ascii, push_decimal, zero_pad};

verus! {

/// Sign bit of an `f32` bit pattern.
pub open spec fn f32_negative(bits: u32) -> bool {
    bits >= 0x8000_0000
}

/// Biased exponent field.
pub open spec fn f32_exp_field(bits: u32) -> int {
    (bits / 0x80_0000) as int % 256
}

/// Fraction field.
pub open spec fn f32_frac_field(bits: u32) -> int {
    bits as int % 0x80_0000
}

/// Integer significand (with the implicit bit for normal numbers).
pub open spec fn f32_mant(bits: u32) -> nat {
    if f32_exp_field(bits) == 0 {
        f32_frac_field(bits) as nat
    } else {
        (f32_frac_field(bits) + 0x80_0000) as nat
    }
}

/// Binary exponent: the magnitude is `f32_mant(bits) * 2^f32_scale(bits)`.
pub open spec fn f32_scale(bits: u32) -> int {
    if f32_exp_field(bits) == 0 {
        -149
    } else {
        f32_exp_field(bits) - 150
    }
}

/// `d.dddddd` text of `q / 10^6`.
pub open spec fn fixed6_text(q: nat) -> Seq<u8> {
    dec_digits(q / 1000000) + seq![46u8] + zero_pad(dec_digits(q % 1000000), 6)
}

/// Text of `±mant * 2^scale` for `scale >= 0` (an integer value).
pub open spec fn integral_text(neg: bool, mant: nat, scale: nat) -> Seq<u8> {
    let sign: Seq<u8> = if neg { seq![45u8] } else { seq![] };
    let n = mant * pow2(scale);
    if n > 1_000_000_000_000 {
        seq![48u8]
    } else {
        sign + dec_digits(n)
    }
}

/// Text of `±mant / 2^k`.
pub open spec fn fractional_text(neg: bool, mant: nat, k: nat) -> Seq<u8> {
    let sign: Seq<u8> = if neg { seq![45u8] } else { seq![] };
    let p = pow2(k);
    let ip = mant / p;
    let fr = mant % p;
    let up = 2 * fr >= p;
    let rounded = if up { ip + 1 } else { ip };
    let dist = if up { p - fr } else { fr as int };
    if dist * 1000000 < p {
        sign + dec_digits(rounded as nat)
    } else {
        let scaled = mant * 1000000;
        let qi = scaled / p;
        let rem = scaled % p;
        let q = if 2 * rem > p || (2 * rem == p && qi % 2 == 1) { qi + 1 } else { qi };
        sign + fixed6_text(q as nat)
    }
}

/// Text printed for the `f32` with bit pattern `bits`.
pub open spec fn float_text(bits: u32) -> Seq<u8> {
    let scale = f32_scale(bits);
    if f32_exp_field(bits) == 255 {
        seq![48u8]
    } else if scale >= 0 {
        integral_text(f32_negative(bits), f32_mant(bits), scale as nat)
    } else {
        fractional_text(f32_negative(bits), f32_mant(bits), (-scale) as nat)
    }
}

proof fn lemma_fixed6_ascii(q: nat)
    ensures
        is_ascii_bytes(fixed6_text(q)),
{
    lemma_dec_digits_ascii(q / 1000000);
    lemma_dec_digits_ascii(q % 1000000);
    assert(is_ascii_bytes(zero_pad(dec_digits(q % 1000000), 6)));
}

/// The printed text is ASCII.
pub proof fn lemma_float_text_ascii(bits: u32)
    ensures
        is_ascii_bytes(float_text(bits)),
{
    let mant = f32_mant(bits);
    let scale = f32_scale(bits);
    if f32_exp_field(bits) == 255 {
    } else if scale >= 0 {
        assert(is_ascii_bytes(seq![45u8]));
        lemma_dec_digits_ascii(mant * pow2(scale as nat));
    } else {
        let p = pow2((-scale) as nat);
        lemma_pow2_pos((-scale) as nat);
        let fr = mant % p;
        let ip = mant / p;
        lemma_div_pos_is_pos(mant as int, p as int);
        lemma_dec_digits_ascii(ip);
        lemma_dec_digits_ascii(ip + 1);
        let scaled = mant * 1000000;
        lemma_div_pos_is_pos(scaled as int, p as int);
        lemma_fixed6_ascii(scaled / p);
        lemma_fixed6_ascii(scaled / p + 1);
    }
}

/// `2^k` for `k < 64`.
fn pow2_u64(k: u32) -> (r: u64)
    requires
        k < 64,
    ensures
        r == pow2(k as nat),
{
    let mut r: u64 = 1;
    let mut j: u32 = 0;
    proof {
        lemma2_to64();
    }
    while j < k
        invariant
            j <= k < 64,
            r == pow2(j as nat),
        decreases k - j,
    {
        proof {
            lemma_pow2_unfold((j + 1) as nat);
            lemma_pow2_strictly_increases((j + 1) as nat, 64);
            lemma2_to64();
        }
        r = r * 2;
        j = j + 1;
    }
    r
}

fn push_sign(out: &mut Vec<u8>, neg: bool)
    ensures
        final(out)@ == old(out)@ + (if neg { seq![45u8] } else { Seq::<u8>::empty() }),
{
    if neg {
        out.push(45u8);
    }
    assert(final(out)@ =~= old(out)@ + (if neg { seq![45u8] } else { Seq::<u8>::empty() }));
}

fn push_integral(out: &mut Vec<u8>, neg: bool, mant: u64, scale: u32)
    requires
        0x80_0000 <= mant < 0x100_0000,
        scale < 105,
    ensures
        final(out)@ == old(out)@ + integral_text(neg, mant as nat, scale as nat),
{
    if scale >= 40 {
        proof {
            if scale > 40 {
                lemma_pow2_strictly_increases(40, scale as nat);
            }
            lemma2_to64_rest();
            assert(mant as nat * pow2(scale as nat) >= 0x80_0000 * pow2(40)) by (nonlinear_arith)
                requires
                    mant >= 0x80_0000,
                    pow2(scale as nat) >= pow2(40),
            ;
        }
        out.push(48u8);
        assert(final(out)@ =~= old(out)@ + integral_text(neg, mant as nat, scale as nat));
        return;
    }
    let p = pow2_u64(scale);
    proof {
        lemma_pow2_strictly_increases(scale as nat, 40);
        lemma2_to64_rest();
        assert(mant * p < 0x100_0000 * 0x100_0000_0000) by (nonlinear_arith)
            requires
                mant < 0x100_0000,
                p < 0x100_0000_0000,
        ;
    }
    let n: u64 = mant * p;
    if n > 1_000_000_000_000 {
        out.push(48u8);
        assert(final(out)@ =~= old(out)@ + integral_text(neg, mant as nat, scale as nat));
        return;
    }
    push_sign(out, neg);
    push_decimal(out, n);
    assert(final(out)@ =~= old(out)@ + integral_text(neg, mant as nat, scale as nat));
}

fn push_tiny(out: &mut Vec<u8>, neg: bool, mant: u64, k: u32)
    requires
        mant < 0x100_0000,
        64 <= k,
    ensures
        final(out)@ == old(out)@ + fractional_text(neg, mant as nat, k as nat),
{
    proof {
        if k > 64 {
            lemma_pow2_strictly_increases(64, k as nat);
        }
        lemma2_to64();
        let p = pow2(k as nat);
        assert(mant < p);
        assert(mant as nat % p == mant) by {
            vstd::arithmetic::div_mod::lemma_small_mod(mant as nat, p);
        }
        assert(mant as nat / p == 0) by {
            vstd::arithmetic::div_mod::lemma_basic_div(mant as int, p as int);
        }
        assert(mant * 1000000 < p);
    }
    push_sign(out, neg);
    out.push(48u8);
    assert(final(out)@ =~= old(out)@ + fractional_text(neg, mant as nat, k as nat));
}

fn push_fixed6(out: &mut Vec<u8>, q: u64)
    ensures
        final(out)@ == old(out)@ + fixed6_text(q as nat),
{
    push_decimal(out, q / 1000000);
    out.push(46u8);
    let low = q % 1000000;
    let mut digits: Vec<u8> = Vec::new();
    push_decimal(&mut digits, low);
    let mut pad = digits.len();
    let ghost padded_start = out@;
    while pad < 6
        invariant
            pad <= 6 || pad == digits@.len(),
            digits@.len() <= pad,
            out@ == padded_start + Seq::new((pad - digits@.len()) as nat, |i: int| 48u8),
        decreases 6 - pad,
    {
        out.push(48u8);
        pad = pad + 1;
        assert(out@ =~= padded_start + Seq::new((pad - digits@.len()) as nat, |i: int| 48u8));
    }
    let mut i: usize = 0;
    let ghost before_digits = out@;
    while i < digits.len()
        invariant
            i <= digits@.len(),
            out@ == before_digits + digits@.subrange(0, i as int),
        decreases digits@.len() - i,
    {
        out.push(digits[i]);
        i = i + 1;
        assert(out@ =~= before_digits + digits@.subrange(0, i as int));
    }
    assert(digits@.subrange(0, digits@.len() as int) =~= digits@);
    assert(final(out)@ =~= old(out)@ + fixed6_text(q as nat));
}

fn push_fractional(out: &mut Vec<u8>, neg: bool, mant: u64, k: u32)
    requires
        mant < 0x100_0000,
        1 <= k < 64,
    ensures
        final(out)@ == old(out)@ + fractional_text(neg, mant as nat, k as nat),
{
    let p: u64 = pow2_u64(k);
    proof {
        lemma_pow2_pos(k as nat);
    }
    let ip: u64 = mant / p;
    let fr: u64 = mant % p;
    proof {
        lemma_mod_bound(mant as int, p as int);
    }
    let up: bool = 2 * (fr as u128) >= p as u128;
    let rounded: u64 = if up { ip + 1 } else { ip };
    let dist: u64 = if up { p - fr } else { fr };
    proof {
        assert(dist as u128 * 1000000 <= p as u128 * 1000000) by (nonlinear_arith)
            requires
                dist <= p,
        ;
    }
    if (dist as u128) * 1000000 < p as u128 {
        push_sign(out, neg);
        push_decimal(out, rounded);
        assert(final(out)@ =~= old(out)@ + fractional_text(neg, mant as nat, k as nat));
        return;
    }
    let scaled: u64 = mant * 1000000;
    let qi: u64 = scaled / p;
    let rem: u64 = scaled % p;
    proof {
        lemma_mod_bound(scaled as int, p as int);
        assert(qi <= scaled) by {
            vstd::arithmetic::div_mod::lemma_div_is_ordered_by_denominator(scaled as int, 1, p as int);
        }
    }
    let round_up = 2 * (rem as u128) > p as u128 || (2 * (rem as u128) == p as u128 && qi % 2 == 1);
    let q: u64 = if round_up { qi + 1 } else { qi };
    push_sign(out, neg);
    push_fixed6(out, q);
    assert(final(out)@ =~= old(out)@ + fractional_text(neg, mant as nat, k as nat));
}

/// Append the text of the `f32` with bit pattern `bits`.
pub fn push_float(out: &mut Vec<u8>, bits: u32)
    ensures
        final(out)@ == old(out)@ + float_text(bits),
{
    let neg = bits >= 0x8000_0000u32;
    let exp: u32 = (bits / 0x80_0000) % 256;
    let frac: u32 = bits % 0x80_0000;
    let mant: u64 = if exp == 0 { frac as u64 } else { frac as u64 + 0x80_0000 };
    assert(exp == f32_exp_field(bits));
    assert(mant == f32_mant(bits));
    if exp == 255 {
        out.push(48u8);
        assert(final(out)@ =~= old(out)@ + float_text(bits));
        return;
    }
    if exp >= 150 {
        push_integral(out, neg, mant, exp - 150);
        return;
    }
    let k: u32 = if exp == 0 { 149 } else { 150 - exp };
    assert(k == -f32_scale(bits));
    if k >= 64 {
        push_tiny(out, neg, mant, k);
    } else {
        push_fractional(out, neg, mant, k);
    }
}

} // verus!
