//! Character boundaries inside UTF-8 text, and owned strings cut at them.
use vstd::prelude::*;
use vstd::string::StringSliceAdditionalSpecFns;
use vstd::utf8::*;

use crate::std_text::string_from_utf8_lossy;
use crate::trim::{
    lead_ws_len, trail_ws_len, trim_end_spec, trim_end_to, trim_spec, trim_start_from,
    trim_start_spec,
};

verus! {

broadcast use {
    is_char_boundary_iff_not_is_continuation_byte,
    valid_utf8_split,
    decode_utf8_encode_utf8,
    encode_utf8_decode_utf8,
    encode_utf8_valid_utf8,
};

/// Byte length of the character that starts at `q`.
pub open spec fn char_len_at(b: Seq<u8>, q: int) -> int {
    length_of_first_scalar(b.subrange(q, b.len() as int))
}

/// In valid UTF-8, the end of the character starting at a boundary is a boundary.
pub proof fn lemma_boundary_step(b: Seq<u8>, q: int)
    requires
        valid_utf8(b),
        0 <= q < b.len(),
        is_char_boundary(b, q),
    ensures
        q < q + char_len_at(b, q) <= b.len(),
        is_char_boundary(b, q + char_len_at(b, q)),
    decreases b.len(),
{
    let l0 = length_of_first_scalar(b);
    let rest = pop_first_scalar(b);
    assert(valid_first_scalar(b) && valid_utf8(rest));
    if q == 0 {
        assert(b.subrange(0, b.len() as int) =~= b);
        assert(is_char_boundary(rest, 0));
    } else {
        assert(is_char_boundary(rest, q - l0));
        assert(rest.subrange(q - l0, rest.len() as int) =~= b.subrange(q, b.len() as int));
        lemma_boundary_step(rest, q - l0);
    }
}

/// An index holding an ASCII byte, and the index after it, are boundaries.
pub proof fn lemma_ascii_boundary(b: Seq<u8>, q: int)
    requires
        valid_utf8(b),
        0 <= q < b.len(),
        b[q] < 128,
    ensures
        is_char_boundary(b, q),
        is_char_boundary(b, q + 1),
{
    assert(!is_continuation_byte(b[q]));
    assert(b.subrange(q, b.len() as int)[0] == b[q]);
    lemma_boundary_step(b, q);
}

/// Every index of valid UTF-8 that does not hold a continuation byte, and its end, are boundaries.
pub proof fn lemma_boundary_at(b: Seq<u8>, q: int)
    requires
        valid_utf8(b),
        0 <= q <= b.len(),
        q < b.len() ==> !is_continuation_byte(b[q]),
    ensures
        is_char_boundary(b, q),
{
    if q == b.len() {
        is_char_boundary_start_end_of_seq(b);
    }
}

/// Skipping leading whitespace from a boundary lands on a boundary.
pub proof fn lemma_trim_start_boundary(b: Seq<u8>, st: int, end: int)
    requires
        valid_utf8(b),
        0 <= st <= end <= b.len(),
        is_char_boundary(b, st),
    ensures
        is_char_boundary(b, end - trim_start_spec(b.subrange(st, end)).len()),
    decreases end - st,
{
    let sub = b.subrange(st, end);
    let k = lead_ws_len(sub);
    if k == 0 {
    } else {
        let tail = b.subrange(st, b.len() as int);
        assert(tail[0] == b[st]);
        assert(sub[0] == b[st]);
        lemma_boundary_step(b, st);
        assert(char_len_at(b, st) == k);
        assert(sub.subrange(k, sub.len() as int) =~= b.subrange(st + k, end));
        lemma_trim_start_boundary(b, st + k, end);
    }
}

/// The text of valid UTF-8 bytes, as an owned string.
pub fn utf8_string(bytes: &[u8]) -> (s: String)
    requires
        valid_utf8(bytes@),
    ensures
        s@ == decode_utf8(bytes@),
        encode_utf8(s@) == bytes@,
{
    string_from_utf8_lossy(bytes)
}

/// The bytes `b[from..to]` of valid UTF-8, cut at two boundaries, are valid UTF-8.
pub proof fn lemma_slice_valid(b: Seq<u8>, from: int, to: int)
    requires
        valid_utf8(b),
        0 <= from <= to <= b.len(),
        is_char_boundary(b, from),
        is_char_boundary(b, to),
    ensures
        valid_utf8(b.subrange(from, to)),
{
    let head = b.subrange(0, to);
    assert(valid_utf8(head));
    // `from` is still a boundary of the prefix that ends at `to`.
    lemma_boundary_prefix(b, from, to);
    assert(head.subrange(from, head.len() as int) =~= b.subrange(from, to));
    assert(valid_utf8(head.subrange(from, head.len() as int)));
}

/// A boundary before `to` is a boundary of the prefix `b[..to]`, when `to` is one.
pub proof fn lemma_boundary_prefix(b: Seq<u8>, q: int, to: int)
    requires
        valid_utf8(b),
        0 <= q <= to <= b.len(),
        is_char_boundary(b, q),
        is_char_boundary(b, to),
    ensures
        valid_utf8(b.subrange(0, to)),
        is_char_boundary(b.subrange(0, to), q),
{
    let head = b.subrange(0, to);
    assert(valid_utf8(head));
    if q < to {
        assert(head[q] == b[q]);
        assert(q < b.len());
        assert(!is_continuation_byte(b[q]));
    } else {
        is_char_boundary_start_end_of_seq(head);
    }
}

/// `trim_end` keeps a prefix, and the first byte it drops starts a character.
pub proof fn lemma_trim_end_cut(s: Seq<u8>)
    ensures
        trim_end_spec(s).len() <= s.len(),
        trim_end_spec(s) == s.subrange(0, trim_end_spec(s).len() as int),
        trim_end_spec(s).len() < s.len() ==> !is_continuation_byte(s[trim_end_spec(s).len() as int]),
    decreases s.len(),
{
    let n = s.len() as int;
    let k = trail_ws_len(s);
    if k == 0 {
        assert(s.subrange(0, n) =~= s);
    } else {
        let p = s.subrange(0, n - k);
        lemma_trim_end_cut(p);
        let t = trim_end_spec(p);
        assert(trim_end_spec(s) == t);
        assert(t =~= s.subrange(0, t.len() as int));
        if t.len() < p.len() {
            assert(p[t.len() as int] == s[t.len() as int]);
        }
    }
}

/// UTF-8 encoding distributes over concatenation.
pub proof fn lemma_encode_utf8_concat(a: Seq<char>, b: Seq<char>)
    ensures
        encode_utf8(a + b) == encode_utf8(a) + encode_utf8(b),
    decreases a.len(),
{
    if a.len() == 0 {
        assert(a + b =~= b);
    } else {
        lemma_encode_utf8_concat(a.drop_first(), b);
        assert((a + b).drop_first() =~= a.drop_first() + b);
        assert((a + b)[0] == a[0]);
    }
}

/// The character whose code is the byte `b` (Latin-1 reading of one byte).
pub open spec fn byte_char(b: u8) -> char {
    b as char
}

/// Append the UTF-8 encoding of the character `b as char`.
pub fn push_byte_char(out: &mut Vec<u8>, b: u8)
    ensures
        final(out)@ == old(out)@ + encode_utf8(seq![byte_char(b)]),
{
    let x = b as u32;
    let ghost c = byte_char(b);
    assert(c as u32 == x);
    assert(seq![c].drop_first() =~= Seq::<char>::empty());
    assert(encode_utf8(seq![c]) == encode_scalar(x) + encode_utf8(Seq::<char>::empty()));
    assert(encode_utf8(seq![c]) =~= encode_scalar(x));
    if x < 0x80 {
        out.push((x & 0x7F) as u8);
        assert(out@ =~= old(out)@ + encode_scalar(x));
    } else {
        out.push(0xC0 | ((x >> 6) & 0x1F) as u8);
        out.push(0x80 | (x & 0x3F) as u8);
        assert(out@ =~= old(out)@ + encode_scalar(x));
    }
}

/// Append the UTF-8 encoding of `b[from..to]` read one character per byte.
pub fn push_byte_chars(out: &mut Vec<u8>, b: &[u8], from: usize, to: usize)
    requires
        from <= to <= b@.len(),
    ensures
        final(out)@ == old(out)@ + encode_utf8(byte_chars(b@.subrange(from as int, to as int))),
{
    let mut i = from;
    while i < to
        invariant
            from <= i <= to <= b@.len(),
            out@ == old(out)@ + encode_utf8(byte_chars(b@.subrange(from as int, i as int))),
        decreases to - i,
    {
        let ghost before = byte_chars(b@.subrange(from as int, i as int));
        push_byte_char(out, b[i]);
        proof {
            let after = byte_chars(b@.subrange(from as int, i + 1));
            assert(after =~= before + seq![byte_char(b@[i as int])]);
            lemma_encode_utf8_concat(before, seq![byte_char(b@[i as int])]);
        }
        i = i + 1;
    }
}

/// Bytes read as characters, one per byte.
pub open spec fn byte_chars(b: Seq<u8>) -> Seq<char> {
    Seq::new(b.len(), |i: int| byte_char(b[i]))
}

/// The string whose UTF-8 encoding is `bytes`.
pub fn string_of_encoding(bytes: &Vec<u8>, Ghost(chars): Ghost<Seq<char>>) -> (s: String)
    requires
        bytes@ == encode_utf8(chars),
    ensures
        s@ == chars,
{
    string_from_utf8_lossy(bytes.as_slice())
}


/// `str::trim` of a text, as an owned string.
pub fn trimmed_string(s: &str) -> (r: String)
    ensures
        encode_utf8(r@) == trim_spec(s.spec_bytes()),
{
    let b = s.as_bytes();
    let st = trim_start_from(b, 0, b.len());
    let e = trim_end_to(b, st, b.len());
    proof {
        assert(b@.subrange(0, b@.len() as int) =~= b@);
        assert(is_char_boundary(b@, 0));
        lemma_trim_start_boundary(b@, 0, b@.len() as int);
        lemma_trim_end_cut(b@.subrange(st as int, b@.len() as int));
        if e < b@.len() {
            assert(b@.subrange(st as int, b@.len() as int)[e - st] == b@[e as int]);
        }
        lemma_boundary_at(b@, e as int);
        lemma_slice_valid(b@, st as int, e as int);
    }
    utf8_string(vstd::slice::slice_subrange(b, st, e))
}


/// Bytes that differ from valid UTF-8 only where both hold ASCII bytes are
/// valid UTF-8 too.
pub proof fn lemma_ascii_swap_valid(a: Seq<u8>, b: Seq<u8>)
    requires
        valid_utf8(a),
        a.len() == b.len(),
        forall|i: int| 0 <= i < a.len() ==> a[i] == b[i] || (a[i] < 128 && b[i] < 128),
    ensures
        valid_utf8(b),
    decreases a.len(),
{
    if a.len() > 0 {
        let n = length_of_first_scalar(a);
        if a[0] < 128 {
            assert(b[0] < 128);
            assert(length_of_first_scalar(b) == 1);
        } else {
            assert(b[0] == a[0]);
            assert forall|i: int| 0 <= i < n implies b[i] == a[i] by {
                if i > 0 {
                    assert(is_continuation_byte(a[i]));
                }
            }
            assert(b.subrange(0, n) =~= a.subrange(0, n));
            assert(decode_first_codepoint(b) == decode_first_codepoint(a));
            assert(length_of_first_scalar(b) == n);
        }
        let pa = pop_first_scalar(a);
        let pb = pop_first_scalar(b);
        assert forall|i: int| 0 <= i < pa.len() implies pa[i] == pb[i] || (pa[i] < 128 && pb[i]
            < 128) by {
            assert(pa[i] == a[i + n] && pb[i] == b[i + n]);
        }
        lemma_ascii_swap_valid(pa, pb);
    }
}


/// `str::trim_start` keeps a suffix of the bytes.
pub proof fn lemma_trim_start_suffix(b: Seq<u8>)
    ensures
        trim_start_spec(b).len() <= b.len(),
        trim_start_spec(b) == b.subrange(b.len() - trim_start_spec(b).len(), b.len() as int),
    decreases b.len(),
{
    let k = lead_ws_len(b);
    if k == 0 {
        assert(b.subrange(0, b.len() as int) =~= b);
    } else {
        let rest = b.subrange(k, b.len() as int);
        lemma_trim_start_suffix(rest);
        assert(rest.subrange(rest.len() - trim_start_spec(rest).len(), rest.len() as int)
            =~= b.subrange(b.len() - trim_start_spec(rest).len(), b.len() as int));
    }
}

/// `str::trim` of valid UTF-8 is valid UTF-8.
pub proof fn lemma_trim_valid(b: Seq<u8>)
    requires
        valid_utf8(b),
    ensures
        valid_utf8(trim_spec(b)),
{
    let ts = trim_start_spec(b);
    lemma_trim_start_suffix(b);
    let k = b.len() - ts.len();
    assert(b.subrange(0, b.len() as int) =~= b);
    assert(is_char_boundary(b, 0));
    lemma_trim_start_boundary(b, 0, b.len() as int);
    lemma_boundary_at(b, b.len() as int);
    lemma_slice_valid(b, k, b.len() as int);
    let te = trim_end_spec(ts);
    lemma_trim_end_cut(ts);
    lemma_boundary_at(ts, te.len() as int);
    assert(is_char_boundary(ts, 0));
    lemma_boundary_at(ts, ts.len() as int);
    lemma_slice_valid(ts, 0, te.len() as int);
}

} // verus!
