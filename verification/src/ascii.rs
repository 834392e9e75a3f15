//! ASCII case mapping and comparisons against string literals, on UTF-8 bytes.
use vstd::prelude::*;
use vstd::utf8::is_ascii_chars;

use crate::trim::{contains_seq, find_seq, lower_byte, occurs_at, to_lower, to_upper, upper_byte};

verus! {

/// Bytes of ASCII characters.
pub open spec fn lit_bytes(c: Seq<char>) -> Seq<u8> {
    Seq::new(c.len(), |i: int| c[i] as u8)
}

/// `to_ascii_lowercase` on bytes.
pub open spec fn lower_seq(b: Seq<u8>) -> Seq<u8> {
    Seq::new(b.len(), |i: int| lower_byte(b[i]))
}

/// `to_ascii_uppercase` on bytes.
pub open spec fn upper_seq(b: Seq<u8>) -> Seq<u8> {
    Seq::new(b.len(), |i: int| upper_byte(b[i]))
}

/// The bytes of an ASCII string literal.
pub fn ascii_lit_bytes(lit: &str) -> (b: &[u8])
    requires
        is_ascii_chars(lit@),
    ensures
        b@ == lit_bytes(lit@),
{
    let b = lit.as_bytes();
    proof {
        vstd::string::is_ascii_spec_bytes(lit);
    }
    assert(b@ =~= lit_bytes(lit@));
    b
}

/// Lower-cased copy of `a`.
pub fn to_lower_vec(a: &[u8]) -> (r: Vec<u8>)
    ensures
        r@ == lower_seq(a@),
{
    let mut r: Vec<u8> = Vec::new();
    let mut i: usize = 0;
    while i < a.len()
        invariant
            i <= a@.len(),
            r@ == lower_seq(a@.subrange(0, i as int)),
        decreases a@.len() - i,
    {
        r.push(to_lower(a[i]));
        i = i + 1;
        assert(r@ =~= lower_seq(a@.subrange(0, i as int)));
    }
    assert(a@.subrange(0, a@.len() as int) =~= a@);
    r
}

/// Upper-cased copy of `a`.
pub fn to_upper_vec(a: &[u8]) -> (r: Vec<u8>)
    ensures
        r@ == upper_seq(a@),
{
    let mut r: Vec<u8> = Vec::new();
    let mut i: usize = 0;
    while i < a.len()
        invariant
            i <= a@.len(),
            r@ == upper_seq(a@.subrange(0, i as int)),
        decreases a@.len() - i,
    {
        r.push(to_upper(a[i]));
        i = i + 1;
        assert(r@ =~= upper_seq(a@.subrange(0, i as int)));
    }
    assert(a@.subrange(0, a@.len() as int) =~= a@);
    r
}

/// `a` equals `b` byte for byte.
pub fn bytes_eq(a: &[u8], b: &[u8]) -> (r: bool)
    ensures
        r == (a@ == b@),
{
    if a.len() != b.len() {
        return false;
    }
    let mut i: usize = 0;
    while i < a.len()
        invariant
            i <= a@.len(),
            a@.len() == b@.len(),
            forall|j: int| 0 <= j < i ==> a@[j] == b@[j],
        decreases a@.len() - i,
    {
        if a[i] != b[i] {
            return false;
        }
        i = i + 1;
    }
    assert(a@ =~= b@);
    true
}

/// The lower-cased `a` equals the ASCII literal.
pub fn lower_eq(a: &[u8], lit: &str) -> (r: bool)
    requires
        is_ascii_chars(lit@),
    ensures
        r == (lower_seq(a@) == lit_bytes(lit@)),
{
    let l = to_lower_vec(a);
    bytes_eq(l.as_slice(), ascii_lit_bytes(lit))
}

/// The upper-cased `a` equals the ASCII literal.
pub fn upper_eq(a: &[u8], lit: &str) -> (r: bool)
    requires
        is_ascii_chars(lit@),
    ensures
        r == (upper_seq(a@) == lit_bytes(lit@)),
{
    let u = to_upper_vec(a);
    bytes_eq(u.as_slice(), ascii_lit_bytes(lit))
}

/// `a` contains the ASCII literal.
pub fn contains_lit(a: &[u8], lit: &str) -> (r: bool)
    requires
        is_ascii_chars(lit@),
    ensures
        r == contains_seq(a@, lit_bytes(lit@)),
{
    match find_seq(a, 0, ascii_lit_bytes(lit)) {
        Some(i) => true,
        None => {
            assert(!contains_seq(a@, lit_bytes(lit@))) by {
                if contains_seq(a@, lit_bytes(lit@)) {
                    let i = choose|i: int| occurs_at(a@, lit_bytes(lit@), i);
                    assert(0 <= i);
                }
            }
            false
        },
    }
}

/// `a` ends with `b`.
pub open spec fn ends_with(a: Seq<u8>, b: Seq<u8>) -> bool {
    b.len() <= a.len() && a.subrange(a.len() - b.len(), a.len() as int) == b
}

/// `a` starts with `b`.
pub open spec fn starts_with_seq(a: Seq<u8>, b: Seq<u8>) -> bool {
    b.len() <= a.len() && a.subrange(0, b.len() as int) == b
}

/// `a` ends with the ASCII literal.
pub fn ends_with_lit(a: &[u8], lit: &str) -> (r: bool)
    requires
        is_ascii_chars(lit@),
    ensures
        r == ends_with(a@, lit_bytes(lit@)),
{
    let b = ascii_lit_bytes(lit);
    if b.len() > a.len() {
        return false;
    }
    let tail = vstd::slice::slice_subrange(a, a.len() - b.len(), a.len());
    bytes_eq(tail, b)
}

/// `a` starts with the ASCII literal.
pub fn starts_with_lit(a: &[u8], lit: &str) -> (r: bool)
    requires
        is_ascii_chars(lit@),
    ensures
        r == starts_with_seq(a@, lit_bytes(lit@)),
{
    let b = ascii_lit_bytes(lit);
    if b.len() > a.len() {
        return false;
    }
    let head = vstd::slice::slice_subrange(a, 0, b.len());
    bytes_eq(head, b)
}


/// `str::replace`: every non-overlapping occurrence of `pat`, scanning left
/// to right, replaced by `rep`.
pub open spec fn replace_all(t: Seq<u8>, pat: Seq<u8>, rep: Seq<u8>) -> Seq<u8>
    decreases t.len(),
{
    if t.len() == 0 {
        seq![]
    } else if pat.len() > 0 && starts_with_seq(t, pat) {
        rep + replace_all(t.subrange(pat.len() as int, t.len() as int), pat, rep)
    } else {
        seq![t[0]] + replace_all(t.subrange(1, t.len() as int), pat, rep)
    }
}

/// Replace every occurrence of the ASCII literal `pat` by the literal `rep`.
pub fn replace_lit(t: &[u8], pat: &str, rep: &str) -> (r: Vec<u8>)
    requires
        is_ascii_chars(pat@),
        is_ascii_chars(rep@),
    ensures
        r@ == replace_all(t@, lit_bytes(pat@), lit_bytes(rep@)),
{
    let p = ascii_lit_bytes(pat);
    let q = ascii_lit_bytes(rep);
    let mut out: Vec<u8> = Vec::new();
    let mut i: usize = 0;
    let n = t.len();
    assert(t@.subrange(0, n as int) =~= t@);
    assert(out@ + t@ =~= t@);
    while i < n
        invariant
            i <= n,
            n == t@.len(),
            p@ == lit_bytes(pat@),
            q@ == lit_bytes(rep@),
            out@ + replace_all(t@.subrange(i as int, n as int), p@, q@) == replace_all(t@, p@, q@),
        decreases n - i,
    {
        let ghost rest = t@.subrange(i as int, n as int);
        let hit = p.len() > 0 && p.len() <= n - i && bytes_eq(vstd::slice::slice_subrange(t, i, i + p.len()), p);
        if hit {
            assert(rest.subrange(0, p@.len() as int) =~= t@.subrange(i as int, i + p@.len()));
            assert(rest.subrange(p@.len() as int, rest.len() as int) =~= t@.subrange(i + p@.len(), n as int));
            let mut k: usize = 0;
            let ghost before = out@;
            while k < q.len()
                invariant
                    k <= q@.len(),
                    out@ == before + q@.subrange(0, k as int),
                decreases q@.len() - k,
            {
                out.push(q[k]);
                k = k + 1;
                assert(out@ =~= before + q@.subrange(0, k as int));
            }
            assert(q@.subrange(0, q@.len() as int) =~= q@);
            i = i + p.len();
        } else {
            assert(!(p@.len() > 0 && starts_with_seq(rest, p@))) by {
                if p@.len() > 0 && starts_with_seq(rest, p@) {
                    assert(rest.subrange(0, p@.len() as int) =~= t@.subrange(i as int, i + p@.len()));
                }
            }
            assert(rest.subrange(1, rest.len() as int) =~= t@.subrange(i + 1, n as int));
            out.push(t[i]);
            i = i + 1;
        }
    }
    assert(t@.subrange(n as int, n as int) =~= Seq::<u8>::empty());
    assert(out@ =~= replace_all(t@, p@, q@));
    out
}

} // verus!
