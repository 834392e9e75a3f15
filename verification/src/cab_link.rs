//! Cab view asset naming (`.eng` → `CABVIEW3D/` → `.s` + `.cvf`).
use vstd::prelude::*;
use vstd::string::StringSliceAdditionalSpecFns;
use vstd::utf8::*;

use crate::ascii::{lit_bytes, lower_eq, lower_seq};
use crate::std_text::string_from_utf8_lossy;
use crate::trim::{trim_end_to, trim_spec, trim_start_from};
use crate::utf8_bounds::{
    lemma_ascii_boundary, lemma_boundary_at, lemma_slice_valid, lemma_trim_end_cut,
    lemma_trim_start_boundary,
};

verus! {

/// Resolved cab interior assets under a trainset folder (path texts).
#[derive(Clone, Debug, PartialEq, Eq)]
pub struct ResolvedCabAssets {
    pub cab_dir: String,
    pub shape_path: String,
    pub cvf_path: String,
}

/// `(` or `)`.
pub open spec fn is_paren(c: u8) -> bool {
    c == 40u8 || c == 41u8
}

/// Index of the first byte at or after `i` that is not a parenthesis (`e` when none).
pub open spec fn first_non_paren(b: Seq<u8>, i: int, e: int) -> int
    decreases e - i,
{
    if i < e && 0 <= i < b.len() && is_paren(b[i]) {
        first_non_paren(b, i + 1, e)
    } else {
        i
    }
}

/// End of `b[s..e]` after dropping trailing parentheses.
pub open spec fn last_non_paren_end(b: Seq<u8>, s: int, e: int) -> int
    decreases e - s,
{
    if s < e && 0 < e <= b.len() && is_paren(b[e - 1]) {
        last_non_paren_end(b, s, e - 1)
    } else {
        e
    }
}

/// `b` without leading and trailing parentheses.
pub open spec fn strip_parens(b: Seq<u8>) -> Seq<u8> {
    let s = first_non_paren(b, 0, b.len() as int);
    b.subrange(s, last_non_paren_end(b, s, b.len() as int))
}

/// Asset name from an `.eng` reference: trimmed, stripped of surrounding
/// parentheses, trimmed again.
pub open spec fn asset_name_spec(raw: Seq<u8>) -> Seq<u8> {
    trim_spec(strip_parens(trim_spec(raw)))
}

/// Asset name from an `.eng` reference such as `( cab.s )`.
pub fn normalize_asset_name(raw: &str) -> (r: String)
    ensures
        r@ == decode_utf8(asset_name_spec(raw.spec_bytes())),
{
    let b = raw.as_bytes();
    let s0 = trim_start_from(b, 0, b.len());
    let e0 = trim_end_to(b, s0, b.len());
    proof {
        assert(b@.subrange(0, b@.len() as int) =~= b@);
        encode_utf8_valid_utf8(raw@);
        assert(is_char_boundary(b@, 0));
        lemma_trim_start_boundary(b@, 0, b@.len() as int);
        lemma_trim_end_cut(b@.subrange(s0 as int, b@.len() as int));
        if e0 < b@.len() {
            assert(b@.subrange(s0 as int, b@.len() as int)[e0 - s0] == b@[e0 as int]);
        }
        lemma_boundary_at(b@, e0 as int);
    }
    let ghost t = b@.subrange(s0 as int, e0 as int);
    let mut s1 = s0;
    while s1 < e0 && (b[s1] == 40u8 || b[s1] == 41u8)
        invariant
            s0 <= s1 <= e0 <= b@.len(),
            t == b@.subrange(s0 as int, e0 as int),
            first_non_paren(t, 0, t.len() as int) == first_non_paren(t, s1 - s0, t.len() as int),
            forall|q: int| s0 <= q < s1 ==> is_paren(#[trigger] b@[q]),
        decreases e0 - s1,
    {
        assert(t[s1 - s0] == b@[s1 as int]);
        s1 = s1 + 1;
    }
    proof {
        if s1 < e0 {
            assert(t[s1 - s0] == b@[s1 as int]);
        }
        if s1 > s0 {
            lemma_ascii_boundary(b@, s1 - 1);
        }
    }
    let mut e1 = e0;
    while e1 > s1 && (b[e1 - 1] == 40u8 || b[e1 - 1] == 41u8)
        invariant
            s0 <= s1 <= e1 <= e0 <= b@.len(),
            t == b@.subrange(s0 as int, e0 as int),
            first_non_paren(t, 0, t.len() as int) == s1 - s0,
            last_non_paren_end(t, s1 - s0, t.len() as int) == last_non_paren_end(
                t,
                s1 - s0,
                e1 - s0,
            ),
            forall|q: int| e1 <= q < e0 ==> is_paren(#[trigger] b@[q]),
        decreases e1 - s1,
    {
        assert(t[e1 - 1 - s0] == b@[e1 - 1]);
        e1 = e1 - 1;
    }
    proof {
        if e1 > s1 {
            assert(t[e1 - 1 - s0] == b@[e1 - 1]);
        }
        assert(strip_parens(t) =~= b@.subrange(s1 as int, e1 as int));
        if e1 < e0 {
            lemma_ascii_boundary(b@, e1 as int);
        }
    }
    let s2 = trim_start_from(b, s1, e1);
    let e2 = trim_end_to(b, s2, e1);
    proof {
        lemma_trim_start_boundary(b@, s1 as int, e1 as int);
        lemma_trim_end_cut(b@.subrange(s2 as int, e1 as int));
        if e2 < e1 {
            assert(b@.subrange(s2 as int, e1 as int)[e2 - s2] == b@[e2 as int]);
        }
        lemma_boundary_at(b@, e2 as int);
        lemma_slice_valid(b@, s2 as int, e2 as int);
    }
    string_from_utf8_lossy(vstd::slice::slice_subrange(b, s2, e2))
}

/// A trainset folder name that holds cab views (`cabview3d`, `cabview`,
/// `cabview2d`, any case).
pub fn is_cabview_dir_name(name: &str) -> (r: bool)
    ensures
        r == (lower_seq(name.spec_bytes()) == lit_bytes("cabview3d"@) || lower_seq(
            name.spec_bytes(),
        ) == lit_bytes("cabview"@) || lower_seq(name.spec_bytes()) == lit_bytes("cabview2d"@)),
{
    proof {
        reveal_strlit("cabview3d");
        reveal_strlit("cabview");
        reveal_strlit("cabview2d");
    }
    let b = name.as_bytes();
    lower_eq(b, "cabview3d") || lower_eq(b, "cabview") || lower_eq(b, "cabview2d")
}

} // verus!
