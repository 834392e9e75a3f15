//! Visual `sigcfg.dat` records, and the block scanner the loader is built on.
//!
//! MSTS writes `Name ( … )` blocks rather than canonical S-expressions, so the
//! loader finds keyword blocks by scanning text.
use vstd::prelude::*;
use vstd::string::StringSliceAdditionalSpecFns;
use vstd::utf8::*;

use crate::ascii::{ascii_lit_bytes, contains_lit, lit_bytes, lower_seq, to_lower_vec, upper_eq, upper_seq};
use crate::std_text::string_from_utf8_lossy;
use crate::text::{ascii_chars, ascii_string, is_ascii_bytes};
use crate::trim::{
    eq_ignore_case, find_byte, find_byte_in, find_ignore_case, find_ws_in, first_byte, first_ci,
    first_ws, lead_ws, lead_ws_len, lemma_first_byte_bounds, lemma_first_ci_bounds,
    contains_seq, matches_at_ignore_case, trim_start_from, trim_start_spec,
};
use crate::utf8_bounds::{lemma_ascii_boundary, lemma_boundary_at, lemma_slice_valid, utf8_string};

verus! {

/// Named colour from `LightsTab` (`colour ( a r g b )`, 0–255).
#[derive(Clone, Copy, Debug, PartialEq)]
pub struct LightColour {
    pub r: u8,
    pub g: u8,
    pub b: u8,
    pub a: u8,
}

/// A `SignalDrawState`: its name and the lights it draws.
#[derive(Clone, Debug, PartialEq)]
pub struct SignalDrawStateDef {
    pub name: String,
    pub draw_lights: Vec<u32>,
}

/// A `SignalSubObj` of a signal shape.
#[derive(Clone, Debug, PartialEq)]
pub struct SignalShapeSubObjDef {
    pub index: u32,
    pub matrix_name: String,
    pub signal_sub_type: Option<String>,
    pub signal_type_name: Option<String>,
}

/// A `SignalShape`: shape file, description and sub-objects.
#[derive(Clone, Debug, PartialEq)]
pub struct SignalShapeDef {
    pub shape_file: String,
    pub description: String,
    pub sub_objs: Vec<SignalShapeSubObjDef>,
}

/// Scan from `i` with `depth` open parentheses, inside a quoted string or not:
/// the index of the `)` that closes the outermost one.
pub open spec fn paren_close_from(b: Seq<u8>, i: int, depth: int, in_string: bool) -> Option<int>
    decreases b.len() - i,
{
    if i < 0 || i >= b.len() {
        None
    } else if b[i] == 34u8 {
        paren_close_from(b, i + 1, depth, !in_string)
    } else if in_string {
        paren_close_from(b, i + 1, depth, in_string)
    } else if b[i] == 40u8 {
        paren_close_from(b, i + 1, depth + 1, in_string)
    } else if b[i] == 41u8 {
        if depth - 1 == 0 {
            Some(i)
        } else {
            paren_close_from(b, i + 1, depth - 1, in_string)
        }
    } else {
        paren_close_from(b, i + 1, depth, in_string)
    }
}

/// Index of the `)` matching the `(` that `b` starts with (quotes hide parentheses).
pub open spec fn matching_paren_spec(b: Seq<u8>) -> Option<int> {
    if b.len() == 0 || b[0] != 40u8 {
        None
    } else {
        paren_close_from(b, 0, 0, false)
    }
}

/// `paren_close_from` only answers a `)` inside the text, after `i`.
pub proof fn lemma_paren_close_bounds(b: Seq<u8>, i: int, depth: int, in_string: bool)
    ensures
        paren_close_from(b, i, depth, in_string) matches Some(k) ==> i <= k < b.len() && b[k]
            == 41u8,
    decreases b.len() - i,
{
    if 0 <= i < b.len() {
        lemma_paren_close_bounds(b, i + 1, depth + 1, in_string);
        lemma_paren_close_bounds(b, i + 1, depth - 1, in_string);
        lemma_paren_close_bounds(b, i + 1, depth, in_string);
        lemma_paren_close_bounds(b, i + 1, depth, !in_string);
    }
}

/// Index of the `)` matching the `(` at `b[from]`, as an index of `b`.
pub(crate) fn matching_paren_end(b: &[u8], from: usize) -> (r: Option<usize>)
    requires
        from <= b@.len(),
    ensures
        r matches Some(k) ==> matching_paren_spec(b@.subrange(from as int, b@.len() as int))
            == Some(k - from) && from <= k < b@.len() && b@[k as int] == 41u8,
        r is None ==> matching_paren_spec(b@.subrange(from as int, b@.len() as int)) is None,
{
    let ghost t = b@.subrange(from as int, b@.len() as int);
    if from >= b.len() || b[from] != 40u8 {
        return None;
    }
    let mut depth: usize = 0;
    let mut in_string = false;
    let mut i = from;
    while i < b.len()
        invariant
            from <= i <= b@.len(),
            t == b@.subrange(from as int, b@.len() as int),
            t[0] == 40u8,
            depth <= i - from,
            i > from ==> depth >= 1,
            i == from ==> depth == 0 && !in_string,
            paren_close_from(t, 0, 0, false) == paren_close_from(t, i - from, depth as int, in_string),
        decreases b@.len() - i,
    {
        let c = b[i];
        assert(t[i - from] == c);
        if c == 34u8 {
            in_string = !in_string;
        } else if !in_string {
            if c == 40u8 {
                depth = depth + 1;
            } else if c == 41u8 {
                if depth == 1 {
                    proof {
                        lemma_paren_close_bounds(t, 0, 0, false);
                    }
                    return Some(i);
                }
                depth = depth - 1;
            }
        }
        i = i + 1;
    }
    None
}

/// A byte that may belong to a keyword (`[A-Za-z0-9_]`).
pub open spec fn is_word_byte(c: u8) -> bool {
    (48 <= c <= 57) || (65 <= c <= 90) || (97 <= c <= 122) || c == 95
}

/// Byte ranges of the `keyword ( … )` blocks of `b` from `from` on.
///
/// A match (any case) counts when no word byte precedes it, only whitespace
/// stands between it and the next `(`, and that `(` is closed; the range runs
/// from the `(` to its `)` inclusive, and the scan resumes after it. A match
/// that does not count resumes the scan right after the keyword.
pub open spec fn keyword_blocks_spec(b: Seq<u8>, key: Seq<u8>, from: int) -> Seq<(int, int)>
    decreases b.len() + 1 - from,
{
    match first_ci(b, key, from) {
        None => seq![],
        Some(idx) => {
            let next = idx + key.len();
            if !(from < next <= b.len()) {
                seq![]
            } else if idx > 0 && is_word_byte(b[idx - 1]) {
                keyword_blocks_spec(b, key, next)
            } else {
                match first_byte(b, 40u8, next) {
                    None => keyword_blocks_spec(b, key, next),
                    Some(open) => if trim_start_spec(b.subrange(next, open)).len() != 0 {
                        keyword_blocks_spec(b, key, next)
                    } else {
                        match matching_paren_spec(b.subrange(open, b.len() as int)) {
                            None => keyword_blocks_spec(b, key, next),
                            Some(er) => if from < open + er + 1 <= b.len() {
                                seq![(open, open + er + 1)] + keyword_blocks_spec(
                                    b,
                                    key,
                                    open + er + 1,
                                )
                            } else {
                                seq![]
                            },
                        }
                    },
                }
            }
        },
    }
}

/// The `keyword ( … )` blocks of `text`, in order (see [`keyword_blocks_spec`]).
pub fn find_keyword_blocks(text: &str, keyword: &str) -> (r: Vec<String>)
    requires
        keyword@.len() > 0,
    ensures
        r@.len() == keyword_blocks_spec(text.spec_bytes(), keyword.spec_bytes(), 0).len(),
        forall|k: int|
            0 <= k < r@.len() ==> {
                let rg = #[trigger] keyword_blocks_spec(text.spec_bytes(), keyword.spec_bytes(), 0)[k];
                encode_utf8(r@[k]@) == text.spec_bytes().subrange(rg.0, rg.1)
            },
{
    let b = text.as_bytes();
    let key = keyword.as_bytes();
    let ghost bs = b@;
    proof {
        encode_utf8_valid_utf8(text@);
        assert(key@.len() > 0) by {
            assert(encode_utf8(keyword@) == encode_scalar(keyword@[0] as u32) + encode_utf8(
                keyword@.drop_first(),
            ));
        }
    }
    let mut out: Vec<String> = Vec::new();
    let ghost mut done: Seq<(int, int)> = seq![];
    let mut from: usize = 0;
    while from <= b.len()
        invariant
            from <= b@.len() + 1,
            bs == b@,
            b@ == text.spec_bytes(),
            key@ == keyword.spec_bytes(),
            key@.len() > 0,
            valid_utf8(b@),
            done + keyword_blocks_spec(b@, key@, from as int) == keyword_blocks_spec(b@, key@, 0),
            out@.len() == done.len(),
            forall|k: int|
                0 <= k < out@.len() ==> encode_utf8(#[trigger] out@[k]@) == b@.subrange(
                    done[k].0,
                    done[k].1,
                ),
        ensures
            done == keyword_blocks_spec(b@, key@, 0),
            out@.len() == done.len(),
            forall|k: int|
                0 <= k < out@.len() ==> encode_utf8(#[trigger] out@[k]@) == b@.subrange(
                    done[k].0,
                    done[k].1,
                ),
        decreases b@.len() + 1 - from,
    {
        proof {
            lemma_first_ci_bounds(b@, key@, from as int);
        }
        let idx = match find_ignore_case(b, from, key) {
            None => {
                assert(done + keyword_blocks_spec(b@, key@, from as int) =~= done);
                assert(done == keyword_blocks_spec(b@, key@, 0));
                break;
            },
            Some(i) => i,
        };
        let next = idx + key.len();
        if idx > 0 && is_word_byte_exec(b[idx - 1]) {
            from = next;
            continue;
        }
        proof {
            lemma_first_byte_bounds(b@, 40u8, next as int);
        }
        let open = match find_byte(b, next, 40u8) {
            None => {
                from = next;
                continue;
            },
            Some(o) => o,
        };
        let ts = trim_start_from(b, next, open);
        if ts != open {
            from = next;
            continue;
        }
        let close = match matching_paren_end(b, open) {
            None => {
                from = next;
                continue;
            },
            Some(c) => c,
        };
        proof {
            lemma_ascii_boundary(b@, open as int);
            lemma_ascii_boundary(b@, close as int);
            lemma_slice_valid(b@, open as int, close + 1);
        }
        let block = utf8_string(vstd::slice::slice_subrange(b, open, close + 1));
        out.push(block);
        proof {
            let rg = (open as int, close + 1);
            assert(keyword_blocks_spec(b@, key@, from as int) == seq![rg] + keyword_blocks_spec(
                b@,
                key@,
                close + 1,
            ));
            done = done.push(rg);
            assert(done + keyword_blocks_spec(b@, key@, close + 1) =~= done.drop_last() + (seq![rg]
                + keyword_blocks_spec(b@, key@, close + 1)));
        }
        from = close + 1;
    }
    out
}

fn is_word_byte_exec(c: u8) -> (r: bool)
    ensures
        r == is_word_byte(c),
{
    (48 <= c && c <= 57) || (65 <= c && c <= 90) || (97 <= c && c <= 122) || c == 95
}

/// The contents of the `"…"` strings of `b` from `i` on; an unclosed quote runs to the end.
pub open spec fn quoted_spec(b: Seq<u8>, i: int) -> Seq<Seq<u8>>
    decreases b.len() - i,
{
    if i < 0 || i >= b.len() {
        seq![]
    } else if b[i] == 34u8 {
        match first_byte(b, 34u8, i + 1) {
            Some(j) => if i < j < b.len() {
                seq![b.subrange(i + 1, j)] + quoted_spec(b, j + 1)
            } else {
                seq![]
            },
            None => seq![b.subrange(i + 1, b.len() as int)],
        }
    } else {
        quoted_spec(b, i + 1)
    }
}

/// The `"…"` strings of a block, in order.
pub fn quoted_strings(block: &str) -> (r: Vec<String>)
    ensures
        r@.len() == quoted_spec(block.spec_bytes(), 0).len(),
        forall|k: int|
            0 <= k < r@.len() ==> #[trigger] r@[k]@ == decode_utf8(
                quoted_spec(block.spec_bytes(), 0)[k],
            ),
{
    let b = block.as_bytes();
    proof {
        encode_utf8_valid_utf8(block@);
    }
    let mut out: Vec<String> = Vec::new();
    let ghost mut done: Seq<Seq<u8>> = seq![];
    let mut i: usize = 0;
    while i < b.len()
        invariant
            i <= b@.len(),
            b@ == block.spec_bytes(),
            valid_utf8(b@),
            done + quoted_spec(b@, i as int) == quoted_spec(b@, 0),
            out@.len() == done.len(),
            forall|k: int| 0 <= k < out@.len() ==> #[trigger] out@[k]@ == decode_utf8(done[k]),
        decreases b@.len() - i,
    {
        if b[i] == 34u8 {
            let start = i + 1;
            proof {
                lemma_first_byte_bounds(b@, 34u8, start as int);
            }
            let found = find_byte(b, start, 34u8);
            let stop = match found {
                Some(j) => j,
                None => b.len(),
            };
            proof {
                lemma_ascii_boundary(b@, i as int);
                if stop < b@.len() {
                    lemma_ascii_boundary(b@, stop as int);
                } else {
                    lemma_boundary_at(b@, stop as int);
                }
                lemma_slice_valid(b@, start as int, stop as int);
            }
            let piece = string_from_utf8_lossy(vstd::slice::slice_subrange(b, start, stop));
            out.push(piece);
            proof {
                let p = b@.subrange(start as int, stop as int);
                done = done.push(p);
                if stop < b@.len() {
                    assert(done + quoted_spec(b@, stop + 1) =~= done.drop_last() + (seq![p]
                        + quoted_spec(b@, stop + 1)));
                } else {
                    assert(quoted_spec(b@, b@.len() as int) =~= Seq::<Seq<u8>>::empty());
                    assert(done + quoted_spec(b@, b@.len() as int) =~= done.drop_last() + seq![p]);
                }
            }
            match found {
                Some(j) => {
                    i = j + 1;
                },
                None => {
                    i = b.len();
                },
            }
        } else {
            i = i + 1;
        }
    }
    proof {
        assert(quoted_spec(b@, i as int) =~= Seq::<Seq<u8>>::empty());
        assert(done + quoted_spec(b@, i as int) =~= done);
    }
    out
}


// ── SignalAspect blocks ─────────────────────────────────────────────────────

/// Start of the next word at or after `i`: whitespace characters are skipped.
pub open spec fn skip_ws_from(b: Seq<u8>, i: int) -> int
    decreases b.len() - i,
{
    if 0 <= i < b.len() && lead_ws_len(b.subrange(i, b.len() as int)) > 0 {
        skip_ws_from(b, i + lead_ws_len(b.subrange(i, b.len() as int)))
    } else {
        i
    }
}

/// End of the word that starts at `s`: the next whitespace character, or the end.
pub open spec fn word_end(b: Seq<u8>, s: int) -> int {
    s + first_ws(b.subrange(s, b.len() as int), 0)
}

/// First index of `b[s..e]` that is neither `(` nor `)`.
pub open spec fn strip_parens_start(b: Seq<u8>, s: int, e: int) -> int
    decreases e - s,
{
    if s < e && (b[s] == 40u8 || b[s] == 41u8) {
        strip_parens_start(b, s + 1, e)
    } else {
        s
    }
}

/// End of `b[s..e]` once its trailing `(` and `)` are dropped.
pub open spec fn strip_parens_end(b: Seq<u8>, s: int, e: int) -> int
    decreases e - s,
{
    if s < e && (b[e - 1] == 40u8 || b[e - 1] == 41u8) {
        strip_parens_end(b, s, e - 1)
    } else {
        e
    }
}

/// A token naming an aspect or a draw state: non-empty, `[A-Za-z0-9_]` only,
/// and not the word `SignalAspect` (any case).
pub open spec fn aspect_token_ok(t: Seq<u8>) -> bool {
    &&& t.len() > 0
    &&& forall|j: int| 0 <= j < t.len() ==> is_word_byte(#[trigger] t[j])
    &&& !eq_ignore_case(t, lit_bytes("SignalAspect"@))
}

/// Byte ranges of the tokens of `b` from `i` on: its whitespace-separated
/// words with their leading and trailing parentheses dropped, kept when they
/// pass [`aspect_token_ok`].
pub open spec fn aspect_tokens_from(b: Seq<u8>, i: int) -> Seq<(int, int)>
    decreases b.len() - i,
{
    let s = skip_ws_from(b, i);
    let e = word_end(b, s);
    if !(0 <= i <= s < e <= b.len()) {
        seq![]
    } else {
        let ts = strip_parens_start(b, s, e);
        let te = strip_parens_end(b, ts, e);
        let rest = aspect_tokens_from(b, e);
        if aspect_token_ok(b.subrange(ts, te)) {
            seq![(ts, te)] + rest
        } else {
            rest
        }
    }
}

/// The `(aspect, draw state)` that a `SignalAspect ( … )` block names: its
/// first token, and its first quoted string or else its second token.
pub open spec fn aspect_pair_spec(a: Seq<u8>) -> Option<(Seq<char>, Seq<char>)> {
    let toks = aspect_tokens_from(a, 0);
    let strs = quoted_spec(a, 0);
    if toks.len() == 0 {
        None
    } else if strs.len() > 0 {
        Some((ascii_chars(a.subrange(toks[0].0, toks[0].1)), decode_utf8(strs[0])))
    } else if toks.len() > 1 {
        Some(
            (
                ascii_chars(a.subrange(toks[0].0, toks[0].1)),
                ascii_chars(a.subrange(toks[1].0, toks[1].1)),
            ),
        )
    } else {
        None
    }
}

/// The pairs of a sequence of `SignalAspect` blocks, in order.
pub open spec fn aspects_of(blocks: Seq<Seq<u8>>) -> Seq<(Seq<char>, Seq<char>)>
    decreases blocks.len(),
{
    if blocks.len() == 0 {
        seq![]
    } else {
        let rest = aspects_of(blocks.drop_last());
        match aspect_pair_spec(blocks.last()) {
            Some(p) => rest.push(p),
            None => rest,
        }
    }
}

/// The texts of the `keyword ( … )` blocks of `b`, in order.
pub open spec fn keyword_block_texts(b: Seq<u8>, key: Seq<u8>) -> Seq<Seq<u8>> {
    keyword_blocks_spec(b, key, 0).map_values(|rg: (int, int)| b.subrange(rg.0, rg.1))
}

fn skip_ws_at(b: &[u8], i: usize) -> (s: usize)
    requires
        i <= b@.len(),
    ensures
        s as int == skip_ws_from(b@, i as int),
        i <= s <= b@.len(),
        s < b@.len() ==> lead_ws_len(b@.subrange(s as int, b@.len() as int)) == 0,
{
    let mut s = i;
    while s < b.len()
        invariant
            i <= s <= b@.len(),
            skip_ws_from(b@, i as int) == skip_ws_from(b@, s as int),
        decreases b@.len() - s,
    {
        let k = lead_ws(b, s, b.len());
        if k == 0 {
            return s;
        }
        s = s + k;
    }
    s
}

fn strip_parens_start_at(b: &[u8], s: usize, e: usize) -> (r: usize)
    requires
        s <= e <= b@.len(),
    ensures
        r as int == strip_parens_start(b@, s as int, e as int),
        s <= r <= e,
{
    let mut i = s;
    while i < e && (b[i] == 40u8 || b[i] == 41u8)
        invariant
            s <= i <= e <= b@.len(),
            strip_parens_start(b@, s as int, e as int) == strip_parens_start(b@, i as int, e as int),
        decreases e - i,
    {
        i = i + 1;
    }
    i
}

fn strip_parens_end_at(b: &[u8], s: usize, e: usize) -> (r: usize)
    requires
        s <= e <= b@.len(),
    ensures
        r as int == strip_parens_end(b@, s as int, e as int),
        s <= r <= e,
{
    let mut j = e;
    while j > s && (b[j - 1] == 40u8 || b[j - 1] == 41u8)
        invariant
            s <= j <= e <= b@.len(),
            strip_parens_end(b@, s as int, e as int) == strip_parens_end(b@, s as int, j as int),
        decreases j - s,
    {
        j = j - 1;
    }
    j
}

fn is_aspect_token(b: &[u8], s: usize, e: usize, key: &[u8]) -> (r: bool)
    requires
        s <= e <= b@.len(),
        key@ == lit_bytes("SignalAspect"@),
    ensures
        r == aspect_token_ok(b@.subrange(s as int, e as int)),
{
    let ghost t = b@.subrange(s as int, e as int);
    if s == e {
        return false;
    }
    let mut j = s;
    while j < e
        invariant
            s <= j <= e <= b@.len(),
            t == b@.subrange(s as int, e as int),
            forall|q: int| 0 <= q < j - s ==> is_word_byte(#[trigger] t[q]),
        decreases e - j,
    {
        if !is_word_byte_exec(b[j]) {
            assert(t[j - s] == b@[j as int]);
            return false;
        }
        assert(t[j - s] == b@[j as int]);
        j = j + 1;
    }
    if e - s == key.len() && matches_at_ignore_case(b, s, key) {
        assert(b@.subrange(s as int, s + key@.len()) == t);
        false
    } else {
        assert(e - s == key@.len() ==> b@.subrange(s as int, s + key@.len()) == t);
        true
    }
}

/// Token ranges of `b`, as [`aspect_tokens_from`] gives them.
fn aspect_tokens(b: &[u8]) -> (r: Vec<(usize, usize)>)
    ensures
        r@.len() == aspect_tokens_from(b@, 0).len(),
        forall|k: int|
            0 <= k < r@.len() ==> {
                &&& (#[trigger] r@[k]).0 as int == aspect_tokens_from(b@, 0)[k].0
                &&& r@[k].1 as int == aspect_tokens_from(b@, 0)[k].1
                &&& r@[k].0 <= r@[k].1 <= b@.len()
                &&& aspect_token_ok(b@.subrange(r@[k].0 as int, r@[k].1 as int))
            },
{
    proof {
        reveal_strlit("SignalAspect");
    }
    let key = ascii_lit_bytes("SignalAspect");
    let mut out: Vec<(usize, usize)> = Vec::new();
    let ghost mut done: Seq<(int, int)> = seq![];
    let mut i: usize = 0;
    while i < b.len()
        invariant
            i <= b@.len(),
            key@ == lit_bytes("SignalAspect"@),
            done + aspect_tokens_from(b@, i as int) == aspect_tokens_from(b@, 0),
            out@.len() == done.len(),
            forall|k: int|
                0 <= k < out@.len() ==> {
                    &&& (#[trigger] out@[k]).0 as int == done[k].0
                    &&& out@[k].1 as int == done[k].1
                    &&& out@[k].0 <= out@[k].1 <= b@.len()
                    &&& aspect_token_ok(b@.subrange(out@[k].0 as int, out@[k].1 as int))
                },
        decreases b@.len() - i,
    {
        let s = skip_ws_at(b, i);
        if s >= b.len() {
            proof {
                assert(b@.subrange(s as int, b@.len() as int).len() == 0);
                assert(aspect_tokens_from(b@, i as int) == Seq::<(int, int)>::empty());
                assert(aspect_tokens_from(b@, b@.len() as int) == Seq::<(int, int)>::empty());
            }
            i = b.len();
        } else {
            let e = find_ws_in(b, s, b.len());
            proof {
                let sub = b@.subrange(s as int, b@.len() as int);
                assert(sub.subrange(0, sub.len() as int) =~= sub);
                assert(first_ws(sub, 0) == first_ws(sub, 1));
            }
            let ts = strip_parens_start_at(b, s, e);
            let te = strip_parens_end_at(b, ts, e);
            if is_aspect_token(b, ts, te, key) {
                out.push((ts, te));
                proof {
                    let rg = (ts as int, te as int);
                    done = done.push(rg);
                    assert(done + aspect_tokens_from(b@, e as int) =~= done.drop_last() + (seq![rg]
                        + aspect_tokens_from(b@, e as int)));
                }
            }
            i = e;
        }
    }
    proof {
        assert(aspect_tokens_from(b@, i as int) == Seq::<(int, int)>::empty()) by {
            assert(b@.subrange(i as int, b@.len() as int).len() == 0);
        }
        assert(done + aspect_tokens_from(b@, i as int) =~= done);
    }
    out
}

fn token_text(b: &[u8], s: usize, e: usize) -> (r: String)
    requires
        s <= e <= b@.len(),
        aspect_token_ok(b@.subrange(s as int, e as int)),
    ensures
        r@ == ascii_chars(b@.subrange(s as int, e as int)),
{
    let v = vstd::slice::slice_to_vec(vstd::slice::slice_subrange(b, s, e));
    assert(is_ascii_bytes(v@)) by {
        assert forall|i: int| 0 <= i < v@.len() implies v@[i] < 128 by {
            assert(is_word_byte(v@[i]));
        }
    }
    ascii_string(&v)
}

fn aspect_pair(asp: &str) -> (r: Option<(String, String)>)
    ensures
        match aspect_pair_spec(asp.spec_bytes()) {
            None => r is None,
            Some(p) => r matches Some(q) && q.0@ == p.0 && q.1@ == p.1,
        },
{
    let b = asp.as_bytes();
    let toks = aspect_tokens(b);
    if toks.len() == 0 {
        return None;
    }
    let strings = quoted_strings(asp);
    let a = token_text(b, toks[0].0, toks[0].1);
    if strings.len() > 0 {
        Some((a, strings[0].clone()))
    } else if toks.len() > 1 {
        let d = token_text(b, toks[1].0, toks[1].1);
        Some((a, d))
    } else {
        None
    }
}

/// The `(aspect, draw state)` pairs of the `SignalAspect ( … )` blocks of a
/// signal type block, in order (`SignalAspect ( STOP "Red" )` gives
/// `("STOP", "Red")`).
pub fn scan_aspects(block: &str) -> (r: Vec<(String, String)>)
    ensures
        r@.len() == aspects_of(
            keyword_block_texts(block.spec_bytes(), lit_bytes("SignalAspect"@)),
        ).len(),
        forall|k: int|
            0 <= k < r@.len() ==> {
                let p = aspects_of(
                    keyword_block_texts(block.spec_bytes(), lit_bytes("SignalAspect"@)),
                )[k];
                (#[trigger] r@[k]).0@ == p.0 && r@[k].1@ == p.1
            },
{
    proof {
        reveal_strlit("SignalAspect");
    }
    let ghost texts = keyword_block_texts(block.spec_bytes(), lit_bytes("SignalAspect"@));
    let blocks = find_keyword_blocks(block, "SignalAspect");
    assert("SignalAspect".spec_bytes() == lit_bytes("SignalAspect"@)) by {
        vstd::string::is_ascii_spec_bytes("SignalAspect");
        assert("SignalAspect".spec_bytes() =~= lit_bytes("SignalAspect"@));
    }
    let mut out: Vec<(String, String)> = Vec::new();
    let mut k: usize = 0;
    while k < blocks.len()
        invariant
            k <= blocks@.len(),
            texts == keyword_block_texts(block.spec_bytes(), lit_bytes("SignalAspect"@)),
            blocks@.len() == texts.len(),
            forall|j: int| 0 <= j < blocks@.len() ==> encode_utf8(#[trigger] blocks@[j]@) == texts[j],
            out@.len() == aspects_of(texts.subrange(0, k as int)).len(),
            forall|j: int|
                0 <= j < out@.len() ==> {
                    let p = aspects_of(texts.subrange(0, k as int))[j];
                    (#[trigger] out@[j]).0@ == p.0 && out@[j].1@ == p.1
                },
        decreases blocks@.len() - k,
    {
        let ghost pre = texts.subrange(0, k as int);
        let ghost next = texts.subrange(0, k + 1);
        assert(next.drop_last() =~= pre);
        assert(next.last() == texts[k as int]);
        match aspect_pair(blocks[k].as_str()) {
            Some(p) => {
                out.push(p);
            },
            None => {},
        }
        k = k + 1;
    }
    assert(texts.subrange(0, texts.len() as int) =~= texts);
    out
}


// ── lamps lit for an aspect ─────────────────────────────────────────────────

/// A lamp of a signal head: its index and `LightsTab` colour name.
#[derive(Clone, Debug, PartialEq)]
pub struct SignalLamp {
    pub index: u32,
    pub colour_name: String,
}

/// What choosing the lit lamps reads of a `SignalType`: its lamps, draw
/// states and `(aspect, draw state)` pairs.
#[derive(Clone, Debug, PartialEq)]
pub struct SignalTypeLamps {
    pub lights: Vec<SignalLamp>,
    pub draw_states: Vec<SignalDrawStateDef>,
    pub aspects: Vec<(String, String)>,
}

/// The aspect name (any case) is one of those of the coarse aspect
/// (0 = Stop, 1 = Caution, anything else = Clear).
pub open spec fn aspect_alias(name: Seq<u8>, aspect: u8) -> bool {
    let u = upper_seq(name);
    if aspect == 0 {
        u == lit_bytes("STOP"@) || u == lit_bytes("STOP_AND_PROCEED"@) || u == lit_bytes(
            "RESTRICTING"@,
        )
    } else if aspect == 1 {
        u == lit_bytes("APPROACH_1"@) || u == lit_bytes("APPROACH_2"@) || u == lit_bytes(
            "APPROACH_3"@,
        ) || u == lit_bytes("APPROACH"@)
    } else {
        u == lit_bytes("CLEAR_1"@) || u == lit_bytes("CLEAR_2"@) || u == lit_bytes("CLEAR"@)
    }
}

/// The colour word a lamp of the coarse aspect names: `red`, `amber`, `green`.
pub open spec fn aspect_colour(aspect: u8) -> Seq<u8> {
    if aspect == 0 {
        lit_bytes("red"@)
    } else if aspect == 1 {
        lit_bytes("amber"@)
    } else {
        lit_bytes("green"@)
    }
}

/// Index of the first draw state from `j` on named `name` (any case).
pub open spec fn state_named_from(states: Seq<SignalDrawStateDef>, name: Seq<u8>, j: int) -> Option<
    int,
>
    decreases states.len() - j,
{
    if j < 0 || j >= states.len() {
        None
    } else if eq_ignore_case(encode_utf8(states[j].name@), name) {
        Some(j)
    } else {
        state_named_from(states, name, j + 1)
    }
}

/// A draw state found by [`state_named_from`] is one of the states, from `j` on.
pub proof fn lemma_state_named_bounds(states: Seq<SignalDrawStateDef>, name: Seq<u8>, j: int)
    ensures
        state_named_from(states, name, j) matches Some(k) ==> 0 <= j <= k < states.len(),
    decreases states.len() - j,
{
    if 0 <= j < states.len() && !eq_ignore_case(encode_utf8(states[j].name@), name) {
        lemma_state_named_bounds(states, name, j + 1);
    }
}

/// The lamps of the first aspect pair from `i` on whose aspect is an alias
/// of `aspect` and whose draw state exists.
pub open spec fn lamps_from_aspects(t: SignalTypeLamps, aspect: u8, i: int) -> Option<Seq<u32>>
    decreases t.aspects@.len() - i,
{
    if i < 0 || i >= t.aspects@.len() {
        None
    } else if aspect_alias(encode_utf8(t.aspects@[i].0@), aspect) {
        match state_named_from(t.draw_states@, encode_utf8(t.aspects@[i].1@), 0) {
            Some(j) => Some(t.draw_states@[j].draw_lights@),
            None => lamps_from_aspects(t, aspect, i + 1),
        }
    } else {
        lamps_from_aspects(t, aspect, i + 1)
    }
}

/// Indices of the lamps whose colour name, lower-cased, contains `want`.
pub open spec fn lamps_coloured(lights: Seq<SignalLamp>, want: Seq<u8>) -> Seq<u32>
    decreases lights.len(),
{
    if lights.len() == 0 {
        seq![]
    } else {
        let rest = lamps_coloured(lights.drop_last(), want);
        if contains_seq(lower_seq(encode_utf8(lights.last().colour_name@)), want) {
            rest.push(lights.last().index)
        } else {
            rest
        }
    }
}

/// The lamps lit for a coarse aspect: those of the draw state that the
/// first matching aspect pair names, else the lamps of the aspect's colour.
pub open spec fn lit_lamps_spec(t: SignalTypeLamps, aspect: u8) -> Seq<u32> {
    match lamps_from_aspects(t, aspect, 0) {
        Some(l) => l,
        None => lamps_coloured(t.lights@, aspect_colour(aspect)),
    }
}

fn is_aspect_alias(name: &str, aspect: u8) -> (r: bool)
    ensures
        r == aspect_alias(name.spec_bytes(), aspect),
{
    proof {
        reveal_strlit("STOP");
        reveal_strlit("STOP_AND_PROCEED");
        reveal_strlit("RESTRICTING");
        reveal_strlit("APPROACH_1");
        reveal_strlit("APPROACH_2");
        reveal_strlit("APPROACH_3");
        reveal_strlit("APPROACH");
        reveal_strlit("CLEAR_1");
        reveal_strlit("CLEAR_2");
        reveal_strlit("CLEAR");
    }
    let b = name.as_bytes();
    if aspect == 0 {
        upper_eq(b, "STOP") || upper_eq(b, "STOP_AND_PROCEED") || upper_eq(b, "RESTRICTING")
    } else if aspect == 1 {
        upper_eq(b, "APPROACH_1") || upper_eq(b, "APPROACH_2") || upper_eq(b, "APPROACH_3")
            || upper_eq(b, "APPROACH")
    } else {
        upper_eq(b, "CLEAR_1") || upper_eq(b, "CLEAR_2") || upper_eq(b, "CLEAR")
    }
}

fn find_state_named(states: &Vec<SignalDrawStateDef>, name: &str) -> (r: Option<usize>)
    ensures
        r matches Some(k) ==> state_named_from(states@, name.spec_bytes(), 0) == Some(k as int)
            && k < states@.len(),
        r is None ==> state_named_from(states@, name.spec_bytes(), 0) is None,
{
    let n = name.as_bytes();
    let mut j: usize = 0;
    while j < states.len()
        invariant
            j <= states@.len(),
            n@ == name.spec_bytes(),
            state_named_from(states@, n@, 0) == state_named_from(states@, n@, j as int),
        decreases states@.len() - j,
    {
        let d = states[j].name.as_str().as_bytes();
        if d.len() == n.len() && matches_at_ignore_case(d, 0, n) {
            assert(d@.subrange(0, n@.len() as int) =~= d@);
            return Some(j);
        }
        assert(d@.len() == n@.len() ==> d@.subrange(0, n@.len() as int) =~= d@);
        j = j + 1;
    }
    None
}

fn copy_lamps(v: &Vec<u32>) -> (r: Vec<u32>)
    ensures
        r@ == v@,
{
    let mut r: Vec<u32> = Vec::new();
    let mut i: usize = 0;
    while i < v.len()
        invariant
            i <= v@.len(),
            r@ == v@.subrange(0, i as int),
        decreases v@.len() - i,
    {
        r.push(v[i]);
        i = i + 1;
        assert(r@ =~= v@.subrange(0, i as int));
    }
    assert(v@.subrange(0, v@.len() as int) =~= v@);
    r
}

/// Draw-light indices lit for a coarse aspect (0 = Stop, 1 = Caution,
/// anything else = Clear).
///
/// The first aspect pair whose aspect is one of the coarse aspect's names
/// (`STOP`, `STOP_AND_PROCEED`, `RESTRICTING`; `APPROACH_1`..`_3`,
/// `APPROACH`; `CLEAR_1`, `CLEAR_2`, `CLEAR`, any case) and whose draw state
/// exists gives that draw state's lights; failing that, the lamps whose
/// colour name contains `red`, `amber` or `green` (any case).
pub fn lit_light_indices_for_aspect(signal_type: &SignalTypeLamps, aspect_stop_caution_clear: u8) -> (r:
    Vec<u32>)
    ensures
        r@ == lit_lamps_spec(*signal_type, aspect_stop_caution_clear),
{
    let a = aspect_stop_caution_clear;
    let mut i: usize = 0;
    while i < signal_type.aspects.len()
        invariant
            i <= signal_type.aspects@.len(),
            a == aspect_stop_caution_clear,
            lamps_from_aspects(*signal_type, a, 0) == lamps_from_aspects(*signal_type, a, i as int),
        decreases signal_type.aspects@.len() - i,
    {
        let pair = &signal_type.aspects[i];
        let asp = pair.0.as_str();
        let ds = pair.1.as_str();
        if is_aspect_alias(asp, a) {
            proof {
                lemma_state_named_bounds(
                    signal_type.draw_states@,
                    encode_utf8(signal_type.aspects@[i as int].1@),
                    0,
                );
            }
            match find_state_named(&signal_type.draw_states, ds) {
                Some(j) => {
                    return copy_lamps(&signal_type.draw_states[j].draw_lights);
                },
                None => {},
            }
        }
        i = i + 1;
    }
    proof {
        reveal_strlit("red");
        reveal_strlit("amber");
        reveal_strlit("green");
    }
    let want: &str = if a == 0 {
        "red"
    } else if a == 1 {
        "amber"
    } else {
        "green"
    };
    assert(lit_bytes(want@) == aspect_colour(a));
    let mut out: Vec<u32> = Vec::new();
    let mut k: usize = 0;
    while k < signal_type.lights.len()
        invariant
            k <= signal_type.lights@.len(),
            lit_bytes(want@) == aspect_colour(a),
            vstd::utf8::is_ascii_chars(want@),
            out@ == lamps_coloured(signal_type.lights@.subrange(0, k as int), aspect_colour(a)),
        decreases signal_type.lights@.len() - k,
    {
        let ghost pre = signal_type.lights@.subrange(0, k as int);
        let ghost next = signal_type.lights@.subrange(0, k + 1);
        assert(next.drop_last() =~= pre);
        let lamp = &signal_type.lights[k];
        let lower = to_lower_vec(lamp.colour_name.as_str().as_bytes());
        if contains_lit(lower.as_slice(), want) {
            out.push(lamp.index);
        }
        k = k + 1;
    }
    assert(signal_type.lights@.subrange(0, signal_type.lights@.len() as int) =~= signal_type.lights@);
    out
}


/// When a signal type's first aspect pair names a stop aspect (`STOP`,
/// `STOP_AND_PROCEED` or `RESTRICTING`, in any case) and a draw state of
/// that name exists, the stop aspect lights that draw state's lamps.
pub proof fn lemma_stop_aspect_lamps(t: SignalTypeLamps, j: int)
    requires
        t.aspects@.len() > 0,
        ({
            let u = upper_seq(encode_utf8(t.aspects@[0].0@));
            u == lit_bytes("STOP"@) || u == lit_bytes("STOP_AND_PROCEED"@) || u == lit_bytes(
                "RESTRICTING"@,
            )
        }),
        state_named_from(t.draw_states@, encode_utf8(t.aspects@[0].1@), 0) == Some(j),
    ensures
        lit_light_lamps(t, 0, j),
{
    lemma_state_named_bounds(t.draw_states@, encode_utf8(t.aspects@[0].1@), 0);
    assert(aspect_alias(encode_utf8(t.aspects@[0].0@), 0u8));
    assert(lamps_from_aspects(t, 0u8, 0) == Some(t.draw_states@[j].draw_lights@));
}

/// When a signal type's first aspect pair names a caution aspect
/// (`APPROACH_1`, `APPROACH_2`, `APPROACH_3` or `APPROACH`, in any case) and
/// a draw state of that name exists, the caution aspect lights that draw
/// state's lamps.
pub proof fn lemma_caution_aspect_lamps(t: SignalTypeLamps, j: int)
    requires
        t.aspects@.len() > 0,
        ({
            let u = upper_seq(encode_utf8(t.aspects@[0].0@));
            u == lit_bytes("APPROACH_1"@) || u == lit_bytes("APPROACH_2"@) || u == lit_bytes(
                "APPROACH_3"@,
            ) || u == lit_bytes("APPROACH"@)
        }),
        state_named_from(t.draw_states@, encode_utf8(t.aspects@[0].1@), 0) == Some(j),
    ensures
        lit_light_lamps(t, 1, j),
{
    lemma_state_named_bounds(t.draw_states@, encode_utf8(t.aspects@[0].1@), 0);
    assert(aspect_alias(encode_utf8(t.aspects@[0].0@), 1u8));
    assert(lamps_from_aspects(t, 1u8, 0) == Some(t.draw_states@[j].draw_lights@));
}

/// When a signal type's first aspect pair names a clear aspect (`CLEAR_1`,
/// `CLEAR_2` or `CLEAR`, in any case) and a draw state of that name exists,
/// the clear aspect lights that draw state's lamps.
pub proof fn lemma_clear_aspect_lamps(t: SignalTypeLamps, j: int)
    requires
        t.aspects@.len() > 0,
        ({
            let u = upper_seq(encode_utf8(t.aspects@[0].0@));
            u == lit_bytes("CLEAR_1"@) || u == lit_bytes("CLEAR_2"@) || u == lit_bytes("CLEAR"@)
        }),
        state_named_from(t.draw_states@, encode_utf8(t.aspects@[0].1@), 0) == Some(j),
    ensures
        lit_light_lamps(t, 2, j),
{
    lemma_state_named_bounds(t.draw_states@, encode_utf8(t.aspects@[0].1@), 0);
    assert(aspect_alias(encode_utf8(t.aspects@[0].0@), 2u8));
    assert(lamps_from_aspects(t, 2u8, 0) == Some(t.draw_states@[j].draw_lights@));
}

/// The lamps lit for `aspect` are those of draw state `j`.
pub open spec fn lit_light_lamps(t: SignalTypeLamps, aspect: u8, j: int) -> bool {
    0 <= j < t.draw_states@.len() && lit_lamps_spec(t, aspect) == t.draw_states@[j].draw_lights@
}

/// Aspect pairs that are no alias of `aspect` are passed over when looking
/// for the lamps of `aspect`.
proof fn lemma_lamps_skip_others(t: SignalTypeLamps, aspect: u8, k: int, i: int)
    requires
        0 <= k <= i < t.aspects@.len(),
        forall|m: int|
            k <= m < i ==> !aspect_alias(encode_utf8(#[trigger] t.aspects@[m].0@), aspect),
    ensures
        lamps_from_aspects(t, aspect, k) == lamps_from_aspects(t, aspect, i),
    decreases i - k,
{
    if k < i {
        lemma_lamps_skip_others(t, aspect, k + 1, i);
    }
}

/// When aspect pair `i` of a signal type is the first that names a stop aspect (`STOP`,
/// `STOP_AND_PROCEED` or `RESTRICTING`, in any case) and a draw state of that name
/// exists, the stop aspect lights that draw state's lamps, whatever pairs come before it.
pub proof fn lemma_stop_aspect_lamps_at(t: SignalTypeLamps, i: int, j: int)
    requires
        0 <= i < t.aspects@.len(),
        forall|k: int|
            0 <= k < i ==> {
                let u = upper_seq(encode_utf8(#[trigger] t.aspects@[k].0@));
                !(u == lit_bytes("STOP"@)
                    || u == lit_bytes("STOP_AND_PROCEED"@)
                    || u == lit_bytes("RESTRICTING"@))
            },
        ({
            let u = upper_seq(encode_utf8(t.aspects@[i].0@));
            u == lit_bytes("STOP"@)
                || u == lit_bytes("STOP_AND_PROCEED"@)
                || u == lit_bytes("RESTRICTING"@)
        }),
        state_named_from(t.draw_states@, encode_utf8(t.aspects@[i].1@), 0) == Some(j),
    ensures
        lit_light_lamps(t, 0, j),
{
    lemma_state_named_bounds(t.draw_states@, encode_utf8(t.aspects@[i].1@), 0);
    assert forall|m: int| 0 <= m < i implies !aspect_alias(
        encode_utf8(#[trigger] t.aspects@[m].0@),
        0u8,
    ) by {}
    lemma_lamps_skip_others(t, 0u8, 0, i);
    assert(aspect_alias(encode_utf8(t.aspects@[i].0@), 0u8));
    assert(lamps_from_aspects(t, 0u8, i) == Some(t.draw_states@[j].draw_lights@));
}

/// When aspect pair `i` of a signal type is the first that names a caution aspect
/// (`APPROACH_1`, `APPROACH_2`, `APPROACH_3` or `APPROACH`, in any case) and a draw state
/// of that name exists, the caution aspect lights that draw state's lamps, whatever pairs
/// come before it.
pub proof fn lemma_caution_aspect_lamps_at(t: SignalTypeLamps, i: int, j: int)
    requires
        0 <= i < t.aspects@.len(),
        forall|k: int|
            0 <= k < i ==> {
                let u = upper_seq(encode_utf8(#[trigger] t.aspects@[k].0@));
                !(u == lit_bytes("APPROACH_1"@)
                    || u == lit_bytes("APPROACH_2"@)
                    || u == lit_bytes("APPROACH_3"@)
                    || u == lit_bytes("APPROACH"@))
            },
        ({
            let u = upper_seq(encode_utf8(t.aspects@[i].0@));
            u == lit_bytes("APPROACH_1"@)
                || u == lit_bytes("APPROACH_2"@)
                || u == lit_bytes("APPROACH_3"@)
                || u == lit_bytes("APPROACH"@)
        }),
        state_named_from(t.draw_states@, encode_utf8(t.aspects@[i].1@), 0) == Some(j),
    ensures
        lit_light_lamps(t, 1, j),
{
    lemma_state_named_bounds(t.draw_states@, encode_utf8(t.aspects@[i].1@), 0);
    assert forall|m: int| 0 <= m < i implies !aspect_alias(
        encode_utf8(#[trigger] t.aspects@[m].0@),
        1u8,
    ) by {}
    lemma_lamps_skip_others(t, 1u8, 0, i);
    assert(aspect_alias(encode_utf8(t.aspects@[i].0@), 1u8));
    assert(lamps_from_aspects(t, 1u8, i) == Some(t.draw_states@[j].draw_lights@));
}

/// When aspect pair `i` of a signal type is the first that names a clear aspect
/// (`CLEAR_1`, `CLEAR_2` or `CLEAR`, in any case) and a draw state of that name exists,
/// the clear aspect lights that draw state's lamps, whatever pairs come before it.
pub proof fn lemma_clear_aspect_lamps_at(t: SignalTypeLamps, i: int, j: int)
    requires
        0 <= i < t.aspects@.len(),
        forall|k: int|
            0 <= k < i ==> {
                let u = upper_seq(encode_utf8(#[trigger] t.aspects@[k].0@));
                !(u == lit_bytes("CLEAR_1"@)
                    || u == lit_bytes("CLEAR_2"@)
                    || u == lit_bytes("CLEAR"@))
            },
        ({
            let u = upper_seq(encode_utf8(t.aspects@[i].0@));
            u == lit_bytes("CLEAR_1"@) || u == lit_bytes("CLEAR_2"@) || u == lit_bytes("CLEAR"@)
        }),
        state_named_from(t.draw_states@, encode_utf8(t.aspects@[i].1@), 0) == Some(j),
    ensures
        lit_light_lamps(t, 2, j),
{
    lemma_state_named_bounds(t.draw_states@, encode_utf8(t.aspects@[i].1@), 0);
    assert forall|m: int| 0 <= m < i implies !aspect_alias(
        encode_utf8(#[trigger] t.aspects@[m].0@),
        2u8,
    ) by {}
    lemma_lamps_skip_others(t, 2u8, 0, i);
    assert(aspect_alias(encode_utf8(t.aspects@[i].0@), 2u8));
    assert(lamps_from_aspects(t, 2u8, i) == Some(t.draw_states@[j].draw_lights@));
}

} // verus!
