//! Track section (`tsection.dat`) text scanning helpers.
use vstd::prelude::*;
use vstd::string::StringSliceAdditionalSpecFns;

use vstd::utf8::*;

use crate::ascii::{ascii_lit_bytes, ends_with, ends_with_lit, lit_bytes};
use crate::parser::{first_spec, parse_first, SExpr, SExprV};
use crate::trim::{find_byte, find_seq, first_byte, first_occurrence, lemma_first_byte_bounds, trim_spec};
use crate::typed::world::ascii_space;
use crate::utf8_bounds::{lemma_ascii_boundary, trimmed_string};

verus! {

/// A byte that may stand next to a tag: ASCII whitespace or a parenthesis.
pub open spec fn tag_fence(c: u8) -> bool {
    ascii_space(c) || c == 40u8 || c == 41u8
}

/// The `len` bytes at `start` stand alone: the text starts or a fence byte
/// comes before them, and the text ends or a fence byte comes after them.
pub open spec fn tag_at_boundary_spec(b: Seq<u8>, start: int, len: int) -> bool {
    (start == 0 || tag_fence(b[start - 1])) && (start + len >= b.len() || tag_fence(b[start + len]))
}

fn tag_fence_exec(c: u8) -> (r: bool)
    ensures
        r == tag_fence(c),
{
    c == 32 || c == 9 || c == 10 || c == 12 || c == 13 || c == 40u8 || c == 41u8
}

/// The tag occupying `text[start..start + len]` is delimited by whitespace,
/// parentheses or the ends of the text.
pub fn tag_at_boundary(text: &str, start: usize, len: usize) -> (r: bool)
    requires
        start <= text.spec_bytes().len(),
        start + len <= usize::MAX,
    ensures
        r == tag_at_boundary_spec(text.spec_bytes(), start as int, len as int),
{
    let b = text.as_bytes();
    let before_ok = start == 0 || tag_fence_exec(b[start - 1]);
    let end = start + len;
    let after_ok = end >= b.len() || tag_fence_exec(b[end]);
    before_ok && after_ok
}

/// A shape file name: ends with `.s` or `.S`.
pub fn is_shape_file_name(name: &str) -> (r: bool)
    ensures
        r == (ends_with(name.spec_bytes(), lit_bytes(".s"@)) || ends_with(
            name.spec_bytes(),
            lit_bytes(".S"@),
        )),
{
    proof {
        reveal_strlit(".s");
        reveal_strlit(".S");
    }
    let b = name.as_bytes();
    ends_with_lit(b, ".s") || ends_with_lit(b, ".S")
}


/// Bytes of `include`.
pub open spec fn include_key() -> Seq<u8> {
    lit_bytes("include"@)
}

/// The text of a string or symbol.
pub open spec fn atom_text(e: SExprV) -> Option<Seq<char>> {
    match e {
        SExprV::Symbol(s) => Some(s),
        SExprV::Str(s) => Some(s),
        _ => None,
    }
}

/// The file an `include ( … )` list names: its first item when that is a
/// string or symbol; when the first item is a list, that list's second item
/// (or its only one) when a string or symbol.
pub open spec fn include_target(items: Seq<SExprV>) -> Option<Seq<char>> {
    if items.len() == 0 {
        None
    } else {
        match items[0] {
            SExprV::List(inner) => if inner.len() > 1 {
                atom_text(inner[1])
            } else if inner.len() == 1 {
                atom_text(inner[0])
            } else {
                None
            },
            e => atom_text(e),
        }
    }
}

/// The trimmed include targets of `b` from `pos` on, as UTF-8 bytes.
///
/// Each `include` that stands alone as a tag is followed to the next `(`; the
/// expression read there, when it is a list, may name a target. The scan then
/// resumes after that `(` (after the tag when the tag does not stand alone,
/// one byte on when no `(` follows).
pub open spec fn includes_from(b: Seq<u8>, pos: int) -> Seq<Seq<u8>>
    decreases b.len() + 1 - pos,
{
    match first_occurrence(b, include_key(), pos) {
        None => seq![],
        Some(abs) => if !(0 <= pos <= abs && abs + 7 <= b.len()) {
            seq![]
        } else if !tag_at_boundary_spec(b, abs, 7) {
            includes_from(b, abs + 7)
        } else {
            match first_byte(b, 40u8, abs + 7) {
                None => includes_from(b, abs + 1),
                Some(open) => if !(abs + 7 <= open < b.len()) {
                    seq![]
                } else {
                    let here = match first_spec(b.subrange(open, b.len() as int)) {
                        Ok(SExprV::List(items)) => match include_target(items) {
                            Some(t) => seq![trim_spec(encode_utf8(t))],
                            None => seq![],
                        },
                        _ => seq![],
                    };
                    here + includes_from(b, open + 1)
                },
            }
        },
    }
}

/// A match found by `first_occurrence` lies at or after `from`, inside `a`.
proof fn lemma_first_occurrence_bounds(a: Seq<u8>, k: Seq<u8>, from: int)
    ensures
        first_occurrence(a, k, from) matches Some(i) ==> from <= i && i + k.len() <= a.len()
            && a.subrange(i, i + k.len()) == k,
    decreases a.len() + 1 - from,
{
    if from + k.len() <= a.len() && !crate::trim::occurs_at(a, k, from) {
        lemma_first_occurrence_bounds(a, k, from + 1);
    }
}

fn atom_string(e: &SExpr) -> (r: Option<String>)
    ensures
        match atom_text(e.view_v()) {
            Some(t) => r matches Some(s) && s@ == t,
            None => r is None,
        },
{
    match e {
        SExpr::Symbol(s) => Some(s.clone()),
        SExpr::Str(s) => Some(s.clone()),
        _ => None,
    }
}

fn include_target_of(items: &Vec<SExpr>) -> (r: Option<String>)
    ensures
        match include_target(crate::parser::views(items@)) {
            Some(t) => r matches Some(s) && s@ == t,
            None => r is None,
        },
{
    if items.len() == 0 {
        return None;
    }
    let first = &items[0];
    assert(crate::parser::views(items@)[0] == first.view_v());
    match first {
        SExpr::List(inner) => {
            if inner.len() > 1 {
                atom_string(&inner[1])
            } else if inner.len() == 1 {
                atom_string(&inner[0])
            } else {
                None
            }
        },
        _ => atom_string(first),
    }
}

/// The files the `include ( … )` directives of a text name, trimmed, in
/// order (the caller resolves them against the including file's folder).
pub fn scan_includes(text: &str) -> (r: Vec<String>)
    ensures
        r@.len() == includes_from(text.spec_bytes(), 0).len(),
        forall|k: int|
            0 <= k < r@.len() ==> encode_utf8(#[trigger] r@[k]@) == includes_from(
                text.spec_bytes(),
                0,
            )[k],
{
    let b = text.as_bytes();
    proof {
        reveal_strlit("include");
        encode_utf8_valid_utf8(text@);
    }
    let key = ascii_lit_bytes("include");
    let mut out: Vec<String> = Vec::new();
    let ghost mut done: Seq<Seq<u8>> = seq![];
    let mut pos: usize = 0;
    while pos <= b.len()
        invariant
            pos <= b@.len() + 1,
            b@ == text.spec_bytes(),
            valid_utf8(b@),
            key@ == include_key(),
            include_key().len() == 7,
            done + includes_from(b@, pos as int) == includes_from(b@, 0),
            out@.len() == done.len(),
            forall|k: int| 0 <= k < out@.len() ==> encode_utf8(#[trigger] out@[k]@) == done[k],
        ensures
            done == includes_from(b@, 0),
            out@.len() == done.len(),
            forall|k: int| 0 <= k < out@.len() ==> encode_utf8(#[trigger] out@[k]@) == done[k],
        decreases b@.len() + 1 - pos,
    {
        proof {
            lemma_first_occurrence_bounds(b@, key@, pos as int);
        }
        let abs = match find_seq(b, pos, key) {
            None => {
                assert(done + includes_from(b@, pos as int) =~= done);
                break;
            },
            Some(a) => a,
        };
        if !tag_at_boundary(text, abs, 7) {
            pos = abs + 7;
            continue;
        }
        proof {
            lemma_first_byte_bounds(b@, 40u8, abs + 7);
        }
        let open = match find_byte(b, abs + 7, 40u8) {
            None => {
                pos = abs + 1;
                continue;
            },
            Some(o) => o,
        };
        proof {
            lemma_ascii_boundary(b@, open as int);
        }
        let (_, rest) = text.split_at(open);
        assert(rest.spec_bytes() == b@.subrange(open as int, b@.len() as int));
        let ghost here: Seq<Seq<u8>> = match first_spec(b@.subrange(open as int, b@.len() as int)) {
            Ok(SExprV::List(items)) => match include_target(items) {
                Some(t) => seq![trim_spec(encode_utf8(t))],
                None => seq![],
            },
            _ => seq![],
        };
        match parse_first(rest) {
            Ok(SExpr::List(items)) => {
                assert(crate::parser::views(items@) =~= match SExpr::List(items).view_v() {
                    SExprV::List(v) => v,
                    _ => seq![],
                });
                match include_target_of(&items) {
                    Some(t) => {
                        let trimmed = trimmed_string(t.as_str());
                        out.push(trimmed);
                        proof {
                            done = done.push(here[0]);
                        }
                    },
                    None => {},
                }
            },
            _ => {},
        }
        proof {
            assert(done + includes_from(b@, open + 1) =~= (done.subrange(
                0,
                done.len() - here.len(),
            ) + (here + includes_from(b@, open + 1))));
        }
        pos = open + 1;
    }
    out
}


/// A track shape is a junction when it has more than one path or names a
/// main route (`MainRoute`).
pub fn is_junction(path_count: usize, main_route: Option<u32>) -> (r: bool)
    ensures
        r == (path_count > 1 || main_route is Some),
{
    path_count > 1 || main_route.is_some()
}

/// Paths of a track shape that procedural track follows: the main route
/// alone when it names one of the paths, else every path in order.
pub open spec fn procedural_paths_spec(path_count: nat, main_route: Option<u32>) -> Seq<usize> {
    match main_route {
        Some(m) if (m as nat) < path_count => seq![m as usize],
        _ => Seq::new(path_count, |i: int| i as usize),
    }
}

/// Indices of the paths procedural track follows (see [`procedural_paths_spec`]).
pub fn procedural_path_indices(path_count: usize, main_route: Option<u32>) -> (r: Vec<usize>)
    ensures
        r@ == procedural_paths_spec(path_count as nat, main_route),
{
    if let Some(main) = main_route {
        let idx = main as usize;
        if idx < path_count {
            return vec![idx];
        }
    }
    let mut out: Vec<usize> = Vec::new();
    let mut i: usize = 0;
    while i < path_count
        invariant
            i <= path_count,
            out@ == Seq::new(i as nat, |k: int| k as usize),
        decreases path_count - i,
    {
        out.push(i);
        i = i + 1;
        assert(out@ =~= Seq::new(i as nat, |k: int| k as usize));
    }
    out
}

} // verus!
