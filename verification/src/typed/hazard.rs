//! MSTS / Open Rails `.haz` hazard definition files.
//!
//! A WORLD `Hazard` object names a `.haz` file; the hazard file's
//! `Tr_Worldfile` block names the shape (`FileName ( crowhaz1.s )`).
use vstd::prelude::*;
use vstd::string::StringSliceAdditionalSpecFns;
use vstd::utf8::*;

use crate::ascii::{ascii_lit_bytes, ends_with, ends_with_lit, lit_bytes, lower_seq, to_lower_vec};
use crate::trim::{
    find_byte, find_byte_in, lead_ws_len, find_ignore_case, find_ws_in, first_byte, first_ci, first_ws, lower_byte,
    lemma_first_byte_bounds, lemma_first_ci_bounds, trim_end_spec, trim_end_to, trim_spec,
    trim_start_from, trim_start_spec,
};
use crate::utf8_bounds::{
    lemma_ascii_boundary, lemma_boundary_at, lemma_slice_valid, lemma_trim_end_cut,
    lemma_trim_start_boundary, trimmed_string, utf8_string,
};

verus! {

/// Parsed hazard file (the visual fields).
#[derive(Clone, Debug, PartialEq, Eq)]
pub struct HazardFile {
    /// Shape file named by `Tr_Worldfile` / `FileName` (e.g. `crowhaz1.s`).
    pub file_name: String,
}

/// Bytes of `filename`.
pub open spec fn filename_key() -> Seq<u8> {
    lit_bytes("filename"@)
}

/// The name given in ` ( name )` or ` ( "name" )` after position `p`.
///
/// The first `(` at or after `p` and the next `)` enclose the argument text;
/// after trimming, a quoted argument yields the text up to its closing quote,
/// an unquoted one its first whitespace-separated word; an empty result is none.
pub open spec fn filename_args_spec(b: Seq<u8>, p: int) -> Option<Seq<u8>> {
    match first_byte(b, 40u8, p) {
        None => None,
        Some(open) => match first_byte(b, 41u8, open + 1) {
            None => None,
            Some(close) => {
                let inner = trim_spec(b.subrange(open + 1, close));
                if inner.len() == 0 {
                    None
                } else if inner[0] == 34u8 {
                    let st = inner.subrange(1, inner.len() as int);
                    match first_byte(st, 34u8, 0) {
                        None => None,
                        Some(e) => if e == 0 {
                            None
                        } else {
                            Some(st.subrange(0, e))
                        },
                    }
                } else {
                    let e = first_ws(inner, 0);
                    if e == 0 {
                        None
                    } else {
                        Some(inner.subrange(0, e))
                    }
                }
            },
        },
    }
}

/// The first `FileName` (any case) at or after `from` whose arguments give a name.
pub open spec fn scan_filename_spec(b: Seq<u8>, from: int) -> Option<Seq<u8>>
    decreases b.len() + 1 - from,
{
    match first_ci(b, filename_key(), from) {
        None => None,
        Some(idx) => match filename_args_spec(b, idx + 8) {
            Some(n) => Some(n),
            None => if from < idx + 8 <= b.len() {
                scan_filename_spec(b, idx + 8)
            } else {
                None
            },
        },
    }
}

/// Where the search for `FileName` starts: the first `Tr_Worldfile`, else the
/// first `Tr_HazardFile` (any case), else the start of the text.
pub open spec fn hazard_search_start(b: Seq<u8>) -> int {
    match first_ci(b, lit_bytes("tr_worldfile"@), 0) {
        Some(i) => i,
        None => match first_ci(b, lit_bytes("tr_hazardfile"@), 0) {
            Some(i) => i,
            None => 0,
        },
    }
}

/// The shape name a hazard file's text gives, as UTF-8 bytes: the first
/// named `FileName` of the text from the search start on.
pub open spec fn hazard_name_spec(b: Seq<u8>) -> Option<Seq<u8>> {
    scan_filename_spec(b.subrange(hazard_search_start(b), b.len() as int), 0)
}

/// Byte range of the name in ` ( name )` after `p`; both ends are character boundaries.
fn parse_filename_args(b: &[u8], p: usize) -> (r: Option<(usize, usize)>)
    requires
        valid_utf8(b@),
        p <= b@.len(),
    ensures
        r is Some <==> filename_args_spec(b@, p as int) is Some,
        r matches Some((s, e)) ==> s <= e <= b@.len() && b@.subrange(s as int, e as int)
            == filename_args_spec(b@, p as int).unwrap() && is_char_boundary(b@, s as int)
            && is_char_boundary(b@, e as int),
{
    proof {
        lemma_first_byte_bounds(b@, 40u8, p as int);
    }
    assert(b@.len() == b.len());
    let open = match find_byte(b, p, 40u8) {
        None => return None,
        Some(o) => o,
    };
    proof {
        lemma_first_byte_bounds(b@, 41u8, open + 1);
        lemma_ascii_boundary(b@, open as int);
    }
    let close = match find_byte(b, open + 1, 41u8) {
        None => return None,
        Some(c) => c,
    };
    let ghost sub = b@.subrange(open + 1, close as int);
    let s = trim_start_from(b, open + 1, close);
    let e = trim_end_to(b, s, close);
    proof {
        lemma_ascii_boundary(b@, close as int);
        lemma_trim_start_boundary(b@, open + 1, close as int);
        assert(trim_start_spec(sub).len() == close - s);
        lemma_trim_end_cut(b@.subrange(s as int, close as int));
        if e < close {
            assert(b@.subrange(s as int, close as int)[e - s] == b@[e as int]);
        }
        lemma_boundary_at(b@, e as int);
        assert(b@.subrange(s as int, e as int) == trim_spec(sub));
    }
    let ghost inner = b@.subrange(s as int, e as int);
    if s == e {
        return None;
    }
    assert(inner[0] == b@[s as int]);
    if b[s] == 34u8 {
        proof {
            lemma_ascii_boundary(b@, s as int);
            assert(inner.subrange(1, inner.len() as int) =~= b@.subrange(s + 1, e as int));
            lemma_first_byte_bounds(b@.subrange(s + 1, e as int), 34u8, 0);
        }
        match find_byte_in(b, s + 1, e, 34u8) {
            None => None,
            Some(q) => {
                if q == s + 1 {
                    None
                } else {
                    proof {
                        lemma_ascii_boundary(b@, q as int);
                        assert(b@.subrange(s + 1, e as int).subrange(0, q - s - 1) =~= b@.subrange(
                            s + 1,
                            q as int,
                        ));
                    }
                    Some((s + 1, q))
                }
            },
        }
    } else {
        let w = find_ws_in(b, s, e);
        if w == s {
            None
        } else {
            proof {
                lemma_ascii_boundary(b@, open as int);
                if w < e {
                    assert(inner.subrange(w - s, inner.len() as int) =~= b@.subrange(
                        w as int,
                        e as int,
                    ));
                    assert(b@.subrange(w as int, e as int)[0] == b@[w as int]);
                    assert(lead_ws_len(b@.subrange(w as int, e as int)) > 0);
                    lemma_boundary_at(b@, w as int);
                }
                assert(inner.subrange(0, w - s) =~= b@.subrange(s as int, w as int));
            }
            Some((s, w))
        }
    }
}

/// The name in the arguments of the first `FileName` (any case) of `text`
/// that has one, e.g. `FileName ( crowhaz1.s )`.
fn scan_filename(text: &str) -> (r: Option<String>)
    ensures
        r is Some <==> scan_filename_spec(text.spec_bytes(), 0) is Some,
        r matches Some(n) ==> n@ == decode_utf8(scan_filename_spec(text.spec_bytes(), 0).unwrap()),
{
    let b = text.as_bytes();
    proof {
        reveal_strlit("filename");
        encode_utf8_valid_utf8(text@);
    }
    let key = ascii_lit_bytes("filename");
    let mut from: usize = 0;
    while from <= b.len()
        invariant
            from <= b@.len() + 1,
            valid_utf8(b@),
            b@ == text.spec_bytes(),
            key@ == filename_key(),
            filename_key().len() == 8,
            scan_filename_spec(b@, 0) == scan_filename_spec(b@, from as int),
        decreases b@.len() + 1 - from,
    {
        proof {
            lemma_first_ci_bounds(b@, filename_key(), from as int);
        }
        let idx = match find_ignore_case(b, from, key) {
            None => return None,
            Some(i) => i,
        };
        match parse_filename_args(b, idx + 8) {
            Some((s, e)) => {
                proof {
                    lemma_slice_valid(b@, s as int, e as int);
                }
                let name = utf8_string(vstd::slice::slice_subrange(b, s, e));
                return Some(name);
            },
            None => {
                from = idx + 8;
            },
        }
    }
    None
}

impl HazardFile {
    /// Shape `FileName` inside `Tr_Worldfile` (or `Tr_HazardFile`) of decoded hazard text.
    ///
    /// The search starts at the first `Tr_Worldfile`, else `Tr_HazardFile`
    /// (case-insensitive), else at the start; the first `FileName` whose
    /// ` ( … )` holds a name wins.
    pub fn from_text(text: &str) -> (r: Option<Self>)
        ensures
            r is Some <==> hazard_name_spec(text.spec_bytes()) is Some,
            r matches Some(h) ==> h.file_name@ == decode_utf8(
                hazard_name_spec(text.spec_bytes()).unwrap(),
            ),
    {
        let b = text.as_bytes();
        proof {
            reveal_strlit("tr_worldfile");
            reveal_strlit("tr_hazardfile");
            encode_utf8_valid_utf8(text@);
            lemma_first_ci_bounds(b@, lit_bytes("tr_worldfile"@), 0);
            lemma_first_ci_bounds(b@, lit_bytes("tr_hazardfile"@), 0);
        }
        let wk = ascii_lit_bytes("tr_worldfile");
        let hk = ascii_lit_bytes("tr_hazardfile");
        let r1 = find_ignore_case(b, 0, wk);
        let r2 = find_ignore_case(b, 0, hk);
        let start = match r1 {
            Some(i) => {
                assert(first_ci(b@, wk@, 0) == Some(i as int));
                assert(lower_byte(b@.subrange(i as int, i + 12)[0]) == lower_byte(wk@[0]));
                proof {
                    lemma_ascii_boundary(b@, i as int);
                }
                i
            },
            None => match r2 {
                Some(i) => {
                    assert(first_ci(b@, wk@, 0) is None);
                    assert(first_ci(b@, hk@, 0) == Some(i as int));
                    assert(lower_byte(b@.subrange(i as int, i + 13)[0]) == lower_byte(hk@[0]));
                    proof {
                        lemma_ascii_boundary(b@, i as int);
                    }
                    i
                },
                None => 0,
            },
        };
        assert(wk@ == lit_bytes("tr_worldfile"@));
        assert(hk@ == lit_bytes("tr_hazardfile"@));
        assert(start as int == hazard_search_start(b@));
        assert(is_char_boundary(b@, start as int));
        let (_, search) = text.split_at(start);
        match scan_filename(search) {
            None => None,
            Some(file_name) => Some(HazardFile { file_name }),
        }
    }
}


/// What a WORLD hazard reference asks for before any file is read.
#[derive(Debug, PartialEq)]
pub enum HazardNameStep {
    /// The trimmed reference is empty: no shape.
    Empty,
    /// The trimmed reference already names a shape (`.s`, any case).
    Shape(String),
    /// The trimmed reference names a `.haz` file to read.
    Lookup(String),
}

/// The decision on a WORLD hazard reference before any file is read: the
/// reference is trimmed; empty gives no shape, a `.s` name (any case) is the
/// shape itself, anything else is the hazard file to read.
pub fn hazard_name_step(haz_file: &str) -> (r: HazardNameStep)
    ensures
        ({
            let t = trim_spec(haz_file.spec_bytes());
            if t.len() == 0 {
                r is Empty
            } else if ends_with(lower_seq(t), lit_bytes(".s"@)) {
                r matches HazardNameStep::Shape(s) && encode_utf8(s@) == t
            } else {
                r matches HazardNameStep::Lookup(s) && encode_utf8(s@) == t
            }
        }),
{
    let t = trimmed_string(haz_file);
    let b = t.as_str().as_bytes();
    if b.len() == 0 {
        return HazardNameStep::Empty;
    }
    let lower = to_lower_vec(b);
    proof {
        reveal_strlit(".s");
    }
    if ends_with_lit(lower.as_slice(), ".s") {
        HazardNameStep::Shape(t)
    } else {
        HazardNameStep::Lookup(t)
    }
}

} // verus!
