//! WORLD (`.w`) file records and the text normalisation applied before parsing.
use vstd::prelude::*;
use vstd::string::StringSliceAdditionalSpecFns;
use vstd::utf8::*;

use crate::ascii::{lit_bytes, lower_eq, lower_seq};
use crate::utf8_bounds::{
    byte_char, byte_chars, lemma_encode_utf8_concat, push_byte_char, push_byte_chars,
    string_of_encoding,
};

verus! {

/// `(db, item_id)` from WORLD `TrItemId` (db 0 = TDB, db 1 = RDB).
#[derive(Clone, Copy, Debug, PartialEq, Eq)]
pub struct WorldTrItemRef {
    pub db: u32,
    pub item_id: u32,
}

/// One WORLD `SignalUnit ( SubObj ( TrItemId db itemId ) )` entry.
#[derive(Clone, Debug, PartialEq, Eq)]
pub struct SignalUnitRef {
    /// Index into `sigcfg` `SignalShape.SignalSubObjs`.
    pub sub_obj: u32,
    /// TDB `TrItem` id for this head.
    pub tr_item_id: u32,
}

/// First byte of a bare symbol: `[A-Za-z_]`.
pub open spec fn sym_start(c: u8) -> bool {
    (65 <= c <= 90) || (97 <= c <= 122) || c == 95
}

/// Later bytes of a bare symbol: `[A-Za-z0-9_.-]`.
pub open spec fn sym_continue(c: u8) -> bool {
    (48 <= c <= 57) || (65 <= c <= 90) || (97 <= c <= 122) || c == 95 || c == 45 || c == 46
}

/// `u8::is_ascii_whitespace`: space, tab, line feed, form feed, carriage return.
pub open spec fn ascii_space(c: u8) -> bool {
    c == 32 || c == 9 || c == 10 || c == 12 || c == 13
}

/// End of the run of symbol bytes that starts at `i`.
pub open spec fn sym_end(b: Seq<u8>, i: int) -> int
    decreases b.len() - i,
{
    if 0 <= i < b.len() && sym_continue(b[i]) {
        sym_end(b, i + 1)
    } else {
        i
    }
}

/// End of the run of ASCII whitespace that starts at `i`.
pub open spec fn space_end(b: Seq<u8>, i: int) -> int
    decreases b.len() - i,
{
    if 0 <= i < b.len() && ascii_space(b[i]) {
        space_end(b, i + 1)
    } else {
        i
    }
}

/// Normalised text of `b` from `i` on, given whether a string is open and the
/// last non-whitespace byte written.
///
/// Outside strings, a bare symbol followed (after ASCII whitespace) by `(`
/// becomes `( symbol ` unless the last byte written was already `(`; every
/// other byte is copied as the character of the same code.
pub open spec fn normalize_from(b: Seq<u8>, i: int, in_string: bool, prev: Option<u8>) -> Seq<char>
    decreases b.len() - i,
{
    if i < 0 || i >= b.len() {
        seq![]
    } else if b[i] == 34u8 {
        seq![byte_char(34u8)] + normalize_from(b, i + 1, !in_string, Some(34u8))
    } else if !in_string && sym_start(b[i]) {
        let end = sym_end(b, i + 1);
        let j = space_end(b, end);
        if !(i < end <= j <= b.len()) {
            seq![]
        } else if j < b.len() && b[j] == 40u8 && prev != Some(40u8) {
            seq![byte_char(40u8), byte_char(32u8)] + byte_chars(b.subrange(i, end)) + seq![
                byte_char(32u8),
            ] + normalize_from(b, j + 1, in_string, Some(40u8))
        } else {
            byte_chars(b.subrange(i, end)) + normalize_from(b, end, in_string, Some(b[end - 1]))
        }
    } else {
        seq![byte_char(b[i])] + normalize_from(
            b,
            i + 1,
            in_string,
            if ascii_space(b[i]) {
                prev
            } else {
                Some(b[i])
            },
        )
    }
}

fn is_symbol_start(c: u8) -> (r: bool)
    ensures
        r == sym_start(c),
{
    (65 <= c && c <= 90) || (97 <= c && c <= 122) || c == 95
}

fn is_symbol_continue(c: u8) -> (r: bool)
    ensures
        r == sym_continue(c),
{
    (48 <= c && c <= 57) || (65 <= c && c <= 90) || (97 <= c && c <= 122) || c == 95 || c == 45
        || c == 46
}

fn ascii_space_exec(c: u8) -> (r: bool)
    ensures
        r == ascii_space(c),
{
    c == 32 || c == 9 || c == 10 || c == 12 || c == 13
}

/// Rewrite JINX-style `Name ( … )` openers as canonical `( Name … )` blocks.
///
/// Strings, already-canonical blocks and scalar values are left as they are.
pub fn normalize_world_text(source: &str) -> (r: String)
    ensures
        r@ == normalize_from(source.spec_bytes(), 0, false, None),
{
    let b = source.as_bytes();
    let mut out: Vec<u8> = Vec::new();
    let ghost mut written: Seq<char> = seq![];
    let mut i: usize = 0;
    let mut in_string = false;
    let mut prev: Option<u8> = None;
    while i < b.len()
        invariant
            i <= b@.len(),
            b@ == source.spec_bytes(),
            out@ == encode_utf8(written),
            written + normalize_from(b@, i as int, in_string, prev) == normalize_from(
                b@,
                0,
                false,
                None,
            ),
        decreases b@.len() - i,
    {
        let c = b[i];
        if c == 34u8 {
            push_byte_char(&mut out, c);
            proof {
                lemma_encode_utf8_concat(written, seq![byte_char(c)]);
                let rest = normalize_from(b@, i + 1, !in_string, Some(34u8));
                assert(written + (seq![byte_char(c)] + rest) =~= (written + seq![byte_char(c)]) + rest);
                written = written + seq![byte_char(c)];
            }
            in_string = !in_string;
            prev = Some(c);
            i = i + 1;
        } else if !in_string && is_symbol_start(c) {
            let start = i;
            let mut end = i + 1;
            while end < b.len() && is_symbol_continue(b[end])
                invariant
                    start < end <= b@.len(),
                    sym_end(b@, start + 1) == sym_end(b@, end as int),
                decreases b@.len() - end,
            {
                end = end + 1;
            }
            let mut j = end;
            while j < b.len() && ascii_space_exec(b[j])
                invariant
                    end <= j <= b@.len(),
                    space_end(b@, end as int) == space_end(b@, j as int),
                decreases b@.len() - j,
            {
                j = j + 1;
            }
            let ghost sym = byte_chars(b@.subrange(start as int, end as int));
            if j < b.len() && b[j] == 40u8 && prev != Some(40u8) {
                push_byte_char(&mut out, 40u8);
                push_byte_char(&mut out, 32u8);
                push_byte_chars(&mut out, b, start, end);
                push_byte_char(&mut out, 32u8);
                proof {
                    let head = seq![byte_char(40u8), byte_char(32u8)] + sym + seq![byte_char(32u8)];
                    lemma_encode_utf8_concat(written, seq![byte_char(40u8)]);
                    lemma_encode_utf8_concat(written + seq![byte_char(40u8)], seq![byte_char(32u8)]);
                    lemma_encode_utf8_concat(
                        written + seq![byte_char(40u8)] + seq![byte_char(32u8)],
                        sym,
                    );
                    lemma_encode_utf8_concat(
                        written + seq![byte_char(40u8)] + seq![byte_char(32u8)] + sym,
                        seq![byte_char(32u8)],
                    );
                    assert(written + seq![byte_char(40u8)] + seq![byte_char(32u8)] + sym + seq![
                        byte_char(32u8),
                    ] =~= written + head);
                    let rest = normalize_from(b@, j + 1, in_string, Some(40u8));
                    assert(written + (head + rest) =~= (written + head) + rest);
                    written = written + head;
                }
                prev = Some(40u8);
                i = j + 1;
            } else {
                push_byte_chars(&mut out, b, start, end);
                proof {
                    lemma_encode_utf8_concat(written, sym);
                    let rest = normalize_from(b@, end as int, in_string, Some(b@[end - 1]));
                    assert(written + (sym + rest) =~= (written + sym) + rest);
                    written = written + sym;
                }
                prev = Some(b[end - 1]);
                i = end;
            }
        } else {
            push_byte_char(&mut out, c);
            proof {
                lemma_encode_utf8_concat(written, seq![byte_char(c)]);
                let np = if ascii_space(c) {
                    prev
                } else {
                    Some(c)
                };
                let rest = normalize_from(b@, i + 1, in_string, np);
                assert(written + (seq![byte_char(c)] + rest) =~= (written + seq![byte_char(c)]) + rest);
                written = written + seq![byte_char(c)];
            }
            if !ascii_space_exec(c) {
                prev = Some(c);
            }
            i = i + 1;
        }
    }
    proof {
        assert(written + normalize_from(b@, i as int, in_string, prev) =~= written);
    }
    string_of_encoding(&out, Ghost(written))
}

/// `tag` equals the lower-case ASCII literal `lit`, ignoring ASCII case.
pub open spec fn tag_is(tag: Seq<u8>, lit: Seq<char>) -> bool {
    lower_seq(tag) == lit_bytes(lit)
}

/// Shape-bearing WORLD kinds that Open Rails refuses without Matrix3x3/QDirection.
pub open spec fn requires_orientation_spec(t: Seq<u8>) -> bool {
    tag_is(t, "static"@) || tag_is(t, "trackobj"@) || tag_is(t, "dyntrack"@) || tag_is(t, "signal"@)
        || tag_is(t, "speedpost"@) || tag_is(t, "soundregion"@) || tag_is(t, "transfer"@)
        || tag_is(t, "carspawner"@) || tag_is(t, "pickup"@) || tag_is(t, "hazard"@) || tag_is(
        t,
        "platform"@,
    ) || tag_is(t, "siding"@)
}

/// Shape-bearing WORLD kinds that Open Rails refuses without Matrix3x3/QDirection.
pub fn world_tag_requires_orientation(tag: &str) -> (r: bool)
    ensures
        r == requires_orientation_spec(tag.spec_bytes()),
{
    let t = tag.as_bytes();
    proof {
        reveal_strlit("static");
        reveal_strlit("trackobj");
        reveal_strlit("dyntrack");
        reveal_strlit("signal");
        reveal_strlit("speedpost");
        reveal_strlit("soundregion");
        reveal_strlit("transfer");
        reveal_strlit("carspawner");
        reveal_strlit("pickup");
        reveal_strlit("hazard");
        reveal_strlit("platform");
        reveal_strlit("siding");
    }
    lower_eq(t, "static") || lower_eq(t, "trackobj") || lower_eq(t, "dyntrack") || lower_eq(
        t,
        "signal",
    ) || lower_eq(t, "speedpost") || lower_eq(t, "soundregion") || lower_eq(t, "transfer")
        || lower_eq(t, "carspawner") || lower_eq(t, "pickup") || lower_eq(t, "hazard") || lower_eq(
        t,
        "platform",
    ) || lower_eq(t, "siding")
}

/// Kinds that must have an authored `Position` (Forest/HWater too; `Other` never).
pub fn world_tag_requires_position(tag: &str) -> (r: bool)
    ensures
        r == (!tag_is(tag.spec_bytes(), "other"@) && (requires_orientation_spec(tag.spec_bytes())
            || tag_is(tag.spec_bytes(), "forest"@) || tag_is(tag.spec_bytes(), "hwater"@))),
{
    let t = tag.as_bytes();
    proof {
        reveal_strlit("other");
        reveal_strlit("forest");
        reveal_strlit("hwater");
    }
    !lower_eq(t, "other") && (world_tag_requires_orientation(tag) || lower_eq(t, "forest")
        || lower_eq(t, "hwater"))
}

/// WORLD object tags (any case) that open an object entry.
pub open spec fn object_tag_spec(t: Seq<u8>) -> bool {
    tag_is(t, "static"@) || tag_is(t, "trackobj"@) || tag_is(t, "forest"@) || tag_is(t, "transfer"@)
        || tag_is(t, "dyntrack"@) || tag_is(t, "signal"@) || tag_is(t, "speedpost"@) || tag_is(
        t,
        "soundregion"@,
    ) || tag_is(t, "hwater"@) || tag_is(t, "carspawner"@) || tag_is(t, "pickup"@) || tag_is(
        t,
        "hazard"@,
    ) || tag_is(t, "platform"@) || tag_is(t, "siding"@) || tag_is(t, "levelcr"@) || tag_is(
        t,
        "collideobject"@,
    ) || tag_is(t, "gantry"@) || tag_is(t, "uid"@)
}

/// WORLD object tags (any case) that open an object entry.
pub fn is_object_tag(tag: &str) -> (r: bool)
    ensures
        r == object_tag_spec(tag.spec_bytes()),
{
    let t = tag.as_bytes();
    proof {
        reveal_strlit("static");
        reveal_strlit("trackobj");
        reveal_strlit("forest");
        reveal_strlit("transfer");
        reveal_strlit("dyntrack");
        reveal_strlit("signal");
        reveal_strlit("speedpost");
        reveal_strlit("soundregion");
        reveal_strlit("hwater");
        reveal_strlit("carspawner");
        reveal_strlit("pickup");
        reveal_strlit("hazard");
        reveal_strlit("platform");
        reveal_strlit("siding");
        reveal_strlit("levelcr");
        reveal_strlit("collideobject");
        reveal_strlit("gantry");
        reveal_strlit("uid");
    }
    lower_eq(t, "static") || lower_eq(t, "trackobj") || lower_eq(t, "forest") || lower_eq(
        t,
        "transfer",
    ) || lower_eq(t, "dyntrack") || lower_eq(t, "signal") || lower_eq(t, "speedpost") || lower_eq(
        t,
        "soundregion",
    ) || lower_eq(t, "hwater") || lower_eq(t, "carspawner") || lower_eq(t, "pickup") || lower_eq(
        t,
        "hazard",
    ) || lower_eq(t, "platform") || lower_eq(t, "siding") || lower_eq(t, "levelcr") || lower_eq(
        t,
        "collideobject",
    ) || lower_eq(t, "gantry") || lower_eq(t, "uid")
}

} // verus!
