//! Activity (`.act`) records and the line scanners used when the tree lacks a field.
use vstd::prelude::*;
use vstd::string::StringSliceAdditionalSpecFns;
use vstd::utf8::*;

use crate::ascii::{
    ascii_lit_bytes, contains_lit, ends_with, ends_with_lit, lit_bytes, lower_seq, replace_all,
    replace_lit, starts_with_lit, starts_with_seq, to_lower_vec,
};
use crate::std_text::string_from_utf8_lossy;
use crate::text::all_digits;
use crate::trim::{
    contains_seq, find_byte, find_byte_in, first_byte, lemma_first_byte_bounds, trim_end_spec,
    trim_end_to, trim_spec, trim_start_from, trim_start_spec,
};
use crate::utf8_bounds::{
    lemma_ascii_boundary, lemma_ascii_swap_valid, lemma_slice_valid, lemma_trim_valid, utf8_string,
};

verus! {

/// One pickup/dropoff event declared inside `ActivityObjects`.
#[derive(Clone, Debug, Default, PartialEq)]
pub struct ActivityObjectDef {
    /// `TrItemId` of the track item at which the event occurs.
    pub item_id: u32,
    /// Crew/passengers/freight quantity (`Workers` or `Population` field).
    pub workers: u32,
    /// Activity object kind (`PickupWagon`, `DropOffWagon`, etc.), free-form.
    pub kind: String,
}

/// End of the line that starts at `i` (the next `\n`, or the end of the text).
pub open spec fn line_end(b: Seq<u8>, i: int) -> int {
    match first_byte(b, 10u8, i) {
        Some(j) => j,
        None => b.len() as int,
    }
}

/// The text between the first two `"` of `line`.
pub open spec fn first_quoted(line: Seq<u8>) -> Option<Seq<u8>> {
    match first_byte(line, 34u8, 0) {
        None => None,
        Some(q1) => match first_byte(line, 34u8, q1 + 1) {
            None => None,
            Some(q2) => Some(line.subrange(q1 + 1, q2)),
        },
    }
}

/// A service name: not blank after trimming, no `Definition`, not all ASCII digits.
pub open spec fn valid_service_name_spec(s: Seq<u8>) -> bool {
    let t = trim_spec(s);
    t.len() > 0 && !contains_seq(t, lit_bytes("Definition"@)) && !all_digits(t)
}

/// What a trimmed line gives: for `train`, a line holding `Train_Config`
/// gives its first quoted text; otherwise a line starting with `Name` gives
/// its first quoted text when that is a valid service name.
pub open spec fn line_value(line: Seq<u8>, train: bool) -> Option<Seq<u8>> {
    if train {
        if contains_seq(line, lit_bytes("Train_Config"@)) {
            first_quoted(line)
        } else {
            None
        }
    } else if starts_with_seq(line, lit_bytes("Name"@)) {
        match first_quoted(line) {
            Some(n) => if valid_service_name_spec(n) {
                Some(n)
            } else {
                None
            },
            None => None,
        }
    } else {
        None
    }
}

/// The first line of `b` from `i` on (lines end at `\n`, and are trimmed) that gives a value.
pub open spec fn scan_lines(b: Seq<u8>, i: int, train: bool) -> Option<Seq<u8>>
    decreases b.len() - i,
{
    if i < 0 || i >= b.len() {
        None
    } else {
        let e = line_end(b, i);
        match line_value(trim_spec(b.subrange(i, e)), train) {
            Some(v) => Some(v),
            None => if i < e + 1 <= b.len() {
                scan_lines(b, e + 1, train)
            } else {
                None
            },
        }
    }
}

/// `s` is a service name: not blank after trimming, no `Definition`, not all ASCII digits.
pub fn valid_service_name(s: &str) -> (r: bool)
    ensures
        r == valid_service_name_spec(s.spec_bytes()),
{
    let b = s.as_bytes();
    let st = trim_start_from(b, 0, b.len());
    let en = trim_end_to(b, st, b.len());
    proof {
        assert(b@.subrange(0, b@.len() as int) =~= b@);
    }
    valid_service_slice(b, st, en)
}

/// The service-name test on the trimmed text `b[st..en]`.
fn valid_service_slice(b: &[u8], st: usize, en: usize) -> (r: bool)
    requires
        st <= en <= b@.len(),
    ensures
        r == (en > st && !contains_seq(b@.subrange(st as int, en as int), lit_bytes("Definition"@))
            && !all_digits(b@.subrange(st as int, en as int))),
{
    proof {
        reveal_strlit("Definition");
    }
    if en == st {
        return false;
    }
    let t = vstd::slice::slice_subrange(b, st, en);
    if contains_lit(t, "Definition") {
        return false;
    }
    let mut k: usize = 0;
    while k < t.len()
        invariant
            k <= t@.len(),
            st < en <= b@.len(),
            t@ == b@.subrange(st as int, en as int),
            !contains_seq(t@, lit_bytes("Definition"@)),
            forall|j: int| 0 <= j < k ==> crate::text::is_digit(#[trigger] t@[j]),
        decreases t@.len() - k,
    {
        if t[k] < 48u8 || t[k] > 57u8 {
            assert(!all_digits(b@.subrange(st as int, en as int))) by {
                assert(b@.subrange(st as int, en as int)[k as int] == t@[k as int]);
            }
            return true;
        }
        k = k + 1;
    }
    false
}

/// Byte range of the value a line `b[st..en]` (already trimmed) gives, if any.
fn line_value_range(b: &[u8], st: usize, en: usize, train: bool) -> (r: Option<(usize, usize)>)
    requires
        st <= en <= b@.len(),
        valid_utf8(b@),
    ensures
        r is Some <==> line_value(b@.subrange(st as int, en as int), train) is Some,
        r matches Some((x, y)) ==> st <= x <= y <= en && b@.subrange(x as int, y as int)
            == line_value(b@.subrange(st as int, en as int), train).unwrap() && is_char_boundary(
            b@,
            x as int,
        ) && is_char_boundary(b@, y as int),
{
    proof {
        reveal_strlit("Train_Config");
        reveal_strlit("Name");
    }
    let ghost line = b@.subrange(st as int, en as int);
    let t = vstd::slice::slice_subrange(b, st, en);
    let wanted = if train {
        contains_lit(t, "Train_Config")
    } else {
        starts_with_lit(t, "Name")
    };
    if !wanted {
        return None;
    }
    proof {
        lemma_first_byte_bounds(line, 34u8, 0);
    }
    let q1 = match find_byte_in(b, st, en, 34u8) {
        None => return None,
        Some(q) => q,
    };
    proof {
        assert(line.subrange(q1 - st + 1, line.len() as int) =~= b@.subrange(q1 + 1, en as int));
        lemma_first_byte_bounds(b@.subrange(q1 + 1, en as int), 34u8, 0);
        lemma_quote_shift(line, q1 - st + 1);
    }
    let q2 = match find_byte_in(b, q1 + 1, en, 34u8) {
        None => return None,
        Some(q) => q,
    };
    proof {
        lemma_ascii_boundary(b@, q1 as int);
        lemma_ascii_boundary(b@, q2 as int);
        assert(line.subrange(q1 - st + 1, q2 - st) =~= b@.subrange(q1 + 1, q2 as int));
    }
    if !train {
        let ns = trim_start_from(b, q1 + 1, q2);
        let ne = trim_end_to(b, ns, q2);
        assert(b@.subrange(ns as int, ne as int) == trim_spec(b@.subrange(q1 + 1, q2 as int)));
        if !valid_service_slice(b, ns, ne) {
            return None;
        }
    }
    Some((q1 + 1, q2))
}

/// Finding a byte from `k` on in `line` is finding it at the start of `line[k..]`.
proof fn lemma_quote_shift(line: Seq<u8>, k: int)
    requires
        0 <= k <= line.len(),
    ensures
        first_byte(line, 34u8, k) == (match first_byte(line.subrange(k, line.len() as int), 34u8, 0) {
            Some(j) => Some(j + k),
            None => None,
        }),
    decreases line.len() - k,
{
    let t = line.subrange(k, line.len() as int);
    if k < line.len() {
        lemma_quote_shift(line, k + 1);
        lemma_first_byte_shift(t, 34u8, 0);
        assert(t.subrange(1, t.len() as int) =~= line.subrange(k + 1, line.len() as int));
    }
}

/// `first_byte` from `j + 1` on `t` is `first_byte` from `j` on `t[1..]`, shifted.
proof fn lemma_first_byte_shift(t: Seq<u8>, c: u8, j: int)
    requires
        0 <= j,
        t.len() > 0,
    ensures
        first_byte(t, c, j + 1) == (match first_byte(t.subrange(1, t.len() as int), c, j) {
            Some(x) => Some(x + 1),
            None => None,
        }),
    decreases t.len() - j,
{
    let u = t.subrange(1, t.len() as int);
    if j + 1 < t.len() {
        assert(u[j] == t[j + 1]);
        lemma_first_byte_shift(t, c, j + 1);
    }
}

/// The value the first giving line of `text` gives (see [`scan_lines`]).
fn scan_text_lines(text: &str, train: bool) -> (r: Option<String>)
    ensures
        r is Some <==> scan_lines(text.spec_bytes(), 0, train) is Some,
        r matches Some(v) ==> v@ == decode_utf8(scan_lines(text.spec_bytes(), 0, train).unwrap()),
{
    let b = text.as_bytes();
    proof {
        encode_utf8_valid_utf8(text@);
    }
    let mut i: usize = 0;
    while i < b.len()
        invariant
            i <= b@.len(),
            b@ == text.spec_bytes(),
            valid_utf8(b@),
            scan_lines(b@, 0, train) == scan_lines(b@, i as int, train),
        decreases b@.len() - i,
    {
        proof {
            lemma_first_byte_bounds(b@, 10u8, i as int);
        }
        let e = match find_byte(b, i, 10u8) {
            Some(j) => j,
            None => b.len(),
        };
        let st = trim_start_from(b, i, e);
        let en = trim_end_to(b, st, e);
        assert(b@.subrange(st as int, en as int) == trim_spec(b@.subrange(i as int, e as int)));
        match line_value_range(b, st, en, train) {
            Some((x, y)) => {
                proof {
                    lemma_slice_valid(b@, x as int, y as int);
                }
                return Some(utf8_string(vstd::slice::slice_subrange(b, x, y)));
            },
            None => {},
        }
        if e >= b.len() {
            return None;
        }
        i = e + 1;
    }
    None
}

/// `Train_Config` value from the first line that holds it and a quoted text.
pub fn extract_train_config_from_text(text: &str) -> (r: Option<String>)
    ensures
        r is Some <==> scan_lines(text.spec_bytes(), 0, true) is Some,
        r matches Some(v) ==> v@ == decode_utf8(scan_lines(text.spec_bytes(), 0, true).unwrap()),
{
    scan_text_lines(text, true)
}

/// Activity name from the first line starting with `Name` whose quoted text
/// is a valid service name.
pub fn extract_activity_name_from_text(text: &str) -> (r: Option<String>)
    ensures
        r is Some <==> scan_lines(text.spec_bytes(), 0, false) is Some,
        r matches Some(v) ==> v@ == decode_utf8(scan_lines(text.spec_bytes(), 0, false).unwrap()),
{
    scan_text_lines(text, false)
}

/// Bytes of the `.pat` path for a service id (see [`pat_path_from_service_id`]).
pub open spec fn pat_path_spec(id: Seq<u8>) -> Seq<u8> {
    let t = trim_spec(id);
    if ends_with(lower_seq(t), lit_bytes(".pat"@)) {
        replace_all(t, lit_bytes("\\"@), lit_bytes("/"@))
    } else {
        lit_bytes("PATHS/"@) + t + lit_bytes(".pat"@)
    }
}


/// Replacing the one-byte pattern `\` by `/` maps each byte.
proof fn lemma_replace_backslash(t: Seq<u8>)
    ensures
        replace_all(t, seq![92u8], seq![47u8]).len() == t.len(),
        forall|i: int|
            0 <= i < t.len() ==> #[trigger] replace_all(t, seq![92u8], seq![47u8])[i] == (if t[i]
                == 92u8 {
                47u8
            } else {
                t[i]
            }),
    decreases t.len(),
{
    if t.len() > 0 {
        let rest = t.subrange(1, t.len() as int);
        lemma_replace_backslash(rest);
        if starts_with_seq(t, seq![92u8]) {
            assert(t[0] == 92u8) by {
                assert(t.subrange(0, 1)[0] == t[0]);
            }
        } else {
            assert(t[0] != 92u8) by {
                if t[0] == 92u8 {
                    assert(t.subrange(0, 1) =~= seq![92u8]);
                }
            }
        }
        assert forall|i: int| 1 <= i < t.len() implies #[trigger] replace_all(
            t,
            seq![92u8],
            seq![47u8],
        )[i] == (if t[i] == 92u8 {
            47u8
        } else {
            t[i]
        }) by {
            assert(rest[i - 1] == t[i]);
        }
    }
}

/// ASCII bytes are valid UTF-8.
proof fn lemma_ascii_valid(b: Seq<u8>)
    requires
        crate::text::is_ascii_bytes(b),
    ensures
        valid_utf8(b),
{
    crate::text::lemma_ascii_encode(b);
    encode_utf8_valid_utf8(crate::text::ascii_chars(b));
}

/// The `.pat` path of valid UTF-8 text is valid UTF-8.
proof fn lemma_pat_path_valid(id: Seq<u8>)
    requires
        valid_utf8(id),
    ensures
        valid_utf8(pat_path_spec(id)),
{
    reveal_strlit(".pat");
    reveal_strlit("\\");
    reveal_strlit("/");
    reveal_strlit("PATHS/");
    let t = trim_spec(id);
    lemma_trim_valid(id);
    if ends_with(lower_seq(t), lit_bytes(".pat"@)) {
        assert(lit_bytes("\\"@) =~= seq![92u8]);
        assert(lit_bytes("/"@) =~= seq![47u8]);
        lemma_replace_backslash(t);
        lemma_ascii_swap_valid(t, replace_all(t, seq![92u8], seq![47u8]));
    } else {
        lemma_ascii_valid(lit_bytes("PATHS/"@));
        lemma_ascii_valid(lit_bytes(".pat"@));
        valid_utf8_concat(lit_bytes("PATHS/"@), t);
        valid_utf8_concat(lit_bytes("PATHS/"@) + t, lit_bytes(".pat"@));
    }
}

/// Player path for a service id: an id that already names a `.pat` file
/// (any case) keeps it with `/` separators; any other id is `PATHS/<id>.pat`.
pub fn pat_path_from_service_id(id: &str) -> (r: String)
    ensures
        r@ == decode_utf8(pat_path_spec(id.spec_bytes())),
{
    proof {
        encode_utf8_valid_utf8(id@);
        lemma_pat_path_valid(id.spec_bytes());
        reveal_strlit(".pat");
        reveal_strlit("\\");
        reveal_strlit("/");
        reveal_strlit("PATHS/");
    }
    let b = id.as_bytes();
    let st = trim_start_from(b, 0, b.len());
    let en = trim_end_to(b, st, b.len());
    proof {
        assert(b@.subrange(0, b@.len() as int) =~= b@);
    }
    let t = vstd::slice::slice_subrange(b, st, en);
    let lower = to_lower_vec(t);
    let out: Vec<u8> = if ends_with_lit(lower.as_slice(), ".pat") {
        replace_lit(t, "\\", "/")
    } else {
        let mut v: Vec<u8> = Vec::new();
        let head = ascii_lit_bytes("PATHS/");
        let tail = ascii_lit_bytes(".pat");
        let mut k: usize = 0;
        while k < head.len()
            invariant
                k <= head@.len(),
                v@ == head@.subrange(0, k as int),
            decreases head@.len() - k,
        {
            v.push(head[k]);
            k = k + 1;
            assert(v@ =~= head@.subrange(0, k as int));
        }
        let ghost h = v@;
        k = 0;
        while k < t.len()
            invariant
                k <= t@.len(),
                v@ == h + t@.subrange(0, k as int),
            decreases t@.len() - k,
        {
            v.push(t[k]);
            k = k + 1;
            assert(v@ =~= h + t@.subrange(0, k as int));
        }
        let ghost ht = v@;
        k = 0;
        while k < tail.len()
            invariant
                k <= tail@.len(),
                v@ == ht + tail@.subrange(0, k as int),
            decreases tail@.len() - k,
        {
            v.push(tail[k]);
            k = k + 1;
            assert(v@ =~= ht + tail@.subrange(0, k as int));
        }
        assert(head@.subrange(0, head@.len() as int) =~= head@);
        assert(t@.subrange(0, t@.len() as int) =~= t@);
        assert(tail@.subrange(0, tail@.len() as int) =~= tail@);
        v
    };
    string_from_utf8_lossy(out.as_slice())
}

} // verus!
