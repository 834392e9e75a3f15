//! Encoding detection and transcoding for MSTS-style text files.
//!
//! | BOM bytes       | Encoding         | Common in                         |
//! |-----------------|------------------|-----------------------------------|
//! | `FF FE`         | UTF-16-LE        | Most MSTS route files             |
//! | `FE FF`         | UTF-16-BE        | Rare; some older tools            |
//! | `EF BB BF`      | UTF-8 with BOM   | Routes edited with modern editors |
//! | none            | Windows-1252     | Old European routes / Latin chars |
//! | none, ASCII     | UTF-8 / ASCII    | native files                      |
use vstd::prelude::*;
use vstd::string::StringSliceAdditionalSpecFns;
use vstd::utf8::*;

use crate::std_text::{string_from_utf8_lossy, utf8_lossy_text};
use crate::text::{ascii_chars, is_ascii_bytes, lemma_ascii_decode};
use crate::trim::{contains_seq, find_byte, find_seq, occurs_at, trim_range, trim_spec};
use crate::utf8_bounds::{
    lemma_ascii_boundary, lemma_ascii_swap_valid, lemma_boundary_at, lemma_slice_valid,
    lemma_trim_valid,
};

verus! {

/// Text encodings that MSTS files are decoded from.
#[derive(Clone, Copy, Debug, PartialEq, Eq)]
pub enum TextEncoding {
    Windows1252,
    Utf16Le,
    Utf16Be,
}

/// Name for the text `encoding_rs` produces when `Encoding::decode` (with
/// BOM sniffing and replacement of malformed sequences) decodes `bytes`
/// with the given encoding.
pub uninterp spec fn encoding_rs_text(enc: TextEncoding, bytes: Seq<u8>) -> Seq<char>;

/// Calls `encoding_rs::Encoding::decode` on `WINDOWS_1252`, `UTF_16LE` or
/// `UTF_16BE` and takes the owned text. Trusted: the result is the named
/// text `encoding_rs_text(enc, bytes)`; nothing more is claimed.
#[verifier::external_body]
fn decode_with(enc: TextEncoding, bytes: &[u8]) -> (r: String)
    ensures
        r@ == encoding_rs_text(enc, bytes@),
{
    let encoding = match enc {
        TextEncoding::Windows1252 => encoding_rs::WINDOWS_1252,
        TextEncoding::Utf16Le => encoding_rs::UTF_16LE,
        TextEncoding::Utf16Be => encoding_rs::UTF_16BE,
    };
    encoding.decode(bytes).0.into_owned()
}

/// Text of UTF-16-LE bytes, as `encoding_rs` decodes them.
fn decode_utf16_le(bytes: &[u8]) -> (r: String)
    ensures
        r@ == encoding_rs_text(TextEncoding::Utf16Le, bytes@),
{
    decode_with(TextEncoding::Utf16Le, bytes)
}

/// Text of UTF-16-BE bytes, as `encoding_rs` decodes them.
fn decode_utf16_be(bytes: &[u8]) -> (r: String)
    ensures
        r@ == encoding_rs_text(TextEncoding::Utf16Be, bytes@),
{
    decode_with(TextEncoding::Utf16Be, bytes)
}

/// `s` starts with `p`.
pub open spec fn starts_with(s: Seq<u8>, p: Seq<u8>) -> bool {
    p.len() <= s.len() && s.subrange(0, p.len() as int) == p
}

/// Some byte is above 0x7F.
pub open spec fn has_high_byte(s: Seq<u8>) -> bool {
    exists|i: int| 0 <= i < s.len() && s[i] > 0x7F
}

/// What [`decode_msts_bytes`] returns for `bytes`.
pub open spec fn decode_msts_spec(bytes: Seq<u8>) -> Seq<char> {
    let n = bytes.len() as int;
    if starts_with(bytes, seq![0xFFu8, 0xFEu8]) {
        encoding_rs_text(TextEncoding::Utf16Le, bytes.subrange(2, n))
    } else if starts_with(bytes, seq![0xFEu8, 0xFFu8]) {
        encoding_rs_text(TextEncoding::Utf16Be, bytes.subrange(2, n))
    } else if starts_with(bytes, seq![0xEFu8, 0xBBu8, 0xBFu8]) {
        utf8_lossy_text(bytes.subrange(3, n))
    } else if has_high_byte(bytes) {
        encoding_rs_text(TextEncoding::Windows1252, bytes)
    } else {
        ascii_chars(bytes)
    }
}

fn starts_with2(s: &[u8], a: u8, b: u8) -> (r: bool)
    ensures
        r == starts_with(s@, seq![a, b]),
{
    let r = s.len() >= 2 && s[0] == a && s[1] == b;
    assert(s@.len() >= 2 ==> (s@.subrange(0, 2) =~= seq![a, b] <==> (s@[0] == a && s@[1] == b)));
    r
}

fn starts_with3(s: &[u8], a: u8, b: u8, c: u8) -> (r: bool)
    ensures
        r == starts_with(s@, seq![a, b, c]),
{
    let r = s.len() >= 3 && s[0] == a && s[1] == b && s[2] == c;
    assert(s@.len() >= 3 ==> (s@.subrange(0, 3) =~= seq![a, b, c] <==> (s@[0] == a && s@[1] == b
        && s@[2] == c)));
    r
}

fn any_high_byte(s: &[u8]) -> (r: bool)
    ensures
        r == has_high_byte(s@),
{
    let mut i: usize = 0;
    while i < s.len()
        invariant
            i <= s@.len(),
            forall|j: int| 0 <= j < i ==> s@[j] <= 0x7F,
        decreases s@.len() - i,
    {
        if s[i] > 0x7F {
            return true;
        }
        i = i + 1;
    }
    false
}

/// Decode a byte slice using MSTS encoding heuristics.
///
/// UTF-16-LE / UTF-16-BE / UTF-8 byte-order marks select that encoding (the
/// mark is dropped); without one, any byte above 0x7F selects Windows-1252,
/// and pure ASCII is taken as is.
pub fn decode_msts_bytes(bytes: &[u8]) -> (r: String)
    ensures
        r@ == decode_msts_spec(bytes@),
{
    let n = bytes.len();
    if starts_with2(bytes, 0xFF, 0xFE) {
        return decode_utf16_le(vstd::slice::slice_subrange(bytes, 2, n));
    }
    if starts_with2(bytes, 0xFE, 0xFF) {
        return decode_utf16_be(vstd::slice::slice_subrange(bytes, 2, n));
    }
    if starts_with3(bytes, 0xEF, 0xBB, 0xBF) {
        return string_from_utf8_lossy(vstd::slice::slice_subrange(bytes, 3, n));
    }
    if any_high_byte(bytes) {
        return decode_with(TextEncoding::Windows1252, bytes);
    }
    proof {
        assert(is_ascii_bytes(bytes@));
        lemma_ascii_decode(bytes@);
    }
    string_from_utf8_lossy(bytes)
}

/// Collapse UTF-16-LE code units to their low bytes from `i` on, until a unit
/// with a non-zero high byte: from there the bytes are kept verbatim. An odd
/// trailing byte is kept.
pub open spec fn collapse_from(p: Seq<u8>, i: nat) -> Seq<u8>
    decreases p.len() - i,
{
    if i + 1 < p.len() {
        if p[i + 1int] != 0 {
            p.subrange(i as int, p.len() as int)
        } else {
            seq![p[i as int]] + collapse_from(p, i + 2)
        }
    } else if i < p.len() {
        seq![p[i as int]]
    } else {
        seq![]
    }
}

/// Collapse UTF-16-LE code units (low byte only) until a non-ASCII pair or raw tail.
pub fn collapse_utf16le_pairs(payload: &[u8]) -> (latin: Vec<u8>)
    ensures
        latin@ == collapse_from(payload@, 0),
{
    let mut latin: Vec<u8> = Vec::new();
    let mut i: usize = 0;
    let n = payload.len();
    while i + 1 < n
        invariant
            n == payload@.len(),
            i <= n,
            i % 2 == 0,
            latin@ + collapse_from(payload@, i as nat) == collapse_from(payload@, 0),
        decreases n - i,
    {
        let lo = payload[i];
        let hi = payload[i + 1];
        if hi != 0 {
            let ghost before = latin@;
            let mut k = i;
            while k < n
                invariant
                    i <= k <= n,
                    n == payload@.len(),
                    latin@ == before + payload@.subrange(i as int, k as int),
                decreases n - k,
            {
                latin.push(payload[k]);
                k = k + 1;
                assert(latin@ =~= before + payload@.subrange(i as int, k as int));
            }
            return latin;
        }
        latin.push(lo);
        assert(latin@ + collapse_from(payload@, (i + 2) as nat) =~= collapse_from(payload@, 0));
        i = i + 2;
    }
    if i < n {
        latin.push(payload[i]);
    }
    assert(latin@ =~= collapse_from(payload@, 0));
    latin
}

/// `bytes` looks like UTF-16-LE ASCII without a BOM (`J\0I\0N\0X`, …): at least
/// four bytes, an even length, and the first (up to eight) pairs have a zero
/// high byte.
pub open spec fn interleaved_ascii_spec(b: Seq<u8>) -> bool {
    &&& b.len() >= 4
    &&& b.len() % 2 == 0
    &&& b[1] == 0
    &&& b[3] == 0
    &&& forall|k: int| 0 <= k < 8 && 2 * k + 1 < b.len() ==> #[trigger] high_byte(b, k) == 0
}

/// High byte of the `k`-th little-endian code unit.
pub open spec fn high_byte(b: Seq<u8>, k: int) -> u8 {
    b[2 * k + 1]
}

fn is_utf16le_interleaved_ascii(bytes: &[u8]) -> (r: bool)
    ensures
        r == interleaved_ascii_spec(bytes@),
{
    let n = bytes.len();
    if !(n >= 4 && n % 2 == 0 && bytes[1] == 0 && bytes[3] == 0) {
        return false;
    }
    let mut k: usize = 0;
    while k < 8 && 2 * k + 1 < n
        invariant
            n == bytes@.len(),
            k <= 8,
            forall|j: int| 0 <= j < k ==> #[trigger] high_byte(bytes@, j) == 0,
        decreases 8 - k,
    {
        if bytes[2 * k + 1] != 0 {
            assert(high_byte(bytes@, k as int) != 0);
            return false;
        }
        k = k + 1;
    }
    true
}

/// What [`utf16le_msts_to_latin_bytes`] returns.
pub open spec fn utf16le_latin_spec(b: Seq<u8>) -> Option<Seq<u8>> {
    if !starts_with(b, seq![0xFFu8, 0xFEu8]) {
        None
    } else {
        Some(collapse_from(b.subrange(2, b.len() as int), 0))
    }
}

/// If `bytes` is UTF-16-LE with BOM, collapse each code unit to its low byte.
///
/// MSTS stores SIMISA containers as UTF-16 where every ASCII character is
/// followed by a zero byte; collapsing recovers the original byte stream.
/// Once a code unit has a non-zero high byte (raw binary after the header),
/// the remainder is kept verbatim.
pub fn utf16le_msts_to_latin_bytes(bytes: &[u8]) -> (r: Option<Vec<u8>>)
    ensures
        r matches Some(v) ==> utf16le_latin_spec(bytes@) == Some(v@),
        r is None ==> utf16le_latin_spec(bytes@) is None,
{
    if !starts_with2(bytes, 0xFF, 0xFE) {
        return None;
    }
    let payload = vstd::slice::slice_subrange(bytes, 2, bytes.len());
    if payload.len() == 0 {
        assert(collapse_from(payload@, 0) =~= Seq::<u8>::empty());
        return Some(Vec::new());
    }
    Some(collapse_utf16le_pairs(payload))
}

/// What [`msts_latin_bytes`] returns.
pub open spec fn latin_bytes_spec(b: Seq<u8>) -> Seq<u8> {
    match utf16le_latin_spec(b) {
        Some(v) => v,
        None => if interleaved_ascii_spec(b) {
            collapse_from(b, 0)
        } else {
            b
        },
    }
}

/// Normalize MSTS on-disk bytes to a single-byte SIMISA / text stream.
pub fn msts_latin_bytes(bytes: &[u8]) -> (r: Vec<u8>)
    ensures
        r@ == latin_bytes_spec(bytes@),
{
    if let Some(v) = utf16le_msts_to_latin_bytes(bytes) {
        return v;
    }
    if is_utf16le_interleaved_ascii(bytes) {
        return collapse_utf16le_pairs(bytes);
    }
    vstd::slice::slice_to_vec(bytes)
}

/// `b` without its leading and trailing `c` bytes (`str::trim_matches`).
pub open spec fn trim_byte_spec(b: Seq<u8>, c: u8) -> Seq<u8> {
    let s = first_not(b, c, 0);
    let e = last_not_end(b, c, b.len() as int);
    if s >= e {
        seq![]
    } else {
        b.subrange(s, e)
    }
}

/// First index at or after `i` not holding `c` (or `b.len()`).
pub open spec fn first_not(b: Seq<u8>, c: u8, i: int) -> int
    decreases b.len() - i,
{
    if i < 0 || i >= b.len() {
        b.len() as int
    } else if b[i] != c {
        i
    } else {
        first_not(b, c, i + 1)
    }
}

/// One past the last index before `e` not holding `c` (or 0).
pub open spec fn last_not_end(b: Seq<u8>, c: u8, e: int) -> int
    decreases e,
{
    if e <= 0 || e > b.len() {
        0
    } else if b[e - 1] != c {
        e
    } else {
        last_not_end(b, c, e - 1)
    }
}

/// Every `\` replaced by `/`.
pub open spec fn slashes_forward(b: Seq<u8>) -> Seq<u8> {
    Seq::new(b.len(), |i: int| if b[i] == 92 { 47u8 } else { b[i] })
}

/// Bytes of [`normalize_msts_filename`]: trim, drop surrounding `"`,
/// turn `\` into `/`, trim again.
pub open spec fn normalize_filename_spec(b: Seq<u8>) -> Seq<u8> {
    trim_spec(slashes_forward(trim_byte_spec(trim_spec(b), 34)))
}


/// Bytes before `first_not` hold `c`; at it (inside) another byte stands.
proof fn lemma_first_not(b: Seq<u8>, c: u8, i: int)
    requires
        0 <= i <= b.len(),
    ensures
        i <= first_not(b, c, i) <= b.len(),
        forall|j: int| i <= j < first_not(b, c, i) ==> b[j] == c,
        first_not(b, c, i) < b.len() ==> b[first_not(b, c, i)] != c,
    decreases b.len() - i,
{
    if i < b.len() && b[i] == c {
        lemma_first_not(b, c, i + 1);
    }
}

/// Bytes from `last_not_end` up to `e` hold `c`; just before it another byte stands.
proof fn lemma_last_not_end(b: Seq<u8>, c: u8, e: int)
    requires
        0 <= e <= b.len(),
    ensures
        0 <= last_not_end(b, c, e) <= e,
        forall|j: int| last_not_end(b, c, e) <= j < e ==> b[j] == c,
        last_not_end(b, c, e) > 0 ==> b[last_not_end(b, c, e) - 1] != c,
    decreases e,
{
    if e > 0 && b[e - 1] == c {
        lemma_last_not_end(b, c, e - 1);
    }
}

/// Dropping leading and trailing ASCII bytes keeps UTF-8 valid.
proof fn lemma_trim_byte_valid(b: Seq<u8>, c: u8)
    requires
        valid_utf8(b),
        c < 128,
    ensures
        valid_utf8(trim_byte_spec(b, c)),
{
    lemma_first_not(b, c, 0);
    lemma_last_not_end(b, c, b.len() as int);
    let st = first_not(b, c, 0);
    let en = last_not_end(b, c, b.len() as int);
    if st < en {
        if st > 0 {
            lemma_ascii_boundary(b, st - 1);
        } else {
            assert(is_char_boundary(b, 0));
        }
        if en < b.len() {
            lemma_ascii_boundary(b, en);
        } else {
            lemma_boundary_at(b, en);
        }
        lemma_slice_valid(b, st, en);
    } else {
        assert(valid_utf8(Seq::<u8>::empty()));
    }
}

/// Turning `\` into `/` keeps UTF-8 valid.
proof fn lemma_slashes_valid(b: Seq<u8>)
    requires
        valid_utf8(b),
    ensures
        valid_utf8(slashes_forward(b)),
{
    lemma_ascii_swap_valid(b, slashes_forward(b));
}

/// The normalized name of valid UTF-8 text is valid UTF-8.
proof fn lemma_normalize_filename_valid(b: Seq<u8>)
    requires
        valid_utf8(b),
    ensures
        valid_utf8(normalize_filename_spec(b)),
{
    lemma_trim_valid(b);
    lemma_trim_byte_valid(trim_spec(b), 34);
    lemma_slashes_valid(trim_byte_spec(trim_spec(b), 34));
    lemma_trim_valid(slashes_forward(trim_byte_spec(trim_spec(b), 34)));
}

fn trim_byte(b: &[u8], c: u8) -> (r: (usize, usize))
    ensures
        r.0 <= r.1 <= b@.len(),
        b@.subrange(r.0 as int, r.1 as int) == trim_byte_spec(b@, c),
{
    let n = b.len();
    let mut s: usize = 0;
    while s < n && b[s] == c
        invariant
            s <= n,
            n == b@.len(),
            first_not(b@, c, s as int) == first_not(b@, c, 0),
        decreases n - s,
    {
        s = s + 1;
    }
    let mut e: usize = n;
    while e > 0 && b[e - 1] == c
        invariant
            e <= n,
            n == b@.len(),
            last_not_end(b@, c, e as int) == last_not_end(b@, c, n as int),
        decreases e,
    {
        e = e - 1;
    }
    if s >= e {
        (0, 0)
    } else {
        (s, e)
    }
}

/// Bytes of the normalized `FileName` (see [`normalize_filename_spec`]).
pub fn normalize_filename_bytes(b: &[u8]) -> (r: Vec<u8>)
    ensures
        r@ == normalize_filename_spec(b@),
{
    let (s1, e1) = trim_range(b, 0, b.len());
    assert(b@.subrange(0, b@.len() as int) =~= b@);
    let inner = vstd::slice::slice_subrange(b, s1, e1);
    let (s2, e2) = trim_byte(inner, 34u8);
    let mut replaced: Vec<u8> = Vec::new();
    let mut i = s2;
    while i < e2
        invariant
            s2 <= i <= e2 <= inner@.len(),
            replaced@ == slashes_forward(inner@.subrange(s2 as int, i as int)),
        decreases e2 - i,
    {
        let c = inner[i];
        replaced.push(if c == 92u8 { 47u8 } else { c });
        i = i + 1;
        assert(replaced@ =~= slashes_forward(inner@.subrange(s2 as int, i as int)));
    }
    let (s3, e3) = trim_range(replaced.as_slice(), 0, replaced.len());
    assert(replaced@.subrange(0, replaced@.len() as int) =~= replaced@);
    let mut out: Vec<u8> = Vec::new();
    let mut k = s3;
    while k < e3
        invariant
            s3 <= k <= e3 <= replaced@.len(),
            out@ == replaced@.subrange(s3 as int, k as int),
        decreases e3 - k,
    {
        out.push(replaced[k]);
        k = k + 1;
        assert(out@ =~= replaced@.subrange(s3 as int, k as int));
    }
    out
}

/// Normalize a `.w` `FileName` (`SHAPES\foo.s`, `../../ROUTES/.../bar.s`).
pub fn normalize_msts_filename(file_name: &str) -> (r: String)
    ensures
        r@ == decode_utf8(normalize_filename_spec(file_name.spec_bytes())),
{
    proof {
        encode_utf8_valid_utf8(file_name@);
        lemma_normalize_filename_valid(file_name.spec_bytes());
    }
    let v = normalize_filename_bytes(file_name.as_bytes());
    string_from_utf8_lossy(v.as_slice())
}

/// True when `FileName` carries directories or `..` (not a bare `foo.s`).
pub fn msts_filename_is_relative_path(file_name: &str) -> (r: bool)
    ensures
        r == (contains_seq(normalize_filename_spec(file_name.spec_bytes()), seq![47u8])
            || contains_seq(normalize_filename_spec(file_name.spec_bytes()), seq![46u8, 46u8])),
{
    let v = normalize_filename_bytes(file_name.as_bytes());
    let n = v.as_slice();
    let slash: [u8; 1] = [47u8];
    let dots: [u8; 2] = [46u8, 46u8];
    let has_slash = find_seq(n, 0, slash.as_slice()).is_some();
    let has_dots = find_seq(n, 0, dots.as_slice()).is_some();
    assert(slash@ =~= seq![47u8]);
    assert(dots@ =~= seq![46u8, 46u8]);
    has_slash || has_dots
}

/// Pure ASCII text (no byte-order mark can start it, no byte is high) is
/// decoded as the same characters, one per byte.
pub proof fn lemma_ascii_decodes_as_itself(b: Seq<u8>)
    requires
        is_ascii_bytes(b),
    ensures
        decode_msts_spec(b) == ascii_chars(b),
{
    if b.len() >= 2 {
        assert(b.subrange(0, 2)[0] == b[0]);
    }
    if b.len() >= 3 {
        assert(b.subrange(0, 3)[0] == b[0]);
    }
    assert(!has_high_byte(b));
}

/// Bytes stored as UTF-16-LE code units: each byte followed by a zero byte.
pub open spec fn utf16le_units(t: Seq<u8>) -> Seq<u8>
    decreases t.len(),
{
    if t.len() == 0 {
        seq![]
    } else {
        seq![t[0], 0u8] + utf16le_units(t.drop_first())
    }
}

/// Collapsing is unaffected by bytes before the start position.
proof fn lemma_collapse_shift(x: Seq<u8>, w: Seq<u8>, i: nat)
    ensures
        collapse_from(x + w, i + x.len()) == collapse_from(w, i),
    decreases w.len() - i,
{
    let p = x + w;
    let j = (i + x.len()) as nat;
    if i + 1 < w.len() {
        assert(p[j + 1int] == w[i + 1int]);
        assert(p[j as int] == w[i as int]);
        if w[i + 1int] != 0 {
            assert(p.subrange(j as int, p.len() as int) =~= w.subrange(i as int, w.len() as int));
        } else {
            lemma_collapse_shift(x, w, i + 2);
            assert((i + 2 + x.len()) as nat == j + 2);
        }
    } else if i < w.len() {
        assert(p[j as int] == w[i as int]);
    }
}

/// Collapsing UTF-16-LE code units with zero high bytes gives back the bytes.
proof fn lemma_collapse_units(t: Seq<u8>)
    ensures
        collapse_from(utf16le_units(t), 0) == t,
    decreases t.len(),
{
    if t.len() > 0 {
        let rest = utf16le_units(t.drop_first());
        lemma_collapse_units(t.drop_first());
        let p = seq![t[0], 0u8] + rest;
        assert(utf16le_units(t) == p);
        lemma_collapse_shift(seq![t[0], 0u8], rest, 0);
        assert(p[1] == 0u8);
        assert(p[0] == t[0]);
        assert(collapse_from(p, 0) == seq![t[0]] + collapse_from(p, 2));
        assert(t =~= seq![t[0]] + t.drop_first());
    }
}

/// Bytes written out as UTF-16-LE (byte-order mark, then each byte as one code
/// unit) collapse back to exactly the original bytes.
pub proof fn lemma_utf16le_roundtrip(t: Seq<u8>)
    ensures
        utf16le_latin_spec(seq![0xFFu8, 0xFEu8] + utf16le_units(t)) == Some(t),
{
    let b = seq![0xFFu8, 0xFEu8] + utf16le_units(t);
    assert(b.subrange(0, 2) =~= seq![0xFFu8, 0xFEu8]);
    assert(b.subrange(2, b.len() as int) =~= utf16le_units(t));
    lemma_collapse_units(t);
}


/// The layout of bytes stored as UTF-16-LE code units.
proof fn lemma_units_layout(t: Seq<u8>)
    ensures
        utf16le_units(t).len() == 2 * t.len(),
        forall|k: int| 0 <= k < t.len() ==> #[trigger] utf16le_units(t)[2 * k] == t[k],
        forall|k: int| 0 <= k < t.len() ==> #[trigger] utf16le_units(t)[2 * k + 1] == 0u8,
    decreases t.len(),
{
    if t.len() > 0 {
        let rest = t.drop_first();
        lemma_units_layout(rest);
        let u = utf16le_units(t);
        let ur = utf16le_units(rest);
        assert(u == seq![t[0], 0u8] + ur);
        assert forall|k: int| 0 <= k < t.len() implies #[trigger] u[2 * k] == t[k] by {
            if k > 0 {
                assert(u[2 * k] == ur[2 * (k - 1)]);
                assert(rest[k - 1] == t[k]);
            }
        }
        assert forall|k: int| 0 <= k < t.len() implies #[trigger] u[2 * k + 1] == 0u8 by {
            if k > 0 {
                assert(u[2 * k + 1] == ur[2 * (k - 1) + 1]);
            }
        }
    }
}

/// Normalising MSTS bytes gives back text stored as UTF-16-LE: with the
/// byte-order mark for any bytes, and without it for two or more bytes of
/// which the first is not `0xFF`; bytes that do not start with the mark and
/// are shorter than four, of odd length, or whose second byte is not zero
/// are kept as they are.
pub proof fn lemma_latin_bytes_roundtrip(t: Seq<u8>, b: Seq<u8>)
    ensures
        latin_bytes_spec(seq![0xFFu8, 0xFEu8] + utf16le_units(t)) == t,
        t.len() >= 2 && t[0] != 0xFFu8 ==> latin_bytes_spec(utf16le_units(t)) == t,
        !starts_with(b, seq![0xFFu8, 0xFEu8]) && (b.len() < 4 || b.len() % 2 == 1 || b[1] != 0)
            ==> latin_bytes_spec(b) == b,
{
    lemma_utf16le_roundtrip(t);
    lemma_units_layout(t);
    lemma_collapse_units(t);
    let u = utf16le_units(t);
    if t.len() >= 2 && t[0] != 0xFFu8 {
        assert(u[2 * 0int] == t[0]);
        assert(u[2 * 0int + 1] == 0u8);
        assert(u[2 * 1int + 1] == 0u8);
        assert(!starts_with(u, seq![0xFFu8, 0xFEu8])) by {
            assert(u.subrange(0, 2)[0] == t[0]);
        }
        assert forall|k: int| 0 <= k < 8 && 2 * k + 1 < u.len() implies #[trigger] high_byte(u, k) == 0 by {
            assert(u[2 * k + 1] == 0u8);
        }
        assert(interleaved_ascii_spec(u));
    }
}

} // verus!
