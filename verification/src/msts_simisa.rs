//! SIMISA container handling for MSTS files (compressed and uncompressed).
use std::io::Read;
use vstd::prelude::*;
use vstd::string::StringSliceAdditionalSpecFns;
use vstd::utf8::*;

use crate::bytes::{le_u16, le_u32, read_le_u16, read_le_u32};
use crate::encoding::{latin_bytes_spec, msts_latin_bytes};
use crate::error::FormatError;
use crate::message::{finish_text, push_piece};
use crate::std_text::is_valid_utf8;
use crate::utf8_bounds::{lemma_ascii_boundary, lemma_boundary_at, lemma_slice_valid, utf8_string};

verus! {

/// Length of the fixed SIMISA header.
pub const HEADER_LEN: usize = 16;

/// Payload after the SIMISA header. `bytes` starts just after the 16-byte
/// SIMISA header (or is the inflated body) and includes the JINX sub-header;
/// `data_offset` points past the sub-header and its padding to the first
/// data block.
pub struct SimisaPayload {
    pub bytes: Vec<u8>,
    /// `true` when the sub-header ends with `t` (text); `false` for `b` (binary).
    pub is_text: bool,
    /// Byte offset where content data starts.
    pub data_offset: usize,
    /// Token ID offset for binary formats: 0 for shapes, 300 for world files.
    pub token_offset: i32,
}

/// Name for what `flate2`'s `ZlibDecoder` yields when it reads the zlib
/// stream at the start of `input` to its end (`None` on a decoding error).
pub uninterp spec fn zlib_inflated(input: Seq<u8>) -> Option<Seq<u8>>;

/// Reads `flate2::read::ZlibDecoder::new(input)` to the end. Trusted: the
/// result is the named `zlib_inflated(input)`; the error text is the I/O
/// error's display, about which nothing is claimed.
#[verifier::external_body]
fn zlib_inflate(input: &[u8]) -> (r: Result<Vec<u8>, String>)
    ensures
        r is Ok <==> zlib_inflated(input@) is Some,
        r matches Ok(v) ==> zlib_inflated(input@) == Some(v@),
{
    let mut decoder = flate2::read::ZlibDecoder::new(input);
    let mut out = Vec::new();
    match decoder.read_to_end(&mut out) {
        Ok(_) => Ok(out),
        Err(e) => Err(e.to_string()),
    }
}

/// `cmf`/`flg` form a deflate zlib header (`0x78`, checksum multiple of 31).
pub open spec fn zlib_header_spec(cmf: u8, flg: u8) -> bool {
    cmf == 0x78 && (cmf * 256 + flg) % 31 == 0
}

fn is_zlib_header(cmf: u8, flg: u8) -> (r: bool)
    ensures
        r == zlib_header_spec(cmf, flg),
{
    cmf == 0x78 && (cmf as u16 * 256 + flg as u16) % 31 == 0
}

/// Offsets tried, in order, as the start of the zlib stream: 16 and 18
/// (when inside the file), then every offset in `8..min(len, 128) - 1`
/// holding a zlib header, other than those two.
pub open spec fn inflate_candidates(b: Seq<u8>) -> Seq<int> {
    let fixed = (if 16 < b.len() { seq![16int] } else { seq![] }) + (if 18 < b.len() { seq![18int] } else { seq![] });
    let scan_end = if b.len() < 128 { b.len() - 1 } else { 127 };
    fixed + scanned_headers(b, 8, scan_end)
}

/// Offsets in `from..to` holding a zlib header, other than 16 and 18.
pub open spec fn scanned_headers(b: Seq<u8>, from: int, to: int) -> Seq<int>
    decreases to - from,
{
    if from >= to {
        seq![]
    } else if zlib_header_spec(b[from], b[from + 1]) && from != 16 && from != 18 {
        seq![from] + scanned_headers(b, from + 1, to)
    } else {
        scanned_headers(b, from + 1, to)
    }
}

/// First candidate (from index `k` on) whose stream inflates to a
/// non-empty body.
pub open spec fn first_inflated(b: Seq<u8>, cands: Seq<int>, k: int) -> Option<Seq<u8>>
    decreases cands.len() - k,
{
    if k < 0 || k >= cands.len() {
        None
    } else {
        match zlib_inflated(b.subrange(cands[k], b.len() as int)) {
            Some(v) => if v.len() > 0 {
                Some(v)
            } else {
                first_inflated(b, cands, k + 1)
            },
            None => first_inflated(b, cands, k + 1),
        }
    }
}

proof fn lemma_scanned_split(b: Seq<u8>, from: int, mid: int, to: int)
    requires
        from <= mid <= to,
    ensures
        scanned_headers(b, from, to) == scanned_headers(b, from, mid) + scanned_headers(b, mid, to),
    decreases mid - from,
{
    if from < mid {
        lemma_scanned_split(b, from + 1, mid, to);
        assert(scanned_headers(b, from, to) =~= scanned_headers(b, from, mid) + scanned_headers(b, mid, to));
    } else {
        assert(scanned_headers(b, from, mid) =~= Seq::<int>::empty());
        assert(scanned_headers(b, from, to) =~= scanned_headers(b, from, mid) + scanned_headers(b, mid, to));
    }
}

fn candidate_starts(bytes: &[u8]) -> (starts: Vec<usize>)
    ensures
        starts@.len() == inflate_candidates(bytes@).len(),
        forall|k: int| 0 <= k < starts@.len() ==> #[trigger] starts@[k] == inflate_candidates(bytes@)[k]
            && starts@[k] < bytes@.len(),
{
    let n = bytes.len();
    let mut starts: Vec<usize> = Vec::new();
    if 16 < n {
        starts.push(16);
    }
    if 18 < n {
        starts.push(18);
    }
    let ghost fixed = starts@;
    let scan_end: usize = if n < 128 {
        if n == 0 { 0 } else { n - 1 }
    } else {
        127
    };
    let ghost spec_end = if n < 128 { n - 1 } else { 127 };
    let mut i: usize = 8;
    while i < scan_end
        invariant
            n == bytes@.len(),
            scan_end <= n,
            scan_end == 0 || scan_end < n,
            scan_end == spec_end || (n == 0 && scan_end == 0),
            8 <= i,
            i <= scan_end || i == 8,
            forall|k: int| 0 <= k < fixed.len() ==> fixed[k] < n,
            fixed.map_values(|x: usize| x as int) =~= (if 16 < n { seq![16int] } else { seq![] }) + (if 18 < n { seq![18int] } else { seq![] }),
            starts@.len() >= fixed.len(),
            starts@.subrange(0, fixed.len() as int) == fixed,
            starts@.subrange(fixed.len() as int, starts@.len() as int).map_values(|x: usize| x as int)
                == scanned_headers(bytes@, 8, i as int),
            forall|k: int| 0 <= k < starts@.len() ==> starts@[k] < n,
        decreases scan_end - i,
    {
        let ghost before = starts@;
        proof {
            lemma_scanned_split(bytes@, 8, i as int, i + 1);
        }
        if is_zlib_header(bytes[i], bytes[i + 1]) && i != 16 && i != 18 {
            starts.push(i);
            assert(starts@.subrange(0, fixed.len() as int) =~= before.subrange(0, fixed.len() as int));
            assert(starts@.subrange(fixed.len() as int, starts@.len() as int) =~= before.subrange(
                fixed.len() as int,
                before.len() as int,
            ).push(i));
        }
        assert(scanned_headers(bytes@, i as int + 1, i as int + 1) =~= Seq::<int>::empty());
        i = i + 1;
        assert(starts@.subrange(fixed.len() as int, starts@.len() as int).map_values(|x: usize| x as int)
            =~= scanned_headers(bytes@, 8, i as int));
    }
    proof {
        if scan_end <= 8 {
            assert(scanned_headers(bytes@, 8, spec_end) =~= Seq::<int>::empty());
        }
        let c = inflate_candidates(bytes@);
        assert(starts@ =~= starts@.subrange(0, fixed.len() as int) + starts@.subrange(fixed.len() as int, starts@.len() as int));
        assert(starts@.map_values(|x: usize| x as int) =~= c);
        assert forall|k: int| 0 <= k < starts@.len() implies #[trigger] starts@[k] == inflate_candidates(bytes@)[k]
            && starts@[k] < bytes@.len() by {
            assert(starts@.map_values(|x: usize| x as int)[k] == starts@[k] as int);
        }
    }
    starts
}

/// Inflate the compressed SIMISA body: try each candidate stream start in
/// order and keep the first that inflates to a non-empty body.
fn inflate_simisa_body(bytes: &[u8]) -> (r: Result<Vec<u8>, FormatError>)
    ensures
        r matches Ok(v) ==> first_inflated(bytes@, inflate_candidates(bytes@), 0) == Some(v@),
        r is Err ==> first_inflated(bytes@, inflate_candidates(bytes@), 0) is None,
        r matches Err(e) ==> e.token_offset() == Some(0usize),
{
    let starts = candidate_starts(bytes);
    let ghost cands = inflate_candidates(bytes@);
    let mut last_error: Option<String> = None;
    let mut k: usize = 0;
    while k < starts.len()
        invariant
            k <= starts@.len(),
            starts@.len() == cands.len(),
            cands == inflate_candidates(bytes@),
            forall|j: int| 0 <= j < starts@.len() ==> #[trigger] starts@[j] == cands[j] && starts@[j] < bytes@.len(),
            first_inflated(bytes@, cands, k as int) == first_inflated(bytes@, cands, 0),
        decreases starts@.len() - k,
    {
        let start = starts[k];
        assert(start == cands[k as int]);
        let input = vstd::slice::slice_subrange(bytes, start, bytes.len());
        match zlib_inflate(input) {
            Ok(out) => {
                if out.len() > 0 {
                    return Ok(out);
                }
                last_error = Some("empty zlib payload".to_string());
            },
            Err(e) => {
                last_error = Some(e);
            },
        }
        k = k + 1;
    }
    let message = match last_error {
        Some(e) => inflate_failure_message(e),
        None => "zlib inflate failed: compressed payload is empty".to_string(),
    };
    Err(FormatError::UnexpectedToken { offset: 0, message })
}

/// Prefixes an inflate error text.
fn inflate_failure_message(e: String) -> (r: String)
    ensures
        r@ == "zlib inflate failed: "@ + e@,
{
    let mut out: Vec<u8> = Vec::new();
    let ghost mut t: Seq<char> = seq![];
    assert(out@ =~= vstd::utf8::encode_utf8(t));
    push_piece(&mut out, "zlib inflate failed: ", Ghost(t));
    proof { t = t + "zlib inflate failed: "@; }
    push_piece(&mut out, e.as_str(), Ghost(t));
    proof { t = t + e@; }
    finish_text(out, Ghost(t))
}

/// `b` starts with the ASCII bytes `SIMISA`.
pub open spec fn starts_simisa(b: Seq<u8>) -> bool {
    b.len() >= 6 && b[0] == 83 && b[1] == 73 && b[2] == 77 && b[3] == 73 && b[4] == 83 && b[5] == 65
}

/// `b` starts with the ASCII bytes `SIMISA@F` (zlib-compressed container).
pub open spec fn starts_simisa_f(b: Seq<u8>) -> bool {
    starts_simisa(b) && b.len() >= 8 && b[6] == 64 && b[7] == 70
}

/// Body of the container before its sub-header is examined: the inflated and
/// single-byte-normalized stream for `SIMISA@F`, the bytes after the 16-byte
/// header otherwise.
pub open spec fn simisa_body_spec(b: Seq<u8>) -> Option<Seq<u8>> {
    if b.len() < HEADER_LEN + 8 || !valid_utf8(b.subrange(0, 8)) {
        None
    } else if starts_simisa_f(b) {
        match first_inflated(b, inflate_candidates(b), 0) {
            Some(v) => Some(latin_bytes_spec(v)),
            None => None,
        }
    } else if starts_simisa(b) {
        Some(b.subrange(HEADER_LEN as int, b.len() as int))
    } else {
        None
    }
}

/// First text byte after the 8-byte sub-header: the first `(` or ASCII
/// letter among the next 32 bytes, else the end of the sub-header.
pub open spec fn text_start_spec(body: Seq<u8>) -> int {
    let s = if body.len() < 8 { body.len() as int } else { 8 };
    let lim = if body.len() < s + 32 { body.len() as int } else { s + 32 };
    match first_text_byte(body, s, lim) {
        Some(i) => i,
        None => s,
    }
}

/// `(` or an ASCII letter.
pub open spec fn is_text_start_byte(b: u8) -> bool {
    b == 40 || (65 <= b <= 90) || (97 <= b <= 122)
}

/// First index in `i..lim` holding a text start byte.
pub open spec fn first_text_byte(body: Seq<u8>, i: int, lim: int) -> Option<int>
    decreases lim - i,
{
    if i >= lim {
        None
    } else if is_text_start_byte(body[i]) {
        Some(i)
    } else {
        first_text_byte(body, i + 1, lim)
    }
}

/// Scan past the JINX sub-header and any padding to the first S-expression
/// character.
pub fn find_text_start(body: &[u8]) -> (r: usize)
    ensures
        r == text_start_spec(body@),
        r <= body@.len(),
{
    let n = body.len();
    let s: usize = if n < 8 { n } else { 8 };
    let lim: usize = if n - s < 32 { n } else { s + 32 };
    let mut i = s;
    while i < lim
        invariant
            s <= i <= lim <= n,
            n == body@.len(),
            s == (if body@.len() < 8 { body@.len() as int } else { 8 }),
            lim == (if body@.len() < s + 32 { body@.len() as int } else { s + 32 }),
            first_text_byte(body@, i as int, lim as int) == first_text_byte(body@, s as int, lim as int),
        decreases lim - i,
    {
        let b = body[i];
        if b == 40u8 || (65u8 <= b && b <= 90u8) || (97u8 <= b && b <= 122u8) {
            return i;
        }
        i = i + 1;
    }
    s
}

/// Token ids of shape (1..=129) or world (300..=430) blocks.
pub open spec fn known_shape_or_world_token(id: int) -> bool {
    (1 <= id <= 129) || (300 <= id <= 430)
}

fn is_known_shape_or_world_token(id: i32) -> (r: bool)
    ensures
        r == known_shape_or_world_token(id as int),
{
    (1 <= id && id <= 129) || (300 <= id && id <= 430)
}

/// A plausible first block header at `i`: known token (with offset), non-zero
/// declared size, and the block fits in the body.
pub open spec fn binary_start_at(body: Seq<u8>, i: int, token_offset: int) -> bool {
    &&& i + 8 <= body.len()
    &&& known_shape_or_world_token(le_u16(body, i) + token_offset)
    &&& le_u32(body, i + 4) > 0
    &&& 8 + le_u32(body, i + 4) <= body.len() - i
}

/// First offset in `i..lim` (stopping where fewer than 8 bytes remain) with a
/// plausible block header.
pub open spec fn first_binary_start(body: Seq<u8>, i: int, lim: int, token_offset: int) -> Option<int>
    decreases lim - i,
{
    if i >= lim || i + 8 > body.len() {
        None
    } else if binary_start_at(body, i, token_offset) {
        Some(i)
    } else {
        first_binary_start(body, i + 1, lim, token_offset)
    }
}

/// Where binary data starts: the first plausible block header among the 32
/// offsets after the sub-header, else the end of the sub-header.
pub open spec fn binary_start_spec(body: Seq<u8>, token_offset: int) -> int {
    let s = if body.len() < 8 { body.len() as int } else { 8 };
    let lim = if body.len() < s + 32 { body.len() as int } else { s + 32 };
    match first_binary_start(body, s, lim, token_offset) {
        Some(i) => i,
        None => s,
    }
}

/// Scan past the JINX sub-header and any padding to the first binary block
/// header.
pub fn find_binary_start(body: &[u8], token_offset: i32) -> (r: usize)
    requires
        token_offset == 0 || token_offset == 300,
    ensures
        r == binary_start_spec(body@, token_offset as int),
        r <= body@.len(),
{
    let n = body.len();
    let s: usize = if n < 8 { n } else { 8 };
    let lim: usize = if n - s < 32 { n } else { s + 32 };
    let mut i = s;
    while i < lim
        invariant
            s <= i <= lim <= n,
            n == body@.len(),
            token_offset == 0 || token_offset == 300,
            s == (if body@.len() < 8 { body@.len() as int } else { 8 }),
            lim == (if body@.len() < s + 32 { body@.len() as int } else { s + 32 }),
            first_binary_start(body@, i as int, lim as int, token_offset as int) == first_binary_start(
                body@,
                s as int,
                lim as int,
                token_offset as int,
            ),
        decreases lim - i,
    {
        if 8 > n - i {
            return s;
        }
        let token = read_le_u16(body, i) as i32 + token_offset;
        if is_known_shape_or_world_token(token) {
            let remaining = read_le_u32(body, i + 4);
            if remaining as u64 <= (n - i) as u64 && 8 <= (n - i) as u64 - remaining as u64 && remaining > 0 {
                return i;
            }
        }
        i = i + 1;
    }
    s
}

/// The 8-byte sub-header is `JINX`-style with `t` (text) or `b` (binary) at
/// byte 7 and is valid UTF-8.
pub open spec fn sub_kind(body: Seq<u8>) -> Option<bool> {
    if body.len() < 8 || !valid_utf8(body.subrange(0, 8)) {
        None
    } else if body[7] == 116 {
        Some(true)
    } else if body[7] == 98 {
        Some(false)
    } else {
        None
    }
}

/// Token offset of a container: 300 for binary world files (`w` at byte 5
/// of the sub-header), 0 otherwise.
pub open spec fn token_offset_spec(body: Seq<u8>, is_text: bool) -> int {
    if !is_text && body[5] == 119 {
        300
    } else {
        0
    }
}

/// Decoded container: `(body, is_text, data_offset, token_offset)`, or
/// `None` when [`decode_simisa_container`] fails.
pub open spec fn simisa_payload_spec(bytes: Seq<u8>) -> Option<(Seq<u8>, bool, int, int)> {
    match simisa_body_spec(bytes) {
        None => None,
        Some(body) => match sub_kind(body) {
            None => None,
            Some(is_text) => {
                let off = token_offset_spec(body, is_text);
                Some((body, is_text, if is_text { text_start_spec(body) } else { binary_start_spec(body, off) }, off))
            },
        },
    }
}

/// Strip the SIMISA wrapper and zlib-decompress (`SIMISA@F`) if present.
///
/// Fails (with an `UnexpectedToken` error at offset 0) when the file is
/// shorter than 24 bytes, the header is not `SIMISA…` or not UTF-8, the
/// compressed body cannot be inflated, the body is shorter than 8 bytes, or
/// the sub-header is neither text (`t`) nor binary (`b`).
pub fn decode_simisa_container(bytes: &[u8]) -> (r: Result<SimisaPayload, FormatError>)
    ensures
        match simisa_payload_spec(bytes@) {
            None => r is Err,
            Some((body, is_text, data_offset, token_offset)) => r matches Ok(p) && {
                &&& p.bytes@ == body
                &&& p.is_text == is_text
                &&& p.token_offset == token_offset
                &&& p.data_offset == data_offset
                &&& p.data_offset <= p.bytes@.len()
            },
        },
        r matches Err(e) ==> e.token_offset() == Some(0usize),
{
    if bytes.len() < HEADER_LEN + 8 {
        return Err(FormatError::UnexpectedToken { offset: 0, message: "file too short for SIMISA header".to_string() });
    }
    let head = vstd::slice::slice_subrange(bytes, 0, 8);
    let head_ok = is_valid_utf8(head);
    let simisa = bytes[0] == 83u8 && bytes[1] == 73u8 && bytes[2] == 77u8 && bytes[3] == 73u8
        && bytes[4] == 83u8 && bytes[5] == 65u8;
    let body: Vec<u8> = if head_ok && simisa && bytes[6] == 64u8 && bytes[7] == 70u8 {
        let inflated = inflate_simisa_body(bytes)?;
        msts_latin_bytes(inflated.as_slice())
    } else if head_ok && simisa {
        vstd::slice::slice_to_vec(vstd::slice::slice_subrange(bytes, HEADER_LEN, bytes.len()))
    } else {
        return Err(FormatError::UnexpectedToken { offset: 0, message: header_message(head) });
    };
    if body.len() < 8 {
        return Err(FormatError::UnexpectedToken { offset: 0, message: "SIMISA body too short".to_string() });
    }
    let sub = vstd::slice::slice_subrange(body.as_slice(), 0, 8);
    let sub_ok = is_valid_utf8(sub);
    let is_text = sub_ok && body[7] == 116u8;
    let is_binary = sub_ok && body[7] == 98u8;
    if !is_text && !is_binary {
        return Err(FormatError::UnexpectedToken { offset: 0, message: sub_header_message(sub) });
    }
    let token_offset: i32 = if is_binary && body[5] == 119u8 {
        300
    } else {
        0
    };
    let data_offset = if is_text {
        find_text_start(body.as_slice())
    } else {
        find_binary_start(body.as_slice(), token_offset)
    };
    Ok(SimisaPayload { bytes: body, is_text, data_offset, token_offset })
}

/// Length of `b` without its trailing zero bytes.
pub open spec fn nul_trimmed_len(b: Seq<u8>) -> int
    decreases b.len(),
{
    if b.len() > 0 && b.last() == 0u8 {
        nul_trimmed_len(b.drop_last())
    } else {
        b.len() as int
    }
}

/// The header text that an error reports: the bytes as UTF-8 without their
/// trailing NUL characters, or nothing when they are not UTF-8.
pub open spec fn header_prefix_text(b: Seq<u8>) -> Seq<char> {
    if valid_utf8(b) {
        decode_utf8(b.subrange(0, nul_trimmed_len(b)))
    } else {
        seq![]
    }
}

/// Name for the `Debug` text of a string: `format!("{:?}", s)`.
pub uninterp spec fn debug_str_text(s: Seq<char>) -> Seq<char>;

/// Calls `<str as Debug>::fmt` through `format!("{:?}", s)`. Trusted: the
/// result is the named text `debug_str_text(s)` (the string quoted, with
/// Rust's escapes), a function of `s` alone.
#[verifier::external_body]
fn debug_str(s: &str) -> (r: String)
    ensures
        r@ == debug_str_text(s@),
{
    format!("{:?}", s)
}

/// The header text of an error message (see [`header_prefix_text`]).
fn header_prefix(head: &[u8]) -> (r: String)
    ensures
        r@ == header_prefix_text(head@),
{
    if !is_valid_utf8(head) {
        return String::new();
    }
    let mut n: usize = head.len();
    assert(head@.subrange(0, n as int) =~= head@);
    while n > 0 && head[n - 1] == 0u8
        invariant
            n <= head@.len(),
            nul_trimmed_len(head@) == nul_trimmed_len(head@.subrange(0, n as int)),
            forall|i: int| n <= i < head@.len() ==> head@[i] == 0u8,
        decreases n,
    {
        assert(head@.subrange(0, n as int).drop_last() =~= head@.subrange(0, n - 1));
        n = n - 1;
    }
    proof {
        assert(nul_trimmed_len(head@.subrange(0, n as int)) == n);
        if n < head@.len() {
            lemma_ascii_boundary(head@, n as int);
        } else {
            lemma_boundary_at(head@, n as int);
        }
        lemma_boundary_at(head@, 0);
        lemma_slice_valid(head@, 0, n as int);
    }
    utf8_string(vstd::slice::slice_subrange(head, 0, n))
}

/// `prefix` followed by the `Debug` text of the header text.
fn header_error_message(prefix: &str, head: &[u8]) -> (r: String)
    ensures
        r@ == prefix@ + debug_str_text(header_prefix_text(head@)),
{
    let text = header_prefix(head);
    let quoted = debug_str(text.as_str());
    let mut out: Vec<u8> = Vec::new();
    assert(out@ =~= encode_utf8(Seq::<char>::empty()));
    push_piece(&mut out, prefix, Ghost(Seq::<char>::empty()));
    assert(Seq::<char>::empty() + prefix@ =~= prefix@);
    push_piece(&mut out, quoted.as_str(), Ghost(prefix@));
    finish_text(out, Ghost(prefix@ + quoted@))
}

/// Message for an unrecognized SIMISA header.
fn header_message(head: &[u8]) -> (r: String)
    ensures
        r@ == "unrecognized SIMISA header: "@ + debug_str_text(header_prefix_text(head@)),
{
    header_error_message("unrecognized SIMISA header: ", head)
}

/// Message for an unrecognized sub-header.
fn sub_header_message(sub: &[u8]) -> (r: String)
    ensures
        r@ == "unrecognized SIMISA sub-header: "@ + debug_str_text(header_prefix_text(sub@)),
{
    header_error_message("unrecognized SIMISA sub-header: ", sub)
}


/// A decoded container is text exactly when its sub-header's eighth byte is
/// `t`, binary when it is `b`; its token offset is 300 exactly for a binary
/// container whose sub-header has `w` at byte 5 (a world file), else 0.
pub proof fn lemma_container_kind_and_offset(bytes: Seq<u8>)
    ensures
        simisa_payload_spec(bytes) matches Some((body, is_text, data_offset, token_offset)) ==> {
            &&& body.len() >= 8
            &&& (is_text <==> body[7] == 116u8)
            &&& (!is_text <==> body[7] == 98u8)
            &&& (token_offset == 300 <==> (body[7] == 98u8 && body[5] == 119u8))
            &&& (token_offset == 300 || token_offset == 0)
        },
{
}

} // verus!
