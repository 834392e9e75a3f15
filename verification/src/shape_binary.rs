//! Binary tokenized MSTS shape (`.s` with `JINX0s1b`) → ASCII S-expression.
//!
//! The dumper walks the block tree and prints each block as
//! `( name "label" … )`: known collection blocks print their children,
//! index/flag/texture blocks print their scalar runs, and other blocks print
//! a mix of counts, nested blocks, strings and scalars, guided by the token
//! schema.
use vstd::prelude::*;
use vstd::utf8::is_ascii_chars;

use crate::message::{finish_text, push_piece};

use crate::bytes::{as_signed32, le_u16, le_u32, read_le_u16, read_le_u32, u32_as_i32};
use crate::error::FormatError;
use crate::float_text::{float_text, lemma_float_text_ascii, push_float};
use crate::msts_simisa::SimisaPayload;
use crate::shape_binary_reader::{apply_token_offset, le_units, offset_token, read_units};
use crate::shape_tokens::{
    expected_collection_child_spec, is_expected_collection_child, is_known_binary_token,
    is_scalar_only_leaf_block, is_schema_collection_parent, known_binary_token_spec,
    lemma_token_name_ascii, scalar_only_leaf_spec, scalars_are_i32_spec, schema_collection_parent_spec,
    token_name, token_name_spec, token_scalars_are_i32,
};
use crate::std_text::{string_from_utf16, utf16_text};
use crate::text::{
    ascii_chars, ascii_string, dec_digits, int_text, is_ascii_bytes, lemma_dec_digits_ascii,
    lemma_int_text_ascii, push_decimal, push_int,
};

verus! {

// ── specification of the dump ───────────────────────────────────────────────

/// Bytes of ASCII characters.
pub open spec fn chars_bytes(c: Seq<char>) -> Seq<u8> {
    Seq::new(c.len(), |i: int| c[i] as u8)
}

/// Printable ASCII text (no control characters).
pub open spec fn safe_text(t: Seq<char>) -> bool {
    forall|i: int| 0 <= i < t.len() ==> 0x20 <= #[trigger] (t[i] as int) <= 0x7E
}

/// `\` and `"` escaped with a backslash.
pub open spec fn escape_text(b: Seq<u8>) -> Seq<u8>
    decreases b.len(),
{
    if b.len() == 0 {
        seq![]
    } else {
        let c = b[0];
        let head: Seq<u8> = if c == 92 { seq![92u8, 92u8] } else if c == 34 { seq![92u8, 34u8] } else { seq![c] };
        head + escape_text(b.subrange(1, b.len() as int))
    }
}

/// Token id at `p` (with the offset applied), when two bytes are there.
pub open spec fn peek_token_at(d: Seq<u8>, off: int, p: int) -> Option<i32> {
    if p + 2 > d.len() {
        None
    } else {
        offset_token(le_u16(d, p), off)
    }
}

/// The label length byte of a block at `p` with `rem` declared bytes fits.
pub open spec fn label_plausible(d: Seq<u8>, p: int, rem: int) -> bool {
    &&& p + 8 + rem <= usize::MAX
    &&& p + 8 < d.len()
    &&& p + 9 + 2 * d[p + 8] <= p + 8 + rem
}

/// A plausible sub-block header at `p` inside `[.., end)`.
pub open spec fn header_at(d: Seq<u8>, off: int, p: int, end: int) -> bool {
    &&& p + 8 <= end
    &&& p + 8 <= d.len()
    &&& match offset_token(le_u16(d, p), off) {
        Some(t) => known_binary_token_spec(t as int, off) && le_u32(d, p + 4) != 0 && le_u32(d, p + 4)
            + 8 <= end - p && label_plausible(d, p, le_u32(d, p + 4)),
        None => false,
    }
}

/// A plausible header at `p` that the schema allows inside `parent`.
pub open spec fn for_parent(d: Seq<u8>, off: int, parent: int, p: int, end: int) -> bool {
    &&& !scalar_only_leaf_spec(parent)
    &&& header_at(d, off, p, end)
    &&& match peek_token_at(d, off, p) {
        Some(c) => if parent == 60 {
            c == 63 || c == 6 || c == 64
        } else if schema_collection_parent_spec(parent) {
            expected_collection_child_spec(parent, c as int)
        } else {
            true
        },
        None => false,
    }
}

/// A `u32` element count at `p` directly followed by an expected child block.
pub open spec fn count_before_children(d: Seq<u8>, off: int, parent: int, p: int, end: int) -> bool {
    &&& p + 12 <= end
    &&& match peek_token_at(d, off, p + 4) {
        Some(c) => expected_collection_child_spec(parent, c as int),
        None => false,
    }
    &&& le_u32(d, p) <= 100_000
    &&& for_parent(d, off, parent, p + 4, end)
}

/// A length-prefixed, printable, non-empty UTF-16 string at `p` (at most 512
/// units), printed quoted and escaped, with the position after it.
pub open spec fn string_at(d: Seq<u8>, p: int, end: int) -> Option<(Seq<u8>, int)> {
    if p + 2 > end {
        None
    } else {
        let count = le_u16(d, p);
        if count == 0 || count > 512 || p + 2 + 2 * count > end {
            None
        } else {
            match utf16_text(le_units(d, p + 2, count)) {
                Some(t) => if t.len() > 0 && safe_text(t) {
                    Some((seq![32u8, 34u8] + escape_text(chars_bytes(t)) + seq![34u8], p + 2 + 2 * count))
                } else {
                    None
                },
                None => None,
            }
        }
    }
}

/// One scalar at `p`: a signed integer for integer-valued tokens, a float otherwise.
pub open spec fn scalar_text(d: Seq<u8>, tok: int, p: int) -> Seq<u8> {
    if scalars_are_i32_spec(tok) {
        seq![32u8] + int_text(as_signed32(le_u32(d, p)))
    } else {
        seq![32u8] + float_text(le_u32(d, p) as u32)
    }
}

/// Up to `count` signed integers from `p` while four bytes remain.
pub open spec fn i32_run(d: Seq<u8>, p: int, end: int, count: int) -> Seq<u8>
    decreases count,
{
    if count <= 0 || p + 4 > end {
        seq![]
    } else {
        seq![32u8] + int_text(as_signed32(le_u32(d, p))) + i32_run(d, p + 4, end, count - 1)
    }
}

/// Up to `count` unsigned integers from `p` while four bytes remain.
pub open spec fn u32_run(d: Seq<u8>, p: int, end: int, count: int) -> Seq<u8>
    decreases count,
{
    if count <= 0 || p + 4 > end {
        seq![]
    } else {
        seq![32u8] + dec_digits(le_u32(d, p) as nat) + u32_run(d, p + 4, end, count - 1)
    }
}

/// Up to `count` normal indices from `p`, each followed by a skipped word.
pub open spec fn normal_run(d: Seq<u8>, p: int, end: int, count: int) -> Seq<u8>
    decreases count,
{
    if count <= 0 || p + 4 > end {
        seq![]
    } else {
        let next = if p + 8 <= end { p + 8 } else { p + 4 };
        seq![32u8] + int_text(as_signed32(le_u32(d, p))) + normal_run(d, next, end, count - 1)
    }
}

/// `vertex_idxs` body: a count, then that many indices.
pub open spec fn vertex_idxs_text(d: Seq<u8>, p: int, end: int) -> Seq<u8> {
    if p + 4 > end {
        seq![]
    } else {
        let t = as_signed32(le_u32(d, p));
        seq![32u8] + int_text(t) + i32_run(d, p + 4, end, t)
    }
}

/// `normal_idxs` body: a count, then that many (index, constant) pairs.
pub open spec fn normal_idxs_text(d: Seq<u8>, p: int, end: int) -> Seq<u8> {
    if p + 4 > end {
        seq![]
    } else {
        let t = as_signed32(le_u32(d, p));
        seq![32u8] + int_text(t) + normal_run(d, p + 4, end, t)
    }
}

/// `flags` body: a count, then that many unsigned flag words.
pub open spec fn flags_text(d: Seq<u8>, p: int, end: int) -> Seq<u8> {
    if p + 4 > end {
        seq![]
    } else {
        let t = as_signed32(le_u32(d, p));
        seq![32u8] + int_text(t) + u32_run(d, p + 4, end, t)
    }
}

/// `texture` body: image index, filter mode, mip-map bias and border colour,
/// each printed while four bytes remain.
pub open spec fn texture_text(d: Seq<u8>, p: int, end: int) -> Seq<u8> {
    if p + 4 > end {
        seq![]
    } else {
        let a = seq![32u8] + int_text(as_signed32(le_u32(d, p)));
        if p + 8 > end {
            a
        } else {
            let b = a + seq![32u8] + int_text(as_signed32(le_u32(d, p + 4)));
            if p + 12 > end {
                b
            } else {
                let c = b + seq![32u8] + float_text(le_u32(d, p + 8) as u32);
                if p + 16 <= end {
                    c + seq![32u8] + dec_digits(le_u32(d, p + 12) as nat)
                } else {
                    c
                }
            }
        }
    }
}

/// End of the block whose header is at `p`.
pub open spec fn block_next(d: Seq<u8>, p: int) -> int {
    p + 8 + le_u32(d, p + 4)
}

/// Header of the block at `p`: token, body end, first body byte and the
/// printed label (` "label"` when it is printable, else nothing).
pub open spec fn block_header(d: Seq<u8>, off: int, p: int) -> Option<(i32, int, int, Seq<u8>)> {
    if p + 9 > d.len() || block_next(d, p) > d.len() {
        None
    } else {
        match offset_token(le_u16(d, p), off) {
            None => None,
            Some(tok) => {
                let be = block_next(d, p);
                let len = d[p + 8] as int;
                if len == 0 {
                    Some((tok, be, p + 9, seq![]))
                } else if p + 9 + 2 * len > be {
                    None
                } else {
                    match utf16_text(le_units(d, p + 9, len)) {
                        None => None,
                        Some(t) => Some((tok, be, p + 9 + 2 * len, if safe_text(t) {
                            seq![32u8, 34u8] + chars_bytes(t) + seq![34u8]
                        } else {
                            seq![]
                        })),
                    }
                }
            },
        }
    }
}

/// Text printed for the block whose header is at `p` (`None` on a malformed
/// block: truncated header, body past the data, label past the block or not
/// UTF-16, or such an error in a nested collection child).
pub open spec fn block_text(d: Seq<u8>, off: int, p: int) -> Option<Seq<u8>>
    decreases d.len() - p, 0int, 0int,
{
    match block_header(d, off, p) {
        None => None,
        Some((tok, be, q, label)) => {
            let head = seq![40u8, 32u8] + chars_bytes(token_name_spec(tok)) + label;
            let close = seq![32u8, 41u8];
            if tok == 63 {
                Some(head + vertex_idxs_text(d, q, be) + close)
            } else if tok == 6 {
                Some(head + normal_idxs_text(d, q, be) + close)
            } else if tok == 64 {
                Some(head + flags_text(d, q, be) + close)
            } else if tok == 15 {
                Some(head + texture_text(d, q, be) + close)
            } else if tok == 60 {
                match trilist_children(d, off, q, be) {
                    Some(t) => Some(head + t + close),
                    None => None,
                }
            } else if tok == 71 {
                match shape_children(d, off, q, be, 17) {
                    Some(t) => Some(head + t + close),
                    None => None,
                }
            } else {
                Some(head + generic_body(d, off, tok as int, q, be) + close)
            }
        },
    }
}

/// Children of an `indexed_trilist` (only `vertex_idxs`, `normal_idxs`, `flags`).
pub open spec fn trilist_children(d: Seq<u8>, off: int, p: int, end: int) -> Option<Seq<u8>>
    decreases d.len() - p, 1int, 0int,
{
    if p < end && end <= d.len() && for_parent(d, off, 60, p, end) {
        match block_text(d, off, p) {
            None => None,
            Some(s) => match trilist_children(d, off, block_next(d, p), end) {
                Some(t) => Some(seq![32u8] + s + t),
                None => None,
            },
        }
    } else {
        Some(seq![])
    }
}

/// Children of `shape`: up to `k` more plausible blocks in order, then an
/// optional `animations` block.
pub open spec fn shape_children(d: Seq<u8>, off: int, p: int, end: int, k: nat) -> Option<Seq<u8>>
    decreases d.len() - p, 1int, k,
{
    if end > d.len() {
        Some(seq![])
    } else if k > 0 && p < end && header_at(d, off, p, end) {
        match block_text(d, off, p) {
            None => None,
            Some(s) => match shape_children(d, off, block_next(d, p), end, (k - 1) as nat) {
                Some(t) => Some(seq![32u8] + s + t),
                None => None,
            },
        }
    } else if p < end && header_at(d, off, p, end) && peek_token_at(d, off, p) == Some(90i32) {
        match block_text(d, off, p) {
            None => None,
            Some(s) => Some(seq![32u8] + s),
        }
    } else {
        Some(seq![])
    }
}

/// Body of any other block, from `p`: counts before child runs, child blocks
/// (a malformed child is read as a scalar instead), strings, then scalars.
pub open spec fn generic_body(d: Seq<u8>, off: int, tok: int, p: int, end: int) -> Seq<u8>
    decreases d.len() - p, 1int, 0int,
{
    if p >= end || end > d.len() {
        seq![]
    } else if count_before_children(d, off, tok, p, end) {
        seq![32u8] + dec_digits(le_u32(d, p) as nat) + generic_body(d, off, tok, p + 4, end)
    } else if for_parent(d, off, tok, p, end) {
        match block_text(d, off, p) {
            Some(s) => seq![32u8] + s + generic_body(d, off, tok, block_next(d, p), end),
            None => if p + 4 > end {
                seq![]
            } else {
                scalar_text(d, tok, p) + generic_body(d, off, tok, p + 4, end)
            },
        }
    } else {
        match string_at(d, p, end) {
            Some((t, next)) => if next > p {
                t + generic_body(d, off, tok, next, end)
            } else {
                seq![]
            },
            None => if p + 4 <= end {
                scalar_text(d, tok, p) + generic_body(d, off, tok, p + 4, end)
            } else {
                seq![]
            },
        }
    }
}

/// Text of a binary shape payload: its root block, from `data_offset`.
pub open spec fn shape_ascii_spec(bytes: Seq<u8>, data_offset: int, token_offset: int) -> Option<Seq<u8>> {
    block_text(bytes.subrange(data_offset, bytes.len() as int), token_offset, 0)
}


// ── the dump is ASCII ────────────────────────────────────────────────────────

proof fn lemma_ascii_concat(a: Seq<u8>, b: Seq<u8>)
    requires
        is_ascii_bytes(a),
        is_ascii_bytes(b),
    ensures
        is_ascii_bytes(a + b),
{
    assert forall|i: int| 0 <= i < (a + b).len() implies (a + b)[i] < 128 by {
        if i < a.len() {
            assert((a + b)[i] == a[i]);
        } else {
            assert((a + b)[i] == b[i - a.len()]);
        }
    }
}

proof fn lemma_chars_bytes_ascii(c: Seq<char>)
    requires
        is_ascii_chars(c),
    ensures
        is_ascii_bytes(chars_bytes(c)),
{
    assert forall|i: int| 0 <= i < chars_bytes(c).len() implies chars_bytes(c)[i] < 128 by {
        assert('\0' <= c[i] <= '\u{7f}');
    }
}

proof fn lemma_safe_text_ascii(t: Seq<char>)
    requires
        safe_text(t),
    ensures
        is_ascii_bytes(chars_bytes(t)),
{
    assert forall|i: int| 0 <= i < chars_bytes(t).len() implies chars_bytes(t)[i] < 128 by {
        assert(0x20 <= (t[i] as int) <= 0x7E);
    }
}

proof fn lemma_escape_ascii(b: Seq<u8>)
    requires
        is_ascii_bytes(b),
    ensures
        is_ascii_bytes(escape_text(b)),
    decreases b.len(),
{
    if b.len() > 0 {
        let rest = b.subrange(1, b.len() as int);
        assert(is_ascii_bytes(rest));
        lemma_escape_ascii(rest);
        let c = b[0];
        let head: Seq<u8> = if c == 92 { seq![92u8, 92u8] } else if c == 34 { seq![92u8, 34u8] } else { seq![c] };
        assert(is_ascii_bytes(head));
        lemma_ascii_concat(head, escape_text(rest));
    }
}

proof fn lemma_int_piece_ascii(v: int)
    ensures
        is_ascii_bytes(seq![32u8] + int_text(v)),
{
    lemma_int_text_ascii(v);
    lemma_ascii_concat(seq![32u8], int_text(v));
}

proof fn lemma_nat_piece_ascii(v: nat)
    ensures
        is_ascii_bytes(seq![32u8] + dec_digits(v)),
{
    lemma_dec_digits_ascii(v);
    lemma_ascii_concat(seq![32u8], dec_digits(v));
}

proof fn lemma_i32_run_ascii(d: Seq<u8>, p: int, end: int, count: int)
    ensures
        is_ascii_bytes(i32_run(d, p, end, count)),
    decreases count,
{
    if !(count <= 0 || p + 4 > end) {
        lemma_i32_run_ascii(d, p + 4, end, count - 1);
        lemma_int_piece_ascii(as_signed32(le_u32(d, p)));
        lemma_ascii_concat(seq![32u8] + int_text(as_signed32(le_u32(d, p))), i32_run(d, p + 4, end, count - 1));
    }
}

proof fn lemma_u32_run_ascii(d: Seq<u8>, p: int, end: int, count: int)
    ensures
        is_ascii_bytes(u32_run(d, p, end, count)),
    decreases count,
{
    if !(count <= 0 || p + 4 > end) {
        lemma_u32_run_ascii(d, p + 4, end, count - 1);
        lemma_nat_piece_ascii(le_u32(d, p) as nat);
        lemma_ascii_concat(seq![32u8] + dec_digits(le_u32(d, p) as nat), u32_run(d, p + 4, end, count - 1));
    }
}

proof fn lemma_normal_run_ascii(d: Seq<u8>, p: int, end: int, count: int)
    ensures
        is_ascii_bytes(normal_run(d, p, end, count)),
    decreases count,
{
    if !(count <= 0 || p + 4 > end) {
        let next = if p + 8 <= end { p + 8 } else { p + 4 };
        lemma_normal_run_ascii(d, next, end, count - 1);
        lemma_int_piece_ascii(as_signed32(le_u32(d, p)));
        lemma_ascii_concat(seq![32u8] + int_text(as_signed32(le_u32(d, p))), normal_run(d, next, end, count - 1));
    }
}

proof fn lemma_float_piece_ascii(bits: u32)
    ensures
        is_ascii_bytes(seq![32u8] + float_text(bits)),
{
    lemma_float_text_ascii(bits);
    lemma_ascii_concat(seq![32u8], float_text(bits));
}

proof fn lemma_scalar_ascii(d: Seq<u8>, tok: int, p: int)
    ensures
        is_ascii_bytes(scalar_text(d, tok, p)),
{
    lemma_int_piece_ascii(as_signed32(le_u32(d, p)));
    lemma_float_piece_ascii(le_u32(d, p) as u32);
}

proof fn lemma_content_ascii(d: Seq<u8>, p: int, end: int)
    ensures
        is_ascii_bytes(vertex_idxs_text(d, p, end)),
        is_ascii_bytes(normal_idxs_text(d, p, end)),
        is_ascii_bytes(flags_text(d, p, end)),
        is_ascii_bytes(texture_text(d, p, end)),
{
    let t = as_signed32(le_u32(d, p));
    lemma_int_piece_ascii(t);
    lemma_i32_run_ascii(d, p + 4, end, t);
    lemma_u32_run_ascii(d, p + 4, end, t);
    lemma_normal_run_ascii(d, p + 4, end, t);
    lemma_ascii_concat(seq![32u8] + int_text(t), i32_run(d, p + 4, end, t));
    lemma_ascii_concat(seq![32u8] + int_text(t), u32_run(d, p + 4, end, t));
    lemma_ascii_concat(seq![32u8] + int_text(t), normal_run(d, p + 4, end, t));
    let a = seq![32u8] + int_text(as_signed32(le_u32(d, p)));
    let a2 = seq![32u8] + int_text(as_signed32(le_u32(d, p + 4)));
    let a3 = seq![32u8] + float_text(le_u32(d, p + 8) as u32);
    let a4 = seq![32u8] + dec_digits(le_u32(d, p + 12) as nat);
    lemma_int_piece_ascii(as_signed32(le_u32(d, p + 4)));
    lemma_float_piece_ascii(le_u32(d, p + 8) as u32);
    lemma_nat_piece_ascii(le_u32(d, p + 12) as nat);
    lemma_ascii_concat(a, a2);
    lemma_ascii_concat(a + a2, a3);
    lemma_ascii_concat(a + a2 + a3, a4);
    assert(a + seq![32u8] + int_text(as_signed32(le_u32(d, p + 4))) =~= a + a2);
    assert(a + a2 + seq![32u8] + float_text(le_u32(d, p + 8) as u32) =~= a + a2 + a3);
    assert(a + a2 + a3 + seq![32u8] + dec_digits(le_u32(d, p + 12) as nat) =~= a + a2 + a3 + a4);
}

proof fn lemma_string_at_ascii(d: Seq<u8>, p: int, end: int)
    ensures
        string_at(d, p, end) matches Some((t, _)) ==> is_ascii_bytes(t),
{
    if p + 2 <= end {
        let count = le_u16(d, p);
        if let Some(t) = utf16_text(le_units(d, p + 2, count)) {
            if t.len() > 0 && safe_text(t) {
                lemma_safe_text_ascii(t);
                lemma_escape_ascii(chars_bytes(t));
                lemma_ascii_concat(seq![32u8, 34u8], escape_text(chars_bytes(t)));
                lemma_ascii_concat(seq![32u8, 34u8] + escape_text(chars_bytes(t)), seq![34u8]);
            }
        }
    }
}

// ── executable dumper ────────────────────────────────────────────────────────

struct BinaryReader<'a> {
    data: &'a [u8],
    pos: usize,
    token_offset: i32,
    base_offset: usize,
}

impl<'a> BinaryReader<'a> {
    spec fn wf(&self) -> bool {
        &&& self.pos <= self.data@.len()
        &&& self.base_offset + self.data@.len() <= usize::MAX
    }

    fn new(data: &'a [u8], token_offset: i32, base_offset: usize) -> (r: Self)
        requires
            base_offset + data@.len() <= usize::MAX,
        ensures
            r.wf(),
            r.data == data,
            r.pos == 0,
            r.token_offset == token_offset,
    {
        BinaryReader { data, pos: 0, token_offset, base_offset }
    }

    fn absolute_pos(&self) -> (r: usize)
        requires
            self.wf(),
        ensures
            r == self.base_offset + self.pos,
    {
        self.base_offset + self.pos
    }

    fn remaining(&self) -> (r: usize)
        requires
            self.wf(),
        ensures
            r == self.data@.len() - self.pos,
    {
        self.data.len() - self.pos
    }

    fn eof_error(&self, what: &str) -> (e: FormatError)
        requires
            self.wf(),
        ensures
            e matches FormatError::UnexpectedToken { offset, message } && offset == self.base_offset
                + self.pos && message@ == "unexpected EOF reading "@ + what@,
    {
        FormatError::UnexpectedToken { offset: self.absolute_pos(), message: eof_message(what) }
    }

    fn read_u8(&mut self) -> (r: Result<u8, FormatError>)
        requires
            old(self).wf(),
        ensures
            final(self).wf(),
            final(self).data == old(self).data,
            final(self).token_offset == old(self).token_offset,
            final(self).base_offset == old(self).base_offset,
            r is Ok <==> old(self).pos + 1 <= old(self).data@.len(),
            r matches Ok(b) ==> b == old(self).data@[old(self).pos as int] && final(self).pos == old(self).pos + 1,
    {
        if self.pos >= self.data.len() {
            return Err(self.eof_error("u8"));
        }
        let b = self.data[self.pos];
        self.pos = self.pos + 1;
        Ok(b)
    }

    fn read_u16(&mut self) -> (r: Result<u16, FormatError>)
        requires
            old(self).wf(),
        ensures
            final(self).wf(),
            final(self).data == old(self).data,
            final(self).token_offset == old(self).token_offset,
            final(self).base_offset == old(self).base_offset,
            r is Ok <==> old(self).pos + 2 <= old(self).data@.len(),
            r matches Ok(v) ==> v == le_u16(old(self).data@, old(self).pos as int) && final(self).pos == old(self).pos + 2,
    {
        if self.remaining() < 2 {
            return Err(self.eof_error("u16"));
        }
        let v = read_le_u16(self.data, self.pos);
        self.pos = self.pos + 2;
        Ok(v)
    }

    fn map_token_id(&self, raw: u32) -> (r: Result<i32, FormatError>)
        requires
            self.wf(),
            raw <= 0xFFFF,
        ensures
            r is Ok <==> offset_token(raw as int, self.token_offset as int) is Some,
            r matches Ok(t) ==> offset_token(raw as int, self.token_offset as int) == Some(t),
    {
        match apply_token_offset(raw as u16, self.token_offset) {
            Some(t) => Ok(t),
            None => Err(FormatError::UnexpectedToken { offset: self.absolute_pos(), message: "binary token ID overflow".to_string() }),
        }
    }

    fn read_token_id(&mut self) -> (r: Result<i32, FormatError>)
        requires
            old(self).wf(),
        ensures
            final(self).wf(),
            final(self).data == old(self).data,
            final(self).token_offset == old(self).token_offset,
            final(self).base_offset == old(self).base_offset,
            r is Ok <==> old(self).pos + 2 <= old(self).data@.len()
                && offset_token(le_u16(old(self).data@, old(self).pos as int), old(self).token_offset as int) is Some,
            r matches Ok(t) ==> offset_token(le_u16(old(self).data@, old(self).pos as int), old(self).token_offset as int) == Some(t)
                && final(self).pos == old(self).pos + 2,
    {
        let raw = self.read_u16()? as u32;
        self.map_token_id(raw)
    }

    fn read_u32(&mut self) -> (r: Result<u32, FormatError>)
        requires
            old(self).wf(),
        ensures
            final(self).wf(),
            final(self).data == old(self).data,
            final(self).token_offset == old(self).token_offset,
            final(self).base_offset == old(self).base_offset,
            r is Ok <==> old(self).pos + 4 <= old(self).data@.len(),
            r matches Ok(v) ==> v == le_u32(old(self).data@, old(self).pos as int) && final(self).pos == old(self).pos + 4,
    {
        if self.remaining() < 4 {
            return Err(self.eof_error("u32"));
        }
        let v = read_le_u32(self.data, self.pos);
        self.pos = self.pos + 4;
        Ok(v)
    }

    /// Read a length-prefixed UTF-16 string (u16 count, then count units).
    fn read_string(&mut self) -> (r: Result<String, FormatError>)
        requires
            old(self).wf(),
        ensures
            final(self).wf(),
            final(self).data == old(self).data,
            final(self).token_offset == old(self).token_offset,
            final(self).base_offset == old(self).base_offset,
            ({
                let d = old(self).data@;
                let p = old(self).pos as int;
                if p + 2 > d.len() {
                    r is Err
                } else {
                    let count = le_u16(d, p);
                    if count == 0 {
                        r matches Ok(s) && s@.len() == 0
                    } else if p + 2 + 2 * count > d.len() {
                        r is Err
                    } else {
                        &&& final(self).pos == p + 2 + 2 * count
                        &&& match utf16_text(le_units(d, p + 2, count)) {
                            Some(t) => r matches Ok(s) && s@ == t,
                            None => r is Err,
                        }
                    }
                }
            }),
    {
        let count = self.read_u16()? as usize;
        if count == 0 {
            return Ok(String::new());
        }
        let byte_len = count * 2;
        if self.remaining() < byte_len {
            return Err(self.eof_error("string"));
        }
        let units = read_units(self.data, self.pos, count);
        self.pos = self.pos + byte_len;
        match string_from_utf16(&units) {
            Some(s) => Ok(s),
            None => Err(FormatError::UnexpectedToken { offset: self.absolute_pos(), message: "invalid UTF-16 string: invalid utf-16: lone surrogate found".to_string() }),
        }
    }

    fn peek_token_id_at(&self, pos: usize) -> (r: Option<i32>)
        requires
            self.wf(),
        ensures
            r == peek_token_at(self.data@, self.token_offset as int, pos as int),
    {
        if pos > self.data.len() || 2 > self.data.len() - pos {
            return None;
        }
        let token = read_le_u16(self.data, pos);
        apply_token_offset(token, self.token_offset)
    }

    fn block_label_is_plausible(&self, pos: usize, remaining: usize) -> (r: bool)
        requires
            self.wf(),
            pos + 8 <= self.data@.len(),
        ensures
            r == label_plausible(self.data@, pos as int, remaining as int),
    {
        let label_pos = pos + 8;
        if remaining > usize::MAX - label_pos {
            return false;
        }
        let block_end = label_pos + remaining;
        if label_pos >= self.data.len() {
            return false;
        }
        let label_len = self.data[label_pos];
        1 + label_len as usize * 2 <= block_end - label_pos
    }

    fn peek_subblock_header_at(&self, pos: usize, block_end: usize) -> (r: bool)
        requires
            self.wf(),
        ensures
            r == header_at(self.data@, self.token_offset as int, pos as int, block_end as int),
    {
        if pos > block_end || 8 > block_end - pos || pos > self.data.len() || 8 > self.data.len() - pos {
            return false;
        }
        let token = read_le_u16(self.data, pos) as u32;
        let remaining = read_le_u32(self.data, pos + 4);
        let token_id = match self.map_token_id(token) {
            Ok(t) => t,
            Err(_) => {
                return false;
            },
        };
        if !is_known_binary_token(token_id, self.token_offset) || remaining == 0 {
            return false;
        }
        if remaining as u64 + 8 > (block_end - pos) as u64 {
            return false;
        }
        self.block_label_is_plausible(pos, remaining as usize)
    }

    fn peek_subblock_header_for_parent(&self, parent_token_id: i32, pos: usize, block_end: usize) -> (r: bool)
        requires
            self.wf(),
        ensures
            r == for_parent(self.data@, self.token_offset as int, parent_token_id as int, pos as int, block_end as int),
    {
        if is_scalar_only_leaf_block(parent_token_id) {
            return false;
        }
        if !self.peek_subblock_header_at(pos, block_end) {
            return false;
        }
        let child = match self.peek_token_id_at(pos) {
            Some(c) => c,
            None => {
                return false;
            },
        };
        if parent_token_id == 60 {
            return child == 63 || child == 6 || child == 64;
        }
        if is_schema_collection_parent(parent_token_id) {
            return is_expected_collection_child(parent_token_id, child);
        }
        true
    }

    fn peek_subblock_header(&self, parent_token_id: i32, block_end: usize) -> (r: bool)
        requires
            self.wf(),
        ensures
            r == for_parent(self.data@, self.token_offset as int, parent_token_id as int, self.pos as int, block_end as int),
    {
        self.peek_subblock_header_for_parent(parent_token_id, self.pos, block_end)
    }

    fn try_read_count_before_subblocks(&mut self, parent_token_id: i32, block_end: usize, out: &mut Vec<u8>) -> (r: Result<bool, FormatError>)
        requires
            old(self).wf(),
            block_end <= old(self).data@.len(),
        ensures
            final(self).wf(),
            final(self).data == old(self).data,
            final(self).token_offset == old(self).token_offset,
            final(self).base_offset == old(self).base_offset,
            ({
                let d = old(self).data@;
                let p = old(self).pos as int;
                let c = count_before_children(d, old(self).token_offset as int, parent_token_id as int, p, block_end as int);
                &&& r == Ok::<bool, FormatError>(c)
                &&& c ==> final(self).pos == p + 4 && final(out)@ == old(out)@ + seq![32u8] + dec_digits(le_u32(d, p) as nat)
                &&& !c ==> final(self).pos == p && final(out)@ == old(out)@
            }),
    {
        if self.pos > block_end || 12 > block_end - self.pos {
            return Ok(false);
        }
        let count = read_le_u32(self.data, self.pos);
        let count_child = self.peek_token_id_at(self.pos + 4);
        let child_ok = match count_child {
            Some(child) => is_expected_collection_child(parent_token_id, child),
            None => false,
        };
        if child_ok && count <= 100_000 && self.peek_subblock_header_for_parent(parent_token_id, self.pos + 4, block_end) {
            self.pos = self.pos + 4;
            out.push(32u8);
            push_decimal(out, count as u64);
            assert(final(out)@ =~= old(out)@ + seq![32u8] + dec_digits(count as nat));
            return Ok(true);
        }
        Ok(false)
    }

    fn dump_vertex_idxs_content(&mut self, block_end: usize, out: &mut Vec<u8>) -> (r: Result<(), FormatError>)
        requires
            old(self).wf(),
            block_end <= old(self).data@.len(),
        ensures
            final(self).wf(),
            final(self).data == old(self).data,
            final(self).token_offset == old(self).token_offset,
            final(self).base_offset == old(self).base_offset,
            r is Ok,
            final(out)@ == old(out)@ + vertex_idxs_text(old(self).data@, old(self).pos as int, block_end as int),
    {
        let ghost d = self.data@;
        if self.pos > block_end || 4 > block_end - self.pos {
            return Ok(());
        }
        let total = u32_as_i32(read_le_u32(self.data, self.pos));
        self.pos = self.pos + 4;
        out.push(32u8);
        push_int(out, total as i64);
        self.push_i32_run(block_end, total, out, false);
        Ok(())
    }

    /// Up to `count` integers (signed, or unsigned when `unsigned` is set).
    fn push_i32_run(&mut self, block_end: usize, count: i32, out: &mut Vec<u8>, unsigned: bool)
        requires
            old(self).wf(),
            block_end <= old(self).data@.len(),
        ensures
            final(self).wf(),
            final(self).data == old(self).data,
            final(self).token_offset == old(self).token_offset,
            final(self).base_offset == old(self).base_offset,
            final(out)@ == old(out)@ + (if unsigned {
                u32_run(old(self).data@, old(self).pos as int, block_end as int, count as int)
            } else {
                i32_run(old(self).data@, old(self).pos as int, block_end as int, count as int)
            }),
    {
        let ghost d = self.data@;
        let ghost p0 = self.pos as int;
        let ghost start = out@;
        let mut left: i32 = count;
        while left > 0
            invariant
                self.wf(),
                self.data == old(self).data,
                self.data@ == d,
                self.token_offset == old(self).token_offset,
                self.base_offset == old(self).base_offset,
                block_end <= d.len(),
                left <= count,
                start == old(out)@,
                p0 == old(self).pos,
                out@ + (if unsigned { u32_run(d, self.pos as int, block_end as int, left as int) } else {
                    i32_run(d, self.pos as int, block_end as int, left as int)
                }) == start + (if unsigned { u32_run(d, p0, block_end as int, count as int) } else {
                    i32_run(d, p0, block_end as int, count as int)
                }),
            decreases left,
        {
            if self.pos > block_end || 4 > block_end - self.pos {
                assert(out@ =~= start + (if unsigned { u32_run(d, p0, block_end as int, count as int) } else {
                    i32_run(d, p0, block_end as int, count as int)
                }));
                return;
            }
            let v = read_le_u32(self.data, self.pos);
            let ghost before = out@;
            out.push(32u8);
            if unsigned {
                push_decimal(out, v as u64);
            } else {
                push_int(out, u32_as_i32(v) as i64);
            }
            self.pos = self.pos + 4;
            left = left - 1;
            assert(out@ + (if unsigned { u32_run(d, self.pos as int, block_end as int, left as int) } else {
                i32_run(d, self.pos as int, block_end as int, left as int)
            }) =~= start + (if unsigned { u32_run(d, p0, block_end as int, count as int) } else {
                i32_run(d, p0, block_end as int, count as int)
            }));
        }
        assert(out@ =~= start + (if unsigned { u32_run(d, p0, block_end as int, count as int) } else {
            i32_run(d, p0, block_end as int, count as int)
        }));
    }

    fn dump_normal_idxs_content(&mut self, block_end: usize, out: &mut Vec<u8>) -> (r: Result<(), FormatError>)
        requires
            old(self).wf(),
            block_end <= old(self).data@.len(),
        ensures
            final(self).wf(),
            final(self).data == old(self).data,
            final(self).token_offset == old(self).token_offset,
            final(self).base_offset == old(self).base_offset,
            r is Ok,
            final(out)@ == old(out)@ + normal_idxs_text(old(self).data@, old(self).pos as int, block_end as int),
    {
        let ghost d = self.data@;
        if self.pos > block_end || 4 > block_end - self.pos {
            return Ok(());
        }
        let count = u32_as_i32(read_le_u32(self.data, self.pos));
        self.pos = self.pos + 4;
        out.push(32u8);
        push_int(out, count as i64);
        let ghost p0 = self.pos as int;
        let ghost start = out@;
        assert(start =~= old(out)@ + seq![32u8] + int_text(count as int));
        let mut left: i32 = count;
        while left > 0
            invariant
                self.wf(),
                self.data == old(self).data,
                self.data@ == d,
                self.token_offset == old(self).token_offset,
                self.base_offset == old(self).base_offset,
                block_end <= d.len(),
                left <= count,
                start == old(out)@ + seq![32u8] + int_text(count as int),
                p0 == old(self).pos + 4,
                count == as_signed32(le_u32(d, old(self).pos as int)),
                old(self).pos + 4 <= block_end,
                out@ + normal_run(d, self.pos as int, block_end as int, left as int) == start + normal_run(
                    d,
                    p0,
                    block_end as int,
                    count as int,
                ),
            decreases left,
        {
            if self.pos > block_end || 4 > block_end - self.pos {
                assert(out@ =~= start + normal_run(d, p0, block_end as int, count as int));
                assert(out@ =~= old(out)@ + normal_idxs_text(d, old(self).pos as int, block_end as int));
                return Ok(());
            }
            let v = read_le_u32(self.data, self.pos);
            out.push(32u8);
            push_int(out, u32_as_i32(v) as i64);
            self.pos = self.pos + 4;
            if self.pos <= block_end && 4 <= block_end - self.pos {
                self.pos = self.pos + 4;
            }
            left = left - 1;
            assert(out@ + normal_run(d, self.pos as int, block_end as int, left as int) =~= start + normal_run(
                d,
                p0,
                block_end as int,
                count as int,
            ));
        }
        assert(out@ =~= start + normal_run(d, p0, block_end as int, count as int));
        assert(out@ =~= old(out)@ + normal_idxs_text(d, old(self).pos as int, block_end as int));
        Ok(())
    }

    fn dump_flags_content(&mut self, block_end: usize, out: &mut Vec<u8>) -> (r: Result<(), FormatError>)
        requires
            old(self).wf(),
            block_end <= old(self).data@.len(),
        ensures
            final(self).wf(),
            final(self).data == old(self).data,
            final(self).token_offset == old(self).token_offset,
            final(self).base_offset == old(self).base_offset,
            r is Ok,
            final(out)@ == old(out)@ + flags_text(old(self).data@, old(self).pos as int, block_end as int),
    {
        if self.pos > block_end || 4 > block_end - self.pos {
            return Ok(());
        }
        let count = u32_as_i32(read_le_u32(self.data, self.pos));
        self.pos = self.pos + 4;
        out.push(32u8);
        push_int(out, count as i64);
        self.push_i32_run(block_end, count, out, true);
        Ok(())
    }

    fn dump_texture_content(&mut self, block_end: usize, out: &mut Vec<u8>) -> (r: Result<(), FormatError>)
        requires
            old(self).wf(),
            block_end <= old(self).data@.len(),
        ensures
            final(self).wf(),
            final(self).data == old(self).data,
            final(self).token_offset == old(self).token_offset,
            final(self).base_offset == old(self).base_offset,
            r is Ok,
            final(out)@ == old(out)@ + texture_text(old(self).data@, old(self).pos as int, block_end as int),
    {
        let ghost d = self.data@;
        let ghost p = self.pos as int;
        if self.pos > block_end || 4 > block_end - self.pos {
            return Ok(());
        }
        out.push(32u8);
        push_int(out, u32_as_i32(read_le_u32(self.data, self.pos)) as i64);
        self.pos = self.pos + 4;
        if 4 > block_end - self.pos {
            assert(final(out)@ =~= old(out)@ + texture_text(d, p, block_end as int));
            return Ok(());
        }
        out.push(32u8);
        push_int(out, u32_as_i32(read_le_u32(self.data, self.pos)) as i64);
        self.pos = self.pos + 4;
        if 4 > block_end - self.pos {
            assert(final(out)@ =~= old(out)@ + texture_text(d, p, block_end as int));
            return Ok(());
        }
        out.push(32u8);
        push_float(out, read_le_u32(self.data, self.pos));
        self.pos = self.pos + 4;
        if 4 <= block_end - self.pos {
            out.push(32u8);
            push_decimal(out, read_le_u32(self.data, self.pos) as u64);
            self.pos = self.pos + 4;
        }
        assert(final(out)@ =~= old(out)@ + texture_text(d, p, block_end as int));
        Ok(())
    }

    fn append_scalar(&mut self, token_id: i32, block_end: usize, out: &mut Vec<u8>) -> (r: Result<(), FormatError>)
        requires
            old(self).wf(),
            block_end <= old(self).data@.len(),
            old(self).pos <= block_end,
        ensures
            final(self).wf(),
            final(self).data == old(self).data,
            final(self).token_offset == old(self).token_offset,
            final(self).base_offset == old(self).base_offset,
            r is Ok,
            old(self).pos + 4 > block_end ==> final(self).pos == block_end && final(out)@ == old(out)@,
            old(self).pos + 4 <= block_end ==> final(self).pos == old(self).pos + 4
                && final(out)@ == old(out)@ + scalar_text(old(self).data@, token_id as int, old(self).pos as int),
    {
        if 4 > block_end - self.pos {
            self.pos = block_end;
            return Ok(());
        }
        let v = read_le_u32(self.data, self.pos);
        out.push(32u8);
        if token_scalars_are_i32(token_id) {
            push_int(out, u32_as_i32(v) as i64);
        } else {
            push_float(out, v);
        }
        self.pos = self.pos + 4;
        assert(final(out)@ =~= old(out)@ + scalar_text(old(self).data@, token_id as int, old(self).pos as int));
        Ok(())
    }

    fn try_read_string_in_block(&mut self, block_end: usize, out: &mut Vec<u8>) -> (r: Result<bool, FormatError>)
        requires
            old(self).wf(),
            block_end <= old(self).data@.len(),
            old(self).pos <= block_end,
        ensures
            final(self).wf(),
            final(self).data == old(self).data,
            final(self).token_offset == old(self).token_offset,
            final(self).base_offset == old(self).base_offset,
            match string_at(old(self).data@, old(self).pos as int, block_end as int) {
                Some((t, next)) => r == Ok::<bool, FormatError>(true) && final(self).pos == next
                    && final(out)@ == old(out)@ + t,
                None => r == Ok::<bool, FormatError>(false) && final(self).pos == old(self).pos
                    && final(out)@ == old(out)@,
            },
    {
        let ghost d = self.data@;
        let ghost p = self.pos as int;
        if 2 > block_end - self.pos {
            return Ok(false);
        }
        let count = read_le_u16(self.data, self.pos) as usize;
        if count == 0 || count > 512 || 2 + count * 2 > block_end - self.pos {
            return Ok(false);
        }
        let saved = self.pos;
        if let Ok(s) = self.read_string() {
            let st = s.as_str();
            if is_safe_ascii_text(st) && st.as_bytes().len() > 0 {
                let b = st.as_bytes();
                assert(vstd::string::is_ascii(st)) by {
                    assert forall|i: int| 0 <= i < s@.len() implies (#[trigger] s@[i] as u32)
                        < 128 by {
                        assert(0x20 <= (s@[i] as int) <= 0x7E);
                    }
                }
                proof {
                    vstd::string::is_ascii_spec_bytes(st);
                }
                assert(b@ =~= chars_bytes(s@));
                out.push(32u8);
                out.push(34u8);
                push_escaped(out, b);
                out.push(34u8);
                assert(final(out)@ =~= old(out)@ + (seq![32u8, 34u8] + escape_text(chars_bytes(s@)) + seq![34u8]));
                return Ok(true);
            }
            proof {
                if safe_text(s@) && s@.len() > 0 {
                    assert(vstd::string::is_ascii(st)) by {
                        assert forall|i: int| 0 <= i < s@.len() implies (#[trigger] s@[i] as u32)
                            < 128 by {
                            assert(0x20 <= (s@[i] as int) <= 0x7E);
                        }
                    }
                    vstd::string::is_ascii_spec_bytes(st);
                }
            }
        }
        self.pos = saved;
        Ok(false)
    }

    /// Read the header of the block at the current position and print its
    /// opening `( name "label"`; returns the body end and the text.
    fn open_block(&mut self) -> (r: Result<(i32, usize, Vec<u8>), FormatError>)
        requires
            old(self).wf(),
        ensures
            final(self).wf(),
            final(self).data == old(self).data,
            final(self).token_offset == old(self).token_offset,
            final(self).base_offset == old(self).base_offset,
            match block_header(old(self).data@, old(self).token_offset as int, old(self).pos as int) {
                Some((tok, be, q, label)) => r matches Ok((t, e, head)) && t == tok && e == be
                    && final(self).pos == q && head@ == seq![40u8, 32u8] + chars_bytes(token_name_spec(tok)) + label
                    && is_ascii_bytes(head@),
                None => r is Err,
            },
    {
        let ghost d = self.data@;
        let ghost off = self.token_offset as int;
        let ghost p = self.pos as int;
        let token_id = self.read_token_id()?;
        let _flags = self.read_u16()?;
        let remaining = self.read_u32()? as usize;
        if remaining > self.data.len() - self.pos {
            return Err(FormatError::UnexpectedToken { offset: self.absolute_pos(), message: "block overruns file".to_string() });
        }
        let block_end = self.pos + remaining;
        assert(block_end == block_next(d, p));
        let label_len = self.read_u8()? as usize;
        let mut out: Vec<u8> = Vec::new();
        out.push(40u8);
        out.push(32u8);
        push_token_name(&mut out, token_id);
        if label_len > 0 {
            if self.pos > block_end || label_len * 2 > block_end - self.pos {
                return Err(FormatError::UnexpectedToken { offset: self.absolute_pos(), message: "label overruns block".to_string() });
            }
            let units = read_units(self.data, self.pos, label_len);
            self.pos = self.pos + label_len * 2;
            let label = match string_from_utf16(&units) {
                Some(s) => s,
                None => {
                    return Err(FormatError::UnexpectedToken { offset: self.absolute_pos(), message: "invalid label UTF-16".to_string() });
                },
            };
            let ghost before = out@;
            push_label(&mut out, &label);
            proof {
                lemma_token_name_ascii(token_id);
                lemma_chars_bytes_ascii(token_name_spec(token_id));
                lemma_ascii_concat(seq![40u8, 32u8], chars_bytes(token_name_spec(token_id)));
                if safe_text(label@) {
                    lemma_safe_text_ascii(label@);
                    lemma_ascii_concat(seq![32u8, 34u8], chars_bytes(label@));
                    lemma_ascii_concat(seq![32u8, 34u8] + chars_bytes(label@), seq![34u8]);
                    lemma_ascii_concat(before, seq![32u8, 34u8] + chars_bytes(label@) + seq![34u8]);
                }
                assert(is_ascii_bytes(out@));
            }
        } else {
            proof {
                lemma_token_name_ascii(token_id);
                lemma_chars_bytes_ascii(token_name_spec(token_id));
                lemma_ascii_concat(seq![40u8, 32u8], chars_bytes(token_name_spec(token_id)));
                assert(out@ =~= seq![40u8, 32u8] + chars_bytes(token_name_spec(token_id)));
            }
        }
        Ok((token_id, block_end, out))
    }

    /// Dump the block at the current position as `( name "label" … )`.
    #[verifier::rlimit(40)]
    fn dump_block(&mut self) -> (r: Result<Vec<u8>, FormatError>)
        requires
            old(self).wf(),
        ensures
            final(self).wf(),
            final(self).data == old(self).data,
            final(self).token_offset == old(self).token_offset,
            final(self).base_offset == old(self).base_offset,
            match block_text(old(self).data@, old(self).token_offset as int, old(self).pos as int) {
                Some(t) => r matches Ok(v) && v@ == t && final(self).pos == block_next(old(self).data@, old(self).pos as int),
                None => r is Err,
            },
            r matches Ok(v) ==> is_ascii_bytes(v@),
        decreases old(self).data@.len() - old(self).pos,
    {
        let ghost d = self.data@;
        let ghost off = self.token_offset as int;
        let ghost p = self.pos as int;
        let (token_id, block_end, mut out) = self.open_block()?;
        let q = self.pos;
        let ghost head = out@;
        let ghost close = seq![32u8, 41u8];
        assert(q > p);
        let ghost hdr = block_header(d, off, p);
        assert(hdr matches Some((t, e, qq, label)) && t == token_id && e == block_end && qq == q
            && head == seq![40u8, 32u8] + chars_bytes(token_name_spec(t)) + label);
        let mut acc: Vec<u8> = Vec::new();
        if token_id == 63 {
            self.dump_vertex_idxs_content(block_end, &mut acc)?;
        } else if token_id == 6 {
            self.dump_normal_idxs_content(block_end, &mut acc)?;
        } else if token_id == 64 {
            self.dump_flags_content(block_end, &mut acc)?;
        } else if token_id == 15 {
            self.dump_texture_content(block_end, &mut acc)?;
        } else if token_id == 60 {
            while self.pos < block_end && self.peek_subblock_header_for_parent(token_id, self.pos, block_end)
                invariant
                    self.wf(),
                    self.data == old(self).data,
                    self.data@ == d,
                    self.token_offset == old(self).token_offset,
                    off == self.token_offset as int,
                    self.base_offset == old(self).base_offset,
                    block_end <= d.len(),
                    token_id == 60,
                    q <= self.pos,
                    p < q,
                    p == old(self).pos,
                    d == old(self).data@,
                    block_text(d, off, p) == (match trilist_children(d, off, q as int, block_end as int) {
                        Some(t) => Some(head + t + close),
                        None => None,
                    }),
                    is_ascii_bytes(acc@),
                    trilist_children(d, off, q as int, block_end as int) == prepend(acc@,
                        trilist_children(d, off, self.pos as int, block_end as int)),
                decreases block_end - self.pos,
            {
                let ghost at = self.pos as int;
                let child = self.dump_block()?;
                let ghost before = acc@;
                acc.push(32u8);
                append_bytes(&mut acc, &child);
                assert(acc@ =~= before + (seq![32u8] + child@));
                proof {
                    lemma_ascii_concat(seq![32u8], child@);
                    lemma_ascii_concat(before, seq![32u8] + child@);
                }
            }
            proof {
                assert(acc@ + Seq::<u8>::empty() =~= acc@);
            }
        } else if token_id == 71 {
            let mut k: usize = 0;
            let mut stop = false;
            while k < 17 && !stop
                invariant
                    self.wf(),
                    self.data == old(self).data,
                    self.data@ == d,
                    self.token_offset == old(self).token_offset,
                    off == self.token_offset as int,
                    self.base_offset == old(self).base_offset,
                    block_end <= d.len(),
                    token_id == 71,
                    k <= 17,
                    q <= self.pos,
                    p < q,
                    p == old(self).pos,
                    d == old(self).data@,
                    block_text(d, off, p) == (match shape_children(d, off, q as int, block_end as int, 17) {
                        Some(t) => Some(head + t + close),
                        None => None,
                    }),
                    stop ==> !(self.pos < block_end && header_at(d, off, self.pos as int, block_end as int)),
                    is_ascii_bytes(acc@),
                    shape_children(d, off, q as int, block_end as int, 17) == prepend(acc@,
                        shape_children(d, off, self.pos as int, block_end as int, (17 - k) as nat)),
                decreases 17 - k, (if stop { 0int } else { 1int }),
            {
                if self.pos >= block_end || !self.peek_subblock_header_at(self.pos, block_end) {
                    stop = true;
                } else {
                    let child = self.dump_block()?;
                    let ghost before = acc@;
                    acc.push(32u8);
                    append_bytes(&mut acc, &child);
                    assert(acc@ =~= before + (seq![32u8] + child@));
                    proof {
                        lemma_ascii_concat(seq![32u8], child@);
                        lemma_ascii_concat(before, seq![32u8] + child@);
                    }
                    k = k + 1;
                }
            }
            if self.pos < block_end && self.peek_subblock_header_at(self.pos, block_end)
                && self.peek_token_id_at(self.pos) == Some(90i32) {
                let child = self.dump_block()?;
                let ghost before = acc@;
                acc.push(32u8);
                append_bytes(&mut acc, &child);
                assert(acc@ =~= before + (seq![32u8] + child@));
                proof {
                    lemma_ascii_concat(seq![32u8], child@);
                    lemma_ascii_concat(before, seq![32u8] + child@);
                }
            } else {
                assert(acc@ + Seq::<u8>::empty() =~= acc@);
            }
        } else {
            while self.pos < block_end
                invariant
                    self.wf(),
                    self.data == old(self).data,
                    self.data@ == d,
                    self.token_offset == old(self).token_offset,
                    off == self.token_offset as int,
                    self.base_offset == old(self).base_offset,
                    block_end <= d.len(),
                    token_id != 60 && token_id != 71,
                    q <= self.pos || self.pos == block_end,
                    p < q,
                    p == old(self).pos,
                    d == old(self).data@,
                    block_text(d, off, p) == Some(head + generic_body(d, off, token_id as int, q as int, block_end as int) + close),
                    self.pos <= block_end || self.pos == q,
                    is_ascii_bytes(acc@),
                    generic_body(d, off, token_id as int, q as int, block_end as int) == acc@ + generic_body(
                        d,
                        off,
                        token_id as int,
                        self.pos as int,
                        block_end as int,
                    ),
                decreases block_end - self.pos,
            {
                let ghost at = self.pos as int;
                let ghost before = acc@;
                if self.try_read_count_before_subblocks(token_id, block_end, &mut acc)? {
                    assert(acc@ =~= before + (seq![32u8] + dec_digits(le_u32(d, at) as nat)));
                    proof {
                        lemma_nat_piece_ascii(le_u32(d, at) as nat);
                        lemma_ascii_concat(before, seq![32u8] + dec_digits(le_u32(d, at) as nat));
                    }
                } else if self.peek_subblock_header(token_id, block_end) {
                    let saved = self.pos;
                    match self.dump_block() {
                        Ok(block) => {
                            acc.push(32u8);
                            append_bytes(&mut acc, &block);
                            assert(acc@ =~= before + (seq![32u8] + block@));
                            proof {
                                lemma_ascii_concat(seq![32u8], block@);
                                lemma_ascii_concat(before, seq![32u8] + block@);
                            }
                        },
                        Err(_) => {
                            self.pos = saved;
                            self.append_scalar(token_id, block_end, &mut acc)?;
                            proof {
                                lemma_scalar_ascii(d, token_id as int, at);
                                lemma_ascii_concat(before, scalar_text(d, token_id as int, at));
                            }
                        },
                    }
                } else if self.try_read_string_in_block(block_end, &mut acc)? {
                    proof {
                        lemma_string_at_ascii(d, at, block_end as int);
                        let (t, _) = string_at(d, at, block_end as int).unwrap();
                        lemma_ascii_concat(before, t);
                    }
                } else if 4 <= block_end - self.pos {
                    self.append_scalar(token_id, block_end, &mut acc)?;
                    proof {
                        lemma_scalar_ascii(d, token_id as int, at);
                        lemma_ascii_concat(before, scalar_text(d, token_id as int, at));
                    }
                } else {
                    self.pos = block_end;
                }
            }
        }
        proof {
            if token_id == 63 || token_id == 6 || token_id == 64 || token_id == 15 {
                lemma_content_ascii(d, q as int, block_end as int);
            }
        }
        self.pos = block_end;
        let ghost head_acc = out@ + acc@;
        append_bytes(&mut out, &acc);
        out.push(32u8);
        out.push(41u8);
        proof {
            lemma_ascii_concat(head, acc@);
            lemma_ascii_concat(head + acc@, seq![32u8, 41u8]);
            assert(out@ =~= head + acc@ + seq![32u8, 41u8]);
        }

        Ok(out)
    }
}


/// Convert a binary shape payload to ASCII `( shape … )` text.
///
/// Fails on a text payload, on a data offset past the body, and on a
/// malformed block (see [`block_text`]).
pub fn binary_shape_to_ascii(payload: &SimisaPayload) -> (r: Result<String, FormatError>)
    ensures
        payload.is_text ==> r is Err,
        payload.data_offset > payload.bytes@.len() ==> r is Err,
        !payload.is_text && payload.data_offset <= payload.bytes@.len() ==> match shape_ascii_spec(
            payload.bytes@,
            payload.data_offset as int,
            payload.token_offset as int,
        ) {
            Some(t) => r matches Ok(s) && s@ == ascii_chars(t),
            None => r is Err,
        },
{
    if payload.is_text {
        return Err(FormatError::UnexpectedToken { offset: 0, message: "binary_shape_to_ascii called on text payload".to_string() });
    }
    if payload.data_offset > payload.bytes.len() {
        return Err(FormatError::UnexpectedToken { offset: payload.data_offset, message: "binary payload offset is past end of body".to_string() });
    }
    let data = vstd::slice::slice_subrange(payload.bytes.as_slice(), payload.data_offset, payload.bytes.len());
    let mut reader = BinaryReader::new(data, payload.token_offset, payload.data_offset);
    let root = reader.dump_block()?;
    Ok(ascii_string(&root))
}

/// `a` prepended to an optional text.
pub open spec fn prepend(a: Seq<u8>, o: Option<Seq<u8>>) -> Option<Seq<u8>> {
    match o {
        Some(t) => Some(a + t),
        None => None,
    }
}

fn append_bytes(out: &mut Vec<u8>, b: &Vec<u8>)
    ensures
        final(out)@ == old(out)@ + b@,
{
    let mut i: usize = 0;
    let ghost start = out@;
    while i < b.len()
        invariant
            i <= b@.len(),
            out@ == start + b@.subrange(0, i as int),
        decreases b@.len() - i,
    {
        out.push(b[i]);
        i = i + 1;
        assert(out@ =~= start + b@.subrange(0, i as int));
    }
    assert(b@.subrange(0, b@.len() as int) =~= b@);
}

/// Every byte is printable ASCII (0x20..=0x7E).
fn bytes_printable(b: &[u8]) -> (r: bool)
    ensures
        r == (forall|i: int| 0 <= i < b@.len() ==> 0x20 <= #[trigger] b@[i] <= 0x7E),
{
    let mut i: usize = 0;
    while i < b.len()
        invariant
            i <= b@.len(),
            forall|j: int| 0 <= j < i ==> 0x20 <= #[trigger] b@[j] <= 0x7E,
        decreases b@.len() - i,
    {
        if b[i] < 0x20 || b[i] > 0x7E {
            return false;
        }
        i = i + 1;
    }
    true
}

fn push_escaped(out: &mut Vec<u8>, b: &[u8])
    ensures
        final(out)@ == old(out)@ + escape_text(b@),
{
    let mut i: usize = 0;
    let ghost start = out@;
    assert(b@.subrange(0, b@.len() as int) =~= b@);
    while i < b.len()
        invariant
            i <= b@.len(),
            out@ + escape_text(b@.subrange(i as int, b@.len() as int)) == start + escape_text(b@),
        decreases b@.len() - i,
    {
        let ghost rest = b@.subrange(i as int, b@.len() as int);
        assert(rest.subrange(1, rest.len() as int) =~= b@.subrange(i + 1, b@.len() as int));
        let c = b[i];
        if c == 92u8 {
            out.push(92u8);
            out.push(92u8);
        } else if c == 34u8 {
            out.push(92u8);
            out.push(34u8);
        } else {
            out.push(c);
        }
        i = i + 1;
        assert(out@ + escape_text(b@.subrange(i as int, b@.len() as int)) =~= start + escape_text(b@));
    }
    assert(b@.subrange(b@.len() as int, b@.len() as int) =~= Seq::<u8>::empty());
    assert(out@ =~= start + escape_text(b@));
}

/// Append the bytes of an ASCII string.
fn push_ascii_str(out: &mut Vec<u8>, s: &str)
    requires
        is_ascii_chars(s@),
    ensures
        final(out)@ == old(out)@ + chars_bytes(s@),
{
    let b = s.as_bytes();
    proof {
        vstd::string::is_ascii_spec_bytes(s);
    }
    assert(b@ =~= chars_bytes(s@));
    let mut i: usize = 0;
    let ghost start = out@;
    while i < b.len()
        invariant
            i <= b@.len(),
            out@ == start + b@.subrange(0, i as int),
        decreases b@.len() - i,
    {
        out.push(b[i]);
        i = i + 1;
        assert(out@ =~= start + b@.subrange(0, i as int));
    }
    assert(b@.subrange(0, b@.len() as int) =~= b@);
}

fn push_token_name(out: &mut Vec<u8>, token_id: i32)
    ensures
        final(out)@ == old(out)@ + chars_bytes(token_name_spec(token_id)),
{
    let name = token_name(token_id);
    proof {
        lemma_token_name_ascii(token_id);
    }
    push_ascii_str(out, name);
}

/// Printable ASCII only: every character is in `' '..='~'`.
fn is_safe_ascii_text(s: &str) -> (r: bool)
    ensures
        r == safe_text(s@),
{
    if s.is_ascii() {
        let b = s.as_bytes();
        proof {
            vstd::string::is_ascii_spec_bytes(s);
        }
        assert(b@ =~= chars_bytes(s@));
        if bytes_printable(b) {
            assert forall|i: int| 0 <= i < s@.len() implies 0x20 <= #[trigger] (s@[i] as int)
                <= 0x7E by {
                assert(b@[i] == s@[i] as u8);
            }
            true
        } else {
            assert(!safe_text(s@)) by {
                if safe_text(s@) {
                    assert forall|i: int| 0 <= i < b@.len() implies 0x20 <= #[trigger] b@[i]
                        <= 0x7E by {
                        assert(0x20 <= (s@[i] as int) <= 0x7E);
                    }
                }
            }
            false
        }
    } else {
        assert(!safe_text(s@)) by {
            if safe_text(s@) {
                assert forall|i: int| 0 <= i < s@.len() implies (#[trigger] s@[i] as u32)
                    < 128 by {
                    assert(0x20 <= (s@[i] as int) <= 0x7E);
                }
            }
        }
        false
    }
}

/// Append ` "label"` when the decoded label is printable ASCII.
fn push_label(out: &mut Vec<u8>, label: &String)
    ensures
        final(out)@ == old(out)@ + (if safe_text(label@) {
            seq![32u8, 34u8] + chars_bytes(label@) + seq![34u8]
        } else {
            Seq::<u8>::empty()
        }),
{
    if is_safe_ascii_text(label.as_str()) {
        assert(is_ascii_chars(label@)) by {
            assert forall|i: int| 0 <= i < label@.len() implies (#[trigger] label@[i] as u32)
                < 128 by {
                assert(0x20 <= (label@[i] as int) <= 0x7E);
            }
        }
        out.push(32u8);
        out.push(34u8);
        push_ascii_str(out, label.as_str());
        out.push(34u8);
        assert(final(out)@ =~= old(out)@ + (seq![32u8, 34u8] + chars_bytes(label@) + seq![34u8]));
    } else {
        assert(final(out)@ =~= old(out)@);
    }
}

/// Builds an end-of-data message.
fn eof_message(what: &str) -> (r: String)
    ensures
        r@ == "unexpected EOF reading "@ + what@,
{
    let mut out: Vec<u8> = Vec::new();
    let ghost mut t: Seq<char> = seq![];
    assert(out@ =~= vstd::utf8::encode_utf8(t));
    push_piece(&mut out, "unexpected EOF reading ", Ghost(t));
    proof { t = t + "unexpected EOF reading "@; }
    push_piece(&mut out, what, Ghost(t));
    proof { t = t + what@; }
    finish_text(out, Ghost(t))
}


/// A `prim_state_idx` block (token 56) holding one 32-bit word below 65536
/// prints that word as a decimal integer: `( prim_state_idx N )`.
pub proof fn lemma_prim_state_idx_prints_integer(b0: u8, b1: u8)
    ensures
        ({
            let d = seq![56u8, 0u8, 0u8, 0u8, 5u8, 0u8, 0u8, 0u8, 0u8, b0, b1, 0u8, 0u8];
            block_text(d, 0, 0) == Some(
                seq![40u8, 32u8] + chars_bytes("prim_state_idx"@) + seq![32u8] + int_text(b0 + 256 * b1)
                    + seq![32u8, 41u8],
            )
        }),
{
    reveal_strlit("prim_state_idx");
    let d = seq![56u8, 0u8, 0u8, 0u8, 5u8, 0u8, 0u8, 0u8, 0u8, b0, b1, 0u8, 0u8];
    assert(le_u16(d, 0) == 56);
    assert(le_u32(d, 4) == 5);
    assert(block_next(d, 0) == 13);
    assert(offset_token(56, 0) == Some(56i32));
    assert(block_header(d, 0, 0) == Some((56i32, 13int, 9int, Seq::<u8>::empty())));
    assert(token_name_spec(56i32) == "prim_state_idx"@);
    assert(!count_before_children(d, 0, 56, 9, 13));
    assert(!for_parent(d, 0, 56, 9, 13));
    let count = le_u16(d, 9);
    if count == 1 {
        let units = le_units(d, 11, 1);
        assert(units =~= seq![0u16]);
        reveal_with_fuel(utf16_text, 2);
        assert(utf16_text(units) == Some(seq![(0u32) as char]));
        assert(!safe_text(seq![(0u32) as char])) by {
            assert(seq![(0u32) as char][0] as int == 0);
        }
    }
    assert(string_at(d, 9, 13) is None);
    assert(le_u32(d, 9) == b0 + 256 * b1);
    assert(generic_body(d, 0, 56, 13, 13) == Seq::<u8>::empty());
    assert(generic_body(d, 0, 56, 9, 13) == seq![32u8] + int_text(b0 + 256 * b1));
}

/// A `prim_state_idx` block (token 56) holding one 32-bit word prints the
/// word's signed value as a decimal integer: `( prim_state_idx N )`. The one
/// exception is a word that itself reads as a length-prefixed text (a count
/// of one followed by one printable UTF-16 unit), which prints as that text.
pub proof fn lemma_prim_state_idx_prints_word(b0: u8, b1: u8, b2: u8, b3: u8)
    requires
        string_at(seq![b0, b1, b2, b3], 0, 4) is None,
    ensures
        ({
            let d = seq![56u8, 0u8, 0u8, 0u8, 5u8, 0u8, 0u8, 0u8, 0u8, b0, b1, b2, b3];
            block_text(d, 0, 0) == Some(
                seq![40u8, 32u8] + chars_bytes("prim_state_idx"@) + seq![32u8] + int_text(
                    as_signed32(b0 + 256 * b1 + 65536 * b2 + 16777216 * b3),
                ) + seq![32u8, 41u8],
            )
        }),
{
    reveal_strlit("prim_state_idx");
    let d = seq![56u8, 0u8, 0u8, 0u8, 5u8, 0u8, 0u8, 0u8, 0u8, b0, b1, b2, b3];
    let w = seq![b0, b1, b2, b3];
    assert(le_u16(d, 0) == 56);
    assert(le_u32(d, 4) == 5);
    assert(block_next(d, 0) == 13);
    assert(offset_token(56, 0) == Some(56i32));
    assert(block_header(d, 0, 0) == Some((56i32, 13int, 9int, Seq::<u8>::empty())));
    assert(token_name_spec(56i32) == "prim_state_idx"@);
    assert(!count_before_children(d, 0, 56, 9, 13));
    assert(!for_parent(d, 0, 56, 9, 13));
    assert(le_u16(d, 9) == le_u16(w, 0));
    if le_u16(w, 0) == 1 {
        assert(le_units(d, 11, 1) =~= le_units(w, 2, 1));
    }
    assert(string_at(d, 9, 13) is None);
    assert(le_u32(d, 9) == b0 + 256 * b1 + 65536 * b2 + 16777216 * b3);
    assert(scalars_are_i32_spec(56));
    assert(generic_body(d, 0, 56, 13, 13) == Seq::<u8>::empty());
    assert(generic_body(d, 0, 56, 9, 13) == seq![32u8] + int_text(
        as_signed32(b0 + 256 * b1 + 65536 * b2 + 16777216 * b3),
    ));
}

} // verus!
