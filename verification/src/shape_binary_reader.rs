//! Structured binary block reader for MSTS tokenized files (`.s`, `.w`, …).
//!
//! Each block in the binary stream has the layout:
//! ```text
//! u16  token_id       (subject to token_offset)
//! u16  flags          (unused by most consumers)
//! u32  remaining      (bytes after this header, including the label)
//! u8   label_len      (number of UTF-16 code units in the label)
//! u16* label          (label_len code units, little-endian UTF-16)
//! ...  body           (remaining - 1 - label_len*2 bytes)
//! ```
//!
//! The reader is not recursive by itself: callers open sub-blocks with
//! [`BinaryBlockReader::open_sub_block`] and close (or skip) them with
//! [`BinaryBlockReader::skip_to_end`].
use vstd::prelude::*;
use vstd::utf8::*;

use crate::message::{finish_text, num_text, push_count, push_piece, push_signed};
use crate::bytes::{as_signed32, le_u16, le_u32, read_le_u16, read_le_u32, u32_as_i32};
use crate::error::FormatError;
use crate::std_text::{string_from_utf16, utf16_text};

verus! {

/// Outcome of reading one block header at `pos` inside `[.., end)`.
pub struct HeaderSpec {
    /// Whether the header, the label and the declared body all fit.
    pub ok: bool,
    /// Position reached when reading stopped (the failing position on error).
    pub stop: int,
    /// Token id after the offset was applied.
    pub token: int,
    /// First body byte (after the label).
    pub body_start: int,
    /// End of the block body (exclusive).
    pub body_end: int,
}

/// How [`BinaryBlockReader::open_sub_block`] reads a header at `pos` when the
/// enclosing block ends at `end` and raw token ids are shifted by `offset`.
pub open spec fn header_spec(data: Seq<u8>, pos: int, end: int, offset: int) -> HeaderSpec {
    let token = if pos + 2 <= end { le_u16(data, pos) + offset } else { 0 };
    let rem = if pos + 8 <= end { le_u32(data, pos + 4) } else { 0 };
    let body_end = pos + 8 + rem;
    let label_len = if pos + 9 <= end { data[pos + 8] as int } else { 0 };
    let body_start = pos + 9 + 2 * label_len;
    let fail = HeaderSpec { ok: false, stop: 0, token, body_start, body_end };
    if pos + 2 > end {
        HeaderSpec { stop: pos, ..fail }
    } else if token > i32::MAX {
        HeaderSpec { stop: pos + 2, ..fail }
    } else if pos + 4 > end {
        HeaderSpec { stop: pos + 2, ..fail }
    } else if pos + 8 > end {
        HeaderSpec { stop: pos + 4, ..fail }
    } else if body_end > end || body_end > usize::MAX {
        HeaderSpec { stop: pos + 8, ..fail }
    } else if pos + 9 > end {
        HeaderSpec { stop: pos + 8, ..fail }
    } else if body_start > body_end {
        HeaderSpec { stop: pos + 9, ..fail }
    } else {
        HeaderSpec { ok: true, stop: body_end, token, body_start, body_end }
    }
}

/// Raw token id at `pos` with `offset` applied, when it fits an `i32`.
pub open spec fn offset_token(raw: int, offset: int) -> Option<i32> {
    if i32::MIN <= raw + offset <= i32::MAX {
        Some((raw + offset) as i32)
    } else {
        None
    }
}

/// Structured binary block reader — one instance per open block scope.
///
/// Reads never leave the declared block; errors carry the absolute file
/// offset of the position where reading stopped.
pub struct BinaryBlockReader<'a> {
    data: &'a [u8],
    pos: usize,
    block_end: usize,
    token_offset: i32,
    base_offset: usize,
    /// Token ID of this block (`-1` for a root reader).
    pub token_id: i32,
}

impl<'a> BinaryBlockReader<'a> {
    /// The whole payload the reader walks.
    pub closed spec fn data_view(&self) -> Seq<u8> {
        self.data@
    }

    /// Current read position within the payload.
    pub closed spec fn pos_view(&self) -> int {
        self.pos as int
    }

    /// End (exclusive) of the current block.
    pub closed spec fn end_view(&self) -> int {
        self.block_end as int
    }

    /// Token id of this block.
    pub closed spec fn token_view(&self) -> int {
        self.token_id as int
    }

    /// Offset added to every raw token id.
    pub closed spec fn offset_view(&self) -> int {
        self.token_offset as int
    }

    /// File offset of the payload's first byte.
    pub closed spec fn base_view(&self) -> int {
        self.base_offset as int
    }

    /// The position stays inside the block, the block inside the payload,
    /// absolute offsets are non-negative and fit a `usize`, and the token offset
    /// is an `i32`.
    pub open spec fn wf(&self) -> bool {
        &&& 0 <= self.pos_view() <= self.end_view() <= self.data_view().len()
        &&& 0 <= self.base_view()
        &&& self.base_view() + self.data_view().len() <= usize::MAX
        &&& i32::MIN <= self.offset_view() <= i32::MAX
    }

    /// Same payload, token offset and base offset as `other`.
    pub open spec fn same_source(&self, other: &Self) -> bool {
        &&& self.data_view() == other.data_view()
        &&& self.offset_view() == other.offset_view()
        &&& self.base_view() == other.base_view()
    }

    /// Same source, same block end and same token id as `other`.
    pub open spec fn same_scope(&self, other: &Self) -> bool {
        &&& self.same_source(other)
        &&& self.end_view() == other.end_view()
        &&& self.token_view() == other.token_view()
    }

    /// `err` is an `UnexpectedToken` error at absolute position `base + pos`.
    pub open spec fn error_at(&self, err: FormatError, pos: int) -> bool {
        err.token_offset() == Some((self.base_view() + pos) as usize)
    }

    /// `err` is the `UnexpectedToken` error with message `text` at absolute
    /// position `base + pos`.
    pub open spec fn error_is(&self, err: FormatError, pos: int, text: Seq<char>) -> bool {
        err matches FormatError::UnexpectedToken { offset, message } && offset == self.base_view()
            + pos && message@ == text
    }

    /// `err` is the error of a read of `n` bytes at `pos` that leaves the block.
    pub open spec fn short_read(&self, err: FormatError, pos: int, n: int) -> bool {
        self.error_is(
            err,
            pos,
            need_bytes_text(self.token_view(), n, self.end_view() - pos, self.data_view().len() as int),
        )
    }

    /// Create a root reader covering the entire payload slice.
    ///
    /// `base_offset` is the byte index within the original file where `data`
    /// starts (used only in error messages).
    pub fn new(data: &'a [u8], token_offset: i32, base_offset: usize) -> (r: Self)
        requires
            base_offset + data@.len() <= usize::MAX,
        ensures
            r.wf(),
            r.data_view() == data@,
            r.pos_view() == 0,
            r.end_view() == data@.len(),
            r.offset_view() == token_offset,
            r.base_view() == base_offset,
            r.token_view() == -1,
    {
        BinaryBlockReader {
            data,
            pos: 0,
            block_end: data.len(),
            token_offset,
            base_offset,
            token_id: -1,
        }
    }

    /// Token ID of this block.
    pub fn token_id(&self) -> (r: i32)
        ensures
            r == self.token_view(),
    {
        self.token_id
    }

    /// Absolute byte offset of the current position within the original file.
    pub fn absolute_pos(&self) -> (r: usize)
        requires
            self.wf(),
        ensures
            r == self.base_view() + self.pos_view(),
    {
        self.base_offset + self.pos
    }

    /// Bytes remaining in the current block.
    pub fn remaining(&self) -> (r: usize)
        requires
            self.wf(),
        ensures
            r == self.end_view() - self.pos_view(),
    {
        self.block_end - self.pos
    }

    /// Whether the current block has been fully consumed.
    pub fn end_of_block(&self) -> (r: bool)
        requires
            self.wf(),
        ensures
            r == (self.pos_view() >= self.end_view()),
    {
        self.pos >= self.block_end
    }

    fn require(&self, n: usize) -> (r: Result<(), FormatError>)
        requires
            self.wf(),
        ensures
            r is Ok <==> self.pos_view() + n <= self.end_view(),
            r matches Err(e) ==> self.short_read(e, self.pos_view(), n as int),
    {
        if n > self.block_end - self.pos {
            let message = need_bytes_message(self.token_id, n, self.block_end - self.pos, self.data.len());
            return Err(FormatError::UnexpectedToken { offset: self.absolute_pos(), message });
        }
        Ok(())
    }

    fn err(&self, message: String) -> (e: FormatError)
        requires
            self.wf(),
        ensures
            self.error_is(e, self.pos_view(), message@),
    {
        FormatError::UnexpectedToken { offset: self.absolute_pos(), message }
    }

    pub fn read_u8(&mut self) -> (r: Result<u8, FormatError>)
        requires
            old(self).wf(),
        ensures
            final(self).wf(),
            final(self).same_scope(old(self)),
            r is Ok <==> old(self).pos_view() + 1 <= old(self).end_view(),
            r matches Ok(b) ==> b == old(self).data_view()[old(self).pos_view()]
                && final(self).pos_view() == old(self).pos_view() + 1,
            r matches Err(e) ==> final(self).pos_view() == old(self).pos_view()
                && old(self).short_read(e, old(self).pos_view(), 1),
    {
        self.require(1)?;
        let b = self.data[self.pos];
        self.pos = self.pos + 1;
        Ok(b)
    }

    pub fn read_u16(&mut self) -> (r: Result<u16, FormatError>)
        requires
            old(self).wf(),
        ensures
            final(self).wf(),
            final(self).same_scope(old(self)),
            r is Ok <==> old(self).pos_view() + 2 <= old(self).end_view(),
            r matches Ok(v) ==> v == le_u16(old(self).data_view(), old(self).pos_view())
                && final(self).pos_view() == old(self).pos_view() + 2,
            r matches Err(e) ==> final(self).pos_view() == old(self).pos_view()
                && old(self).short_read(e, old(self).pos_view(), 2),
    {
        self.require(2)?;
        let v = read_le_u16(self.data, self.pos);
        self.pos = self.pos + 2;
        Ok(v)
    }

    pub fn read_i32(&mut self) -> (r: Result<i32, FormatError>)
        requires
            old(self).wf(),
        ensures
            final(self).wf(),
            final(self).same_scope(old(self)),
            r is Ok <==> old(self).pos_view() + 4 <= old(self).end_view(),
            r matches Ok(v) ==> v == as_signed32(le_u32(old(self).data_view(), old(self).pos_view()))
                && final(self).pos_view() == old(self).pos_view() + 4,
            r matches Err(e) ==> final(self).pos_view() == old(self).pos_view()
                && old(self).short_read(e, old(self).pos_view(), 4),
    {
        self.require(4)?;
        let v = read_le_u32(self.data, self.pos);
        self.pos = self.pos + 4;
        Ok(u32_as_i32(v))
    }

    pub fn read_u32(&mut self) -> (r: Result<u32, FormatError>)
        requires
            old(self).wf(),
        ensures
            final(self).wf(),
            final(self).same_scope(old(self)),
            r is Ok <==> old(self).pos_view() + 4 <= old(self).end_view(),
            r matches Ok(v) ==> v == le_u32(old(self).data_view(), old(self).pos_view())
                && final(self).pos_view() == old(self).pos_view() + 4,
            r matches Err(e) ==> final(self).pos_view() == old(self).pos_view()
                && old(self).short_read(e, old(self).pos_view(), 4),
    {
        self.require(4)?;
        let v = read_le_u32(self.data, self.pos);
        self.pos = self.pos + 4;
        Ok(v)
    }

    /// Read a length-prefixed UTF-16 LE string (u16 count, then count × 2 bytes).
    pub fn read_string_utf16(&mut self) -> (r: Result<String, FormatError>)
        requires
            old(self).wf(),
        ensures
            final(self).wf(),
            final(self).same_scope(old(self)),
            ({
                let p = old(self).pos_view();
                let d = old(self).data_view();
                let end = old(self).end_view();
                if p + 2 > end {
                    r matches Err(e) && final(self).pos_view() == p && old(self).short_read(e, p, 2)
                } else {
                    let count = le_u16(d, p);
                    let units = le_units(d, p + 2, count);
                    if count == 0 {
                        r matches Ok(s) && s@ == Seq::<char>::empty() && final(self).pos_view() == p + 2
                    } else if p + 2 + 2 * count > end {
                        r matches Err(e) && final(self).pos_view() == p + 2 && old(self).short_read(
                            e,
                            p + 2,
                            2 * count,
                        )
                    } else {
                        &&& final(self).pos_view() == p + 2 + 2 * count
                        &&& match utf16_text(units) {
                            Some(t) => r matches Ok(s) && s@ == t,
                            None => r matches Err(e) && old(self).error_is(
                                e,
                                p + 2 + 2 * count,
                                "invalid UTF-16 string: invalid utf-16: lone surrogate found"@,
                            ),
                        }
                    }
                }
            }),
    {
        let count = self.read_u16()? as usize;
        if count == 0 {
            return Ok(String::new());
        }
        let byte_len = count * 2;
        self.require(byte_len)?;
        let units = read_units(self.data, self.pos, count);
        self.pos = self.pos + byte_len;
        match string_from_utf16(&units) {
            Some(s) => Ok(s),
            None => Err(self.err(invalid_utf16_message())),
        }
    }

    /// Skip exactly `n` bytes within the current block.
    pub fn skip_bytes(&mut self, n: usize) -> (r: Result<(), FormatError>)
        requires
            old(self).wf(),
        ensures
            final(self).wf(),
            final(self).same_scope(old(self)),
            r is Ok <==> old(self).pos_view() + n <= old(self).end_view(),
            r is Ok ==> final(self).pos_view() == old(self).pos_view() + n,
            r matches Err(e) ==> final(self).pos_view() == old(self).pos_view()
                && old(self).short_read(e, old(self).pos_view(), n as int),
    {
        self.require(n)?;
        self.pos = self.pos + n;
        Ok(())
    }

    /// Consume all remaining bytes in this block.
    pub fn skip_to_end(&mut self)
        requires
            old(self).wf(),
        ensures
            final(self).wf(),
            final(self).same_scope(old(self)),
            final(self).pos_view() == old(self).end_view(),
    {
        self.pos = self.block_end;
    }

    /// Peek at the next token ID without consuming bytes.
    ///
    /// Returns `None` if there are fewer than 2 bytes left in the block or the
    /// offset token does not fit an `i32`.
    pub fn peek_token_id(&self) -> (r: Option<i32>)
        requires
            self.wf(),
        ensures
            r == (if self.pos_view() + 2 > self.end_view() {
                None
            } else {
                offset_token(le_u16(self.data_view(), self.pos_view()), self.offset_view())
            }),
    {
        if 2 > self.block_end - self.pos {
            return None;
        }
        let raw = read_le_u16(self.data, self.pos);
        apply_token_offset(raw, self.token_offset)
    }

    /// Open the next sub-block and return a child reader scoped to it.
    ///
    /// Reads the block header (token + flags + remaining + label). The child's
    /// block covers exactly the declared body and starts after the label; the
    /// parent's position moves past the whole block.
    pub fn open_sub_block(&mut self) -> (r: Result<BinaryBlockReader<'a>, FormatError>)
        requires
            old(self).wf(),
        ensures
            final(self).wf(),
            final(self).same_scope(old(self)),
            ({
                let h = header_spec(old(self).data_view(), old(self).pos_view(), old(self).end_view(), old(self).offset_view());
                &&& r is Ok <==> h.ok
                &&& final(self).pos_view() == h.stop
                &&& (r matches Ok(c) ==> {
                    &&& c.wf()
                    &&& c.same_source(old(self))
                    &&& c.pos_view() == h.body_start
                    &&& c.end_view() == h.body_end
                    &&& c.token_view() == h.token
                })
                &&& (r matches Err(e) ==> old(self).error_is(
                    e,
                    h.stop,
                    header_error_text(
                        old(self).data_view(),
                        old(self).pos_view(),
                        old(self).end_view(),
                        old(self).offset_view(),
                        old(self).token_view(),
                        false,
                    ),
                ))
            }),
    {
        let (child, _label) = self.open_header(false)?;
        Ok(child)
    }

    /// Open the next sub-block and return its decoded label as well.
    ///
    /// A label of `N` code units that is not well-formed UTF-16 is replaced by `<label:Nu>`.
    pub fn open_sub_block_with_label(&mut self) -> (r: Result<(BinaryBlockReader<'a>, String), FormatError>)
        requires
            old(self).wf(),
        ensures
            final(self).wf(),
            final(self).same_scope(old(self)),
            ({
                let h = header_spec(old(self).data_view(), old(self).pos_view(), old(self).end_view(), old(self).offset_view());
                let d = old(self).data_view();
                let p = old(self).pos_view();
                &&& r is Ok <==> h.ok
                &&& final(self).pos_view() == h.stop
                &&& (r matches Ok((c, label)) ==> {
                    &&& c.wf()
                    &&& c.same_source(old(self))
                    &&& c.pos_view() == h.body_start
                    &&& c.end_view() == h.body_end
                    &&& c.token_view() == h.token
                    &&& (d[p + 8] == 0 ==> label@ == Seq::<char>::empty())
                    &&& (d[p + 8] > 0 ==> match utf16_text(le_units(d, p + 9, d[p + 8] as int)) {
                        Some(t) => label@ == t,
                        None => label@ == placeholder_text(d[p + 8] as int),
                    })
                })
                &&& (r matches Err(e) ==> old(self).error_is(
                    e,
                    h.stop,
                    header_error_text(
                        old(self).data_view(),
                        old(self).pos_view(),
                        old(self).end_view(),
                        old(self).offset_view(),
                        old(self).token_view(),
                        true,
                    ),
                ))
            }),
    {
        let (child, label) = self.open_header(true)?;
        Ok((child, label))
    }

    /// Shared header reader; decodes the label only when `with_label` is set.
    fn open_header(&mut self, with_label: bool) -> (r: Result<(BinaryBlockReader<'a>, String), FormatError>)
        requires
            old(self).wf(),
        ensures
            final(self).wf(),
            final(self).same_scope(old(self)),
            ({
                let h = header_spec(old(self).data_view(), old(self).pos_view(), old(self).end_view(), old(self).offset_view());
                let d = old(self).data_view();
                let p = old(self).pos_view();
                &&& r is Ok <==> h.ok
                &&& final(self).pos_view() == h.stop
                &&& (r matches Ok((c, label)) ==> {
                    &&& c.wf()
                    &&& c.same_source(old(self))
                    &&& c.pos_view() == h.body_start
                    &&& c.end_view() == h.body_end
                    &&& c.token_view() == h.token
                    &&& (with_label && d[p + 8] == 0 ==> label@ == Seq::<char>::empty())
                    &&& (with_label && d[p + 8] > 0 ==> match utf16_text(le_units(d, p + 9, d[p + 8] as int)) {
                        Some(t) => label@ == t,
                        None => label@ == placeholder_text(d[p + 8] as int),
                    })
                })
                &&& (r matches Err(e) ==> old(self).error_is(
                    e,
                    h.stop,
                    header_error_text(
                        old(self).data_view(),
                        old(self).pos_view(),
                        old(self).end_view(),
                        old(self).offset_view(),
                        old(self).token_view(),
                        with_label,
                    ),
                ))
            }),
    {
        let ghost p = self.pos as int;
        let raw_token = self.read_u16()?;
        let token_id = match apply_token_offset(raw_token, self.token_offset) {
            Some(t) => t,
            None => {
                return Err(self.err(token_range_message(raw_token)));
            },
        };
        let _flags = self.read_u16()?;
        let remaining = self.read_u32()? as usize;
        let header_end = self.pos;
        if remaining > self.block_end - header_end {
            if with_label {
                return Err(self.err(short_overrun_message(token_id, remaining)));
            }
            return Err(self.err(overrun_message(token_id, remaining, self.block_end, self.data.len())));
        }
        let block_end = header_end + remaining;
        let label_len = self.read_u8()? as usize;
        let label_bytes = label_len * 2;
        if self.pos > block_end || label_bytes > block_end - self.pos {
            if with_label {
                return Err(self.err(short_label_message(token_id)));
            }
            return Err(self.err(label_overrun_message(token_id, label_len)));
        }
        let label = if with_label && label_len > 0 {
            let units = read_units(self.data, self.pos, label_len);
            match string_from_utf16(&units) {
                Some(s) => s,
                None => placeholder_label(label_len),
            }
        } else {
            String::new()
        };
        self.pos = self.pos + label_bytes;
        let child_pos = self.pos;
        self.pos = block_end;
        Ok((
            BinaryBlockReader {
                data: self.data,
                pos: child_pos,
                block_end,
                token_offset: self.token_offset,
                base_offset: self.base_offset,
                token_id,
            },
            label,
        ))
    }

    /// Whether a minimal sub-block header (8 header bytes + 1 label-length
    /// byte) still fits in the current block.
    pub fn has_more_blocks(&self) -> (r: bool)
        requires
            self.wf(),
        ensures
            r == (self.pos_view() + 9 <= self.end_view()),
    {
        9 <= self.block_end - self.pos
    }

    /// Iterator-style: open sub-blocks one by one while there are bytes left.
    ///
    /// Returns `None` when `end_of_block()` is true or a header read fails.
    /// On failure, the parent reader position is left at the failing byte.
    pub fn next_sub_block(&mut self) -> (r: Option<Result<BinaryBlockReader<'a>, FormatError>>)
        requires
            old(self).wf(),
        ensures
            final(self).wf(),
            final(self).same_scope(old(self)),
            ({
                let h = header_spec(old(self).data_view(), old(self).pos_view(), old(self).end_view(), old(self).offset_view());
                if old(self).pos_view() + 9 > old(self).end_view() {
                    r is None && final(self).pos_view() == old(self).pos_view()
                } else if !h.ok {
                    r is None && final(self).pos_view() == h.stop
                } else {
                    &&& r matches Some(Ok(c))
                    &&& final(self).pos_view() == h.stop
                    &&& c.wf() && c.same_source(old(self)) && c.pos_view() == h.body_start
                        && c.end_view() == h.body_end && c.token_view() == h.token
                }
            }),
    {
        if self.end_of_block() {
            return None;
        }
        if !self.has_more_blocks() {
            return None;
        }
        match self.open_sub_block() {
            Ok(c) => Some(Ok(c)),
            Err(_) => None,
        }
    }
}

/// `count` little-endian UTF-16 code units stored from `start`.
pub open spec fn le_units(d: Seq<u8>, start: int, count: int) -> Seq<u16> {
    Seq::new(count as nat, |i: int| le_u16(d, start + 2 * i) as u16)
}

/// Decode `count` little-endian UTF-16 code units starting at `start`.
pub fn read_units(data: &[u8], start: usize, count: usize) -> (units: Vec<u16>)
    requires
        start + 2 * count <= data@.len(),
    ensures
        units@ == le_units(data@, start as int, count as int),
{
    let mut units: Vec<u16> = Vec::new();
    let mut i: usize = 0;
    assert(data@.len() == data.len());
    while i < count
        invariant
            i <= count,
            start + 2 * count <= data@.len(),
            data@.len() <= usize::MAX,
            units@ == le_units(data@, start as int, i as int),
        decreases count - i,
    {
        let u = read_le_u16(data, start + 2 * i);
        units.push(u);
        i = i + 1;
        assert(units@ =~= le_units(data@, start as int, i as int));
    }
    units
}

/// Apply a `token_offset` to a raw little-endian u16 token read from the stream.
pub fn apply_token_offset(raw: u16, token_offset: i32) -> (r: Option<i32>)
    ensures
        r == offset_token(raw as int, token_offset as int),
{
    let t = raw as i32;
    t.checked_add(token_offset)
}

/// Message of a read of `n` bytes in block `token_id` with only `remaining`
/// bytes left, in a payload of `data_len` bytes.
pub open spec fn need_bytes_text(token_id: int, n: int, remaining: int, data_len: int) -> Seq<char> {
    "token="@ + num_text(token_id) + " need "@ + num_text(n) + " bytes but only "@ + num_text(
        remaining,
    ) + " remaining in block (data_len="@ + num_text(data_len) + ")"@
}

/// Message of a raw token id that the offset pushes out of range.
pub open spec fn token_range_text(raw: int) -> Seq<char> {
    "token ID "@ + num_text(raw) + " out of range"@
}

/// Message of a block whose declared size overruns its parent.
pub open spec fn overrun_text(token_id: int, remaining: int, parent_end: int, data_len: int) -> Seq<
    char,
> {
    "block token="@ + num_text(token_id) + " remaining="@ + num_text(remaining)
        + " overruns parent (parent_end="@ + num_text(parent_end) + ", data_len="@ + num_text(
        data_len,
    ) + ")"@
}

/// Message of a labelled block whose declared size overruns its parent.
pub open spec fn short_overrun_text(token_id: int, remaining: int) -> Seq<char> {
    "block token="@ + num_text(token_id) + " remaining="@ + num_text(remaining) + " overruns parent"@
}

/// Message of a labelled block whose label overruns it.
pub open spec fn short_label_text(token_id: int) -> Seq<char> {
    "token="@ + num_text(token_id) + " label overruns block"@
}

fn short_overrun_message(token_id: i32, remaining: usize) -> (r: String)
    ensures
        r@ == short_overrun_text(token_id as int, remaining as int),
{
    let mut out: Vec<u8> = Vec::new();
    let ghost mut t: Seq<char> = seq![];
    assert(out@ =~= encode_utf8(t));
    push_piece(&mut out, "block token=", Ghost(t));
    proof { t = t + "block token="@; }
    push_signed(&mut out, token_id as i64, Ghost(t));
    proof { t = t + num_text(token_id as int); }
    push_piece(&mut out, " remaining=", Ghost(t));
    proof { t = t + " remaining="@; }
    push_count(&mut out, remaining, Ghost(t));
    proof { t = t + num_text(remaining as int); }
    push_piece(&mut out, " overruns parent", Ghost(t));
    proof { t = t + " overruns parent"@; }
    finish_text(out, Ghost(t))
}

fn short_label_message(token_id: i32) -> (r: String)
    ensures
        r@ == short_label_text(token_id as int),
{
    let mut out: Vec<u8> = Vec::new();
    let ghost mut t: Seq<char> = seq![];
    assert(out@ =~= encode_utf8(t));
    push_piece(&mut out, "token=", Ghost(t));
    proof { t = t + "token="@; }
    push_signed(&mut out, token_id as i64, Ghost(t));
    proof { t = t + num_text(token_id as int); }
    push_piece(&mut out, " label overruns block", Ghost(t));
    proof { t = t + " label overruns block"@; }
    finish_text(out, Ghost(t))
}

/// Message of a label that overruns its block.
pub open spec fn label_overrun_text(token_id: int, label_len: int) -> Seq<char> {
    "token="@ + num_text(token_id) + " label ("@ + num_text(label_len)
        + " code units) overruns block"@
}

/// The message of the error raised when no header can be read at `pos`
/// (see [`header_spec`]); `parent` is the enclosing block's token id.
pub open spec fn header_error_text(
    data: Seq<u8>,
    pos: int,
    end: int,
    offset: int,
    parent: int,
    labelled: bool,
) -> Seq<char> {
    let n = data.len() as int;
    let raw = le_u16(data, pos);
    let token = raw + offset;
    let rem = le_u32(data, pos + 4);
    if pos + 2 > end {
        need_bytes_text(parent, 2, end - pos, n)
    } else if token > i32::MAX {
        token_range_text(raw)
    } else if pos + 4 > end {
        need_bytes_text(parent, 2, end - pos - 2, n)
    } else if pos + 8 > end {
        need_bytes_text(parent, 4, end - pos - 4, n)
    } else if pos + 8 + rem > end {
        if labelled {
            short_overrun_text(token, rem)
        } else {
            overrun_text(token, rem, end, n)
        }
    } else if pos + 9 > end {
        need_bytes_text(parent, 1, end - pos - 8, n)
    } else if labelled {
        short_label_text(token)
    } else {
        label_overrun_text(token, data[pos + 8] as int)
    }
}

/// Builds the message for a read that would leave its block.
fn need_bytes_message(token_id: i32, n: usize, remaining: usize, data_len: usize) -> (r: String)
    ensures
        r@ == need_bytes_text(token_id as int, n as int, remaining as int, data_len as int),
{
    let mut out: Vec<u8> = Vec::new();
    let ghost mut t: Seq<char> = seq![];
    assert(out@ =~= encode_utf8(t));
    push_piece(&mut out, "token=", Ghost(t));
    proof { t = t + "token="@; }
    push_signed(&mut out, token_id as i64, Ghost(t));
    proof { t = t + num_text(token_id as int); }
    push_piece(&mut out, " need ", Ghost(t));
    proof { t = t + " need "@; }
    push_count(&mut out, n, Ghost(t));
    proof { t = t + num_text(n as int); }
    push_piece(&mut out, " bytes but only ", Ghost(t));
    proof { t = t + " bytes but only "@; }
    push_count(&mut out, remaining, Ghost(t));
    proof { t = t + num_text(remaining as int); }
    push_piece(&mut out, " remaining in block (data_len=", Ghost(t));
    proof { t = t + " remaining in block (data_len="@; }
    push_count(&mut out, data_len, Ghost(t));
    proof { t = t + num_text(data_len as int); }
    push_piece(&mut out, ")", Ghost(t));
    proof { t = t + ")"@; }
    finish_text(out, Ghost(t))
}

/// Builds the message for a token id pushed out of range by the offset.
fn token_range_message(raw: u16) -> (r: String)
    ensures
        r@ == token_range_text(raw as int),
{
    let mut out: Vec<u8> = Vec::new();
    let ghost mut t: Seq<char> = seq![];
    assert(out@ =~= encode_utf8(t));
    push_piece(&mut out, "token ID ", Ghost(t));
    proof { t = t + "token ID "@; }
    push_count(&mut out, raw as usize, Ghost(t));
    proof { t = t + num_text(raw as int); }
    push_piece(&mut out, " out of range", Ghost(t));
    proof { t = t + " out of range"@; }
    finish_text(out, Ghost(t))
}

/// Builds the message for a block whose declared size overruns its parent.
fn overrun_message(token_id: i32, remaining: usize, parent_end: usize, data_len: usize) -> (r: String)
    ensures
        r@ == overrun_text(token_id as int, remaining as int, parent_end as int, data_len as int),
{
    let mut out: Vec<u8> = Vec::new();
    let ghost mut t: Seq<char> = seq![];
    assert(out@ =~= encode_utf8(t));
    push_piece(&mut out, "block token=", Ghost(t));
    proof { t = t + "block token="@; }
    push_signed(&mut out, token_id as i64, Ghost(t));
    proof { t = t + num_text(token_id as int); }
    push_piece(&mut out, " remaining=", Ghost(t));
    proof { t = t + " remaining="@; }
    push_count(&mut out, remaining, Ghost(t));
    proof { t = t + num_text(remaining as int); }
    push_piece(&mut out, " overruns parent (parent_end=", Ghost(t));
    proof { t = t + " overruns parent (parent_end="@; }
    push_count(&mut out, parent_end, Ghost(t));
    proof { t = t + num_text(parent_end as int); }
    push_piece(&mut out, ", data_len=", Ghost(t));
    proof { t = t + ", data_len="@; }
    push_count(&mut out, data_len, Ghost(t));
    proof { t = t + num_text(data_len as int); }
    push_piece(&mut out, ")", Ghost(t));
    proof { t = t + ")"@; }
    finish_text(out, Ghost(t))
}

/// Builds the message for a label that overruns its block.
fn label_overrun_message(token_id: i32, label_len: usize) -> (r: String)
    ensures
        r@ == label_overrun_text(token_id as int, label_len as int),
{
    let mut out: Vec<u8> = Vec::new();
    let ghost mut t: Seq<char> = seq![];
    assert(out@ =~= encode_utf8(t));
    push_piece(&mut out, "token=", Ghost(t));
    proof { t = t + "token="@; }
    push_signed(&mut out, token_id as i64, Ghost(t));
    proof { t = t + num_text(token_id as int); }
    push_piece(&mut out, " label (", Ghost(t));
    proof { t = t + " label ("@; }
    push_count(&mut out, label_len, Ghost(t));
    proof { t = t + num_text(label_len as int); }
    push_piece(&mut out, " code units) overruns block", Ghost(t));
    proof { t = t + " code units) overruns block"@; }
    finish_text(out, Ghost(t))
}

/// The text that stands for a label of `label_len` code units that is not
/// well-formed UTF-16.
pub open spec fn placeholder_text(label_len: int) -> Seq<char> {
    "<label:"@ + num_text(label_len) + "u>"@
}

/// Builds the placeholder used for an undecodable label.
fn placeholder_label(label_len: usize) -> (r: String)
    ensures
        r@ == placeholder_text(label_len as int),
{
    let mut out: Vec<u8> = Vec::new();
    let ghost mut t: Seq<char> = seq![];
    assert(out@ =~= encode_utf8(t));
    push_piece(&mut out, "<label:", Ghost(t));
    proof { t = t + "<label:"@; }
    push_count(&mut out, label_len, Ghost(t));
    proof { t = t + num_text(label_len as int); }
    push_piece(&mut out, "u>", Ghost(t));
    proof { t = t + "u>"@; }
    finish_text(out, Ghost(t))
}

/// Message for an undecodable UTF-16 string, with the standard library's
/// `FromUtf16Error` text after the colon.
fn invalid_utf16_message() -> (r: String)
    ensures
        r@ == "invalid UTF-16 string: invalid utf-16: lone surrogate found"@,
{
    "invalid UTF-16 string: invalid utf-16: lone surrogate found".to_string()
}

/// Reading a block header never leaves the enclosing block: the reader stops
/// inside it, and an opened sub-block's body lies inside it, after the
/// header, with the reader resuming at the sub-block's end (strictly past
/// where it started).
pub proof fn lemma_header_within_block(data: Seq<u8>, pos: int, end: int, offset: int)
    requires
        0 <= pos <= end,
    ensures
        pos <= header_spec(data, pos, end, offset).stop <= end,
        header_spec(data, pos, end, offset).ok ==> {
            let h = header_spec(data, pos, end, offset);
            &&& pos + 9 <= h.body_start <= h.body_end
            &&& h.body_end == h.stop
            &&& pos < h.stop
        },
{
}

} // verus!
