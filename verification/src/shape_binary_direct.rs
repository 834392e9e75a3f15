//! Binary `.s` payload checks done before the token dumper runs.
use vstd::prelude::*;

use vstd::string::StringSliceAdditionalSpecFns;
use vstd::utf8::encode_utf8;

use crate::error::FormatError;
use crate::msts_simisa::SimisaPayload;
use crate::parser::{from_first_paren, parse_first_from_first_paren, read_matches, SExpr};
use crate::shape_binary::{binary_shape_to_ascii, shape_ascii_spec};
use crate::shape_binary_reader::{header_spec, BinaryBlockReader};
use crate::text::ascii_chars;

verus! {

/// Token id of the `shape` root block.
pub const SHAPE_TOKEN: i32 = 71;

/// The payload is a binary shape (`JINX0s…`), not text or world.
pub open spec fn binary_shape_payload_spec(is_text: bool, bytes: Seq<u8>) -> bool {
    !is_text && bytes.len() >= 8 && bytes[0] == 74 && bytes[1] == 73 && bytes[2] == 78 && bytes[3] == 88
        && bytes[4] == 48 && bytes[5] == 115
}

/// True when the SIMISA payload is a binary shape (`JINX0s*b`), not text or world.
pub fn is_binary_shape_payload(payload: &SimisaPayload) -> (r: bool)
    ensures
        r == binary_shape_payload_spec(payload.is_text, payload.bytes@),
{
    let b = &payload.bytes;
    !payload.is_text && b.len() >= 8 && b[0] == 74u8 && b[1] == 73u8 && b[2] == 78u8 && b[3] == 88u8
        && b[4] == 48u8 && b[5] == 115u8
}

/// The payload's data starts with a well-formed `shape` root block.
pub open spec fn shape_root_ok(bytes: Seq<u8>, data_offset: int, token_offset: int) -> bool {
    let data = bytes.subrange(data_offset, bytes.len() as int);
    let h = header_spec(data, 0, data.len() as int, token_offset);
    &&& data_offset <= bytes.len()
    &&& data.len() >= 9
    &&& h.ok
    &&& h.token == SHAPE_TOKEN
}

/// Ensure the payload begins with a well-formed shape root block (token 71).
pub fn validate_shape_root_bbr(payload: &SimisaPayload) -> (r: Result<(), FormatError>)
    ensures
        r is Ok <==> shape_root_ok(payload.bytes@, payload.data_offset as int, payload.token_offset as int),
{
    if payload.data_offset > payload.bytes.len() {
        return Err(FormatError::UnexpectedToken { offset: payload.data_offset, message: "binary payload offset is past end of body".to_string() });
    }
    let data = vstd::slice::slice_subrange(payload.bytes.as_slice(), payload.data_offset, payload.bytes.len());
    if data.len() == 0 {
        return Err(FormatError::UnexpectedToken { offset: payload.data_offset, message: "binary shape body is empty".to_string() });
    }
    let mut root = BinaryBlockReader::new(data, payload.token_offset, payload.data_offset);
    if !root.has_more_blocks() {
        return Err(FormatError::UnexpectedToken { offset: payload.data_offset, message: "binary shape has no root block".to_string() });
    }
    let shape = root.open_sub_block()?;
    if shape.token_id() != SHAPE_TOKEN {
        return Err(FormatError::UnexpectedToken { offset: payload.data_offset, message: "expected shape token 71".to_string() });
    }
    Ok(())
}

/// Convert a binary shape SIMISA payload to an S-expression tree (via the token dumper).
///
/// Fails on a text payload and on a payload without a well-formed `shape`
/// root block; otherwise the dumped text is read from its first `(`.
pub fn binary_shape_to_ast(payload: &SimisaPayload) -> (r: Result<SExpr, FormatError>)
    ensures
        payload.is_text ==> (r matches Err(e) && e.token_offset() == Some(0usize)),
        !payload.is_text && !shape_root_ok(
            payload.bytes@,
            payload.data_offset as int,
            payload.token_offset as int,
        ) ==> r is Err,
        !payload.is_text && shape_root_ok(
            payload.bytes@,
            payload.data_offset as int,
            payload.token_offset as int,
        ) ==> match shape_ascii_spec(
            payload.bytes@,
            payload.data_offset as int,
            payload.token_offset as int,
        ) {
            Some(t) => read_matches(r, from_first_paren(encode_utf8(ascii_chars(t)), false)),
            None => r is Err,
        },
{
    if payload.is_text {
        return Err(
            FormatError::UnexpectedToken {
                offset: 0,
                message: "binary_shape_to_ast called on text payload".to_string(),
            },
        );
    }
    match validate_shape_root_bbr(payload) {
        Ok(()) => {},
        Err(e) => {
            return Err(e);
        },
    }
    let text = match binary_shape_to_ascii(payload) {
        Ok(t) => t,
        Err(e) => {
            return Err(e);
        },
    };
    parse_first_from_first_paren(text.as_str())
}

} // verus!
