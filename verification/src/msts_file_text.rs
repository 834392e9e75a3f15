//! Decode MSTS on-disk files to UTF-8 S-expression text (UTF-16, SIMISA, binary tokens).
use vstd::prelude::*;

use crate::encoding::{decode_msts_bytes, decode_msts_spec, utf16le_latin_spec, utf16le_msts_to_latin_bytes};
use crate::error::FormatError;
use crate::msts_simisa::{decode_simisa_container, simisa_payload_spec, starts_simisa};
use crate::shape_binary::{binary_shape_to_ascii, shape_ascii_spec};
use crate::text::ascii_chars;

verus! {

/// The body starts with a terrain binary sub-header (`JINX0t?b`).
pub open spec fn terrain_binary_spec(body: Seq<u8>) -> bool {
    body.len() >= 8 && body[0] == 74 && body[1] == 73 && body[2] == 78 && body[3] == 88 && body[4] == 48
        && body[5] == 116 && body[7] == 98
}

fn is_terrain_binary_subheader(body: &[u8]) -> (r: bool)
    ensures
        r == terrain_binary_spec(body@),
{
    body.len() >= 8 && body[0] == 74u8 && body[1] == 73u8 && body[2] == 78u8 && body[3] == 88u8
        && body[4] == 48u8 && body[5] == 116u8 && body[7] == 98u8
}

/// Text of a decoded file, or `None` when decoding fails.
pub open spec fn decode_file_spec(bytes: Seq<u8>) -> Option<Seq<char>> {
    let raw = match utf16le_latin_spec(bytes) {
        Some(v) => v,
        None => bytes,
    };
    if starts_simisa(raw) {
        match simisa_payload_spec(raw) {
            None => None,
            Some((body, is_text, data_offset, token_offset)) => if is_text {
                Some(decode_msts_spec(body.subrange(data_offset, body.len() as int)))
            } else if terrain_binary_spec(body) {
                None
            } else {
                match shape_ascii_spec(body, data_offset, token_offset) {
                    Some(t) => Some(ascii_chars(t)),
                    None => None,
                }
            },
        }
    } else {
        Some(decode_msts_spec(bytes))
    }
}

/// Decode raw MSTS file bytes to parseable text.
///
/// Handles UTF-16-LE wrappers, uncompressed SIMISA text, zlib-compressed
/// SIMISA, and binary token streams (shapes and world tiles); binary terrain
/// is refused.
pub fn decode_msts_file_bytes(bytes: &[u8]) -> (r: Result<String, FormatError>)
    ensures
        match decode_file_spec(bytes@) {
            Some(t) => r matches Ok(s) && s@ == t,
            None => r is Err,
        },
{
    let raw = match utf16le_msts_to_latin_bytes(bytes) {
        Some(v) => v,
        None => vstd::slice::slice_to_vec(bytes),
    };
    if raw.len() >= 6 && raw[0] == 83u8 && raw[1] == 73u8 && raw[2] == 77u8 && raw[3] == 73u8
        && raw[4] == 83u8 && raw[5] == 65u8 {
        let payload = decode_simisa_container(raw.as_slice())?;
        if payload.is_text {
            let text = vstd::slice::slice_subrange(payload.bytes.as_slice(), payload.data_offset, payload.bytes.len());
            return Ok(decode_msts_bytes(text));
        }
        if is_terrain_binary_subheader(payload.bytes.as_slice()) {
            return Err(FormatError::UnexpectedToken {
                offset: 0,
                message: "terrain binary (JINX0t*b) must be loaded via TerrainFile::from_path_with_coords".to_string(),
            });
        }
        return binary_shape_to_ascii(&payload);
    }
    Ok(decode_msts_bytes(bytes))
}

} // verus!
