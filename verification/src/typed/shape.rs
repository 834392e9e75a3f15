//! Shape (`.s`) mesh records: primitives, vertices, sub-objects, vertex states.
use vstd::prelude::*;

use crate::error::FormatError;
use crate::msts_file_text::{decode_file_spec, decode_msts_file_bytes};

verus! {

/// Text of a shape file's bytes (UTF-16, SIMISA text, compressed or binary).
pub fn shape_text_from_bytes(bytes: &[u8]) -> (r: Result<String, FormatError>)
    ensures
        match decode_file_spec(bytes@) {
            Some(t) => r matches Ok(s) && s@ == t,
            None => r is Err,
        },
{
    decode_msts_file_bytes(bytes)
}

/// A single triangle list block (`indexed_trilist`).
///
/// `vertex_indices` holds raw indices in groups of three (i, j, k).
#[derive(Clone, Debug, Default, PartialEq)]
pub struct Primitive {
    /// Index into the parent shape's `prim_states` table (-1 if missing).
    pub prim_state_idx: i32,
    /// Flat list of vertex indices (length is a multiple of 3).
    pub vertex_indices: Vec<u32>,
}

impl Primitive {
    /// Number of whole triangles: `vertex_indices.len() / 3`.
    pub fn triangle_count(&self) -> (r: usize)
        ensures
            r == self.vertex_indices@.len() / 3,
    {
        self.vertex_indices.len() / 3
    }
}

/// A MSTS `vertex` entry: indices into the shape's point, normal and UV tables.
#[derive(Clone, Debug, Default, PartialEq)]
pub struct Vertex {
    /// Index into the shape's points.
    pub point_idx: i32,
    /// Index into the shape's normals.
    pub normal_idx: i32,
    /// Indices into the shape's UVs (MSTS may carry more than one UV set).
    pub uv_indices: Vec<i32>,
    /// `Color1` RGBA packed as `[r, g, b, a]` (0–255), if present.
    pub color1: Option<[u8; 4]>,
    /// `Color2` RGBA packed as `[r, g, b, a]` (0–255), if present.
    pub color2: Option<[u8; 4]>,
}

/// A `sub_object` inside a `distance_level`.
#[derive(Clone, Debug, Default, PartialEq)]
pub struct SubObject {
    /// Vertex count declared by `vertices <count>`.
    pub vertex_count: usize,
    /// Vertex table addressed by the primitives' indices.
    pub vertices: Vec<Vertex>,
    pub primitives: Vec<Primitive>,
}

/// A `vtx_state` entry: links a vertex state index to a matrix and lighting model.
#[derive(Clone, Debug, Default, PartialEq)]
pub struct VtxState {
    /// Raw flags word.
    pub flags: i32,
    /// Index into the shape's matrices (-1 = identity / world space).
    pub matrix_idx: i32,
    /// Lighting model index (0 = lit, 1 = unlit, …).
    pub lighting_model: i32,
}

/// The byte `k` (0 = least significant) of the 32-bit pattern of `v`.
pub open spec fn argb_byte(v: i32, k: int) -> u8 {
    (((v as u32) as int / pow256(k)) % 256) as u8
}

/// `256^k` for the byte positions of a 32-bit word.
pub open spec fn pow256(k: int) -> int {
    if k == 0 {
        1
    } else if k == 1 {
        256
    } else if k == 2 {
        65536
    } else {
        16777216
    }
}

/// Unpack an ARGB colour word (`0xAARRGGBB`) into `[r, g, b, a]`.
pub fn u32_to_rgba_bytes(v: i32) -> (r: [u8; 4])
    ensures
        r@ == seq![argb_byte(v, 2), argb_byte(v, 1), argb_byte(v, 0), argb_byte(v, 3)],
{
    let u = v as u32;
    let b = (u & 0xFF) as u8;
    let g = ((u >> 8) & 0xFF) as u8;
    let r = ((u >> 16) & 0xFF) as u8;
    let a = ((u >> 24) & 0xFF) as u8;
    assert(u & 0xFF == u % 256) by (bit_vector);
    assert((u >> 8) & 0xFF == (u / 256) % 256) by (bit_vector);
    assert((u >> 16) & 0xFF == (u / 65536) % 256) by (bit_vector);
    assert((u >> 24) & 0xFF == (u / 16777216) % 256) by (bit_vector);
    let out = [r, g, b, a];
    assert(out@ =~= seq![argb_byte(v, 2), argb_byte(v, 1), argb_byte(v, 0), argb_byte(v, 3)]);
    out
}

} // verus!
