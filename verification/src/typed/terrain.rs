//! Terrain tile (`.t`) file names.
use vstd::prelude::*;
use vstd::string::StringSliceAdditionalSpecFns;

use crate::msts_tile_name::{file_stem_of, file_stem_spec, is_continuation, slice_range};
use crate::text::{parse_i32, parse_i32_spec};

verus! {

/// Tile coords from a `+000000+000000` / `+001000-001000` terrain stem.
///
/// Both 7-byte fields must start with `+` or `-` and parse as `i32`.
pub open spec fn terrain_stem_spec(stem: Seq<u8>) -> Option<(i32, i32)> {
    if stem.len() < 14 {
        None
    } else if !(stem[0] == 43u8 || stem[0] == 45u8) || !(stem[7] == 43u8 || stem[7] == 45u8) {
        None
    } else {
        match (parse_i32_spec(stem.subrange(0, 7)), parse_i32_spec(stem.subrange(7, 14))) {
            (Some(x), Some(z)) => Some((x, z)),
            _ => None,
        }
    }
}

/// The terrain stem is cut at character boundaries (the fields end at bytes 7 and 14).
pub open spec fn terrain_stem_cuts_on_boundaries(stem: Seq<u8>) -> bool {
    stem.len() >= 14 ==> !is_continuation(stem[7]) && (stem.len() > 14 ==> !is_continuation(
        stem[14],
    ))
}

/// Parse `+000000+000000` / `+001000-001000` style terrain tile file names,
/// given the file's path text.
pub fn parse_tile_xz_from_filename(path: &str) -> (r: Option<(i32, i32)>)
    requires
        file_stem_spec(path.spec_bytes()) matches Some(stem) ==> terrain_stem_cuts_on_boundaries(
            stem,
        ),
    ensures
        r == (match file_stem_spec(path.spec_bytes()) {
            Some(stem) => terrain_stem_spec(stem),
            None => None,
        }),
{
    let stem = match file_stem_of(path.as_bytes()) {
        Some(s) => s,
        None => return None,
    };
    if stem.len() < 14 {
        return None;
    }
    if !(stem[0] == 43u8 || stem[0] == 45u8) || !(stem[7] == 43u8 || stem[7] == 45u8) {
        return None;
    }
    let x = parse_i32(slice_range(stem, 0, 7));
    let z = parse_i32(slice_range(stem, 7, 14));
    match (x, z) {
        (Some(x), Some(z)) => Some((x, z)),
        _ => None,
    }
}

} // verus!
