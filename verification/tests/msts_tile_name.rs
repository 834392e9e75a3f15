use std::path::PathBuf;

use openrailsrs_formats::msts_tile_name::{
    msts_tile_name_from_xz, msts_tile_name_from_xz_zoom, parse_world_w_tile_xz,
    world_w_filename_from_tile_xz,
};
use openrailsrs_formats::typed::terrain::parse_tile_xz_from_filename;

#[test]
fn chiltern_hash_matches_open_rails() {
    assert_eq!(
        msts_tile_name_from_xz(-6084, 14924).to_ascii_lowercase(),
        "-11cf297c"
    );
    assert_eq!(
        msts_tile_name_from_xz(-6080, 14925).to_ascii_lowercase(),
        "-11cf7c30"
    );
}

#[test]
fn chiltern_hashes_exist_when_tiles_copied() {
    let tiles = PathBuf::from("../../examples/chiltern/TILES");
    if !tiles.is_dir() {
        return;
    }
    let name = msts_tile_name_from_xz(-6084, 14924).to_ascii_lowercase();
    assert!(
        tiles.join(format!("{name}.t")).is_file(),
        "expected {name}.t under Chiltern TILES"
    );
}

#[test]
fn parse_world_w_filename_is_signed() {
    assert_eq!(parse_world_w_tile_xz("w-006084+014923.w"), Some((-6084, 14923)));
    assert_eq!(parse_world_w_tile_xz("w-001000-001000.w"), Some((-1000, -1000)));
    assert_eq!(parse_world_w_tile_xz("w+001000+001000.w"), Some((1000, 1000)));
}

#[test]
fn world_filename_roundtrip() {
    let name = world_w_filename_from_tile_xz(-6084, 14923);
    assert_eq!(name, "w-006084+014923.w");
    assert_eq!(parse_world_w_tile_xz(&name), Some((-6084, 14923)));
}

#[test]
fn world_filename_of_small_and_zero_coords() {
    assert_eq!(world_w_filename_from_tile_xz(0, 0), "w+000000+000000.w");
    assert_eq!(world_w_filename_from_tile_xz(1, -2), "w+000001-000002.w");
    assert_eq!(world_w_filename_from_tile_xz(1234567, 5), "w+1234567+000005.w");
}

#[test]
fn world_filename_roundtrip_over_a_grid() {
    for x in [-999_999, -6084, -1, 0, 1, 7, 14923, 999_999] {
        for z in [-999_999, -2, 0, 3, 14925, 999_999] {
            let name = world_w_filename_from_tile_xz(x, z);
            assert_eq!(parse_world_w_tile_xz(&name), Some((x, z)));
        }
    }
}

#[test]
fn world_filename_parse_rejects_other_names() {
    assert_eq!(parse_world_w_tile_xz("x-006084+014923.w"), None);
    assert_eq!(parse_world_w_tile_xz("w-0060+01.w"), None);
    assert_eq!(parse_world_w_tile_xz("w*006084+014923.w"), None);
    assert_eq!(parse_world_w_tile_xz("WORLD/W_006084_014923.W"), Some((6084, 14923)));
    assert_eq!(parse_world_w_tile_xz(""), None);
}

#[test]
fn tile_name_zoom_controls_length() {
    let small = msts_tile_name_from_xz(-6084, 14924);
    assert_eq!(small.len(), 9);
    assert!(small.starts_with('-'));
    let big = msts_tile_name_from_xz_zoom(-6084, 14924, 11);
    assert_eq!(big.len(), 7);
    assert_eq!(msts_tile_name_from_xz_zoom(0, 0, 1), "-4");
}

#[test]
fn terrain_tile_filename_parses_signed_fields() {
    assert_eq!(parse_tile_xz_from_filename("+001000-001000.t"), Some((1000, -1000)));
    assert_eq!(parse_tile_xz_from_filename("TILES/-000003+000004.t"), Some((-3, 4)));
    assert_eq!(parse_tile_xz_from_filename("000000+000000.t"), None);
    assert_eq!(parse_tile_xz_from_filename("+00000"), None);
    assert_eq!(parse_tile_xz_from_filename("+00a000+000000.t"), None);
}
