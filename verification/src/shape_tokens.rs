//! Token tables of the MSTS binary (`JINX0?1b`) shape and world formats.
use vstd::prelude::*;
use vstd::utf8::is_ascii_chars;

verus! {

/// Open Rails name of a binary token id (world tokens are raw value + 300);
/// unnamed world ids print as `_world`, anything else as `_unknown`.
pub open spec fn token_name_spec(id: i32) -> Seq<char> {
    match id {
        0 => "error"@,
        1 => "comment"@,
        2 => "point"@,
        3 => "vector"@,
        4 => "quat"@,
        5 => "normals"@,
        6 => "normal_idxs"@,
        7 => "points"@,
        8 => "uv_point"@,
        9 => "uv_points"@,
        10 => "colour"@,
        11 => "colours"@,
        12 => "packed_colour"@,
        13 => "image"@,
        14 => "images"@,
        15 => "texture"@,
        16 => "textures"@,
        17 => "light_material"@,
        18 => "light_materials"@,
        31 => "lod_controls"@,
        32 => "lod_control"@,
        33 => "distance_levels_header"@,
        34 => "distance_level_header"@,
        35 => "dlevel_selection"@,
        36 => "distance_levels"@,
        37 => "distance_level"@,
        38 => "sub_objects"@,
        39 => "sub_object"@,
        40 => "sub_object_header"@,
        41 => "geometry_info"@,
        42 => "geometry_nodes"@,
        43 => "geometry_node"@,
        44 => "geometry_node_map"@,
        45 => "cullable_prims"@,
        46 => "vtx_state"@,
        47 => "vtx_states"@,
        48 => "vertex"@,
        49 => "vertex_uvs"@,
        50 => "vertices"@,
        51 => "vertex_set"@,
        52 => "vertex_sets"@,
        53 => "primitives"@,
        54 => "prim_state"@,
        55 => "prim_states"@,
        56 => "prim_state_idx"@,
        60 => "indexed_trilist"@,
        61 => "tex_idxs"@,
        63 => "vertex_idxs"@,
        64 => "flags"@,
        65 => "matrix"@,
        66 => "matrices"@,
        67 => "hierarchy"@,
        68 => "volumes"@,
        69 => "vol_sphere"@,
        70 => "shape_header"@,
        71 => "shape"@,
        72 => "shader_names"@,
        73 => "shader_name"@,
        74 => "texture_filter_names"@,
        75 => "texture_filter_name"@,
        76 => "sort_vectors"@,
        79 => "light_model_cfgs"@,
        80 => "light_model_cfg"@,
        81 => "uv_ops"@,
        90 => "animations"@,
        91 => "animation"@,
        92 => "anim_nodes"@,
        93 => "anim_node"@,
        94 => "controllers"@,
        95 => "tcb_rot"@,
        96 => "linear_pos"@,
        97 => "slerp_rot"@,
        99 => "tcb_key"@,
        101 => "linear_key"@,
        103 => "slerp_key"@,
        125 => "named_filter_mode"@,
        129 => "named_shader"@,
        303 => "Static"@,
        305 => "TrackObj"@,
        308 => "Forest"@,
        311 => "CollideObject"@,
        317 => "Signal"@,
        360 => "Platform"@,
        362 => "LevelCr"@,
        364 => "Speedpost"@,
        365 => "Hazard"@,
        375 => "Tr_Worldfile"@,
        376 => "Tr_Watermark"@,
        395 => "FileName"@,
        396 => "FileNames"@,
        397 => "Position"@,
        398 => "Direction"@,
        399 => "MaxVisDistance"@,
        400 => "Quality"@,
        401 => "StaticDetailLevel"@,
        404 => "StaticFlags"@,
        405 => "CollideFlags"@,
        408 => "UiD"@,
        409 => "TrackSections"@,
        410 => "TrackSection"@,
        419 => "SectionIdx"@,
        420 => "SectionCurve"@,
        424 => "JNodePosn"@,
        458 => "SignalSubObj"@,
        486 => "SignalUnits"@,
        487 => "SignalUnit"@,
        493 => "Elevation"@,
        500 => "Population"@,
        501 => "Area"@,
        503 => "ScaleRange"@,
        579 => "ViewDbSphere"@,
        580 => "Radius"@,
        583 => "VDbId"@,
        584 => "VDbIdCount"@,
        598 => "Matrix3x3"@,
        922 => "TrItemId"@,
        945 => "QDirection"@,
        1107 => "PlatformData"@,
        1111 => "SpeedRange"@,
        1112 => "PickupType"@,
        1113 => "PickupAnimData"@,
        1114 => "PickupCapacity"@,
        1116 => "CarFrequency"@,
        1117 => "CarAvSpeed"@,
        1120 => "SidingData"@,
        1122 => "LevelCrParameters"@,
        1123 => "LevelCrData"@,
        1124 => "LevelCrTiming"@,
        1131 => "Speed_Sign_Shape"@,
        1134 => "Speed_Digit_Tex"@,
        1139 => "Speed_Text_Size"@,
        1152 => "Width"@,
        1153 => "Height"@,
        1154 => "TreeTexture"@,
        1155 => "TreeSize"@,
        1531 => "CrashProbability"@,
        1540 => "CarSpawner"@,
        1541 => "Siding"@,
        1542 => "Dyntrack"@,
        1543 => "Transfer"@,
        1544 => "Gantry"@,
        1545 => "Pickup"@,
        1561 => "Length"@,
        1562 => "Flipped"@,
        1563 => "Ruler"@,
        _ => if 300 <= id <= 430 { "_world"@ } else { "_unknown"@ },
    }
}

/// Name of a binary token id.
pub fn token_name(id: i32) -> (r: &'static str)
    ensures
        r@ == token_name_spec(id),
{
    match id {
        0 => "error",
        1 => "comment",
        2 => "point",
        3 => "vector",
        4 => "quat",
        5 => "normals",
        6 => "normal_idxs",
        7 => "points",
        8 => "uv_point",
        9 => "uv_points",
        10 => "colour",
        11 => "colours",
        12 => "packed_colour",
        13 => "image",
        14 => "images",
        15 => "texture",
        16 => "textures",
        17 => "light_material",
        18 => "light_materials",
        31 => "lod_controls",
        32 => "lod_control",
        33 => "distance_levels_header",
        34 => "distance_level_header",
        35 => "dlevel_selection",
        36 => "distance_levels",
        37 => "distance_level",
        38 => "sub_objects",
        39 => "sub_object",
        40 => "sub_object_header",
        41 => "geometry_info",
        42 => "geometry_nodes",
        43 => "geometry_node",
        44 => "geometry_node_map",
        45 => "cullable_prims",
        46 => "vtx_state",
        47 => "vtx_states",
        48 => "vertex",
        49 => "vertex_uvs",
        50 => "vertices",
        51 => "vertex_set",
        52 => "vertex_sets",
        53 => "primitives",
        54 => "prim_state",
        55 => "prim_states",
        56 => "prim_state_idx",
        60 => "indexed_trilist",
        61 => "tex_idxs",
        63 => "vertex_idxs",
        64 => "flags",
        65 => "matrix",
        66 => "matrices",
        67 => "hierarchy",
        68 => "volumes",
        69 => "vol_sphere",
        70 => "shape_header",
        71 => "shape",
        72 => "shader_names",
        73 => "shader_name",
        74 => "texture_filter_names",
        75 => "texture_filter_name",
        76 => "sort_vectors",
        79 => "light_model_cfgs",
        80 => "light_model_cfg",
        81 => "uv_ops",
        90 => "animations",
        91 => "animation",
        92 => "anim_nodes",
        93 => "anim_node",
        94 => "controllers",
        95 => "tcb_rot",
        96 => "linear_pos",
        97 => "slerp_rot",
        99 => "tcb_key",
        101 => "linear_key",
        103 => "slerp_key",
        125 => "named_filter_mode",
        129 => "named_shader",
        303 => "Static",
        305 => "TrackObj",
        308 => "Forest",
        311 => "CollideObject",
        317 => "Signal",
        360 => "Platform",
        362 => "LevelCr",
        364 => "Speedpost",
        365 => "Hazard",
        375 => "Tr_Worldfile",
        376 => "Tr_Watermark",
        395 => "FileName",
        396 => "FileNames",
        397 => "Position",
        398 => "Direction",
        399 => "MaxVisDistance",
        400 => "Quality",
        401 => "StaticDetailLevel",
        404 => "StaticFlags",
        405 => "CollideFlags",
        408 => "UiD",
        409 => "TrackSections",
        410 => "TrackSection",
        419 => "SectionIdx",
        420 => "SectionCurve",
        424 => "JNodePosn",
        458 => "SignalSubObj",
        486 => "SignalUnits",
        487 => "SignalUnit",
        493 => "Elevation",
        500 => "Population",
        501 => "Area",
        503 => "ScaleRange",
        579 => "ViewDbSphere",
        580 => "Radius",
        583 => "VDbId",
        584 => "VDbIdCount",
        598 => "Matrix3x3",
        922 => "TrItemId",
        945 => "QDirection",
        1107 => "PlatformData",
        1111 => "SpeedRange",
        1112 => "PickupType",
        1113 => "PickupAnimData",
        1114 => "PickupCapacity",
        1116 => "CarFrequency",
        1117 => "CarAvSpeed",
        1120 => "SidingData",
        1122 => "LevelCrParameters",
        1123 => "LevelCrData",
        1124 => "LevelCrTiming",
        1131 => "Speed_Sign_Shape",
        1134 => "Speed_Digit_Tex",
        1139 => "Speed_Text_Size",
        1152 => "Width",
        1153 => "Height",
        1154 => "TreeTexture",
        1155 => "TreeSize",
        1531 => "CrashProbability",
        1540 => "CarSpawner",
        1541 => "Siding",
        1542 => "Dyntrack",
        1543 => "Transfer",
        1544 => "Gantry",
        1545 => "Pickup",
        1561 => "Length",
        1562 => "Flipped",
        1563 => "Ruler",
        _ => if 300 <= id && id <= 430 { "_world" } else { "_unknown" },
    }
}

/// Every token name is ASCII.
pub proof fn lemma_token_name_ascii(id: i32)
    ensures
        is_ascii_chars(token_name_spec(id)),
{
    reveal_strlit("error");
    reveal_strlit("comment");
    reveal_strlit("point");
    reveal_strlit("vector");
    reveal_strlit("quat");
    reveal_strlit("normals");
    reveal_strlit("normal_idxs");
    reveal_strlit("points");
    reveal_strlit("uv_point");
    reveal_strlit("uv_points");
    reveal_strlit("colour");
    reveal_strlit("colours");
    reveal_strlit("packed_colour");
    reveal_strlit("image");
    reveal_strlit("images");
    reveal_strlit("texture");
    reveal_strlit("textures");
    reveal_strlit("light_material");
    reveal_strlit("light_materials");
    reveal_strlit("lod_controls");
    reveal_strlit("lod_control");
    reveal_strlit("distance_levels_header");
    reveal_strlit("distance_level_header");
    reveal_strlit("dlevel_selection");
    reveal_strlit("distance_levels");
    reveal_strlit("distance_level");
    reveal_strlit("sub_objects");
    reveal_strlit("sub_object");
    reveal_strlit("sub_object_header");
    reveal_strlit("geometry_info");
    reveal_strlit("geometry_nodes");
    reveal_strlit("geometry_node");
    reveal_strlit("geometry_node_map");
    reveal_strlit("cullable_prims");
    reveal_strlit("vtx_state");
    reveal_strlit("vtx_states");
    reveal_strlit("vertex");
    reveal_strlit("vertex_uvs");
    reveal_strlit("vertices");
    reveal_strlit("vertex_set");
    reveal_strlit("vertex_sets");
    reveal_strlit("primitives");
    reveal_strlit("prim_state");
    reveal_strlit("prim_states");
    reveal_strlit("prim_state_idx");
    reveal_strlit("indexed_trilist");
    reveal_strlit("tex_idxs");
    reveal_strlit("vertex_idxs");
    reveal_strlit("flags");
    reveal_strlit("matrix");
    reveal_strlit("matrices");
    reveal_strlit("hierarchy");
    reveal_strlit("volumes");
    reveal_strlit("vol_sphere");
    reveal_strlit("shape_header");
    reveal_strlit("shape");
    reveal_strlit("shader_names");
    reveal_strlit("shader_name");
    reveal_strlit("texture_filter_names");
    reveal_strlit("texture_filter_name");
    reveal_strlit("sort_vectors");
    reveal_strlit("light_model_cfgs");
    reveal_strlit("light_model_cfg");
    reveal_strlit("uv_ops");
    reveal_strlit("animations");
    reveal_strlit("animation");
    reveal_strlit("anim_nodes");
    reveal_strlit("anim_node");
    reveal_strlit("controllers");
    reveal_strlit("tcb_rot");
    reveal_strlit("linear_pos");
    reveal_strlit("slerp_rot");
    reveal_strlit("tcb_key");
    reveal_strlit("linear_key");
    reveal_strlit("slerp_key");
    reveal_strlit("named_filter_mode");
    reveal_strlit("named_shader");
    reveal_strlit("Static");
    reveal_strlit("TrackObj");
    reveal_strlit("Forest");
    reveal_strlit("CollideObject");
    reveal_strlit("Signal");
    reveal_strlit("Platform");
    reveal_strlit("LevelCr");
    reveal_strlit("Speedpost");
    reveal_strlit("Hazard");
    reveal_strlit("Tr_Worldfile");
    reveal_strlit("Tr_Watermark");
    reveal_strlit("FileName");
    reveal_strlit("FileNames");
    reveal_strlit("Position");
    reveal_strlit("Direction");
    reveal_strlit("MaxVisDistance");
    reveal_strlit("Quality");
    reveal_strlit("StaticDetailLevel");
    reveal_strlit("StaticFlags");
    reveal_strlit("CollideFlags");
    reveal_strlit("UiD");
    reveal_strlit("TrackSections");
    reveal_strlit("TrackSection");
    reveal_strlit("SectionIdx");
    reveal_strlit("SectionCurve");
    reveal_strlit("JNodePosn");
    reveal_strlit("SignalSubObj");
    reveal_strlit("SignalUnits");
    reveal_strlit("SignalUnit");
    reveal_strlit("Elevation");
    reveal_strlit("Population");
    reveal_strlit("Area");
    reveal_strlit("ScaleRange");
    reveal_strlit("ViewDbSphere");
    reveal_strlit("Radius");
    reveal_strlit("VDbId");
    reveal_strlit("VDbIdCount");
    reveal_strlit("Matrix3x3");
    reveal_strlit("TrItemId");
    reveal_strlit("QDirection");
    reveal_strlit("PlatformData");
    reveal_strlit("SpeedRange");
    reveal_strlit("PickupType");
    reveal_strlit("PickupAnimData");
    reveal_strlit("PickupCapacity");
    reveal_strlit("CarFrequency");
    reveal_strlit("CarAvSpeed");
    reveal_strlit("SidingData");
    reveal_strlit("LevelCrParameters");
    reveal_strlit("LevelCrData");
    reveal_strlit("LevelCrTiming");
    reveal_strlit("Speed_Sign_Shape");
    reveal_strlit("Speed_Digit_Tex");
    reveal_strlit("Speed_Text_Size");
    reveal_strlit("Width");
    reveal_strlit("Height");
    reveal_strlit("TreeTexture");
    reveal_strlit("TreeSize");
    reveal_strlit("CrashProbability");
    reveal_strlit("CarSpawner");
    reveal_strlit("Siding");
    reveal_strlit("Dyntrack");
    reveal_strlit("Transfer");
    reveal_strlit("Gantry");
    reveal_strlit("Pickup");
    reveal_strlit("Length");
    reveal_strlit("Flipped");
    reveal_strlit("Ruler");
    reveal_strlit("_world");
    reveal_strlit("_unknown");
}

/// Token ids the dumper accepts as block headers: with a world offset
/// (>= 300) the world ids, otherwise the shape ids.
pub open spec fn known_binary_token_spec(id: int, token_offset: int) -> bool {
    if token_offset >= 300 {
        (300 <= id <= 430) || id == 458 || id == 486 || id == 487 || id == 493 || id == 500 || id == 501
            || id == 503 || id == 579 || id == 580 || id == 583 || id == 584 || id == 598 || id == 922
            || id == 945 || id == 1107 || (1111 <= id <= 1117) || (1120 <= id <= 1124) || id == 1131
            || id == 1134 || id == 1139 || (1152 <= id <= 1155) || id == 1531 || (1540 <= id <= 1545)
            || (1561 <= id <= 1563)
    } else {
        (1 <= id <= 18) || (31 <= id <= 56) || id == 60 || id == 61 || (63 <= id <= 76) || (79 <= id <= 81)
            || (90 <= id <= 97) || id == 99 || id == 101 || id == 103 || id == 125 || id == 129
    }
}

pub fn is_known_binary_token(id: i32, token_offset: i32) -> (r: bool)
    ensures
        r == known_binary_token_spec(id as int, token_offset as int),
{
    if token_offset >= 300 {
        (300 <= id && id <= 430) || id == 458 || id == 486 || id == 487 || id == 493 || id == 500 || id == 501
            || id == 503 || id == 579 || id == 580 || id == 583 || id == 584 || id == 598 || id == 922
            || id == 945 || id == 1107 || (1111 <= id && id <= 1117) || (1120 <= id && id <= 1124)
            || id == 1131 || id == 1134 || id == 1139 || (1152 <= id && id <= 1155) || id == 1531
            || (1540 <= id && id <= 1545) || (1561 <= id && id <= 1563)
    } else {
        (1 <= id && id <= 18) || (31 <= id && id <= 56) || id == 60 || id == 61 || (63 <= id && id <= 76)
            || (79 <= id && id <= 81) || (90 <= id && id <= 97) || id == 99 || id == 101 || id == 103
            || id == 125 || id == 129
    }
}

/// Tokens whose scalars are 32-bit integers rather than floats.
pub open spec fn scalars_are_i32_spec(id: int) -> bool {
    id == 48 || id == 49 || id == 54 || id == 56 || id == 61 || id == 63 || id == 64 || id == 67 || id == 70
        || id == 401 || id == 404 || id == 405 || id == 408 || id == 419 || id == 500 || id == 583
        || id == 584 || id == 922
}

pub fn token_scalars_are_i32(id: i32) -> (r: bool)
    ensures
        r == scalars_are_i32_spec(id as int),
{
    id == 48 || id == 49 || id == 54 || id == 56 || id == 61 || id == 63 || id == 64 || id == 67 || id == 70
        || id == 401 || id == 404 || id == 405 || id == 408 || id == 419 || id == 500 || id == 583
        || id == 584 || id == 922
}

/// Blocks whose body is only numeric scalars (never nested sub-blocks):
/// point, vector, normal_idxs, uv_point, prim_state_idx, vertex_idxs, flags,
/// hierarchy and the animation keys.
pub open spec fn scalar_only_leaf_spec(id: int) -> bool {
    id == 2 || id == 3 || id == 6 || id == 8 || id == 56 || id == 63 || id == 64 || id == 67 || id == 99
        || id == 101 || id == 103
}

pub fn is_scalar_only_leaf_block(token_id: i32) -> (r: bool)
    ensures
        r == scalar_only_leaf_spec(token_id as int),
{
    token_id == 2 || token_id == 3 || token_id == 6 || token_id == 8 || token_id == 56 || token_id == 63
        || token_id == 64 || token_id == 67 || token_id == 99 || token_id == 101 || token_id == 103
}

/// Collection blocks whose children are checked against a schema.
pub open spec fn schema_collection_parent_spec(p: int) -> bool {
    p == 5 || p == 7 || p == 9 || p == 11 || p == 14 || p == 16 || p == 18 || p == 31 || p == 36 || p == 38
        || p == 42 || p == 47 || p == 50 || p == 52 || p == 53 || p == 55 || p == 60 || p == 66 || p == 68
        || p == 72 || p == 74 || p == 90 || p == 92 || p == 94 || p == 95 || p == 96 || p == 97
}

pub fn is_schema_collection_parent(parent: i32) -> (r: bool)
    ensures
        r == schema_collection_parent_spec(parent as int),
{
    let p = parent;
    p == 5 || p == 7 || p == 9 || p == 11 || p == 14 || p == 16 || p == 18 || p == 31 || p == 36 || p == 38
        || p == 42 || p == 47 || p == 50 || p == 52 || p == 53 || p == 55 || p == 60 || p == 66 || p == 68
        || p == 72 || p == 74 || p == 90 || p == 92 || p == 94 || p == 95 || p == 96 || p == 97
}

/// Child token expected inside a collection parent (normals → vector,
/// points → point, …, primitives → prim_state_idx | indexed_trilist, …).
pub open spec fn expected_collection_child_spec(p: int, c: int) -> bool {
    (p == 5 && c == 3) || (p == 7 && c == 2) || (p == 9 && c == 8) || (p == 11 && c == 10) || (p == 14
        && c == 13) || (p == 16 && c == 15) || (p == 18 && c == 17) || (p == 31 && c == 32) || (p == 36
        && c == 37) || (p == 38 && c == 39) || (p == 42 && c == 43) || (p == 47 && c == 46) || (p == 50
        && c == 48) || (p == 52 && c == 51) || (p == 53 && c == 56) || (p == 53 && c == 60) || (p == 55
        && c == 54) || (p == 60 && c == 63) || (p == 60 && c == 6) || (p == 60 && c == 64) || (p == 66
        && c == 65) || (p == 68 && c == 69) || (p == 72 && c == 129) || (p == 74 && c == 125) || (p == 90
        && c == 91) || (p == 92 && c == 93) || (p == 94 && c == 95) || (p == 94 && c == 96) || (p == 94
        && c == 97) || (p == 95 && c == 99) || (p == 96 && c == 101) || (p == 97 && c == 103)
}

pub fn is_expected_collection_child(parent: i32, child: i32) -> (r: bool)
    ensures
        r == expected_collection_child_spec(parent as int, child as int),
{
    let p = parent;
    let c = child;
    (p == 5 && c == 3) || (p == 7 && c == 2) || (p == 9 && c == 8) || (p == 11 && c == 10) || (p == 14
        && c == 13) || (p == 16 && c == 15) || (p == 18 && c == 17) || (p == 31 && c == 32) || (p == 36
        && c == 37) || (p == 38 && c == 39) || (p == 42 && c == 43) || (p == 47 && c == 46) || (p == 50
        && c == 48) || (p == 52 && c == 51) || (p == 53 && c == 56) || (p == 53 && c == 60) || (p == 55
        && c == 54) || (p == 60 && c == 63) || (p == 60 && c == 6) || (p == 60 && c == 64) || (p == 66
        && c == 65) || (p == 68 && c == 69) || (p == 72 && c == 129) || (p == 74 && c == 125) || (p == 90
        && c == 91) || (p == 92 && c == 93) || (p == 94 && c == 95) || (p == 94 && c == 96) || (p == 94
        && c == 97) || (p == 95 && c == 99) || (p == 96 && c == 101) || (p == 97 && c == 103)
}

} // verus!
