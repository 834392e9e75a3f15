use openrailsrs_formats::error::FormatError;
use openrailsrs_formats::lexer::Lexer;
use openrailsrs_formats::msts_simisa::decode_simisa_container;
use openrailsrs_formats::parser::{parse, SExpr};
use openrailsrs_formats::shape_binary_reader::BinaryBlockReader;
use openrailsrs_formats::encoding::msts_latin_bytes;
use openrailsrs_formats::msts_tile_name::msts_tile_name_from_xz_zoom;
use openrailsrs_formats::typed::activity_tree::{
    collect_activity_objects, finish_activity_object, taken_int,
};
use openrailsrs_formats::typed::consist::{consist_entries, trainset_path, uid_from_int, FlipSlot};
use openrailsrs_formats::typed::cvf::ControlType;
use openrailsrs_formats::typed::hazard::{hazard_name_step, HazardNameStep};
use openrailsrs_formats::typed::shape_prims::{
    alpha_test_mode_for, hex_symbol_value, int_as_i32, prim_state_from_items,
    primitives_from_section, vertex_indices_from, Num32, Num64,
};
use openrailsrs_formats::vehicle_audit::{
    classify_vehicle_symbols, ParserSupport, VehicleFieldSpec, VehicleKind,
};

fn items(e: &SExpr) -> &Vec<SExpr> {
    match e {
        SExpr::List(items) => items,
        _ => panic!("not a list"),
    }
}

fn error_message<T>(r: Result<T, FormatError>) -> String {
    match r {
        Err(FormatError::UnexpectedToken { message, .. }) => message,
        _ => panic!("expected an UnexpectedToken error"),
    }
}

fn overrunning_block() -> Vec<u8> {
    let mut raw = Vec::new();
    raw.extend_from_slice(&5u16.to_le_bytes());
    raw.extend_from_slice(&0u16.to_le_bytes());
    raw.extend_from_slice(&100u32.to_le_bytes());
    raw.push(0u8);
    raw.push(0u8);
    raw
}

#[test]
fn next_sub_block_gives_none_on_a_bad_header() {
    let raw = overrunning_block();
    let mut root = BinaryBlockReader::new(&raw, 0, 0);
    assert!(root.next_sub_block().is_none());
    assert_eq!(root.absolute_pos(), 8);
}

#[test]
fn labelled_header_errors_use_short_texts() {
    let raw = overrunning_block();
    let mut root = BinaryBlockReader::new(&raw, 0, 0);
    assert_eq!(
        error_message(root.open_sub_block_with_label()),
        "block token=5 remaining=100 overruns parent"
    );
    let mut label = Vec::new();
    label.extend_from_slice(&5u16.to_le_bytes());
    label.extend_from_slice(&0u16.to_le_bytes());
    label.extend_from_slice(&1u32.to_le_bytes());
    label.push(3u8);
    let mut root = BinaryBlockReader::new(&label, 0, 0);
    assert_eq!(
        error_message(root.open_sub_block_with_label()),
        "token=5 label overruns block"
    );
}

#[test]
fn simisa_header_error_shows_trimmed_text() {
    let mut bytes = b"ABC\0\0\0\0\0".to_vec();
    bytes.resize(32, b'x');
    assert_eq!(
        error_message(decode_simisa_container(&bytes)),
        "unrecognized SIMISA header: \"ABC\""
    );
    let mut bad = vec![0xFFu8, b'A', b'B', b'C', b'D', b'E', b'F', b'G'];
    bad.resize(32, b'x');
    assert_eq!(
        error_message(decode_simisa_container(&bad)),
        "unrecognized SIMISA header: \"\""
    );
    let mut sub = b"SIMISA@@@@@@@@@@JINX0s1x".to_vec();
    sub.resize(40, b' ');
    assert_eq!(
        error_message(decode_simisa_container(&sub)),
        "unrecognized SIMISA sub-header: \"JINX0s1x\""
    );
}

#[test]
fn lexer_position_after_errors() {
    let mut lx = Lexer::new("\"abc");
    assert!(lx.next_token().is_err());
    assert_eq!(lx.position(), 4);
    let mut lx = Lexer::new("  1. x");
    assert!(lx.next_token().is_err());
    assert_eq!(lx.position(), 4);
}

#[test]
fn control_names_in_any_case_and_generic_names() {
    assert_eq!(
        ControlType::from_type_tokens(&["speedometer".to_string()]),
        ControlType::Speedometer
    );
    assert_eq!(
        ControlType::from_type_tokens(&["orts_etcs".to_string()]),
        ControlType::OrtsEtcs
    );
    let g = ControlType::from_type_tokens(&["WIPERS".to_string()]);
    assert_eq!(g, ControlType::Generic("WIPERS".to_string()));
    assert_eq!(g.as_str(), "WIPERS");
    assert_eq!(ControlType::from_type_tokens(&[]), ControlType::Generic(String::new()));
}

#[test]
fn hazard_reference_decision() {
    assert_eq!(hazard_name_step("   "), HazardNameStep::Empty);
    assert_eq!(
        hazard_name_step(" crowhaz1.S "),
        HazardNameStep::Shape("crowhaz1.S".to_string())
    );
    assert_eq!(
        hazard_name_step("crow.haz"),
        HazardNameStep::Lookup("crow.haz".to_string())
    );
}

#[test]
fn prim_state_positional_layout() {
    let e = parse(r#"(prim_state "Mat" 64 3 ( tex_idxs 1 7 ) 2 0 )"#).expect("parse");
    let f = prim_state_from_items(items(&e));
    assert_eq!(f.name, Some("Mat".to_string()));
    assert_eq!(f.flags, Some(Num64::Int(64)));
    assert_eq!(f.shader_idx, Some(Num64::Int(3)));
    assert_eq!(f.vertex_state_idx, Some(Num64::Int(2)));
    assert_eq!(f.z_bias, Some(Num64::Int(0)));
    assert_eq!(f.tex_indices, vec![Num32::Exact(7)]);
    assert_eq!(f.alpha_test_mode, None);
    assert_eq!(alpha_test_mode_for(-1, 64), 2);
    assert_eq!(alpha_test_mode_for(-1, 128), 1);
    assert_eq!(alpha_test_mode_for(-1, 0), -1);
    assert_eq!(alpha_test_mode_for(0, 64), 0);
}

#[test]
fn prim_state_tagged_fields() {
    let e = parse(r#"(prim_state (flags 5) (shader_idx 2) (z_bias 0.5) (alphatest_mode 1) (zBufferMode 3) (vtx_state_idx 4))"#)
        .expect("parse");
    let f = prim_state_from_items(items(&e));
    assert_eq!(f.name, None);
    assert_eq!(f.flags, Some(Num64::Int(5)));
    assert_eq!(f.shader_idx, Some(Num64::Int(2)));
    assert_eq!(f.z_bias, Some(Num64::Decimal("0.5".to_string())));
    assert_eq!(f.alpha_test_mode, Some(Num64::Int(1)));
    assert_eq!(f.z_buf_mode, Some(Num64::Int(3)));
    assert_eq!(f.vertex_state_idx, Some(Num64::Int(4)));
    assert!(f.tex_indices.is_empty());
}

#[test]
fn numbers_and_hex_symbols() {
    assert_eq!(int_as_i32(5_000_000_000), i32::MAX);
    assert_eq!(int_as_i32(-5_000_000_000), i32::MIN);
    assert_eq!(hex_symbol_value(b"0xFFFFFFFF"), Some(-1));
    assert_eq!(hex_symbol_value(b"ff"), Some(255));
    assert_eq!(hex_symbol_value(b"0x"), None);
    assert_eq!(hex_symbol_value(b"1FFFFFFFF"), None);
    assert_eq!(hex_symbol_value(b"0xg1"), None);
}

#[test]
fn primitives_take_the_state_in_force() {
    let e = parse(
        "(sub_object (primitives 4 (prim_state_idx 2) (indexed_trilist (vertex_idxs 3 0 1 2)) \
         (indexed_trilist (vertex_idxs 3 4 5 6)) (prim_state_idx 5) (indexed_trilist (vertex_idxs 0))))",
    )
    .expect("parse");
    let prims = primitives_from_section(items(&e));
    assert_eq!(prims.len(), 3);
    assert_eq!(prims[0].state, Some(Num64::Int(2)));
    assert_eq!(prims[1].state, Some(Num64::Int(2)));
    assert_eq!(prims[2].state, Some(Num64::Int(5)));
    assert_eq!(
        prims[0].indices,
        vec![Num32::Exact(3), Num32::Exact(0), Num32::Exact(1), Num32::Exact(2)]
    );
    assert_eq!(vertex_indices_from(&[3, 0, 1, 2]), vec![0u32, 1, 2]);
    assert_eq!(vertex_indices_from(&[3, -1, 4]), vec![4u32]);
    assert_eq!(vertex_indices_from(&[]), Vec::<u32>::new());
}

fn spec(
    token: &'static str,
    applies_to: VehicleKind,
    openrailsrs: ParserSupport,
    openbve: ParserSupport,
) -> VehicleFieldSpec {
    VehicleFieldSpec { token, category: "cat", applies_to, openrailsrs, openbve, notes: "n" }
}

#[test]
fn vehicle_symbols_classified() {
    let symbols = vec![
        "Comment".to_string(),
        "MASS".to_string(),
        "Mass".to_string(),
        "ORTSBrake".to_string(),
        "Sander".to_string(),
        "Zeta".to_string(),
        "WagonOnly".to_string(),
    ];
    let specs = vec![
        None,
        Some(spec("Mass", VehicleKind::Both, ParserSupport::Parsed, ParserSupport::Parsed)),
        Some(spec("Mass", VehicleKind::Both, ParserSupport::Parsed, ParserSupport::Parsed)),
        Some(spec("ORTSBrake", VehicleKind::Engine, ParserSupport::Parsed, ParserSupport::NotApplicable)),
        Some(spec("Sander", VehicleKind::Both, ParserSupport::Ignored, ParserSupport::Parsed)),
        None,
        Some(spec("WagonOnly", VehicleKind::Wagon, ParserSupport::Parsed, ParserSupport::Parsed)),
    ];
    let mut sorted = symbols.clone();
    sorted.sort();
    let specs_sorted: Vec<Option<VehicleFieldSpec>> = sorted
        .iter()
        .map(|s| specs[symbols.iter().position(|t| t == s).unwrap()])
        .collect();
    let r = classify_vehicle_symbols(&sorted, &specs_sorted, VehicleKind::Engine);
    let tokens: Vec<&str> = r.known_fields.iter().map(|e| e.token.as_str()).collect();
    assert_eq!(tokens, vec!["Mass", "ORTSBrake", "Sander"]);
    assert_eq!(r.gaps_openbve_parsed_we_dont, vec!["Sander".to_string()]);
    assert_eq!(r.orrs_only_in_file, vec!["ORTSBrake".to_string()]);
    assert_eq!(r.unknown_symbols, vec!["Zeta".to_string()]);
}

#[test]
fn consist_entries_in_order() {
    let ast = parse(
        r#"(Train (TrainCfg (Engine (UiD 7) (EngineData RF_WP_DMBSA RF_Blue_Pullman) (Flip))
           (Wagon (WagonData ( car1 set1 )) (Flip ( 0 )))
           (Wagon "direct.wag" (Flip " no ")) (Engine (UiD 1))))"#,
    )
    .expect("parse");
    let v = consist_entries(&ast).expect("entries");
    assert_eq!(v.len(), 3);
    assert_eq!(v[0].path, "trains/RF_Blue_Pullman/RF_WP_DMBSA.eng");
    assert_eq!(v[0].uid, Some(Num64::Int(7)));
    assert_eq!(v[0].flip, Some(FlipSlot::Flag(true)));
    assert!(v[1].wagon);
    assert_eq!(v[1].path, "trains/set1/car1.wag");
    assert_eq!(v[1].flip, Some(FlipSlot::Flag(false)));
    assert_eq!(v[2].path, "direct.wag");
    assert_eq!(v[2].flip, Some(FlipSlot::Flag(false)));
    let none = parse("(Train (Other 1))").expect("parse");
    match consist_entries(&none) {
        Err(FormatError::MissingField { key, context }) => {
            assert_eq!(key, "Engine|Wagon");
            assert_eq!(context, "Train");
        }
        _ => panic!("expected a missing field"),
    }
    let data = parse("(WagonData a b)").expect("parse");
    assert_eq!(trainset_path(items(&data)), "trains/b/a.wag");
    assert_eq!(uid_from_int(-3), 0);
    assert_eq!(uid_from_int(5_000_000_000), u32::MAX);
}


#[test]
fn activity_objects_first_id_last_workers() {
    let ast = parse(
        r#"(Tr_Activity (ActivityObjects (ActivityObject (ObjectType "") (Type PickupWagon)
           (Track_Items 1 (TrItemId -1) (TrItemId 42)) (UiD 7) (Workers 3) (Population -2))))"#,
    )
    .expect("parse");
    let objs = collect_activity_objects(&ast);
    assert_eq!(objs.len(), 1);
    let o = &objs[0];
    assert_eq!(o.kind, "PickupWagon");
    assert_eq!(o.item_ids, vec![Num64::Int(-1), Num64::Int(42), Num64::Int(7)]);
    assert_eq!(o.workers, vec![Num64::Int(3), Num64::Int(-2)]);
    let ids: Vec<Option<u32>> = o.item_ids.iter().map(|n| match n {
        Num64::Int(i) => taken_int(*i),
        _ => None,
    }).collect();
    let workers: Vec<Option<u32>> = o.workers.iter().map(|n| match n {
        Num64::Int(i) => taken_int(*i),
        _ => None,
    }).collect();
    let d = finish_activity_object(&ids, &workers, o.kind.clone()).expect("object");
    assert_eq!((d.item_id, d.workers, d.kind.as_str()), (42, 3, "PickupWagon"));
    assert!(finish_activity_object(&[None], &[], String::new()).is_none());
}

#[test]
fn latin_bytes_round_trips() {
    let units: Vec<u8> = b"SIMISA".iter().flat_map(|b| [*b, 0u8]).collect();
    assert_eq!(msts_latin_bytes(&units), b"SIMISA".to_vec());
    let mut bom = vec![0xFFu8, 0xFE];
    bom.extend_from_slice(&units);
    assert_eq!(msts_latin_bytes(&bom), b"SIMISA".to_vec());
    assert_eq!(msts_latin_bytes(b"abc"), b"abc".to_vec());
    assert_eq!(msts_latin_bytes(b"abcd"), b"abcd".to_vec());
}

#[test]
fn zoomed_tile_names_nest() {
    let n15 = msts_tile_name_from_xz_zoom(-6080, 14925, 15);
    assert_eq!(n15.len(), 9);
    assert!(n15.starts_with('-'));
    assert!(n15.ends_with(['0', '4', '8', 'C']));
    let n8 = msts_tile_name_from_xz_zoom(-6080, 14925, 8);
    let n6 = msts_tile_name_from_xz_zoom(-6080, 14925, 6);
    assert_eq!(n8.len(), 5);
    assert!(n8.starts_with(&n6));
    assert!(n8[1..].chars().all(|c| "0123456789ABCDEF".contains(c)));
}

#[test]
fn lexer_reaches_the_end() {
    let src = "(a 1)";
    let mut lx = Lexer::new(src);
    assert_eq!(lx.position(), 0);
    let mut last = 0;
    while let Ok(Some(_)) = lx.next_token() {
        assert!(lx.position() > last);
        last = lx.position();
    }
    assert_eq!(lx.position(), src.len());
}
