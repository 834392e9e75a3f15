use openrailsrs_formats::typed::consist::{ConsistEntry, ConsistFile};
use openrailsrs_formats::typed::cvf::ControlType;
use openrailsrs_formats::typed::hazard::HazardFile;
use openrailsrs_formats::typed::shape::{u32_to_rgba_bytes, Primitive, SubObject, Vertex, VtxState};
use openrailsrs_formats::typed::carspawn::{scan_orts_lists, CarSpawnerCatalog, CarSpawnerList};
use openrailsrs_formats::typed::friction::{effective_bearing_type, total_axles, OrtsBearingType};
use openrailsrs_formats::typed::path::{PathDataPoint, PathFile};
use openrailsrs_formats::typed::route::scan_trk_includes;
use openrailsrs_formats::typed::shape::shape_text_from_bytes;
use openrailsrs_formats::typed::sigcfg::{
    find_keyword_blocks, lit_light_indices_for_aspect, quoted_strings, scan_aspects,
    SignalDrawStateDef, SignalLamp, SignalTypeLamps,
};
use openrailsrs_formats::typed::tsection::{is_junction, procedural_path_indices, scan_includes};
use openrailsrs_formats::parser::parse;
use openrailsrs_formats::vehicle_audit::{
    collect_msts_list_head_symbols, vehicle_kind_from_ast, vehicle_kind_from_path, VehicleKind,
};
use openrailsrs_formats::typed::track_db::{
    TrackGraph, TrackNodeClass, TrackNodeLinks,
    is_plausible_shape_id, is_plausible_tile_pair, is_tr_item_kind_tag, signal_aspect_from_name,
    vector_pin_pair, SignalAspectKind, TrItemHost, TrPinRef,
};
use openrailsrs_formats::typed::world::{
    is_object_tag, normalize_world_text, world_tag_requires_orientation,
    world_tag_requires_position, SignalUnitRef, WorldTrItemRef,
};

#[test]
fn control_type_from_tokens() {
    assert_eq!(
        ControlType::from_type_tokens(&[
            "DIRECTION_DISPLAY".into(),
            "MULTI_STATE_DISPLAY".into()
        ]),
        ControlType::DirectionDisplay
    );
    assert_eq!(
        ControlType::from_type_tokens(&["CUSTOM_GAUGE".into()]),
        ControlType::Generic("CUSTOM_GAUGE".into())
    );
}

#[test]
fn control_type_whole_text_and_case() {
    assert_eq!(
        ControlType::from_type_tokens(&["throttle".into(), "lever".into()]),
        ControlType::Throttle
    );
    assert_eq!(
        ControlType::from_type_tokens(&["Train".into(), "Brake".into()]),
        ControlType::TrainBrake
    );
    assert_eq!(
        ControlType::from_type_tokens(&["AMMETER".into(), "ABS".into()]),
        ControlType::Ammeter
    );
    assert_eq!(ControlType::from_type_tokens(&[]), ControlType::Generic(String::new()));
    assert_eq!(ControlType::OrtsEtcs.as_str(), "ORTS_ETCS");
    assert_eq!(ControlType::Generic("X_Y".into()).as_str(), "X_Y");
}

#[test]
fn parse_crow_haz_text() {
    let text = r#"
SIMISA@@@@@@@@@@JINX0h0t______
Tr_Worldfile
(
FileName ( crowhaz1.s )
Distance ( 10 )
)
"#;
    let haz = HazardFile::from_text(text).expect("parse");
    assert_eq!(haz.file_name, "crowhaz1.s");
}

#[test]
fn hazard_quoted_and_skipped_filenames() {
    let haz = HazardFile::from_text("Tr_HazardFile ( filename ( \"my shape.s\" ) )").expect("quoted");
    assert_eq!(haz.file_name, "my shape.s");
    let haz = HazardFile::from_text("FileName ( ) FILENAME ( bird.s extra )").expect("second");
    assert_eq!(haz.file_name, "bird.s");
    assert!(HazardFile::from_text("FileName ( \"\" )").is_none());
    assert!(HazardFile::from_text("no name here").is_none());
    let haz = HazardFile::from_text("FileName ( before.s ) Tr_Worldfile ( FileName ( after.s ) )")
        .expect("scoped");
    assert_eq!(haz.file_name, "after.s");
}

#[test]
fn consist_entry_accessors() {
    let e = ConsistEntry::Engine { path: "trains/a/b.eng".into(), uid: Some(12), flipped: true };
    let w = ConsistEntry::Wagon { path: "trains/a/c.wag".into(), uid: None, flipped: false };
    assert_eq!(e.path(), "trains/a/b.eng");
    assert_eq!(e.uid(), Some(12));
    assert!(e.flipped());
    assert_eq!(w.path(), "trains/a/c.wag");
    assert_eq!(w.uid(), None);
    assert!(!w.flipped());
    let con = ConsistFile { entries: vec![e, w] };
    assert_eq!(con.entries.len(), 2);
}

#[test]
fn primitive_triangle_count() {
    let p = Primitive { prim_state_idx: 0, vertex_indices: vec![0, 1, 2, 2, 3, 0, 9] };
    assert_eq!(p.triangle_count(), 2);
    assert_eq!(Primitive::default().triangle_count(), 0);
    let s = SubObject { vertex_count: 1, vertices: vec![Vertex::default()], primitives: vec![p] };
    assert_eq!(s.primitives[0].triangle_count(), 2);
    assert_eq!(VtxState::default().matrix_idx, 0);
}

#[test]
fn argb_word_unpacks_to_rgba() {
    assert_eq!(u32_to_rgba_bytes(0x11223344u32 as i32), [0x22, 0x33, 0x44, 0x11]);
    assert_eq!(u32_to_rgba_bytes(-1), [255, 255, 255, 255]);
    assert_eq!(u32_to_rgba_bytes(0), [0, 0, 0, 0]);
}

#[test]
fn keyword_blocks_and_quoted_strings() {
    let text = "LightTex ( \"ltex\" \"SigLight.ace\" 0 0 1 1 )\nSignalLightTex ( \"x\" )";
    let blocks = find_keyword_blocks(text, "LightTex");
    assert_eq!(blocks, vec!["( \"ltex\" \"SigLight.ace\" 0 0 1 1 )".to_string()]);
    let strings = quoted_strings(&blocks[0]);
    assert_eq!(strings, vec!["ltex".to_string(), "SigLight.ace".to_string()]);
    let nested = find_keyword_blocks("DrawLight ( 0 ( \")\" ) ) lighttex(1) LightTex x (2)", "lighttex");
    assert_eq!(nested, vec!["(1)".to_string()]);
    assert_eq!(quoted_strings("a \"b"), vec!["b".to_string()]);
    assert!(quoted_strings("none").is_empty());
}

#[test]
fn track_db_helpers() {
    let pins = [
        TrPinRef { node_id: 3, branch_index: 0 },
        TrPinRef { node_id: 7, branch_index: 1 },
        TrPinRef { node_id: 9, branch_index: 2 },
    ];
    assert_eq!(vector_pin_pair(&pins), (3, 7));
    assert_eq!(vector_pin_pair(&pins[..1]), (3, 0));
    assert_eq!(vector_pin_pair(&[]), (0, 0));
    assert!(is_plausible_shape_id(20_000));
    assert!(!is_plausible_shape_id(19_999));
    assert!(is_plausible_tile_pair(-6084, 14923));
    assert!(!is_plausible_tile_pair(6084, 9999));
    assert!(!is_plausible_tile_pair(i32::MIN, 14923));
    assert!(is_tr_item_kind_tag("SpeedPostItem"));
    assert!(is_tr_item_kind_tag("signalitem"));
    assert!(!is_tr_item_kind_tag("TrItemId"));
    assert_eq!(signal_aspect_from_name("GREEN"), SignalAspectKind::Clear);
    assert_eq!(signal_aspect_from_name("approach"), SignalAspectKind::Caution);
    assert_eq!(signal_aspect_from_name("danger"), SignalAspectKind::Stop);
    assert_eq!(SignalAspectKind::default().as_toml_str(), "stop");
    assert_eq!(SignalAspectKind::Caution.as_toml_str(), "caution");
    assert_eq!(SignalAspectKind::Clear.as_toml_str(), "clear");
    assert_eq!(TrItemHost { vector_id: 2 }.vector_id, 2);
}

#[test]
fn world_tags_and_normalisation() {
    assert!(is_object_tag("STATIC"));
    assert!(is_object_tag("gantry"));
    assert!(!is_object_tag("Tr_Worldfile"));
    assert!(world_tag_requires_orientation("TrackObj"));
    assert!(!world_tag_requires_orientation("Forest"));
    assert!(world_tag_requires_position("Forest"));
    assert!(!world_tag_requires_position("Other"));
    assert_eq!(normalize_world_text("a ( b ) c ( d )"), "( a  b ) ( c  d )");
    assert_eq!(
        normalize_world_text("Tr_Worldfile ( Static ( UiD ( 1 ) ) )"),
        "( Tr_Worldfile  Static ( UiD ( 1 ) ) )"
    );
    assert_eq!(normalize_world_text("\"x (\" y"), "\"x (\" y");
    assert_eq!(normalize_world_text("caf\u{e9}"), "caf\u{c3}\u{a9}");
    let r = WorldTrItemRef { db: 1, item_id: 5 };
    assert_eq!((r.db, r.item_id), (1, 5));
    let s = SignalUnitRef { sub_obj: 0, tr_item_id: 9 };
    assert_eq!(s.tr_item_id, 9);
}

#[test]
fn signal_aspects_scanned_from_type_block() {
    let block = "( \"BRCLHome\"\n SignalAspects ( 3\n SignalAspect ( STOP \"Red\" )\n SignalAspect ( CLEAR_2 Green )\n signalaspect ( \"Only\" )\n SignalAspect ( APPROACH_1 \"Amber\" SpeedMPH ( 40 ) )\n )\n)";
    let aspects = scan_aspects(block);
    assert_eq!(
        aspects,
        vec![
            ("STOP".to_string(), "Red".to_string()),
            ("CLEAR_2".to_string(), "Green".to_string()),
            ("APPROACH_1".to_string(), "Amber".to_string()),
        ]
    );
    assert!(scan_aspects("SignalAspects ( 0 )").is_empty());
    assert_eq!(
        scan_aspects("SignalAspect ((STOP) (Red))"),
        vec![("STOP".to_string(), "Red".to_string())]
    );
}

fn lamps_type() -> SignalTypeLamps {
    SignalTypeLamps {
        lights: vec![
            SignalLamp { index: 0, colour_name: "Red Light".to_string() },
            SignalLamp { index: 1, colour_name: "Green Light".to_string() },
            SignalLamp { index: 2, colour_name: "AMBER light".to_string() },
        ],
        draw_states: vec![
            SignalDrawStateDef { name: "Red".to_string(), draw_lights: vec![0] },
            SignalDrawStateDef { name: "Green".to_string(), draw_lights: vec![1] },
        ],
        aspects: vec![
            ("STOP".to_string(), "Red".to_string()),
            ("clear_2".to_string(), "GREEN".to_string()),
            ("APPROACH_1".to_string(), "Missing".to_string()),
        ],
    }
}

#[test]
fn lit_lamps_follow_aspects_then_colours() {
    let t = lamps_type();
    assert_eq!(lit_light_indices_for_aspect(&t, 0), vec![0]);
    assert_eq!(lit_light_indices_for_aspect(&t, 2), vec![1]);
    assert_eq!(lit_light_indices_for_aspect(&t, 7), vec![1]);
    // No usable caution aspect: fall back to the amber-coloured lamps.
    assert_eq!(lit_light_indices_for_aspect(&t, 1), vec![2]);
    let bare = SignalTypeLamps { lights: vec![], draw_states: vec![], aspects: vec![] };
    assert!(lit_light_indices_for_aspect(&bare, 0).is_empty());
}

#[test]
fn include_directives_scanned() {
    let text = "include ( \"../../Global/tsection.dat\" )\n_INFO ( x )\nsubinclude ( no.dat )\ninclude ( ( a  b.dat ) )\ninclude (\"  spaced.dat \")\ninclude ( 5 )";
    assert_eq!(
        scan_includes(text),
        vec![
            "../../Global/tsection.dat".to_string(),
            "b.dat".to_string(),
            "spaced.dat".to_string(),
        ]
    );
    assert_eq!(scan_trk_includes("Include ( x.trk )"), Vec::<String>::new());
    assert_eq!(scan_trk_includes("(include ( OpenRails.trk ))"), vec!["OpenRails.trk".to_string()]);
    assert!(scan_includes("include").is_empty());
}

#[test]
fn hazard_search_starts_at_worldfile() {
    let text = "FileName ( early.s )\nTr_Worldfile ( FileName ( late.s ) )";
    assert_eq!(HazardFile::from_text(text).unwrap().file_name, "late.s");
    let text = "FileName ( only.s )";
    assert_eq!(HazardFile::from_text(text).unwrap().file_name, "only.s");
}

#[test]
fn vehicle_kind_from_file_path() {
    assert_eq!(vehicle_kind_from_path("trains/set/Coach.WAG"), VehicleKind::Wagon);
    assert_eq!(vehicle_kind_from_path("trains/set/loco.eng"), VehicleKind::Engine);
    assert_eq!(vehicle_kind_from_path("trains/set/.wag"), VehicleKind::Engine);
    assert_eq!(vehicle_kind_from_path("trains/set/coach.wag/"), VehicleKind::Wagon);
    assert_eq!(vehicle_kind_from_path("wag"), VehicleKind::Engine);
}

#[test]
fn shape_text_from_plain_bytes() {
    assert_eq!(shape_text_from_bytes(b"shape ( )").unwrap(), "shape ( )");
}

fn car_list(name: &str, items: &[&str]) -> CarSpawnerList<String> {
    CarSpawnerList {
        name: name.to_string(),
        items: items.iter().map(|s| s.to_string()).collect(),
    }
}

#[test]
fn carspawner_lists_resolve_and_pick() {
    let catalog = CarSpawnerCatalog {
        lists: vec![
            car_list("Empty", &[]),
            car_list("Default", &["a.s", "b.s", "c.s"]),
            car_list("London Inner", &["x.s", "y.s"]),
        ],
    };
    assert_eq!(catalog.list_by_name("london inner").unwrap().items.len(), 2);
    assert!(catalog.list_by_name("Nowhere").is_none());
    assert_eq!(catalog.resolve_list(Some("LONDON INNER")).unwrap().name, "London Inner");
    assert_eq!(catalog.resolve_list(Some("Empty")).unwrap().name, "Default");
    assert_eq!(catalog.resolve_list(None).unwrap().name, "Default");
    assert_eq!(catalog.pick_item(Some("London Inner"), 2253), Some(&"y.s".to_string()));
    assert_eq!(catalog.pick_item(None, 7), Some(&"b.s".to_string()));
    let no_default = CarSpawnerCatalog {
        lists: vec![car_list("Empty", &[]), car_list("Rural", &["r.s"])],
    };
    assert_eq!(no_default.resolve_list(Some("Missing")).unwrap().name, "Rural");
    let none = CarSpawnerCatalog::<String> { lists: vec![car_list("Empty", &[])] };
    assert!(none.resolve_list(None).is_none());
    assert!(none.pick_item(None, 3).is_none());
}

#[test]
fn orts_carspawner_list_blocks() {
    let text = "CarSpawnerList ( ListName ( \"London Inner\" ) CarSpawnerItem ( \"a.s\" 4 ) )\ncarspawnerlist ( CarSpawnerItem ( \"b.s\" 5 ) )\nCarSpawnerList ( unclosed";
    let lists = scan_orts_lists(text);
    assert_eq!(lists.len(), 2);
    assert_eq!(lists[0].0, "London Inner");
    assert_eq!(lists[0].1, "( ListName ( \"London Inner\" ) CarSpawnerItem ( \"a.s\" 4 ) )");
    assert_eq!(lists[1].0, "Unnamed");
    assert_eq!(lists[1].1, "( CarSpawnerItem ( \"b.s\" 5 ) )");
}

fn pdp(node_id: Option<u32>, invalid_flag: i32, world: Option<(i32, i32)>) -> PathDataPoint<(i32, i32)> {
    PathDataPoint { node_id, junction_flag: 0, invalid_flag, world }
}

#[test]
fn path_node_queries() {
    let path = PathFile {
        name: "Fixture".to_string(),
        pdps: vec![pdp(None, 0, None), pdp(Some(1), 9, None), pdp(Some(3), 0, None), pdp(None, 0, None)],
    };
    assert_eq!(path.start_node(), Some(1));
    assert_eq!(path.end_node(), Some(3));
    assert!(!path.has_world_pdps());
    assert!(path.pdps[1].is_invalid());
    assert!(!path.pdps[0].is_invalid());
    let native = PathFile {
        name: String::new(),
        pdps: vec![pdp(None, 0, Some((-6079, 14925)))],
    };
    assert!(native.has_world_pdps());
    assert_eq!(native.start_node(), None);
    assert_eq!(native.end_node(), None);
}

#[test]
fn friction_axles_and_bearings() {
    assert_eq!(effective_bearing_type(OrtsBearingType::Default), OrtsBearingType::Friction);
    assert_eq!(effective_bearing_type(OrtsBearingType::Roller), OrtsBearingType::Roller);
    // Wagon: explicit axles, else a small NumWheels hint, else four.
    assert_eq!(total_axles(Some(6), Some(3), Some(2), false), 6);
    assert_eq!(total_axles(None, None, Some(3), false), 3);
    assert_eq!(total_axles(None, None, Some(8), false), 4);
    assert_eq!(total_axles(None, None, None, false), 4);
    // Locomotive: max(car axles, drive axles) plus drive axles.
    assert_eq!(total_axles(Some(2), Some(4), None, true), 8);
    assert_eq!(total_axles(Some(6), Some(4), None, true), 10);
    assert_eq!(total_axles(None, None, Some(9), true), 0);
}

#[test]
fn list_head_symbols_sorted_once() {
    let ast = parse("(Wagon (Name \"x\") (Type Freight) (Inner (Name y) (\"str\" 1)) (b))").unwrap();
    assert_eq!(
        collect_msts_list_head_symbols(&ast),
        vec!["Inner".to_string(), "Name".to_string(), "Type".to_string(), "Wagon".to_string(), "b".to_string()]
    );
    assert!(collect_msts_list_head_symbols(&parse("(1 2)").unwrap()).is_empty());
    assert_eq!(vehicle_kind_from_ast(&ast, VehicleKind::Engine), VehicleKind::Wagon);
    let engine = parse("(engine (Wagon) (Engine))").unwrap();
    assert_eq!(vehicle_kind_from_ast(&engine, VehicleKind::Both), VehicleKind::Both);
    let loco = parse("(ENGINE (Name x))").unwrap();
    assert_eq!(vehicle_kind_from_ast(&loco, VehicleKind::Wagon), VehicleKind::Engine);
    let none = parse("(Tr_CabViewFile (Name x))").unwrap();
    assert_eq!(vehicle_kind_from_ast(&none, VehicleKind::Wagon), VehicleKind::Wagon);
}

fn node(id: u32, pins: &[u32], class: TrackNodeClass, items: &[u32]) -> TrackNodeLinks {
    TrackNodeLinks {
        id,
        pin_refs: pins.iter().map(|&n| TrPinRef { node_id: n, branch_index: 0 }).collect(),
        class,
        item_ids: items.to_vec(),
    }
}

fn sample_graph() -> TrackGraph {
    TrackGraph {
        nodes: vec![
            node(1, &[2], TrackNodeClass::End, &[]),
            node(2, &[1, 3], TrackNodeClass::Vector, &[10, 11]),
            node(3, &[2, 4, 5], TrackNodeClass::Junction, &[10]),
            node(4, &[3], TrackNodeClass::Vector, &[11, 12, 12]),
            node(5, &[], TrackNodeClass::Vector, &[13]),
        ],
        item_ids: vec![10, 11, 12, 13],
    }
}

#[test]
fn track_graph_lookups_and_hops() {
    let g = sample_graph();
    assert_eq!(g.node_by_id(3).unwrap().class, TrackNodeClass::Junction);
    assert!(g.node_by_id(9).is_none());
    let junctions: Vec<u32> = g.junction_nodes().iter().map(|n| n.id).collect();
    assert_eq!(junctions, vec![3]);
    assert_eq!(g.item_by_id(12), Some(2));
    assert_eq!(g.item_by_id(99), None);
    assert!(g.pins_connect(1, 2));
    assert!(g.pins_connect(2, 1));
    // Node 5 lists no pins, but node 3 pins it.
    assert!(g.pins_connect(5, 3));
    assert!(!g.pins_connect(1, 4));
    assert!(!g.pins_connect(9, 1));
}

#[test]
fn track_item_hosts() {
    let g = sample_graph();
    let index = g.index_item_hosts();
    // Junction 3 references item 10 but only vector nodes host items.
    assert_eq!(index.get(&10), Some(&vec![2]));
    assert_eq!(index.get(&11), Some(&vec![2, 4]));
    assert_eq!(index.get(&12), Some(&vec![4, 4]));
    assert_eq!(index.get(&13), Some(&vec![5]));
    assert_eq!(index.len(), 4);
    assert_eq!(g.host_vector_for_item(10), Some(2));
    assert_eq!(g.host_vector_for_item(11), None);
    assert_eq!(g.host_vector_for_item(12), None);
    assert_eq!(g.host_vector_for_item(14), None);
    assert_eq!(g.tr_item_host(13), Some(TrItemHost { vector_id: 5 }));
    assert_eq!(g.tr_item_host(11), None);
}

#[test]
fn track_shape_paths() {
    assert!(!is_junction(1, None));
    assert!(is_junction(2, None));
    assert!(is_junction(1, Some(0)));
    assert_eq!(procedural_path_indices(3, Some(1)), vec![1]);
    assert_eq!(procedural_path_indices(3, Some(3)), vec![0, 1, 2]);
    assert_eq!(procedural_path_indices(2, None), vec![0, 1]);
    assert!(procedural_path_indices(0, None).is_empty());
}
