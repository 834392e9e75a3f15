use openrailsrs_formats::cab_link::{is_cabview_dir_name, normalize_asset_name, ResolvedCabAssets};
use openrailsrs_formats::typed::activity::{
    extract_activity_name_from_text, extract_train_config_from_text, pat_path_from_service_id,
    valid_service_name, ActivityObjectDef,
};
use openrailsrs_formats::typed::carspawn::find_list_name;
use openrailsrs_formats::typed::tsection::{is_shape_file_name, tag_at_boundary};
use openrailsrs_formats::vehicle_audit::{
    applies_to_kind, is_openbve_gap, is_orrs_only, is_parsed, is_structural_noise, support_label,
    vehicle_kind_from_heads, FieldAuditEntry, ParserSupport, VehicleFieldSpec, VehicleKind,
};

#[test]
fn activity_line_scanners() {
    let text = "Tr_Activity (\n  Serial ( 1 )\r\n  Train_Config ( \"RF Pullman\" )\n Name ( \"Morning\" )\n)";
    assert_eq!(extract_train_config_from_text(text), Some("RF Pullman".to_string()));
    assert_eq!(extract_activity_name_from_text(text), Some("Morning".to_string()));
    let skip = "Name ( \"Player_Service_Definition\" )\nName ( \"123\" )\nName ( \"  \" )\nName ( \"Real\" )";
    assert_eq!(extract_activity_name_from_text(skip), Some("Real".to_string()));
    assert_eq!(extract_train_config_from_text("Train_Config ( \"open\n\"x\" )"), None);
    assert_eq!(extract_train_config_from_text(""), None);
    assert!(valid_service_name(" svc1 "));
    assert!(!valid_service_name("42"));
    assert!(!valid_service_name("A Definition"));
    assert!(!valid_service_name("   "));
}

#[test]
fn service_id_to_pat_path() {
    assert_eq!(pat_path_from_service_id(" Chiltern1 "), "PATHS/Chiltern1.pat");
    assert_eq!(pat_path_from_service_id("paths\\A.PAT"), "paths/A.PAT");
    let obj = ActivityObjectDef { item_id: 3, workers: 2, kind: "PickupWagon".into() };
    assert_eq!(obj.kind, "PickupWagon");
    assert_eq!(ActivityObjectDef::default().item_id, 0);
}

#[test]
fn carspawn_list_name() {
    assert_eq!(
        find_list_name("( ListName ( \"London Inner\" ) CarSpawnerItem ( \"a.s\" 9 ) )"),
        Some("London Inner".to_string())
    );
    assert_eq!(find_list_name("( listname ( unquoted ) )"), None);
    assert_eq!(find_list_name("( nothing )"), None);
}

#[test]
fn tsection_helpers() {
    let text = "TrackShape ( 1 ) (TrackShapes\tx";
    assert!(tag_at_boundary(text, 0, 10));
    assert!(!tag_at_boundary(text, 18, 10));
    assert!(tag_at_boundary("(a)", 1, 1));
    assert!(tag_at_boundary("a", 0, 1));
    assert!(is_shape_file_name("x.s"));
    assert!(is_shape_file_name("X.S"));
    assert!(!is_shape_file_name("x.sd"));
}

#[test]
fn cab_asset_names() {
    assert_eq!(normalize_asset_name("  ( cab.s )  "), "cab.s");
    assert_eq!(normalize_asset_name("(())"), "");
    assert_eq!(normalize_asset_name("plain.cvf"), "plain.cvf");
    assert!(is_cabview_dir_name("CABVIEW3D"));
    assert!(is_cabview_dir_name("CabView"));
    assert!(!is_cabview_dir_name("cabview4"));
    let r = ResolvedCabAssets { cab_dir: "c".into(), shape_path: "c/a.s".into(), cvf_path: "c/a.cvf".into() };
    assert_eq!(r.clone(), r);
}

#[test]
fn vehicle_audit_support_rules() {
    let spec = VehicleFieldSpec {
        token: "ORTSMaxTractiveForce",
        category: "traction",
        applies_to: VehicleKind::Engine,
        openrailsrs: ParserSupport::Parsed,
        openbve: ParserSupport::NotApplicable,
        notes: "",
    };
    assert!(is_orrs_only(&spec));
    assert!(!is_openbve_gap(&spec));
    assert!(applies_to_kind(&spec, VehicleKind::Engine));
    assert!(!applies_to_kind(&spec, VehicleKind::Wagon));
    let gap = VehicleFieldSpec { openrailsrs: ParserSupport::Ignored, openbve: ParserSupport::Partial, ..spec };
    assert!(is_openbve_gap(&gap));
    assert!(is_parsed(ParserSupport::Partial));
    assert!(!is_parsed(ParserSupport::Ignored));
    assert_eq!(support_label(ParserSupport::NotImplemented), "no");
    assert_eq!(support_label(ParserSupport::NotApplicable), "n/a");
    assert!(is_structural_noise("SubObjects"));
    assert!(!is_structural_noise("Mass"));
    assert_eq!(vehicle_kind_from_heads(true, false, VehicleKind::Wagon), VehicleKind::Engine);
    assert_eq!(vehicle_kind_from_heads(true, true, VehicleKind::Wagon), VehicleKind::Wagon);
    let entry = FieldAuditEntry {
        token: "Mass".into(),
        category: "body".into(),
        openrailsrs: ParserSupport::Parsed,
        openbve: ParserSupport::Parsed,
        notes: String::new(),
    };
    assert_eq!(entry.clone(), entry);
}
