use openrailsrs_formats::typed::shape_tree::{
    collect_shader_names, collect_texture_filenames, find_named_sections,
};
use openrailsrs_formats::error::FormatError;
use openrailsrs_formats::parser::{parse, SExpr};
use openrailsrs_formats::typed::cvf::ControlType;
use openrailsrs_formats::typed::cvf_tree;
use openrailsrs_formats::typed::fields::{
    extract_any_string, find_header_name, find_pat_path, find_service_consist, find_string_field,
    string_after_first,
};

fn items(e: &SExpr) -> &Vec<SExpr> {
    match e {
        SExpr::List(items) => items,
        _ => panic!("not a list"),
    }
}

#[test]
fn nested_field_found_ignoring_case() {
    let ast = parse(
        r#"(Tr_Activity (Tr_Activity_Header (Name "Retiro") (Player_Path "PATHS\\a.pat") (Season Summer)))"#,
    )
    .expect("parse");
    assert_eq!(find_string_field(&ast, &["Name"]), Some("Retiro".to_string()));
    assert_eq!(
        find_string_field(&ast, &["player_path"]),
        Some("PATHS\\a.pat".to_string())
    );
    assert_eq!(find_string_field(&ast, &["SEASON"]), Some("Summer".to_string()));
    assert_eq!(find_string_field(&ast, &["StartTime"]), None);
}

#[test]
fn flat_field_pairs_found() {
    let ast = parse(r#"(Tr_RouteFile RouteID ( SCE ) Name ( "Scenic Line" ) Graphic ( 5 ))"#)
        .expect("parse");
    assert_eq!(find_string_field(&ast, &["RouteID"]), Some("SCE".to_string()));
    assert_eq!(find_string_field(&ast, &["Name"]), Some("Scenic Line".to_string()));
    assert_eq!(find_string_field(&ast, &["Graphic"]), None);
}

#[test]
fn any_of_several_names_matches() {
    let ast = parse(r#"(Root (Other 1) (Player_Consist "c.con"))"#).expect("parse");
    assert_eq!(
        find_string_field(&ast, &["Player_Train_Init_Cons", "Player_Consist"]),
        Some("c.con".to_string())
    );
}

#[test]
fn value_wrapped_in_a_list_is_read() {
    let ast = parse(r#"(Name ( "inner" ))"#).expect("parse");
    assert_eq!(find_string_field(&ast, &["Name"]), Some("inner".to_string()));
    assert_eq!(string_after_first(items(&ast)), Some("inner".to_string()));
}

#[test]
fn any_string_skips_numbers() {
    let ast = parse(r#"(1 2.5 (3 (name)))"#).expect("parse");
    assert_eq!(extract_any_string(&ast), Some("name".to_string()));
    let none = parse("(1 (2))").expect("parse");
    assert_eq!(extract_any_string(&none), None);
}

#[test]
fn header_name_is_read_from_the_first_header() {
    let ast = parse(r#"(Tr_Activity (Tr_Activity_Header (Name "Head")) (Name "other"))"#)
        .expect("parse");
    assert_eq!(find_header_name(&ast), Some("Head".to_string()));
}

#[test]
fn header_without_a_name_gives_none() {
    let ast = parse(r#"(Tr_Activity (tr_activity_header (Season Winter)) (Name "other"))"#)
        .expect("parse");
    assert_eq!(find_header_name(&ast), None);
}

#[test]
fn pat_path_matched_ignoring_case() {
    let ast = parse(r#"(Service_Definition "svc" (Path (File "PATHS\\Route.PAT")) "late.pat")"#)
        .expect("parse");
    assert_eq!(
        find_pat_path(items(&ast)),
        Some("PATHS\\Route.PAT".to_string())
    );
    let no_pat = parse(r#"(Service_Definition "svc" pat.pat "x.con")"#).expect("parse");
    assert_eq!(find_pat_path(items(&no_pat)), None);
}

#[test]
fn service_consist_found_in_nested_lists() {
    let ast = parse(
        r#"(Service_Definition "svc" (Train_Config 5) (Inner (Service_Train_Config "C1")))"#,
    )
    .expect("parse");
    assert_eq!(find_service_consist(items(&ast)), Some("C1".to_string()));
    let symbol = parse(r#"(S (train_config Local))"#).expect("parse");
    assert_eq!(find_service_consist(items(&symbol)), Some("Local".to_string()));
    let none = parse(r#"(S (Consist "x"))"#).expect("parse");
    assert_eq!(find_service_consist(items(&none)), None);
}

#[test]
fn control_type_from_nested_type_list() {
    let ast = parse("(Dial (Type ( SPEEDOMETER DIAL )) (Position 1 2 3 4))").expect("parse");
    assert_eq!(
        cvf_tree::parse_control_type(items(&ast)).expect("type"),
        ControlType::Speedometer
    );
}

#[test]
fn control_type_from_flat_type_symbol() {
    let ast = parse("(Dial Position ( 1 2 ) Type ( THROTTLE_DISPLAY ))").expect("parse");
    assert_eq!(
        cvf_tree::parse_control_type(items(&ast)).expect("type"),
        ControlType::ThrottleDisplay
    );
}

#[test]
fn control_without_type_is_missing_the_field() {
    let ast = parse("(Dial (Position 1 2 3 4))").expect("parse");
    match cvf_tree::parse_control_type(items(&ast)) {
        Err(FormatError::MissingField { key, context }) => {
            assert_eq!(key, "Type");
            assert_eq!(context, "CabControl");
        }
        other => panic!("unexpected {other:?}"),
    }
}

#[test]
fn type_tokens_are_flattened_in_order() {
    let ast = parse(r#"(Ctl (Type (A (B "c")) 7 D))"#).expect("parse");
    assert_eq!(
        cvf_tree::find_type_tokens(items(&ast)).expect("tokens"),
        vec!["A".to_string(), "B".into(), "c".into(), "D".into()]
    );
    let flat = parse(r#"(x (y "z") 3 w)"#).expect("parse");
    assert_eq!(
        cvf_tree::collect_type_token_strings(items(&flat)),
        vec!["x".to_string(), "y".into(), "z".into(), "w".into()]
    );
}

#[test]
fn string_in_list_reads_nested_and_flat_keys() {
    let ast = parse(r#"(Dial (Graphic "dial.ace") (Units ( KM_PER_HOUR )) Style ( POINTER ))"#)
        .expect("parse");
    let list = items(&ast);
    assert_eq!(
        cvf_tree::find_string_in_list(list, "graphic"),
        Some("dial.ace".to_string())
    );
    assert_eq!(
        cvf_tree::find_string_in_list(list, "Units"),
        Some("KM_PER_HOUR".to_string())
    );
    assert_eq!(cvf_tree::find_string_in_list(list, "Style"), Some("POINTER".to_string()));
    let number = parse("(Dial (Units 5))").expect("parse");
    assert_eq!(cvf_tree::find_string_in_list(items(&number), "Units"), None);
}

#[test]
fn string_field_value_or_error() {
    let ok = parse(r#"(CabViewFile "a.cvf")"#).expect("parse");
    assert_eq!(
        cvf_tree::parse_string_field(items(&ok), "CabViewFile").expect("ok"),
        Some("a.cvf".to_string())
    );
    let bad = parse("(CabViewFile 5)").expect("parse");
    match cvf_tree::parse_string_field(items(&bad), "CabViewFile") {
        Err(FormatError::UnexpectedAtom { key, context, expected }) => {
            assert_eq!(key, "CabViewFile");
            assert_eq!(context, "cvf");
            assert_eq!(expected, "string");
        }
        other => panic!("unexpected {other:?}"),
    }
    let empty = parse("(CabViewFile)").expect("parse");
    assert_eq!(
        cvf_tree::parse_string_field(items(&empty), "CabViewFile").expect("ok"),
        None
    );
}

#[test]
fn texture_names_classic_and_image_fallback() {
    let classic = parse(r#"(shape (texture_filenames 2 "a.ace" "b.ace"))"#).expect("parse");
    assert_eq!(collect_texture_filenames(&classic), vec!["a.ace".to_string(), "b.ace".into()]);
    let jinx = parse(r#"(shape texture_filenames ( 1 "j.ace" ))"#).expect("parse");
    assert_eq!(collect_texture_filenames(&jinx), vec!["j.ace".to_string()]);
    let images = parse(r#"(shape (images 2 (image "i1.ace") image ( "i2.ace" )))"#).expect("parse");
    assert_eq!(collect_texture_filenames(&images), vec!["i1.ace".to_string(), "i2.ace".into()]);
}

#[test]
fn shader_names_from_strings_and_named_shaders() {
    let ast = parse(r#"(shape (shader_names 2 "TexDiff" (named_shader BlendATexDiff)))"#).expect("parse");
    assert_eq!(
        collect_shader_names(&ast),
        vec!["TexDiff".to_string(), "BlendATexDiff".into()]
    );
}

#[test]
fn named_sections_in_both_layouts() {
    let ast = parse("(shape (points 1 (point 1 2 3)) points ( 2 ))").expect("parse");
    let secs = find_named_sections(&ast, "POINTS");
    assert_eq!(secs.len(), 2);
    assert_eq!(secs[0].len(), 3);
    assert!(matches!(&secs[1][0], SExpr::Symbol(s) if s == "POINTS"));
    assert!(matches!(secs[1][1], SExpr::Integer(2)));
}
