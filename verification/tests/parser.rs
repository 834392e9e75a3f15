use openrailsrs_formats::error::FormatError;
use openrailsrs_formats::parser::{
    parse, parse_first, parse_first_from_first_paren, parse_from_first_paren, SExpr,
};

fn show(e: &SExpr) -> String {
    match e {
        SExpr::Symbol(s) => s.clone(),
        SExpr::Str(s) => format!("{s:?}"),
        SExpr::Integer(v) => v.to_string(),
        SExpr::Float(t) => format!("f{t}"),
        SExpr::List(items) => {
            let parts: Vec<String> = items.iter().map(show).collect();
            format!("({})", parts.join(" "))
        }
    }
}

#[test]
fn parse_first_from_first_paren_ignores_trailing_bytes() {
    let src = r#"(Shape (a 1) (b 2)) trailing junk"#;
    let ast = parse_first_from_first_paren(src).expect("parse");
    assert!(matches!(ast, SExpr::List(_)));
    assert!(parse_from_first_paren(src).is_err());
}

#[test]
fn nested_lists_and_atoms() {
    let ast = parse("( Train ( Name \"foo\" ) ( Mass 34000 2.5e3 ) ) ; done").expect("parse");
    assert_eq!(show(&ast), "(Train (Name \"foo\") (Mass 34000 f2.5e3))");
}

#[test]
fn preamble_is_skipped() {
    let ast = parse_from_first_paren("SIMISA@@@@@@@@@@JINX0t1t______\r\n\r\n(Tr ( x ) )\r\n").expect("parse");
    assert_eq!(show(&ast), "(Tr (x))");
}

#[test]
fn reader_errors() {
    assert!(matches!(parse("( a b"), Err(FormatError::UnexpectedEof)));
    assert!(matches!(parse(")"), Err(FormatError::UnexpectedToken { offset: 0, .. })));
    assert!(matches!(parse("(a) (b)"), Err(FormatError::TrailingInput(4))));
    assert!(matches!(parse(""), Err(FormatError::UnexpectedEof)));
    assert!(matches!(parse_first_from_first_paren("no paren"), Err(FormatError::UnexpectedEof)));
    assert!(matches!(parse("(\"open)"), Err(FormatError::UnclosedString(1))));
    assert!(matches!(parse_first("x y"), Ok(SExpr::Symbol(ref s)) if s == "x"));
}
