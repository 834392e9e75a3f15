use openrailsrs_formats::error::FormatError;
use openrailsrs_formats::lexer::{LexToken, Lexer};

fn tokens(text: &str) -> Vec<LexToken> {
    let mut lexer = Lexer::new(text);
    let mut out = Vec::new();
    while let Some(t) = lexer.next_token().expect("valid token") {
        out.push(t);
    }
    out
}

#[test]
fn digit_prefixed_symbol_is_not_mistaken_for_an_exponent() {
    let mut lexer = Lexer::new("4994E");
    assert_eq!(lexer.next_token().unwrap(), Some(LexToken::Integer(4994)));
    assert_eq!(lexer.next_token().unwrap(), Some(LexToken::Symbol("E".into())));
}

#[test]
fn numerals_keep_their_text() {
    assert_eq!(tokens("-1.29716e-05"), vec![LexToken::Float("-1.29716e-05".into())]);
    assert_eq!(tokens("2E+3"), vec![LexToken::Float("2E+3".into())]);
    assert_eq!(tokens("-12 3.25"), vec![LexToken::Integer(-12), LexToken::Float("3.25".into())]);
}

#[test]
fn lists_strings_symbols_and_comments() {
    assert_eq!(
        tokens("( Name \"a\\\"b\\n\" ) ; comment\n x-y"),
        vec![
            LexToken::LParen,
            LexToken::Symbol("Name".into()),
            LexToken::Str("a\"b\n".into()),
            LexToken::RParen,
            LexToken::Symbol("x-y".into()),
        ]
    );
    assert_eq!(tokens("\"\u{e9}\""), vec![LexToken::Str("\u{c3}\u{a9}".into())]);
    assert_eq!(tokens("   ; only a comment"), vec![]);
}

#[test]
fn lexer_errors() {
    let mut lexer = Lexer::new("  \"open");
    assert!(matches!(lexer.next_token(), Err(FormatError::UnclosedString(2))));
    let mut lexer = Lexer::new("12.x");
    assert!(matches!(
        lexer.next_token(),
        Err(FormatError::InvalidNumber { offset: 0, ref text }) if text == "expected fractional digits"
    ));
    let mut lexer = Lexer::new(" 99999999999999999999");
    assert!(matches!(
        lexer.next_token(),
        Err(FormatError::InvalidNumber { offset: 1, ref text }) if text == "99999999999999999999"
    ));
}

#[test]
fn position_tracks_tokens() {
    let mut lexer = Lexer::new(" ( ab ) ");
    assert_eq!(lexer.position(), 0);
    lexer.next_token().unwrap();
    assert_eq!(lexer.position(), 2);
    lexer.next_token().unwrap();
    assert_eq!(lexer.position(), 5);
    lexer.skip_ws_and_comments();
    assert_eq!(lexer.position(), 6);
    assert_eq!(lexer.peek_byte(), Some(b')'));
}
