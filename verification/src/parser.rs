//! Reader of MSTS-style S-expressions, over the lexer's tokens.
//!
//! A decimal or exponent numeral stays text in the tree (`SExpr::Float`).
use vstd::prelude::*;
use vstd::string::StringSliceAdditionalSpecFns;
use vstd::utf8::*;

use crate::error::FormatError;
use crate::lexer::{lex_at, lex_end, skip_spec, token_matches, LexOutcome, LexToken, Lexer};
use crate::trim::{find_byte, first_byte, lemma_first_byte_bounds, trim_start_from, trim_start_spec};
use crate::utf8_bounds::lemma_ascii_boundary;

verus! {

/// An S-expression: an atom or a parenthesised list.
#[derive(Debug)]
pub enum SExpr {
    Symbol(String),
    Str(String),
    Integer(i64),
    /// A numeral with a fraction or an exponent, as written.
    Float(String),
    List(Vec<SExpr>),
}

/// Mathematical form of an [`SExpr`].
pub enum SExprV {
    Symbol(Seq<char>),
    Str(Seq<char>),
    Integer(i64),
    Float(Seq<char>),
    List(Seq<SExprV>),
}

impl SExpr {
    /// The expression's mathematical form.
    pub open spec fn view_v(&self) -> SExprV
        decreases self,
    {
        match self {
            SExpr::Symbol(s) => SExprV::Symbol(s@),
            SExpr::Str(s) => SExprV::Str(s@),
            SExpr::Integer(v) => SExprV::Integer(*v),
            SExpr::Float(s) => SExprV::Float(s@),
            SExpr::List(items) => SExprV::List(
                Seq::new(
                    items@.len(),
                    |i: int|
                        if 0 <= i < items@.len() {
                            items@[i].view_v()
                        } else {
                            SExprV::Integer(0)
                        },
                ),
            ),
        }
    }
}

/// Forms of a sequence of expressions.
pub open spec fn views(items: Seq<SExpr>) -> Seq<SExprV> {
    Seq::new(items.len(), |i: int| items[i].view_v())
}

/// Why reading fails.
pub enum ParseErr {
    /// The text ends inside an expression.
    Eof,
    /// A `)` where an expression should start, at the given offset.
    StrayClose(int),
    /// The lexer rejects a token.
    Lex(LexOutcome),
    /// Text other than whitespace and comments follows the expression, at the given offset.
    Trailing(int),
}

/// One expression read from `p` on, and where the reader stops after it.
pub open spec fn expr_spec(b: Seq<u8>, p: int) -> Result<(SExprV, int), ParseErr>
    decreases b.len() - p, 0int,
{
    let q = skip_spec(b, p);
    let e = lex_end(b, q);
    match lex_at(b, q) {
        LexOutcome::End => Err(ParseErr::Eof),
        LexOutcome::RParen => Err(ParseErr::StrayClose(q)),
        LexOutcome::LParen => if p < e <= b.len() {
            match items_spec(b, e) {
                Ok((items, end)) => Ok((SExprV::List(items), end)),
                Err(x) => Err(x),
            }
        } else {
            Err(ParseErr::Eof)
        },
        LexOutcome::Symbol(s) => Ok((SExprV::Symbol(s), e)),
        LexOutcome::Str(s) => Ok((SExprV::Str(s), e)),
        LexOutcome::Integer(v) => Ok((SExprV::Integer(v), e)),
        LexOutcome::Float(s) => Ok((SExprV::Float(s), e)),
        o => Err(ParseErr::Lex(o)),
    }
}

/// The rest of a list from `p` on: its items, and where the reader stops
/// after its closing `)`.
pub open spec fn items_spec(b: Seq<u8>, p: int) -> Result<(Seq<SExprV>, int), ParseErr>
    decreases b.len() - p, 1int,
{
    let q = skip_spec(b, p);
    if !(p <= q < b.len()) {
        Err(ParseErr::Eof)
    } else if b[q] == 41u8 {
        Ok((seq![], q + 1))
    } else {
        match expr_spec(b, q) {
            Err(x) => Err(x),
            Ok((x, e1)) => if q < e1 <= b.len() {
                match items_spec(b, e1) {
                    Ok((rest, e2)) => Ok((seq![x] + rest, e2)),
                    Err(er) => Err(er),
                }
            } else {
                Err(ParseErr::Eof)
            },
        }
    }
}

/// Items already read, in front of the rest of a list.
pub open spec fn prepend(done: Seq<SExprV>, r: Result<(Seq<SExprV>, int), ParseErr>) -> Result<
    (Seq<SExprV>, int),
    ParseErr,
> {
    match r {
        Ok((s, e)) => Ok((done + s, e)),
        Err(x) => Err(x),
    }
}

/// The error returned matches why reading fails.
pub open spec fn parse_err_matches(e: FormatError, pe: ParseErr) -> bool {
    match pe {
        ParseErr::Eof => e is UnexpectedEof,
        ParseErr::StrayClose(o) => e matches FormatError::UnexpectedToken { offset, message }
            && offset == o && message@ == "unexpected ')'"@,
        ParseErr::Lex(o) => token_matches(Err(e), o),
        ParseErr::Trailing(o) => e matches FormatError::TrailingInput(t) && t == o,
    }
}

/// Reading an expression never stops before where it starts, and stays in the text.
pub proof fn lemma_expr_bounds(b: Seq<u8>, p: int)
    requires
        0 <= p <= b.len(),
    ensures
        expr_spec(b, p) matches Ok((_, e)) ==> p < e <= b.len(),
    decreases b.len() - p, 0int,
{
    crate::lexer::lemma_lexer_progress(b, p);
    let q = skip_spec(b, p);
    let e = lex_end(b, q);
    if lex_at(b, q) is LParen && p < e <= b.len() {
        lemma_items_bounds(b, e);
    }
}

/// Reading the rest of a list never stops before where it starts, and stays in the text.
pub proof fn lemma_items_bounds(b: Seq<u8>, p: int)
    requires
        0 <= p <= b.len(),
    ensures
        items_spec(b, p) matches Ok((_, e)) ==> p < e <= b.len(),
    decreases b.len() - p, 1int,
{
    crate::lexer::lemma_lexer_progress(b, p);
    let q = skip_spec(b, p);
    if p <= q < b.len() && b[q] != 41u8 {
        lemma_expr_bounds(b, q);
        if let Ok((_, e1)) = expr_spec(b, q) {
            if q < e1 <= b.len() {
                lemma_items_bounds(b, e1);
            }
        }
    }
}

/// Read one expression at the lexer's position.
fn parse_expr(lexer: &mut Lexer) -> (r: Result<SExpr, FormatError>)
    requires
        0 <= old(lexer).pos() <= old(lexer).bytes().len(),
    ensures
        final(lexer).bytes() == old(lexer).bytes(),
        match expr_spec(old(lexer).bytes(), old(lexer).pos()) {
            Ok((v, e)) => r matches Ok(x) && x.view_v() == v && final(lexer).pos() == e,
            Err(pe) => r matches Err(fe) && parse_err_matches(fe, pe),
        },
    decreases old(lexer).bytes().len() - old(lexer).pos(),
{
    let ghost b = lexer.bytes();
    let ghost p = lexer.pos();
    proof {
        crate::lexer::lemma_lexer_progress(b, p);
        lemma_expr_bounds(b, p);
    }
    match lexer.next_token() {
        Err(e) => Err(e),
        Ok(None) => Err(FormatError::UnexpectedEof),
        Ok(Some(LexToken::LParen)) => {
            let ghost e0 = lexer.pos();
            let mut items: Vec<SExpr> = Vec::new();
            loop
                invariant
                    lexer.bytes() == b,
                    b == old(lexer).bytes(),
                    p == old(lexer).pos(),
                    0 <= p < e0 <= b.len(),
                    e0 <= lexer.pos() <= b.len(),
                    items_spec(b, e0) == prepend(views(items@), items_spec(b, lexer.pos())),
                    expr_spec(b, p) == match items_spec(b, e0) {
                        Ok((its, end)) => Ok((SExprV::List(its), end)),
                        Err(x) => Err(x),
                    },
                decreases b.len() - lexer.pos(),
            {
                let ghost before = lexer.pos();
                lexer.skip_ws_and_comments();
                proof {
                    crate::lexer::lemma_lexer_progress(b, before);
                    lemma_items_bounds(b, before);
                }
                match lexer.peek_byte() {
                    None => {
                        return Err(FormatError::UnexpectedEof);
                    },
                    Some(c) => {
                        if c == 41u8 {
                            lexer.skip_ws_and_comments();
                            match lexer.next_token() {
                                Err(e) => {
                                    return Err(e);
                                },
                                Ok(_) => {},
                            }
                            proof {
                                assert(views(items@) + seq![] =~= views(items@));
                                let its = views(items@);
                                let lst = SExpr::List(items).view_v();
                                assert(lst matches SExprV::List(s) && s =~= its);
                            }
                            return Ok(SExpr::List(items));
                        }
                        let ghost q = lexer.pos();
                        proof {
                            lemma_expr_bounds(b, q);
                        }
                        let x = match parse_expr(lexer) {
                            Ok(x) => x,
                            Err(e) => {
                                return Err(e);
                            },
                        };
                        let ghost xv = x.view_v();
                        let ghost prev = items@;
                        items.push(x);
                        proof {
                            let e1 = lexer.pos();
                            assert(expr_spec(b, q) == Ok::<(SExprV, int), ParseErr>((xv, e1)));
                            assert(q < e1 <= b.len());
                            let rest = items_spec(b, e1);
                            assert(items_spec(b, before) == prepend(seq![xv], rest));
                            assert(views(items@) =~= views(prev) + seq![xv]) by {
                                assert(items@ =~= prev.push(x));
                            }
                            assert(prepend(views(items@), rest) == prepend(
                                views(prev),
                                prepend(seq![xv], rest),
                            )) by {
                                match rest {
                                    Ok((s, e)) => {
                                        assert(views(items@) + s =~= views(prev) + (seq![xv] + s));
                                    },
                                    Err(_) => {},
                                }
                            }
                        }
                    },
                }
            }
        },
        Ok(Some(LexToken::RParen)) => {
            let off = lexer.position() - 1;
            Err(FormatError::UnexpectedToken { offset: off, message: "unexpected ')'".to_owned() })
        },
        Ok(Some(LexToken::Symbol(s))) => Ok(SExpr::Symbol(s)),
        Ok(Some(LexToken::Str(s))) => Ok(SExpr::Str(s)),
        Ok(Some(LexToken::Integer(v))) => Ok(SExpr::Integer(v)),
        Ok(Some(LexToken::Float(s))) => Ok(SExpr::Float(s)),
    }
}

/// The first expression of `b`, ignoring any text after it.
pub open spec fn first_spec(b: Seq<u8>) -> Result<SExprV, ParseErr> {
    match expr_spec(b, 0) {
        Ok((v, _)) => Ok(v),
        Err(x) => Err(x),
    }
}

/// `b` read as exactly one expression (only whitespace and comments may follow).
pub open spec fn whole_spec(b: Seq<u8>) -> Result<SExprV, ParseErr> {
    match expr_spec(b, 0) {
        Ok((v, e)) => if skip_spec(b, e) < b.len() {
            Err(ParseErr::Trailing(skip_spec(b, e)))
        } else {
            Ok(v)
        },
        Err(x) => Err(x),
    }
}

/// Reading a text as exactly one expression agrees with reading its first
/// expression: a whole read gives that same expression, and fails for the
/// same reason unless the failure is text trailing the expression.
pub proof fn lemma_whole_read_is_first_read(b: Seq<u8>)
    ensures
        whole_spec(b) matches Ok(v) ==> first_spec(b) == Ok::<SExprV, ParseErr>(v),
        whole_spec(b) matches Err(x) ==> (x is Trailing && first_spec(b) is Ok) || first_spec(b)
            == Err::<SExprV, ParseErr>(x),
{
}

/// Index of the first `(` after the leading whitespace of `b`.
pub open spec fn first_paren(b: Seq<u8>) -> Option<int> {
    first_byte(b, 40u8, b.len() - trim_start_spec(b).len())
}

/// The text of `b` from its first `(` (after leading whitespace) on, read by `read`.
pub open spec fn from_first_paren(b: Seq<u8>, whole: bool) -> Result<SExprV, ParseErr> {
    match first_paren(b) {
        None => Err(ParseErr::Eof),
        Some(k) => if whole {
            whole_spec(b.subrange(k, b.len() as int))
        } else {
            first_spec(b.subrange(k, b.len() as int))
        },
    }
}

/// The result matches the reading specified.
pub open spec fn read_matches(r: Result<SExpr, FormatError>, s: Result<SExprV, ParseErr>) -> bool {
    match s {
        Ok(v) => r matches Ok(x) && x.view_v() == v,
        Err(pe) => r matches Err(e) && parse_err_matches(e, pe),
    }
}

/// Parse the first complete S-expression, ignoring any trailing text.
pub fn parse_first(source: &str) -> (r: Result<SExpr, FormatError>)
    ensures
        read_matches(r, first_spec(source.spec_bytes())),
{
    let mut lexer = Lexer::new(source);
    parse_expr(&mut lexer)
}

/// Parse a single top-level S-expression; the whole source must be one
/// expression (whitespace and comments may follow it).
pub fn parse(source: &str) -> (r: Result<SExpr, FormatError>)
    ensures
        read_matches(r, whole_spec(source.spec_bytes())),
{
    let mut lexer = Lexer::new(source);
    let ghost b = source.spec_bytes();
    proof {
        lemma_expr_bounds(b, 0);
    }
    let ast = match parse_expr(&mut lexer) {
        Ok(a) => a,
        Err(e) => {
            return Err(e);
        },
    };
    proof {
        crate::lexer::lemma_lexer_progress(b, lexer.pos());
    }
    lexer.skip_ws_and_comments();
    if lexer.position() < source.as_bytes().len() {
        return Err(FormatError::TrailingInput(lexer.position()));
    }
    Ok(ast)
}

/// The source from its first `(` after leading whitespace.
fn from_paren(source: &str) -> (r: Option<&str>)
    ensures
        r matches Some(t) ==> first_paren(source.spec_bytes()) matches Some(k) && t.spec_bytes()
            == source.spec_bytes().subrange(k, source.spec_bytes().len() as int),
        r is None ==> first_paren(source.spec_bytes()) is None,
{
    let b = source.as_bytes();
    let ts = trim_start_from(b, 0, b.len());
    proof {
        assert(b@.subrange(0, b@.len() as int) =~= b@);
        encode_utf8_valid_utf8(source@);
        lemma_first_byte_bounds(b@, 40u8, ts as int);
    }
    match find_byte(b, ts, 40u8) {
        None => None,
        Some(k) => {
            proof {
                lemma_ascii_boundary(b@, k as int);
            }
            let (_, rest) = source.split_at(k);
            Some(rest)
        },
    }
}

/// Skip the preamble, find the first `(`, then parse one expression
/// (ignoring the bytes after it).
pub fn parse_first_from_first_paren(source: &str) -> (r: Result<SExpr, FormatError>)
    ensures
        read_matches(r, from_first_paren(source.spec_bytes(), false)),
{
    match from_paren(source) {
        None => Err(FormatError::UnexpectedEof),
        Some(t) => parse_first(t),
    }
}

/// Skip the preamble, find the first `(`, then parse one expression that
/// must run to the end of the text.
pub fn parse_from_first_paren(source: &str) -> (r: Result<SExpr, FormatError>)
    ensures
        read_matches(r, from_first_paren(source.spec_bytes(), true)),
{
    match from_paren(source) {
        None => Err(FormatError::UnexpectedEof),
        Some(t) => parse(t),
    }
}

} // verus!
