//! Byte-oriented lexer for MSTS-style S-expressions.
//!
//! Numbers are lexed to their text: an integer is also parsed (as `i64`);
//! a decimal or exponent numeral is handed out as text for the reader to
//! convert.
use vstd::prelude::*;
use vstd::string::StringSliceAdditionalSpecFns;
use vstd::utf8::*;

use crate::error::FormatError;
use crate::std_text::is_valid_utf8;
use crate::text::{
    all_digits, ascii_chars, dec_digits, int_text, is_ascii_bytes, is_digit, lemma_ascii_decode,
    lemma_dec_digits_value, parse_i64, parse_i64_spec, sign_len,
};
use crate::trim::{find_byte, first_byte, lemma_first_byte_bounds};
use crate::utf8_bounds::{byte_char, lemma_encode_utf8_concat, push_byte_char, string_of_encoding, utf8_string};

verus! {

/// One token, with a decimal or exponent numeral kept as its text.
#[derive(Clone, Debug, PartialEq)]
pub enum LexToken {
    LParen,
    RParen,
    Symbol(String),
    Str(String),
    Integer(i64),
    /// A numeral with a fraction or an exponent, as written (ASCII).
    Float(String),
}

/// Byte-oriented lexer over UTF-8 source text.
pub struct Lexer<'a> {
    input: &'a [u8],
    pos: usize,
}

/// Whitespace the lexer skips: space, tab, carriage return, line feed.
pub open spec fn lex_space(c: u8) -> bool {
    c == 32 || c == 9 || c == 13 || c == 10
}

/// Position after skipping whitespace and `;` line comments from `p`.
pub open spec fn skip_spec(b: Seq<u8>, p: int) -> int
    decreases b.len() - p,
{
    if p < 0 || p >= b.len() {
        p
    } else if lex_space(b[p]) {
        skip_spec(b, p + 1)
    } else if b[p] == 59u8 {
        match first_byte(b, 10u8, p + 1) {
            Some(nl) => if p < nl < b.len() {
                skip_spec(b, nl + 1)
            } else {
                p
            },
            None => b.len() as int,
        }
    } else {
        p
    }
}

/// The character an escape `\e` stands for.
pub open spec fn escape_byte(e: u8) -> u8 {
    if e == 110u8 {
        10u8
    } else if e == 114u8 {
        13u8
    } else if e == 116u8 {
        9u8
    } else {
        e
    }
}

/// Characters of a quoted string whose body starts at `i`, and the index
/// after its closing quote (`None` when it is not closed).
///
/// Each byte stands for the character of the same code; `\n`, `\r`, `\t`
/// are control characters and any other escaped byte stands for itself.
pub open spec fn str_body(b: Seq<u8>, i: int) -> Option<(Seq<char>, int)>
    decreases b.len() - i,
{
    if i < 0 || i >= b.len() {
        None
    } else if b[i] == 34u8 {
        Some((seq![], i + 1))
    } else if b[i] == 92u8 {
        if i + 1 >= b.len() {
            None
        } else {
            match str_body(b, i + 2) {
                Some((s, e)) => Some((seq![byte_char(escape_byte(b[i + 1]))] + s, e)),
                None => None,
            }
        }
    } else {
        match str_body(b, i + 1) {
            Some((s, e)) => Some((seq![byte_char(b[i])] + s, e)),
            None => None,
        }
    }
}

/// End of the run of ASCII digits from `i`.
pub open spec fn digits_end(b: Seq<u8>, i: int) -> int
    decreases b.len() - i,
{
    if 0 <= i < b.len() && is_digit(b[i]) {
        digits_end(b, i + 1)
    } else {
        i
    }
}

/// `+` or `-`.
pub open spec fn is_sign(c: u8) -> bool {
    c == 43u8 || c == 45u8
}

/// End of the integer part of the numeral at `p` (after an optional sign).
pub open spec fn int_part_end(b: Seq<u8>, p: int) -> int {
    digits_end(b, if 0 <= p < b.len() && is_sign(b[p]) { p + 1 } else { p })
}

/// The numeral at `p` has a `.` after its integer part.
pub open spec fn has_fraction(b: Seq<u8>, p: int) -> bool {
    let d = int_part_end(b, p);
    0 <= d < b.len() && b[d] == 46u8
}

/// The `.` of the numeral at `p` is not followed by a digit.
pub open spec fn fraction_missing(b: Seq<u8>, p: int) -> bool {
    has_fraction(b, p) && digits_end(b, int_part_end(b, p) + 1) == int_part_end(b, p) + 1
}

/// End of the numeral's integer and fraction parts.
pub open spec fn mantissa_end(b: Seq<u8>, p: int) -> int {
    if has_fraction(b, p) {
        digits_end(b, int_part_end(b, p) + 1)
    } else {
        int_part_end(b, p)
    }
}

/// Index of the first exponent digit, when `e`/`E`, an optional sign and a digit follow `m`.
pub open spec fn exponent_digits(b: Seq<u8>, m: int) -> Option<int> {
    if 0 <= m < b.len() && (b[m] == 101u8 || b[m] == 69u8) {
        let la = if m + 1 < b.len() && is_sign(b[m + 1]) { m + 2 } else { m + 1 };
        if la < b.len() && is_digit(b[la]) {
            Some(la)
        } else {
            None
        }
    } else {
        None
    }
}

/// End of the numeral at `p`.
pub open spec fn number_end(b: Seq<u8>, p: int) -> int {
    match exponent_digits(b, mantissa_end(b, p)) {
        Some(la) => digits_end(b, la),
        None => mantissa_end(b, p),
    }
}

/// The numeral at `p` has a fraction or an exponent.
pub open spec fn number_is_float(b: Seq<u8>, p: int) -> bool {
    has_fraction(b, p) || exponent_digits(b, mantissa_end(b, p)) is Some
}

/// Bytes that end a bare symbol.
pub open spec fn symbol_delim(c: u8) -> bool {
    c == 40u8 || c == 41u8 || c == 34u8 || c == 32u8 || c == 9u8 || c == 13u8 || c == 10u8 || c
        == 59u8
}

/// End of the bare symbol at `i`.
pub open spec fn symbol_end(b: Seq<u8>, i: int) -> int
    decreases b.len() - i,
{
    if 0 <= i < b.len() && !symbol_delim(b[i]) {
        symbol_end(b, i + 1)
    } else {
        i
    }
}

/// A numeral starts at `p`: a digit, or a sign followed by a digit.
pub open spec fn number_starts(b: Seq<u8>, p: int) -> bool {
    0 <= p < b.len() && (is_digit(b[p]) || (is_sign(b[p]) && p + 1 < b.len() && is_digit(
        b[p + 1],
    )))
}

/// What the lexer finds at `p` (whitespace already skipped).
pub enum LexOutcome {
    End,
    LParen,
    RParen,
    Str(Seq<char>),
    Symbol(Seq<char>),
    Integer(i64),
    Float(Seq<char>),
    UnclosedString(int),
    BadNumber(int, Seq<char>),
    BadSymbol(int),
}

/// What the lexer finds at `p` (whitespace already skipped).
pub open spec fn lex_at(b: Seq<u8>, p: int) -> LexOutcome {
    if p < 0 || p >= b.len() {
        LexOutcome::End
    } else if b[p] == 40u8 {
        LexOutcome::LParen
    } else if b[p] == 41u8 {
        LexOutcome::RParen
    } else if b[p] == 34u8 {
        match str_body(b, p + 1) {
            Some((s, _)) => LexOutcome::Str(s),
            None => LexOutcome::UnclosedString(p),
        }
    } else if number_starts(b, p) {
        if fraction_missing(b, p) {
            LexOutcome::BadNumber(p, "expected fractional digits"@)
        } else {
            let t = b.subrange(p, number_end(b, p));
            if number_is_float(b, p) {
                LexOutcome::Float(ascii_chars(t))
            } else {
                match parse_i64_spec(t) {
                    Some(v) => LexOutcome::Integer(v),
                    None => LexOutcome::BadNumber(p, ascii_chars(t)),
                }
            }
        }
    } else {
        let t = b.subrange(p, symbol_end(b, p));
        if valid_utf8(t) {
            LexOutcome::Symbol(decode_utf8(t))
        } else {
            LexOutcome::BadSymbol(p)
        }
    }
}

/// Where the lexer stands after the token at `p`, returned or rejected: an
/// unclosed string runs to the end of the text, and a numeral without
/// fraction digits stops after its `.`.
pub open spec fn lex_end(b: Seq<u8>, p: int) -> int {
    if p < 0 || p >= b.len() {
        p
    } else if b[p] == 40u8 || b[p] == 41u8 {
        p + 1
    } else if b[p] == 34u8 {
        match str_body(b, p + 1) {
            Some((_, e)) => e,
            None => b.len() as int,
        }
    } else if number_starts(b, p) {
        if fraction_missing(b, p) {
            mantissa_end(b, p)
        } else {
            number_end(b, p)
        }
    } else {
        symbol_end(b, p)
    }
}

/// The token returned matches the outcome the lexer finds.
pub open spec fn token_matches(r: Result<Option<LexToken>, FormatError>, o: LexOutcome) -> bool {
    match o {
        LexOutcome::End => r matches Ok(None),
        LexOutcome::LParen => r matches Ok(Some(LexToken::LParen)),
        LexOutcome::RParen => r matches Ok(Some(LexToken::RParen)),
        LexOutcome::Str(s) => r matches Ok(Some(LexToken::Str(t))) && t@ == s,
        LexOutcome::Symbol(s) => r matches Ok(Some(LexToken::Symbol(t))) && t@ == s,
        LexOutcome::Integer(v) => r matches Ok(Some(LexToken::Integer(w))) && w == v,
        LexOutcome::Float(s) => r matches Ok(Some(LexToken::Float(t))) && t@ == s,
        LexOutcome::UnclosedString(off) => r matches Err(FormatError::UnclosedString(o2)) && o2
            == off,
        LexOutcome::BadNumber(off, txt) => r matches Err(FormatError::InvalidNumber { offset, text })
            && offset == off && text@ == txt,
        LexOutcome::BadSymbol(off) => r matches Err(FormatError::UnexpectedToken { offset, message })
            && offset == off && message@ == "invalid utf-8"@,
    }
}

impl<'a> Lexer<'a> {
    /// The source bytes.
    pub closed spec fn bytes(&self) -> Seq<u8> {
        self.input@
    }

    /// The current byte position.
    pub closed spec fn pos(&self) -> int {
        self.pos as int
    }

    /// The position never passes the end of the text.
    #[verifier::type_invariant]
    closed spec fn within(&self) -> bool {
        self.pos <= self.input@.len()
    }

    pub fn new(input: &'a str) -> (r: Self)
        ensures
            r.bytes() == input.spec_bytes(),
            r.pos() == 0,
            r.pos() <= r.bytes().len(),
    {
        Lexer { input: input.as_bytes(), pos: 0 }
    }

    /// The current byte position, which never passes the end of the text.
    pub fn position(&self) -> (r: usize)
        ensures
            r == self.pos(),
            r <= self.bytes().len(),
    {
        proof {
            use_type_invariant(self);
        }
        self.pos
    }

    /// The byte at the current position, if any.
    pub fn peek_byte(&self) -> (r: Option<u8>)
        ensures
            r == (if 0 <= self.pos() < self.bytes().len() {
                Some(self.bytes()[self.pos()])
            } else {
                None
            }),
    {
        if self.pos < self.input.len() {
            Some(self.input[self.pos])
        } else {
            None
        }
    }

    /// Consume the byte at the current position, if any.
    fn bump(&mut self) -> (r: Option<u8>)
        ensures
            final(self).bytes() == old(self).bytes(),
            r == (if 0 <= old(self).pos() < old(self).bytes().len() {
                Some(old(self).bytes()[old(self).pos()])
            } else {
                None
            }),
            final(self).pos() == (if r is Some {
                old(self).pos() + 1
            } else {
                old(self).pos()
            }),
    {
        if self.pos < self.input.len() {
            let b = self.input[self.pos];
            self.pos = self.pos + 1;
            Some(b)
        } else {
            None
        }
    }

    /// Skip whitespace and `;` line comments.
    pub fn skip_ws_and_comments(&mut self)
        ensures
            final(self).bytes() == old(self).bytes(),
            final(self).pos() == skip_spec(old(self).bytes(), old(self).pos()),
    {
        let ghost b = self.input@;
        let ghost start = self.pos as int;
        loop
            invariant
                self.input@ == b,
                b == old(self).bytes(),
                start == old(self).pos(),
                skip_spec(b, start) == skip_spec(b, self.pos as int),
            ensures
                self.input@ == b,
                skip_spec(b, start) == self.pos as int,
            decreases b.len() + 1 - self.pos,
        {
            let n = self.input.len();
            if self.pos >= n {
                break;
            }
            let c = self.input[self.pos];
            if c == 32u8 || c == 9u8 || c == 13u8 || c == 10u8 {
                self.pos = self.pos + 1;
            } else if c == 59u8 {
                proof {
                    lemma_first_byte_bounds(b, 10u8, self.pos + 1);
                }
                match find_byte(self.input, self.pos + 1, 10u8) {
                    Some(nl) => {
                        self.pos = nl + 1;
                    },
                    None => {
                        self.pos = n;
                        break;
                    },
                }
            } else {
                break;
            }
        }
    }

    /// Lex a quoted string; the current byte is its opening quote.
    fn read_string(&mut self) -> (r: Result<LexToken, FormatError>)
        requires
            0 <= old(self).pos() < old(self).bytes().len(),
            old(self).bytes()[old(self).pos()] == 34u8,
        ensures
            final(self).bytes() == old(self).bytes(),
            match str_body(old(self).bytes(), old(self).pos() + 1) {
                Some((s, e)) => r matches Ok(LexToken::Str(t)) && t@ == s && final(self).pos() == e,
                None => r matches Err(FormatError::UnclosedString(o)) && o == old(self).pos()
                    && final(self).pos() == old(self).bytes().len(),
            },
    {
        let ghost b = self.input@;
        let start = self.pos;
        let n = self.input.len();
        let mut i = start + 1;
        let mut out: Vec<u8> = Vec::new();
        let ghost mut written: Seq<char> = seq![];
        loop
            invariant
                self.input@ == b,
                b == old(self).bytes(),
                start == old(self).pos(),
                n == b.len(),
                self.pos == start,
                start < i <= n + 1,
                out@ == encode_utf8(written),
                str_body(b, start + 1) == (match str_body(b, i as int) {
                    Some((s, e)) => Some((written + s, e)),
                    None => None,
                }),
            decreases n + 2 - i,
        {
            if i >= n {
                self.pos = n;
                return Err(FormatError::UnclosedString(start));
            }
            let c = self.input[i];
            if c == 34u8 {
                self.pos = i + 1;
                proof {
                    assert(written + seq![] =~= written);
                }
                return Ok(LexToken::Str(string_of_encoding(&out, Ghost(written))));
            } else if c == 92u8 {
                if i + 1 >= n {
                    self.pos = n;
                    return Err(FormatError::UnclosedString(start));
                }
                let e = self.input[i + 1];
                let ch: u8 = if e == 110u8 {
                    10u8
                } else if e == 114u8 {
                    13u8
                } else if e == 116u8 {
                    9u8
                } else {
                    e
                };
                push_byte_char(&mut out, ch);
                proof {
                    lemma_encode_utf8_concat(written, seq![byte_char(ch)]);
                    match str_body(b, i + 2) {
                        Some((s, e2)) => {
                            assert(written + (seq![byte_char(ch)] + s) =~= (written + seq![
                                byte_char(ch),
                            ]) + s);
                        },
                        None => {},
                    }
                    written = written + seq![byte_char(ch)];
                }
                i = i + 2;
            } else {
                push_byte_char(&mut out, c);
                proof {
                    lemma_encode_utf8_concat(written, seq![byte_char(c)]);
                    match str_body(b, i + 1) {
                        Some((s, e2)) => {
                            assert(written + (seq![byte_char(c)] + s) =~= (written + seq![
                                byte_char(c),
                            ]) + s);
                        },
                        None => {},
                    }
                    written = written + seq![byte_char(c)];
                }
                i = i + 1;
            }
        }
    }

    /// Advance over ASCII digits.
    fn skip_digits(&mut self)
        requires
            old(self).pos() <= old(self).bytes().len(),
        ensures
            final(self).bytes() == old(self).bytes(),
            final(self).pos() == digits_end(old(self).bytes(), old(self).pos()),
            old(self).pos() <= final(self).pos() <= old(self).bytes().len(),
            forall|j: int|
                old(self).pos() <= j < final(self).pos() ==> is_digit(#[trigger] old(self).bytes()[j]),
    {
        let ghost b = self.input@;
        let ghost start = self.pos as int;
        while self.pos < self.input.len() && 48u8 <= self.input[self.pos] && self.input[self.pos] <= 57u8
            invariant
                self.input@ == b,
                start <= self.pos <= b.len(),
                digits_end(b, start) == digits_end(b, self.pos as int),
                forall|j: int| start <= j < self.pos ==> is_digit(#[trigger] b[j]),
            decreases b.len() - self.pos,
        {
            self.pos = self.pos + 1;
        }
    }

    /// Lex a numeral; a number starts at the current position.
    fn read_number(&mut self) -> (r: Result<LexToken, FormatError>)
        requires
            number_starts(old(self).bytes(), old(self).pos()),
        ensures
            final(self).bytes() == old(self).bytes(),
            ({
                let b = old(self).bytes();
                let p = old(self).pos();
                if fraction_missing(b, p) {
                    r matches Err(FormatError::InvalidNumber { offset, text }) && offset == p
                        && text@ == "expected fractional digits"@ && final(self).pos() == mantissa_end(b, p)
                } else {
                    let t = b.subrange(p, number_end(b, p));
                    &&& final(self).pos() == number_end(b, p)
                    &&& if number_is_float(b, p) {
                        r matches Ok(LexToken::Float(s)) && s@ == ascii_chars(t)
                    } else {
                        match parse_i64_spec(t) {
                            Some(v) => r matches Ok(LexToken::Integer(w)) && w == v,
                            None => r matches Err(FormatError::InvalidNumber { offset, text })
                                && offset == p && text@ == ascii_chars(t),
                        }
                    }
                }
            }),
    {
        let ghost b = self.input@;
        let start = self.pos;
        let n = self.input.len();
        if self.input[self.pos] == 45u8 || self.input[self.pos] == 43u8 {
            self.pos = self.pos + 1;
        }
        self.skip_digits();
        let d = self.pos;
        assert(d == int_part_end(b, start as int));
        let mut is_float = false;
        if self.pos < n && self.input[self.pos] == 46u8 {
            is_float = true;
            self.pos = self.pos + 1;
            let frac_start = self.pos;
            self.skip_digits();
            if frac_start == self.pos {
                proof {
                    reveal_strlit("expected fractional digits");
                }
                return Err(
                    FormatError::InvalidNumber {
                        offset: start,
                        text: "expected fractional digits".to_owned(),
                    },
                );
            }
        }
        let m = self.pos;
        assert(m == mantissa_end(b, start as int));
        assert(forall|j: int| start <= j < m ==> #[trigger] b[j] < 128) by {
            assert forall|j: int| start <= j < m implies #[trigger] b[j] < 128 by {
                if j < d {
                    if j > start || !is_sign(b[j]) {
                    }
                }
            }
        }
        let mut exp_numeric = false;
        if m < n && (self.input[m] == 101u8 || self.input[m] == 69u8) {
            let mut la = m + 1;
            if la < n && (self.input[la] == 45u8 || self.input[la] == 43u8) {
                la = la + 1;
            }
            if la < n && 48u8 <= self.input[la] && self.input[la] <= 57u8 {
                exp_numeric = true;
                assert(exponent_digits(b, m as int) == Some(la as int));
                self.pos = la;
                self.skip_digits();
            }
        }
        if exp_numeric {
            is_float = true;
        }
        let end = self.pos;
        assert(end == number_end(b, start as int));
        assert(is_float == number_is_float(b, start as int));
        let ghost t = b.subrange(start as int, end as int);
        assert(is_ascii_bytes(t)) by {
            assert forall|j: int| 0 <= j < t.len() implies t[j] < 128 by {
                assert(t[j] == b[start + j]);
            }
        }
        proof {
            lemma_ascii_decode(t);
        }
        let text = vstd::slice::slice_subrange(self.input, start, end);
        if is_float {
            Ok(LexToken::Float(utf8_string(text)))
        } else {
            match parse_i64(text) {
                Some(v) => Ok(LexToken::Integer(v)),
                None => Err(FormatError::InvalidNumber { offset: start, text: utf8_string(text) }),
            }
        }
    }

    /// Lex a bare symbol; the current byte starts one.
    fn read_symbol(&mut self) -> (r: Result<LexToken, FormatError>)
        requires
            0 <= old(self).pos() < old(self).bytes().len(),
        ensures
            final(self).bytes() == old(self).bytes(),
            ({
                let b = old(self).bytes();
                let p = old(self).pos();
                let t = b.subrange(p, symbol_end(b, p));
                if valid_utf8(t) {
                    r matches Ok(LexToken::Symbol(s)) && s@ == decode_utf8(t) && final(self).pos()
                        == symbol_end(b, p)
                } else {
                    r matches Err(FormatError::UnexpectedToken { offset, message }) && offset == p
                        && message@ == "invalid utf-8"@ && final(self).pos() == symbol_end(b, p)
                }
            }),
    {
        let ghost b = self.input@;
        let start = self.pos;
        while self.pos < self.input.len()
            invariant
                self.input@ == b,
                b == old(self).bytes(),
                start == old(self).pos(),
                start <= self.pos <= b.len(),
                symbol_end(b, start as int) == symbol_end(b, self.pos as int),
            ensures
                self.input@ == b,
                start <= self.pos <= b.len(),
                symbol_end(b, start as int) == self.pos as int,
            decreases b.len() - self.pos,
        {
            let c = self.input[self.pos];
            if c == 40u8 || c == 41u8 || c == 34u8 || c == 32u8 || c == 9u8 || c == 13u8 || c == 10u8
                || c == 59u8 {
                break;
            }
            self.pos = self.pos + 1;
        }
        let text = vstd::slice::slice_subrange(self.input, start, self.pos);
        if is_valid_utf8(text) {
            Ok(LexToken::Symbol(utf8_string(text)))
        } else {
            Err(FormatError::UnexpectedToken { offset: start, message: "invalid utf-8".to_owned() })
        }
    }

    /// The next token, or `None` at the end of the input.
    ///
    /// Whitespace and `;` comments are skipped first; the lexer is then left
    /// after the token, returned or rejected (see [`lex_end`]), never past
    /// the end of the text.
    pub fn next_token(&mut self) -> (r: Result<Option<LexToken>, FormatError>)
        ensures
            final(self).bytes() == old(self).bytes(),
            token_matches(r, lex_at(old(self).bytes(), skip_spec(old(self).bytes(), old(self).pos()))),
            final(self).pos() == lex_end(
                old(self).bytes(),
                skip_spec(old(self).bytes(), old(self).pos()),
            ),
            final(self).pos() <= final(self).bytes().len(),
            r matches Ok(None) ==> final(self).pos() == final(self).bytes().len(),
            r matches Ok(Some(_)) ==> old(self).pos() < final(self).pos(),
    {
        proof {
            use_type_invariant(&*self);
            lemma_lexer_progress(old(self).bytes(), old(self).pos());
        }
        self.skip_ws_and_comments();
        let n = self.input.len();
        if self.pos >= n {
            return Ok(None);
        }
        let c = self.input[self.pos];
        if c == 40u8 {
            let _ = self.bump();
            Ok(Some(LexToken::LParen))
        } else if c == 41u8 {
            let _ = self.bump();
            Ok(Some(LexToken::RParen))
        } else if c == 34u8 {
            match self.read_string() {
                Ok(t) => Ok(Some(t)),
                Err(e) => Err(e),
            }
        } else if (48u8 <= c && c <= 57u8) || ((c == 45u8 || c == 43u8) && self.pos + 1 < n && 48u8
            <= self.input[self.pos + 1] && self.input[self.pos + 1] <= 57u8) {
            match self.read_number() {
                Ok(t) => Ok(Some(t)),
                Err(e) => Err(e),
            }
        } else {
            match self.read_symbol() {
                Ok(t) => Ok(Some(t)),
                Err(e) => Err(e),
            }
        }
    }
}

/// Skipping whitespace and comments never moves back and stays in the text.
proof fn lemma_skip_bounds(b: Seq<u8>, p: int)
    requires
        0 <= p <= b.len(),
    ensures
        p <= skip_spec(b, p) <= b.len(),
        skip_spec(b, p) < b.len() ==> !lex_space(b[skip_spec(b, p)]) && b[skip_spec(b, p)] != 59u8,
    decreases b.len() - p,
{
    if p < b.len() {
        if lex_space(b[p]) {
            lemma_skip_bounds(b, p + 1);
        } else if b[p] == 59u8 {
            lemma_first_byte_bounds(b, 10u8, p + 1);
            match first_byte(b, 10u8, p + 1) {
                Some(nl) => {
                    lemma_skip_bounds(b, nl + 1);
                },
                None => {},
            }
        }
    }
}

/// A closed string ends after its body's start, inside the text.
proof fn lemma_str_body_bounds(b: Seq<u8>, i: int)
    requires
        0 <= i,
    ensures
        str_body(b, i) matches Some((_, e)) ==> i < e <= b.len(),
    decreases b.len() + 1 - i,
{
    if 0 <= i < b.len() && b[i] != 34u8 {
        if b[i] == 92u8 {
            lemma_str_body_bounds(b, i + 2);
        } else {
            lemma_str_body_bounds(b, i + 1);
        }
    }
}

/// Runs of digits and of symbol bytes end inside the text, not before they start.
proof fn lemma_run_bounds(b: Seq<u8>, i: int)
    requires
        0 <= i <= b.len(),
    ensures
        i <= digits_end(b, i) <= b.len(),
        i <= symbol_end(b, i) <= b.len(),
    decreases b.len() - i,
{
    if i < b.len() {
        lemma_run_bounds(b, i + 1);
    }
}

/// The lexer makes progress: from any position, skipping whitespace and
/// comments never moves back, and every token it returns ends strictly after
/// where it starts and inside the text. Lexing a text token by token
/// therefore ends.
pub proof fn lemma_lexer_progress(b: Seq<u8>, p: int)
    requires
        0 <= p <= b.len(),
    ensures
        p <= skip_spec(b, p) <= b.len(),
        ({
            let q = skip_spec(b, p);
            match lex_at(b, q) {
                LexOutcome::LParen | LexOutcome::RParen | LexOutcome::Str(_) | LexOutcome::Symbol(
                    _,
                ) | LexOutcome::Integer(_) | LexOutcome::Float(_) => q < lex_end(b, q) <= b.len(),
                _ => q <= lex_end(b, q) <= b.len(),
            }
        }),
{
    lemma_skip_bounds(b, p);
    let q = skip_spec(b, p);
    if q < b.len() {
        lemma_str_body_bounds(b, q + 1);
        lemma_run_bounds(b, q);
        lemma_run_bounds(b, q + 1);
        if number_starts(b, q) {
            let st = if is_sign(b[q]) { q + 1 } else { q };
            lemma_run_bounds(b, st);
            let d = int_part_end(b, q);
            assert(d > q);
            if d + 1 <= b.len() {
                lemma_run_bounds(b, d + 1);
            }
            let m = mantissa_end(b, q);
            match exponent_digits(b, m) {
                Some(la) => {
                    lemma_run_bounds(b, la);
                },
                None => {},
            }
        }
    }
}

/// A run of digits that reaches the end of the text ends there.
proof fn lemma_digits_to_end(b: Seq<u8>, i: int)
    requires
        0 <= i <= b.len(),
        forall|j: int| i <= j < b.len() ==> is_digit(#[trigger] b[j]),
    ensures
        digits_end(b, i) == b.len(),
    decreases b.len() - i,
{
    if i < b.len() {
        lemma_digits_to_end(b, i + 1);
    }
}

/// The decimal text of any `i64` lexes as that integer, and the lexer stops
/// at the end of the text.
pub proof fn lemma_integer_text_lexes(v: i64)
    ensures
        skip_spec(int_text(v as int), 0) == 0,
        lex_at(int_text(v as int), 0) == LexOutcome::Integer(v),
        lex_end(int_text(v as int), 0) == int_text(v as int).len(),
{
    let b = int_text(v as int);
    let mag: nat = (if v < 0 { -(v as int) } else { v as int }) as nat;
    let d = dec_digits(mag);
    lemma_dec_digits_value(mag);
    crate::text::lemma_dec_digits_ascii(mag);
    let st: int = if v < 0 { 1 } else { 0 };
    assert(b == if v < 0 { seq![45u8] + d } else { d });
    assert(b.subrange(st, b.len() as int) =~= d);
    assert forall|j: int| st <= j < b.len() implies is_digit(#[trigger] b[j]) by {
        assert(b[j] == d[j - st]);
    }
    assert(is_digit(b[st]));
    lemma_digits_to_end(b, st);
    assert(number_starts(b, 0));
    assert(int_part_end(b, 0) == b.len());
    assert(!has_fraction(b, 0));
    assert(mantissa_end(b, 0) == b.len());
    assert(exponent_digits(b, b.len() as int) is None);
    assert(number_end(b, 0) == b.len());
    assert(b.subrange(0, b.len() as int) =~= b);
    assert(sign_len(b) == st);
    assert(parse_i64_spec(b) == Some(v));
}


/// Space, tab, carriage return and line feed are skipped before a token:
/// skipping from such a byte goes on from the next one.
pub proof fn lemma_whitespace_is_skipped(b: Seq<u8>, p: int)
    requires
        0 <= p < b.len(),
        b[p] == 32u8 || b[p] == 9u8 || b[p] == 13u8 || b[p] == 10u8,
    ensures
        skip_spec(b, p) == skip_spec(b, p + 1),
{
}

/// A bare symbol never holds a parenthesis, quote, space, tab, carriage
/// return, line feed or `;`: it ends at the first of them.
pub proof fn lemma_symbol_stops_at_delimiters(b: Seq<u8>, p: int, i: int)
    requires
        0 <= p <= i < b.len(),
        i < symbol_end(b, p),
    ensures
        b[i] != 40u8 && b[i] != 41u8 && b[i] != 34u8 && b[i] != 32u8 && b[i] != 9u8 && b[i] != 13u8
            && b[i] != 10u8 && b[i] != 59u8,
    decreases i - p,
{
    if p < i {
        assert(!symbol_delim(b[p]));
        lemma_symbol_stops_at_delimiters(b, p + 1, i);
    } else {
        assert(!symbol_delim(b[p]));
    }
}

/// A symbol runs up to a parenthesis, quote, space, tab, carriage return,
/// line feed or `;` (or the end of the text), and no further.
pub proof fn lemma_symbol_ends_at_delimiter(b: Seq<u8>, p: int)
    requires
        0 <= p <= b.len(),
    ensures
        p <= symbol_end(b, p) <= b.len(),
        symbol_end(b, p) < b.len() ==> ({
            let c = b[symbol_end(b, p)];
            c == 40u8 || c == 41u8 || c == 34u8 || c == 32u8 || c == 9u8 || c == 13u8 || c == 10u8
                || c == 59u8
        }),
    decreases b.len() - p,
{
    if p < b.len() && !symbol_delim(b[p]) {
        lemma_symbol_ends_at_delimiter(b, p + 1);
    }
}

} // verus!
