//! Message texts built from literal pieces and decimal numbers.
use vstd::prelude::*;
use vstd::string::StringSliceAdditionalSpecFns;
use vstd::utf8::*;

use crate::text::{ascii_chars, int_text, lemma_ascii_encode, lemma_int_text_ascii, push_decimal, push_int};
use crate::utf8_bounds::{lemma_encode_utf8_concat, string_of_encoding};

verus! {

/// The `Display` text of an integer, as characters.
pub open spec fn num_text(v: int) -> Seq<char> {
    ascii_chars(int_text(v))
}

/// Append the UTF-8 bytes of `s` to the encoding of `done`.
pub fn push_piece(out: &mut Vec<u8>, s: &str, Ghost(done): Ghost<Seq<char>>)
    requires
        old(out)@ == encode_utf8(done),
    ensures
        final(out)@ == encode_utf8(done + s@),
{
    let b = s.as_bytes();
    let mut i: usize = 0;
    while i < b.len()
        invariant
            i <= b@.len(),
            b@ == s.spec_bytes(),
            out@ == encode_utf8(done) + b@.subrange(0, i as int),
        decreases b@.len() - i,
    {
        out.push(b[i]);
        i = i + 1;
        assert(out@ =~= encode_utf8(done) + b@.subrange(0, i as int));
    }
    proof {
        assert(b@.subrange(0, b@.len() as int) =~= b@);
        lemma_encode_utf8_concat(done, s@);
    }
}

/// Append the decimal text of a count to the encoding of `done`.
pub fn push_count(out: &mut Vec<u8>, n: usize, Ghost(done): Ghost<Seq<char>>)
    requires
        old(out)@ == encode_utf8(done),
    ensures
        final(out)@ == encode_utf8(done + num_text(n as int)),
{
    push_decimal(out, n as u64);
    proof {
        lemma_int_text_ascii(n as int);
        lemma_ascii_encode(int_text(n as int));
        lemma_encode_utf8_concat(done, num_text(n as int));
    }
}

/// Append the decimal text of a signed number to the encoding of `done`.
pub fn push_signed(out: &mut Vec<u8>, v: i64, Ghost(done): Ghost<Seq<char>>)
    requires
        old(out)@ == encode_utf8(done),
    ensures
        final(out)@ == encode_utf8(done + num_text(v as int)),
{
    push_int(out, v);
    proof {
        lemma_int_text_ascii(v as int);
        lemma_ascii_encode(int_text(v as int));
        lemma_encode_utf8_concat(done, num_text(v as int));
    }
}

/// The text whose encoding `out` holds.
pub fn finish_text(out: Vec<u8>, Ghost(done): Ghost<Seq<char>>) -> (r: String)
    requires
        out@ == encode_utf8(done),
    ensures
        r@ == done,
{
    string_of_encoding(&out, Ghost(done))
}

} // verus!
