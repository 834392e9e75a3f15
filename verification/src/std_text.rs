//! Trusted text conversions from the standard library.
use vstd::prelude::*;
use vstd::utf8::*;

verus! {

/// UTF-16 decoding of code units: a unit outside the surrogate range
/// `D800..=DFFF` is one character; a high surrogate (`D800..=DBFF`) followed
/// by a low one (`DC00..=DFFF`) is the character
/// `0x10000 + (high - 0xD800) * 0x400 + (low - 0xDC00)`; any other surrogate
/// makes the units ill-formed (`None`).
pub open spec fn utf16_text(units: Seq<u16>) -> Option<Seq<char>>
    decreases units.len(),
{
    if units.len() == 0 {
        Some(seq![])
    } else {
        let u = units[0] as int;
        if u < 0xD800 || u > 0xDFFF {
            match utf16_text(units.drop_first()) {
                Some(rest) => Some(seq![(u as u32) as char] + rest),
                None => None,
            }
        } else if u <= 0xDBFF && units.len() >= 2 && 0xDC00 <= units[1] <= 0xDFFF {
            let c = 0x10000 + (u - 0xD800) * 0x400 + (units[1] - 0xDC00);
            match utf16_text(units.subrange(2, units.len() as int)) {
                Some(rest) => Some(seq![(c as u32) as char] + rest),
                None => None,
            }
        } else {
            None
        }
    }
}

/// Name for the text that `String::from_utf8_lossy` produces from `bytes`.
pub uninterp spec fn utf8_lossy_text(bytes: Seq<u8>) -> Seq<char>;

/// Calls `String::from_utf16`. Trusted: as its documentation says, the units
/// are decoded as UTF-16 ([`utf16_text`]), and ill-formed units give no string.
#[verifier::external_body]
pub fn string_from_utf16(units: &Vec<u16>) -> (res: Option<String>)
    ensures
        res is Some <==> utf16_text(units@) is Some,
        res matches Some(s) ==> Some(s@) == utf16_text(units@),
{
    String::from_utf16(units).ok()
}

/// Calls `String::from_utf8_lossy` (owned). Trusted: the result is the named
/// text `utf8_lossy_text(bytes)`, and, as its documentation says, a valid
/// UTF-8 input is decoded exactly.
#[verifier::external_body]
pub fn string_from_utf8_lossy(bytes: &[u8]) -> (res: String)
    ensures
        res@ == utf8_lossy_text(bytes@),
        valid_utf8(bytes@) ==> res@ == decode_utf8(bytes@),
{
    String::from_utf8_lossy(bytes).into_owned()
}

/// `std::str::from_utf8(bytes).is_ok()`. Trusted: true exactly when the
/// bytes are well-formed UTF-8 (vstd's `valid_utf8`).
#[verifier::external_body]
pub(crate) fn is_valid_utf8(bytes: &[u8]) -> (r: bool)
    ensures
        r == valid_utf8(bytes@),
{
    std::str::from_utf8(bytes).is_ok()
}

} // verus!
