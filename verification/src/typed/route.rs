//! Route (`.trk`) text scanning.
use vstd::prelude::*;
use vstd::string::StringSliceAdditionalSpecFns;
use vstd::utf8::*;

use crate::typed::tsection::{includes_from, scan_includes};

verus! {

/// The files the `include ( … )` directives of a `.trk` text name, trimmed,
/// in order; they are scanned as in `tsection.dat` files.
pub fn scan_trk_includes(text: &str) -> (r: Vec<String>)
    ensures
        r@.len() == includes_from(text.spec_bytes(), 0).len(),
        forall|k: int|
            0 <= k < r@.len() ==> encode_utf8(#[trigger] r@[k]@) == includes_from(
                text.spec_bytes(),
                0,
            )[k],
{
    scan_includes(text)
}

} // verus!
