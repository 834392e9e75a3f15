//! OR brake-shoe types (`ORTSBrakeShoeType`).
use vstd::prelude::*;
use vstd::string::StringSliceAdditionalSpecFns;

use crate::ascii::{contains_lit, lit_bytes, lower_seq, replace_all, replace_lit, to_lower_vec};
use crate::trim::contains_seq;

verus! {

/// Built-in OR brake shoe types (`ORTSBrakeShoeType`).
#[derive(Clone, Debug, PartialEq, Default)]
pub enum OrtsBrakeShoeType {
    #[default]
    CastIronP6,
    CastIronP10,
    HighFrictionComposite,
    DiscPads,
    /// Explicit `ORTSBrakeShoeFriction ( kph mu … )` curve.
    UserDefined,
}

/// Shoe type named by `s` (lower-cased, spaces read as `_`).
pub open spec fn shoe_type_spec(s: Seq<u8>) -> OrtsBrakeShoeType {
    let u = replace_all(lower_seq(s), lit_bytes(" "@), lit_bytes("_"@));
    if contains_seq(u, lit_bytes("high_friction"@)) || contains_seq(u, lit_bytes("composite"@)) || contains_seq(
        u,
        lit_bytes("hfc"@),
    ) {
        OrtsBrakeShoeType::HighFrictionComposite
    } else if contains_seq(u, lit_bytes("disc"@)) {
        OrtsBrakeShoeType::DiscPads
    } else if contains_seq(u, lit_bytes("p10"@)) {
        OrtsBrakeShoeType::CastIronP10
    } else if contains_seq(u, lit_bytes("user"@)) {
        OrtsBrakeShoeType::UserDefined
    } else {
        OrtsBrakeShoeType::CastIronP6
    }
}

pub fn parse_shoe_type_name(s: &str) -> (r: OrtsBrakeShoeType)
    ensures
        r == shoe_type_spec(s.spec_bytes()),
{
    proof {
        reveal_strlit(" ");
        reveal_strlit("_");
        reveal_strlit("high_friction");
        reveal_strlit("composite");
        reveal_strlit("hfc");
        reveal_strlit("disc");
        reveal_strlit("p10");
        reveal_strlit("user");
    }
    let lower = to_lower_vec(s.as_bytes());
    let uv = replace_lit(lower.as_slice(), " ", "_");
    let u = uv.as_slice();
    if contains_lit(u, "high_friction") || contains_lit(u, "composite") || contains_lit(u, "hfc") {
        OrtsBrakeShoeType::HighFrictionComposite
    } else if contains_lit(u, "disc") {
        OrtsBrakeShoeType::DiscPads
    } else if contains_lit(u, "p10") {
        OrtsBrakeShoeType::CastIronP10
    } else if contains_lit(u, "user") {
        OrtsBrakeShoeType::UserDefined
    } else {
        OrtsBrakeShoeType::CastIronP6
    }
}

} // verus!
