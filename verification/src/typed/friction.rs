//! Open Rails rolling-resistance metadata from `.wag` / `.eng` files.
use vstd::prelude::*;
use vstd::string::StringSliceAdditionalSpecFns;

use crate::ascii::{contains_lit, lit_bytes, lower_eq, lower_seq, replace_all, replace_lit, upper_seq, to_upper_vec};
use crate::trim::{contains_seq, trim_range, trim_spec};

verus! {

/// OR `ORTSBearingType` (see `MSTSWagon.BearingTypes`).
#[derive(Clone, Copy, Debug, Default, PartialEq, Eq)]
pub enum OrtsBearingType {
    #[default]
    Default,
    Grease,
    Friction,
    Roller,
    Low,
}

/// OR wagon/car category for Davis B estimation.
#[derive(Clone, Copy, Debug, Default, PartialEq, Eq)]
pub enum OrtsWagonType {
    #[default]
    Freight,
    Passenger,
    Engine,
    Tender,
}

/// Passenger stock is recognised by name (`MK2`, `COACH`, `TSO`, … in any case).
pub open spec fn passenger_name_spec(name: Seq<u8>) -> bool {
    let u = upper_seq(name);
    contains_seq(u, lit_bytes("MK2"@)) || contains_seq(u, lit_bytes("MKII"@)) || contains_seq(u, lit_bytes("COACH"@))
        || contains_seq(u, lit_bytes("TSO"@)) || contains_seq(u, lit_bytes("BSO"@)) || contains_seq(u, lit_bytes("FK"@))
        || contains_seq(u, lit_bytes("PCF"@)) || contains_seq(u, lit_bytes("PSG"@)) || contains_seq(
        u,
        lit_bytes("CARRIAGE"@),
    )
}

/// Passenger when the name looks like coaching stock, else freight.
pub fn infer_wagon_type_from_name(name: &str) -> (r: OrtsWagonType)
    ensures
        r == (if passenger_name_spec(name.spec_bytes()) { OrtsWagonType::Passenger } else { OrtsWagonType::Freight }),
{
    let upper = to_upper_vec(name.as_bytes());
    let u = upper.as_slice();
    proof {
        reveal_strlit("MK2");
        reveal_strlit("MKII");
        reveal_strlit("COACH");
        reveal_strlit("TSO");
        reveal_strlit("BSO");
        reveal_strlit("FK");
        reveal_strlit("PCF");
        reveal_strlit("PSG");
        reveal_strlit("CARRIAGE");
    }
    if contains_lit(u, "MK2") || contains_lit(u, "MKII") || contains_lit(u, "COACH") || contains_lit(u, "TSO")
        || contains_lit(u, "BSO") || contains_lit(u, "FK") || contains_lit(u, "PCF") || contains_lit(u, "PSG")
        || contains_lit(u, "CARRIAGE") {
        OrtsWagonType::Passenger
    } else {
        OrtsWagonType::Freight
    }
}

/// `ORTSBearingType` value: the trimmed text, ignoring case.
pub open spec fn bearing_type_spec(s: Seq<u8>) -> OrtsBearingType {
    let l = lower_seq(trim_spec(s));
    if l == lit_bytes("grease"@) {
        OrtsBearingType::Grease
    } else if l == lit_bytes("friction"@) {
        OrtsBearingType::Friction
    } else if l == lit_bytes("roller"@) {
        OrtsBearingType::Roller
    } else if l == lit_bytes("low"@) {
        OrtsBearingType::Low
    } else {
        OrtsBearingType::Default
    }
}

pub fn parse_bearing_type(s: &str) -> (r: OrtsBearingType)
    ensures
        r == bearing_type_spec(s.spec_bytes()),
{
    let b = s.as_bytes();
    let (st, en) = trim_range(b, 0, b.len());
    assert(b@.subrange(0, b@.len() as int) =~= b@);
    let t = vstd::slice::slice_subrange(b, st, en);
    proof {
        reveal_strlit("grease");
        reveal_strlit("friction");
        reveal_strlit("roller");
        reveal_strlit("low");
    }
    if lower_eq(t, "grease") {
        OrtsBearingType::Grease
    } else if lower_eq(t, "friction") {
        OrtsBearingType::Friction
    } else if lower_eq(t, "roller") {
        OrtsBearingType::Roller
    } else if lower_eq(t, "low") {
        OrtsBearingType::Low
    } else {
        OrtsBearingType::Default
    }
}

/// `ORTSWagonType` value: the trimmed text with `Carriage` read as
/// `Passenger`, ignoring case.
pub open spec fn wagon_type_spec(s: Seq<u8>) -> OrtsWagonType {
    let l = lower_seq(replace_all(trim_spec(s), lit_bytes("Carriage"@), lit_bytes("Passenger"@)));
    if l == lit_bytes("passenger"@) {
        OrtsWagonType::Passenger
    } else if l == lit_bytes("engine"@) || l == lit_bytes("locomotive"@) {
        OrtsWagonType::Engine
    } else if l == lit_bytes("tender"@) {
        OrtsWagonType::Tender
    } else {
        OrtsWagonType::Freight
    }
}

pub fn parse_wagon_type(s: &str) -> (r: OrtsWagonType)
    ensures
        r == wagon_type_spec(s.spec_bytes()),
{
    let b = s.as_bytes();
    let (st, en) = trim_range(b, 0, b.len());
    assert(b@.subrange(0, b@.len() as int) =~= b@);
    let t = vstd::slice::slice_subrange(b, st, en);
    proof {
        reveal_strlit("Carriage");
        reveal_strlit("Passenger");
        reveal_strlit("passenger");
        reveal_strlit("engine");
        reveal_strlit("locomotive");
        reveal_strlit("tender");
    }
    let normalized = replace_lit(t, "Carriage", "Passenger");
    let n = normalized.as_slice();
    if lower_eq(n, "passenger") {
        OrtsWagonType::Passenger
    } else if lower_eq(n, "engine") || lower_eq(n, "locomotive") {
        OrtsWagonType::Engine
    } else if lower_eq(n, "tender") {
        OrtsWagonType::Tender
    } else {
        OrtsWagonType::Freight
    }
}


/// The bearing type auto-friction uses: `Default` counts as `Friction`.
pub fn effective_bearing_type(bearing_type: OrtsBearingType) -> (r: OrtsBearingType)
    ensures
        r == (if bearing_type is Default {
            OrtsBearingType::Friction
        } else {
            bearing_type
        }),
{
    match bearing_type {
        OrtsBearingType::Default => OrtsBearingType::Friction,
        other => other,
    }
}

/// Axles of the car itself: `ORTSNumberAxles`, else a `NumWheels` hint
/// between 1 and 5, else none for a locomotive and four for other stock.
pub open spec fn wagon_axles_spec(num_axles: Option<u32>, num_wheels: Option<u32>, is_loco: bool) -> int {
    match num_axles {
        Some(a) => a as int,
        None => match num_wheels {
            Some(w) => if 0 < w < 6 {
                w as int
            } else if is_loco {
                0
            } else {
                4
            },
            None => if is_loco {
                0
            } else {
                4
            },
        },
    }
}

/// Total axles for the Davis A/B terms: a locomotive counts the larger of its
/// car axles and drive axles, plus its drive axles; other stock its car axles.
pub open spec fn total_axles_spec(
    num_axles: Option<u32>,
    num_drive_axles: Option<u32>,
    num_wheels: Option<u32>,
    is_loco: bool,
) -> int {
    let drive: int = match num_drive_axles {
        Some(d) => d as int,
        None => 0,
    };
    let wagon = wagon_axles_spec(num_axles, num_wheels, is_loco);
    if is_loco {
        (if wagon >= drive {
            wagon
        } else {
            drive
        }) + drive
    } else {
        wagon
    }
}

/// Total axles for the Davis A/B terms, from a car's `ORTSNumberAxles`,
/// `ORTSNumberDriveAxles` and `NumWheels`.
pub fn total_axles(
    num_axles: Option<u32>,
    num_drive_axles: Option<u32>,
    num_wheels: Option<u32>,
    is_loco: bool,
) -> (r: u32)
    requires
        total_axles_spec(num_axles, num_drive_axles, num_wheels, is_loco) <= u32::MAX,
    ensures
        r == total_axles_spec(num_axles, num_drive_axles, num_wheels, is_loco),
{
    let drive = match num_drive_axles {
        Some(d) => d,
        None => 0,
    };
    let wagon_axles = match num_axles {
        Some(a) => a,
        None => match num_wheels {
            Some(w) if w > 0 && w < 6 => w,
            _ => if is_loco {
                0
            } else {
                4
            },
        },
    };
    if is_loco {
        let base = if wagon_axles >= drive {
            wagon_axles
        } else {
            drive
        };
        base + drive
    } else {
        wagon_axles
    }
}

} // verus!
