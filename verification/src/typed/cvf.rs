//! Cab view control types (`.cvf` `Type ( … )` tokens).
use vstd::prelude::*;
use vstd::string::StringSliceAdditionalSpecFns;
use vstd::utf8::encode_utf8;

use crate::ascii::{ascii_lit_bytes, bytes_eq, lit_bytes, to_upper_vec, upper_seq};

verus! {

/// Simulation variable driving a cab control (from `Type (...)` tokens).
#[derive(Clone, Debug, PartialEq, Eq, PartialOrd, Ord, Hash)]
pub enum ControlType {
    Throttle,
    TrainBrake,
    Ammeter,
    ThrottleDisplay,
    DirectionDisplay,
    DynamicBrakeDisplay,
    Speedometer,
    MainRes,
    BrakePipe,
    BrakeCyl,
    EqRes,
    LoadMeter,
    PenaltyApp,
    /// OR `ORTS_ETCS` screen / DMI.
    OrtsEtcs,
    Generic(String),
}

/// Upper-cased tokens joined with single spaces.
pub open spec fn joined_spec(ups: Seq<Seq<u8>>) -> Seq<u8>
    decreases ups.len(),
{
    if ups.len() == 0 {
        seq![]
    } else if ups.len() == 1 {
        ups[0]
    } else {
        joined_spec(ups.drop_last()) + seq![32u8] + ups.last()
    }
}

/// Control named by the whole (joined, upper-cased) `Type` text.
pub open spec fn whole_type_spec(j: Seq<u8>) -> Option<ControlType> {
    if j == lit_bytes("THROTTLE LEVER"@) || j == lit_bytes("THROTTLE"@) {
        Some(ControlType::Throttle)
    } else if j == lit_bytes("TRAIN BRAKE LEVER"@) || j == lit_bytes("TRAIN BRAKE"@) {
        Some(ControlType::TrainBrake)
    } else if j == lit_bytes("AMMETER"@) || j == lit_bytes("AMMETER ABS"@) {
        Some(ControlType::Ammeter)
    } else {
        None
    }
}

/// Control named by one upper-cased token.
pub open spec fn token_type_spec(u: Seq<u8>) -> Option<ControlType> {
    if u == lit_bytes("THROTTLE"@) {
        Some(ControlType::Throttle)
    } else if u == lit_bytes("TRAIN_BRAKE"@) || u == lit_bytes("TRAIN BRAKE"@) {
        Some(ControlType::TrainBrake)
    } else if u == lit_bytes("THROTTLE_DISPLAY"@) {
        Some(ControlType::ThrottleDisplay)
    } else if u == lit_bytes("DIRECTION_DISPLAY"@) {
        Some(ControlType::DirectionDisplay)
    } else if u == lit_bytes("DYNAMIC_BRAKE_DISPLAY"@) {
        Some(ControlType::DynamicBrakeDisplay)
    } else if u == lit_bytes("SPEEDOMETER"@) {
        Some(ControlType::Speedometer)
    } else if u == lit_bytes("MAIN_RES"@) {
        Some(ControlType::MainRes)
    } else if u == lit_bytes("BRAKE_PIPE"@) {
        Some(ControlType::BrakePipe)
    } else if u == lit_bytes("BRAKE_CYL"@) {
        Some(ControlType::BrakeCyl)
    } else if u == lit_bytes("EQ_RES"@) {
        Some(ControlType::EqRes)
    } else if u == lit_bytes("LOAD_METER"@) {
        Some(ControlType::LoadMeter)
    } else if u == lit_bytes("PENALTY_APP"@) {
        Some(ControlType::PenaltyApp)
    } else if u == lit_bytes("ORTS_ETCS"@) {
        Some(ControlType::OrtsEtcs)
    } else {
        None
    }
}

/// First token, from index `i` on, that names a control.
pub open spec fn first_token_type(ups: Seq<Seq<u8>>, i: int) -> Option<ControlType>
    decreases ups.len() - i,
{
    if i < 0 || i >= ups.len() {
        None
    } else {
        match token_type_spec(ups[i]) {
            Some(c) => Some(c),
            None => first_token_type(ups, i + 1),
        }
    }
}

/// Named control for the upper-cased tokens (`None`: a generic control).
pub open spec fn named_control_spec(ups: Seq<Seq<u8>>) -> Option<ControlType> {
    match whole_type_spec(joined_spec(ups)) {
        Some(c) => Some(c),
        None => first_token_type(ups, 0),
    }
}

/// Upper-cased UTF-8 bytes of each token.
pub open spec fn upper_tokens(tokens: Seq<String>) -> Seq<Seq<u8>> {
    tokens.map_values(|t: String| upper_seq(encode_utf8(t@)))
}

/// Text of each control type.
pub open spec fn control_type_text(c: ControlType) -> Seq<char> {
    match c {
        ControlType::Throttle => "THROTTLE"@,
        ControlType::TrainBrake => "TRAIN_BRAKE"@,
        ControlType::Ammeter => "AMMETER"@,
        ControlType::ThrottleDisplay => "THROTTLE_DISPLAY"@,
        ControlType::DirectionDisplay => "DIRECTION_DISPLAY"@,
        ControlType::DynamicBrakeDisplay => "DYNAMIC_BRAKE_DISPLAY"@,
        ControlType::Speedometer => "SPEEDOMETER"@,
        ControlType::MainRes => "MAIN_RES"@,
        ControlType::BrakePipe => "BRAKE_PIPE"@,
        ControlType::BrakeCyl => "BRAKE_CYL"@,
        ControlType::EqRes => "EQ_RES"@,
        ControlType::LoadMeter => "LOAD_METER"@,
        ControlType::PenaltyApp => "PENALTY_APP"@,
        ControlType::OrtsEtcs => "ORTS_ETCS"@,
        ControlType::Generic(s) => s@,
    }
}

fn upper_token(t: &String) -> (r: Vec<u8>)
    ensures
        r@ == upper_seq(encode_utf8(t@)),
{
    to_upper_vec(t.as_str().as_bytes())
}

fn lit_is(a: &[u8], lit: &str) -> (r: bool)
    requires
        vstd::utf8::is_ascii_chars(lit@),
    ensures
        r == (a@ == lit_bytes(lit@)),
{
    bytes_eq(a, ascii_lit_bytes(lit))
}

fn token_type(u: &[u8]) -> (r: Option<ControlType>)
    ensures
        r == token_type_spec(u@),
{
    proof {
        reveal_strlit("THROTTLE");
        reveal_strlit("TRAIN_BRAKE");
        reveal_strlit("TRAIN BRAKE");
        reveal_strlit("THROTTLE_DISPLAY");
        reveal_strlit("DIRECTION_DISPLAY");
        reveal_strlit("DYNAMIC_BRAKE_DISPLAY");
        reveal_strlit("SPEEDOMETER");
        reveal_strlit("MAIN_RES");
        reveal_strlit("BRAKE_PIPE");
        reveal_strlit("BRAKE_CYL");
        reveal_strlit("EQ_RES");
        reveal_strlit("LOAD_METER");
        reveal_strlit("PENALTY_APP");
        reveal_strlit("ORTS_ETCS");
    }
    if lit_is(u, "THROTTLE") {
        Some(ControlType::Throttle)
    } else if lit_is(u, "TRAIN_BRAKE") || lit_is(u, "TRAIN BRAKE") {
        Some(ControlType::TrainBrake)
    } else if lit_is(u, "THROTTLE_DISPLAY") {
        Some(ControlType::ThrottleDisplay)
    } else if lit_is(u, "DIRECTION_DISPLAY") {
        Some(ControlType::DirectionDisplay)
    } else if lit_is(u, "DYNAMIC_BRAKE_DISPLAY") {
        Some(ControlType::DynamicBrakeDisplay)
    } else if lit_is(u, "SPEEDOMETER") {
        Some(ControlType::Speedometer)
    } else if lit_is(u, "MAIN_RES") {
        Some(ControlType::MainRes)
    } else if lit_is(u, "BRAKE_PIPE") {
        Some(ControlType::BrakePipe)
    } else if lit_is(u, "BRAKE_CYL") {
        Some(ControlType::BrakeCyl)
    } else if lit_is(u, "EQ_RES") {
        Some(ControlType::EqRes)
    } else if lit_is(u, "LOAD_METER") {
        Some(ControlType::LoadMeter)
    } else if lit_is(u, "PENALTY_APP") {
        Some(ControlType::PenaltyApp)
    } else if lit_is(u, "ORTS_ETCS") {
        Some(ControlType::OrtsEtcs)
    } else {
        None
    }
}

impl ControlType {
    /// Control type from the `Type ( … )` tokens of a cab control.
    ///
    /// The whole upper-cased text names throttle, train brake and ammeter
    /// levers; otherwise the first token naming a known variable wins;
    /// otherwise the control is generic, named by its first token.
    pub fn from_type_tokens(tokens: &[String]) -> (r: Self)
        ensures
            match named_control_spec(upper_tokens(tokens@)) {
                Some(c) => r == c,
                None => r matches ControlType::Generic(g) && (if tokens@.len() > 0 {
                    g@ == tokens@[0]@
                } else {
                    g@.len() == 0
                }),
            },
    {
        let ghost ups = upper_tokens(tokens@);
        let mut joined: Vec<u8> = Vec::new();
        let mut i: usize = 0;
        while i < tokens.len()
            invariant
                i <= tokens@.len(),
                ups == upper_tokens(tokens@),
                joined@ == joined_spec(ups.subrange(0, i as int)),
            decreases tokens@.len() - i,
        {
            let u = upper_token(&tokens[i]);
            if i > 0 {
                joined.push(32u8);
            }
            let mut k: usize = 0;
            let ghost before = joined@;
            while k < u.len()
                invariant
                    k <= u@.len(),
                    joined@ == before + u@.subrange(0, k as int),
                decreases u@.len() - k,
            {
                joined.push(u[k]);
                k = k + 1;
                assert(joined@ =~= before + u@.subrange(0, k as int));
            }
            assert(u@.subrange(0, u@.len() as int) =~= u@);
            assert(ups[i as int] == u@);
            assert(ups.subrange(0, i + 1).drop_last() =~= ups.subrange(0, i as int));
            if i == 0 {
                assert(joined@ =~= joined_spec(ups.subrange(0, 1)));
            }
            i = i + 1;
        }
        assert(ups.subrange(0, tokens@.len() as int) =~= ups);
        proof {
            reveal_strlit("THROTTLE LEVER");
            reveal_strlit("THROTTLE");
            reveal_strlit("TRAIN BRAKE LEVER");
            reveal_strlit("TRAIN BRAKE");
            reveal_strlit("AMMETER");
            reveal_strlit("AMMETER ABS");
        }
        let j = joined.as_slice();
        if lit_is(j, "THROTTLE LEVER") || lit_is(j, "THROTTLE") {
            return ControlType::Throttle;
        }
        if lit_is(j, "TRAIN BRAKE LEVER") || lit_is(j, "TRAIN BRAKE") {
            return ControlType::TrainBrake;
        }
        if lit_is(j, "AMMETER") || lit_is(j, "AMMETER ABS") {
            return ControlType::Ammeter;
        }
        assert(whole_type_spec(joined_spec(ups)) is None);
        let mut i: usize = 0;
        while i < tokens.len()
            invariant
                i <= tokens@.len(),
                ups == upper_tokens(tokens@),
                ups.len() == tokens@.len(),
                whole_type_spec(joined_spec(ups)) is None,
                first_token_type(ups, i as int) == first_token_type(ups, 0),
            decreases tokens@.len() - i,
        {
            let u = upper_token(&tokens[i]);
            assert(ups[i as int] == u@);
            if let Some(c) = token_type(u.as_slice()) {
                return c;
            }
            i = i + 1;
        }
        if tokens.len() > 0 {
            ControlType::Generic(tokens[0].clone())
        } else {
            ControlType::Generic(String::new())
        }
    }

    /// Upper-case name of the control type (a generic control's own name).
    pub fn as_str(&self) -> (r: &str)
        ensures
            r@ == control_type_text(*self),
    {
        match self {
            ControlType::Throttle => "THROTTLE",
            ControlType::TrainBrake => "TRAIN_BRAKE",
            ControlType::Ammeter => "AMMETER",
            ControlType::ThrottleDisplay => "THROTTLE_DISPLAY",
            ControlType::DirectionDisplay => "DIRECTION_DISPLAY",
            ControlType::DynamicBrakeDisplay => "DYNAMIC_BRAKE_DISPLAY",
            ControlType::Speedometer => "SPEEDOMETER",
            ControlType::MainRes => "MAIN_RES",
            ControlType::BrakePipe => "BRAKE_PIPE",
            ControlType::BrakeCyl => "BRAKE_CYL",
            ControlType::EqRes => "EQ_RES",
            ControlType::LoadMeter => "LOAD_METER",
            ControlType::PenaltyApp => "PENALTY_APP",
            ControlType::OrtsEtcs => "ORTS_ETCS",
            ControlType::Generic(s) => s.as_str(),
        }
    }
}

/// An ASCII text without lower-case letters is its own upper-case form.
proof fn lemma_upper_literal(t: Seq<char>)
    requires
        vstd::utf8::is_ascii_chars(t),
        forall|i: int| 0 <= i < t.len() ==> !('a' <= #[trigger] t[i] <= 'z'),
    ensures
        upper_seq(encode_utf8(t)) == lit_bytes(t),
{
    vstd::utf8::is_ascii_chars_encode_utf8(t);
    assert forall|i: int| 0 <= i < t.len() implies #[trigger] upper_seq(encode_utf8(t))[i]
        == lit_bytes(t)[i] by {
        assert(encode_utf8(t)[i] == t[i] as u8);
    }
    assert(upper_seq(encode_utf8(t)) =~= lit_bytes(t));
}

/// The name of a named control type, given back as a single `Type` token in
/// any ASCII case (the token upper-cases to the name), reads as that control
/// type again.
pub proof fn lemma_control_name_roundtrip(c: ControlType, t: String)
    requires
        !(c is Generic),
        upper_seq(encode_utf8(t@)) == upper_seq(encode_utf8(control_type_text(c))),
    ensures
        named_control_spec(upper_tokens(seq![t])) == Some(c),
{
    reveal_strlit("THROTTLE");
    reveal_strlit("TRAIN_BRAKE");
    reveal_strlit("AMMETER");
    reveal_strlit("THROTTLE_DISPLAY");
    reveal_strlit("DIRECTION_DISPLAY");
    reveal_strlit("DYNAMIC_BRAKE_DISPLAY");
    reveal_strlit("SPEEDOMETER");
    reveal_strlit("MAIN_RES");
    reveal_strlit("BRAKE_PIPE");
    reveal_strlit("BRAKE_CYL");
    reveal_strlit("EQ_RES");
    reveal_strlit("LOAD_METER");
    reveal_strlit("PENALTY_APP");
    reveal_strlit("ORTS_ETCS");
    reveal_strlit("THROTTLE LEVER");
    reveal_strlit("TRAIN BRAKE LEVER");
    reveal_strlit("TRAIN BRAKE");
    reveal_strlit("AMMETER ABS");
    assert(lit_bytes("THROTTLE"@)[0] == 84u8);
    assert(lit_bytes("TRAIN_BRAKE"@)[0] == 84u8);
    assert(lit_bytes("AMMETER"@)[0] == 65u8);
    assert(lit_bytes("THROTTLE_DISPLAY"@)[0] == 84u8);
    assert(lit_bytes("DIRECTION_DISPLAY"@)[0] == 68u8);
    assert(lit_bytes("DYNAMIC_BRAKE_DISPLAY"@)[0] == 68u8);
    assert(lit_bytes("SPEEDOMETER"@)[0] == 83u8);
    assert(lit_bytes("MAIN_RES"@)[0] == 77u8);
    assert(lit_bytes("BRAKE_PIPE"@)[0] == 66u8);
    assert(lit_bytes("BRAKE_CYL"@)[0] == 66u8);
    assert(lit_bytes("EQ_RES"@)[0] == 69u8);
    assert(lit_bytes("LOAD_METER"@)[0] == 76u8);
    assert(lit_bytes("PENALTY_APP"@)[0] == 80u8);
    assert(lit_bytes("ORTS_ETCS"@)[0] == 79u8);
    assert(lit_bytes("THROTTLE LEVER"@)[0] == 84u8);
    assert(lit_bytes("TRAIN BRAKE LEVER"@)[0] == 84u8);
    assert(lit_bytes("TRAIN BRAKE"@)[0] == 84u8);
    assert(lit_bytes("AMMETER ABS"@)[0] == 65u8);
    assert(lit_bytes("TRAIN BRAKE"@)[5] == 32u8);
    assert(lit_bytes("TRAIN_BRAKE"@)[5] == 95u8);
    let text = control_type_text(c);
    lemma_upper_literal(text);
    let u = lit_bytes(text);
    assert(u[0] == text[0] as u8);
    assert(u.len() > 5 ==> u[5] == text[5] as u8);
    let ups = upper_tokens(seq![t]);
    assert(ups =~= seq![u]);
    assert(joined_spec(ups) == u);
    assert(first_token_type(ups, 1) is None);
}

/// A token that names no control type reads as a generic control named by
/// that token, and the generic control's name is the token again.
pub proof fn lemma_generic_name_roundtrip(t: String, g: String)
    requires
        named_control_spec(upper_tokens(seq![t])) is None,
        g@ == t@,
    ensures
        control_type_text(ControlType::Generic(g)) == t@,
{
}

/// A single upper-cased token that spells the name of a named control type
/// reads as that control type.
proof fn lemma_single_token_names(c: ControlType, u: Seq<u8>)
    requires
        !(c is Generic),
        u == lit_bytes(control_type_text(c)),
    ensures
        named_control_spec(seq![u]) == Some(c),
{
    reveal_strlit("THROTTLE");
    reveal_strlit("TRAIN_BRAKE");
    reveal_strlit("AMMETER");
    reveal_strlit("THROTTLE_DISPLAY");
    reveal_strlit("DIRECTION_DISPLAY");
    reveal_strlit("DYNAMIC_BRAKE_DISPLAY");
    reveal_strlit("SPEEDOMETER");
    reveal_strlit("MAIN_RES");
    reveal_strlit("BRAKE_PIPE");
    reveal_strlit("BRAKE_CYL");
    reveal_strlit("EQ_RES");
    reveal_strlit("LOAD_METER");
    reveal_strlit("PENALTY_APP");
    reveal_strlit("ORTS_ETCS");
    reveal_strlit("THROTTLE LEVER");
    reveal_strlit("TRAIN BRAKE LEVER");
    reveal_strlit("TRAIN BRAKE");
    reveal_strlit("AMMETER ABS");
    assert(lit_bytes("THROTTLE"@)[0] == 84u8);
    assert(lit_bytes("TRAIN_BRAKE"@)[0] == 84u8);
    assert(lit_bytes("AMMETER"@)[0] == 65u8);
    assert(lit_bytes("THROTTLE_DISPLAY"@)[0] == 84u8);
    assert(lit_bytes("DIRECTION_DISPLAY"@)[0] == 68u8);
    assert(lit_bytes("DYNAMIC_BRAKE_DISPLAY"@)[0] == 68u8);
    assert(lit_bytes("SPEEDOMETER"@)[0] == 83u8);
    assert(lit_bytes("MAIN_RES"@)[0] == 77u8);
    assert(lit_bytes("BRAKE_PIPE"@)[0] == 66u8);
    assert(lit_bytes("BRAKE_CYL"@)[0] == 66u8);
    assert(lit_bytes("EQ_RES"@)[0] == 69u8);
    assert(lit_bytes("LOAD_METER"@)[0] == 76u8);
    assert(lit_bytes("PENALTY_APP"@)[0] == 80u8);
    assert(lit_bytes("ORTS_ETCS"@)[0] == 79u8);
    assert(lit_bytes("THROTTLE LEVER"@)[0] == 84u8);
    assert(lit_bytes("TRAIN BRAKE LEVER"@)[0] == 84u8);
    assert(lit_bytes("TRAIN BRAKE"@)[0] == 84u8);
    assert(lit_bytes("AMMETER ABS"@)[0] == 65u8);
    assert(lit_bytes("TRAIN BRAKE"@)[5] == 32u8);
    assert(lit_bytes("TRAIN_BRAKE"@)[5] == 95u8);
    let text = control_type_text(c);
    assert(u[0] == text[0] as u8);
    assert(u.len() > 5 ==> u[5] == text[5] as u8);
    let ups = seq![u];
    assert(joined_spec(ups) == u);
    assert(first_token_type(ups, 1) is None);
}

/// Each named control type is read from its fixed keyword: a `Type` token
/// whose upper-case bytes are `THROTTLE`, `TRAIN_BRAKE`, `AMMETER`,
/// `THROTTLE_DISPLAY`, `DIRECTION_DISPLAY`, `DYNAMIC_BRAKE_DISPLAY`,
/// `SPEEDOMETER`, `MAIN_RES`, `BRAKE_PIPE`, `BRAKE_CYL`, `EQ_RES`,
/// `LOAD_METER`, `PENALTY_APP` or `ORTS_ETCS` names the matching control.
pub proof fn lemma_control_keywords(u: Seq<u8>)
    ensures
        u == lit_bytes("THROTTLE"@) ==> named_control_spec(seq![u]) == Some(ControlType::Throttle),
        u == lit_bytes("TRAIN_BRAKE"@) ==> named_control_spec(seq![u]) == Some(ControlType::TrainBrake),
        u == lit_bytes("AMMETER"@) ==> named_control_spec(seq![u]) == Some(ControlType::Ammeter),
        u == lit_bytes("THROTTLE_DISPLAY"@) ==> named_control_spec(seq![u]) == Some(ControlType::ThrottleDisplay),
        u == lit_bytes("DIRECTION_DISPLAY"@) ==> named_control_spec(seq![u]) == Some(ControlType::DirectionDisplay),
        u == lit_bytes("DYNAMIC_BRAKE_DISPLAY"@) ==> named_control_spec(seq![u]) == Some(ControlType::DynamicBrakeDisplay),
        u == lit_bytes("SPEEDOMETER"@) ==> named_control_spec(seq![u]) == Some(ControlType::Speedometer),
        u == lit_bytes("MAIN_RES"@) ==> named_control_spec(seq![u]) == Some(ControlType::MainRes),
        u == lit_bytes("BRAKE_PIPE"@) ==> named_control_spec(seq![u]) == Some(ControlType::BrakePipe),
        u == lit_bytes("BRAKE_CYL"@) ==> named_control_spec(seq![u]) == Some(ControlType::BrakeCyl),
        u == lit_bytes("EQ_RES"@) ==> named_control_spec(seq![u]) == Some(ControlType::EqRes),
        u == lit_bytes("LOAD_METER"@) ==> named_control_spec(seq![u]) == Some(ControlType::LoadMeter),
        u == lit_bytes("PENALTY_APP"@) ==> named_control_spec(seq![u]) == Some(ControlType::PenaltyApp),
        u == lit_bytes("ORTS_ETCS"@) ==> named_control_spec(seq![u]) == Some(ControlType::OrtsEtcs),
{
    if u == lit_bytes("THROTTLE"@) {
        reveal_strlit("THROTTLE");
        lemma_single_token_names(ControlType::Throttle, u);
    }
    if u == lit_bytes("TRAIN_BRAKE"@) {
        reveal_strlit("TRAIN_BRAKE");
        lemma_single_token_names(ControlType::TrainBrake, u);
    }
    if u == lit_bytes("AMMETER"@) {
        reveal_strlit("AMMETER");
        lemma_single_token_names(ControlType::Ammeter, u);
    }
    if u == lit_bytes("THROTTLE_DISPLAY"@) {
        reveal_strlit("THROTTLE_DISPLAY");
        lemma_single_token_names(ControlType::ThrottleDisplay, u);
    }
    if u == lit_bytes("DIRECTION_DISPLAY"@) {
        reveal_strlit("DIRECTION_DISPLAY");
        lemma_single_token_names(ControlType::DirectionDisplay, u);
    }
    if u == lit_bytes("DYNAMIC_BRAKE_DISPLAY"@) {
        reveal_strlit("DYNAMIC_BRAKE_DISPLAY");
        lemma_single_token_names(ControlType::DynamicBrakeDisplay, u);
    }
    if u == lit_bytes("SPEEDOMETER"@) {
        reveal_strlit("SPEEDOMETER");
        lemma_single_token_names(ControlType::Speedometer, u);
    }
    if u == lit_bytes("MAIN_RES"@) {
        reveal_strlit("MAIN_RES");
        lemma_single_token_names(ControlType::MainRes, u);
    }
    if u == lit_bytes("BRAKE_PIPE"@) {
        reveal_strlit("BRAKE_PIPE");
        lemma_single_token_names(ControlType::BrakePipe, u);
    }
    if u == lit_bytes("BRAKE_CYL"@) {
        reveal_strlit("BRAKE_CYL");
        lemma_single_token_names(ControlType::BrakeCyl, u);
    }
    if u == lit_bytes("EQ_RES"@) {
        reveal_strlit("EQ_RES");
        lemma_single_token_names(ControlType::EqRes, u);
    }
    if u == lit_bytes("LOAD_METER"@) {
        reveal_strlit("LOAD_METER");
        lemma_single_token_names(ControlType::LoadMeter, u);
    }
    if u == lit_bytes("PENALTY_APP"@) {
        reveal_strlit("PENALTY_APP");
        lemma_single_token_names(ControlType::PenaltyApp, u);
    }
    if u == lit_bytes("ORTS_ETCS"@) {
        reveal_strlit("ORTS_ETCS");
        lemma_single_token_names(ControlType::OrtsEtcs, u);
    }
}

/// The keywords are read in any ASCII case: a single `Type` token whose
/// upper-case form is a control keyword names that control.
pub proof fn lemma_control_keyword_tokens(t: String)
    ensures
        upper_seq(encode_utf8(t@)) == lit_bytes("THROTTLE"@) ==> named_control_spec(
            upper_tokens(seq![t]),
        ) == Some(ControlType::Throttle),
        upper_seq(encode_utf8(t@)) == lit_bytes("TRAIN_BRAKE"@) ==> named_control_spec(
            upper_tokens(seq![t]),
        ) == Some(ControlType::TrainBrake),
        upper_seq(encode_utf8(t@)) == lit_bytes("AMMETER"@) ==> named_control_spec(
            upper_tokens(seq![t]),
        ) == Some(ControlType::Ammeter),
        upper_seq(encode_utf8(t@)) == lit_bytes("THROTTLE_DISPLAY"@) ==> named_control_spec(
            upper_tokens(seq![t]),
        ) == Some(ControlType::ThrottleDisplay),
        upper_seq(encode_utf8(t@)) == lit_bytes("DIRECTION_DISPLAY"@) ==> named_control_spec(
            upper_tokens(seq![t]),
        ) == Some(ControlType::DirectionDisplay),
        upper_seq(encode_utf8(t@)) == lit_bytes("DYNAMIC_BRAKE_DISPLAY"@) ==> named_control_spec(
            upper_tokens(seq![t]),
        ) == Some(ControlType::DynamicBrakeDisplay),
        upper_seq(encode_utf8(t@)) == lit_bytes("SPEEDOMETER"@) ==> named_control_spec(
            upper_tokens(seq![t]),
        ) == Some(ControlType::Speedometer),
        upper_seq(encode_utf8(t@)) == lit_bytes("MAIN_RES"@) ==> named_control_spec(
            upper_tokens(seq![t]),
        ) == Some(ControlType::MainRes),
        upper_seq(encode_utf8(t@)) == lit_bytes("BRAKE_PIPE"@) ==> named_control_spec(
            upper_tokens(seq![t]),
        ) == Some(ControlType::BrakePipe),
        upper_seq(encode_utf8(t@)) == lit_bytes("BRAKE_CYL"@) ==> named_control_spec(
            upper_tokens(seq![t]),
        ) == Some(ControlType::BrakeCyl),
        upper_seq(encode_utf8(t@)) == lit_bytes("EQ_RES"@) ==> named_control_spec(
            upper_tokens(seq![t]),
        ) == Some(ControlType::EqRes),
        upper_seq(encode_utf8(t@)) == lit_bytes("LOAD_METER"@) ==> named_control_spec(
            upper_tokens(seq![t]),
        ) == Some(ControlType::LoadMeter),
        upper_seq(encode_utf8(t@)) == lit_bytes("PENALTY_APP"@) ==> named_control_spec(
            upper_tokens(seq![t]),
        ) == Some(ControlType::PenaltyApp),
        upper_seq(encode_utf8(t@)) == lit_bytes("ORTS_ETCS"@) ==> named_control_spec(
            upper_tokens(seq![t]),
        ) == Some(ControlType::OrtsEtcs),
{
    let u = upper_seq(encode_utf8(t@));
    assert(upper_tokens(seq![t]) =~= seq![u]);
    lemma_control_keywords(u);
}

} // verus!
