//! Lookups in the tree of one cab view control: its `Type` tokens and its
//! named string fields.
use vstd::prelude::*;
use vstd::string::StringSliceAdditionalSpecFns;
use vstd::utf8::*;

use crate::ascii::lit_bytes;
use crate::error::FormatError;
use crate::parser::{views, SExpr, SExprV};
use crate::typed::cvf::{named_control_spec, upper_tokens, ControlType};
use crate::typed::fields::{name_is, opt_chars, symbol_is, text_atom};

verus! {

/// The characters of each string.
pub open spec fn strings_view(v: Seq<String>) -> Seq<Seq<char>> {
    Seq::new(v.len(), |i: int| v[i]@)
}

/// The string and symbol atoms of `e`, in order, nested lists flattened.
pub open spec fn tokens_of(e: SExprV) -> Seq<Seq<char>>
    decreases e, 0int,
{
    match e {
        SExprV::List(sub) => tokens_from(sub, 0),
        _ => match text_atom(e) {
            Some(s) => seq![s],
            None => seq![],
        },
    }
}

/// [`tokens_of`] over `items[i..]`, concatenated.
pub open spec fn tokens_from(items: Seq<SExprV>, i: int) -> Seq<Seq<char>>
    decreases items, items.len() - i,
{
    if i < 0 || i >= items.len() {
        seq![]
    } else {
        tokens_of(items[i]) + tokens_from(items, i + 1)
    }
}

/// `l` is a `(Type token …)` list, the tag matched ignoring ASCII case.
pub open spec fn is_type_list(l: Seq<SExprV>) -> bool {
    l.len() >= 2 && symbol_is(l[0], lit_bytes("Type"@))
}

/// The tokens of the first `(Type …)` list in `e`, `e` itself first, then
/// depth first.
pub open spec fn type_list_in(e: SExprV) -> Option<Seq<Seq<char>>>
    decreases e, 0int,
{
    match e {
        SExprV::List(l) => if is_type_list(l) {
            Some(tokens_from(l, 1))
        } else {
            type_list_from(l, 0)
        },
        _ => None,
    }
}

/// [`type_list_in`] of the first item of `items[i..]` that has one.
pub open spec fn type_list_from(items: Seq<SExprV>, i: int) -> Option<Seq<Seq<char>>>
    decreases items, items.len() - i,
{
    if i < 0 || i >= items.len() {
        None
    } else {
        match type_list_in(items[i]) {
            Some(t) => Some(t),
            None => type_list_from(items, i + 1),
        }
    }
}

/// The tokens after the first flat `Type` symbol of `items[i..]` that has
/// an item after it: all atoms of a following list, or the following atom.
pub open spec fn flat_type_from(items: Seq<SExprV>, i: int) -> Option<Seq<Seq<char>>>
    decreases items.len() - i,
{
    if i < 0 || i >= items.len() {
        None
    } else if symbol_is(items[i], lit_bytes("Type"@)) && i + 1 < items.len() {
        Some(tokens_of(items[i + 1]))
    } else {
        flat_type_from(items, i + 1)
    }
}

/// The `Type` tokens of a control's items: those of the first `(Type …)`
/// list (the items' own list first), else those after a flat `Type` symbol.
pub open spec fn type_tokens_spec(items: Seq<SExprV>) -> Option<Seq<Seq<char>>> {
    match type_list_in(SExprV::List(items)) {
        Some(t) => Some(t),
        None => flat_type_from(items, 0),
    }
}

/// `r` is the error for a missing field `key` in `context`.
pub open spec fn is_missing(r: FormatError, key: Seq<char>, context: Seq<char>) -> bool {
    r matches FormatError::MissingField { key: k, context: c } && k@ == key && c@ == context
}

fn push_tokens(e: &SExpr, out: &mut Vec<String>)
    ensures
        strings_view(final(out)@) == strings_view(old(out)@) + tokens_of(e.view_v()),
    decreases e,
{
    match e {
        SExpr::Symbol(s) => {
            out.push(s.clone());
            assert(strings_view(out@) =~= strings_view(old(out)@) + tokens_of(e.view_v()));
        },
        SExpr::Str(s) => {
            out.push(s.clone());
            assert(strings_view(out@) =~= strings_view(old(out)@) + tokens_of(e.view_v()));
        },
        SExpr::List(sub) => {
            let ghost vs = views(sub@);
            assert(e.view_v() is List);
            assert(vs =~= match e.view_v() {
                SExprV::List(v) => v,
                _ => seq![],
            });
            let mut i: usize = 0;
            assert(tokens_from(vs, 0) =~= tokens_from(vs, 0).subrange(0, 0) + tokens_from(vs, 0));
            while i < sub.len()
                invariant
                    i <= sub@.len(),
                    *e == SExpr::List(*sub),
                    vs == views(sub@),
                    tokens_of(e.view_v()) == tokens_from(vs, 0),
                    strings_view(out@) + tokens_from(vs, i as int) == strings_view(old(out)@)
                        + tokens_from(vs, 0),
                decreases sub@.len() - i,
            {
                proof {
                    assert(decreases_to!(*e => (*e)->List_0));
                    assert(decreases_to!(*sub => sub@));
                    assert(decreases_to!(sub@ => sub@[i as int]));
                }
                let ghost before = strings_view(out@);
                push_tokens(&sub[i], out);
                assert(vs[i as int] == sub@[i as int].view_v());
                assert(tokens_from(vs, i as int) == tokens_of(vs[i as int]) + tokens_from(
                    vs,
                    i + 1,
                ));
                assert(strings_view(out@) + tokens_from(vs, i + 1) =~= before + tokens_from(
                    vs,
                    i as int,
                ));
                i = i + 1;
            }
            assert(strings_view(out@) =~= strings_view(old(out)@) + tokens_from(vs, 0));
        },
        _ => {
            assert(strings_view(out@) =~= strings_view(old(out)@) + tokens_of(e.view_v()));
        },
    }
}

/// Every string and symbol atom of `items`, in order, nested lists flattened.
pub fn collect_type_token_strings(items: &[SExpr]) -> (r: Vec<String>)
    ensures
        strings_view(r@) == tokens_from(views(items@), 0),
{
    let ghost vs = views(items@);
    let mut out: Vec<String> = Vec::new();
    let mut i: usize = 0;
    assert(strings_view(out@) + tokens_from(vs, 0) =~= tokens_from(vs, 0));
    while i < items.len()
        invariant
            i <= items@.len(),
            vs == views(items@),
            strings_view(out@) + tokens_from(vs, i as int) == tokens_from(vs, 0),
        decreases items@.len() - i,
    {
        let ghost before = strings_view(out@);
        push_tokens(&items[i], &mut out);
        assert(vs[i as int] == items@[i as int].view_v());
        assert(tokens_from(vs, i as int) == tokens_of(vs[i as int]) + tokens_from(vs, i + 1));
        assert(strings_view(out@) + tokens_from(vs, i + 1) =~= before + tokens_from(vs, i as int));
        i = i + 1;
    }
    assert(strings_view(out@) =~= tokens_from(vs, 0));
    out
}

fn is_type_tag(e: &SExpr) -> (r: bool)
    ensures
        r == symbol_is(e.view_v(), lit_bytes("Type"@)),
{
    match e {
        SExpr::Symbol(h) => {
            proof {
                reveal_strlit("Type");
                vstd::string::is_ascii_spec_bytes("Type");
                assert("Type".spec_bytes() =~= lit_bytes("Type"@));
            }
            name_is(h.as_str(), "Type")
        },
        _ => false,
    }
}

fn type_list_items(items: &Vec<SExpr>) -> (r: Option<Vec<String>>)
    ensures
        match r {
            Some(t) => type_list_in(SExprV::List(views(items@))) == Some(strings_view(t@)),
            None => type_list_in(SExprV::List(views(items@))) is None,
        },
    decreases items@, 1int,
{
    let ghost vs = views(items@);
    if items.len() >= 2 {
        assert(vs[0] == items@[0].view_v());
        if is_type_tag(&items[0]) {
            let t = collect_type_token_strings(vstd::slice::slice_subrange(
                items.as_slice(),
                1,
                items.len(),
            ));
            proof {
                let rest = views(items@.subrange(1, items@.len() as int));
                assert(rest =~= vs.subrange(1, vs.len() as int));
                lemma_tokens_shift(vs, 1, 0);
            }
            return Some(t);
        }
    }
    let mut i: usize = 0;
    while i < items.len()
        invariant
            i <= items@.len(),
            vs == views(items@),
            !is_type_list(vs),
            type_list_in(SExprV::List(vs)) == type_list_from(vs, i as int),
        decreases items@.len() - i,
    {
        proof {
            assert(decreases_to!(items@ => items@[i as int]));
        }
        let r = type_list_expr(&items[i]);
        assert(vs[i as int] == items@[i as int].view_v());
        if r.is_some() {
            return r;
        }
        i = i + 1;
    }
    None
}

fn type_list_expr(e: &SExpr) -> (r: Option<Vec<String>>)
    ensures
        match r {
            Some(t) => type_list_in(e.view_v()) == Some(strings_view(t@)),
            None => type_list_in(e.view_v()) is None,
        },
    decreases e, 0int,
{
    match e {
        SExpr::List(sub) => {
            let ghost vs = views(sub@);
            assert(e.view_v() is List);
            assert(vs =~= match e.view_v() {
                SExprV::List(v) => v,
                _ => seq![],
            });
            proof {
                assert(decreases_to!(*e => (*e)->List_0));
                assert(decreases_to!(*sub => sub@));
            }
            type_list_items(sub)
        },
        _ => None,
    }
}

/// Dropping the first `k` items shifts where the tokens are read from.
proof fn lemma_tokens_shift(items: Seq<SExprV>, k: int, i: int)
    requires
        0 <= k <= items.len(),
        0 <= i,
    ensures
        tokens_from(items.subrange(k, items.len() as int), i) == tokens_from(items, k + i),
    decreases items.len() - k - i,
{
    let rest = items.subrange(k, items.len() as int);
    if i < rest.len() {
        lemma_tokens_shift(items, k, i + 1);
        assert(rest[i] == items[k + i]);
    }
}

/// The `Type` tokens of a cab control's items: all string and symbol atoms
/// after the tag of the first `(Type …)` list, the items' own list first and
/// then depth first, else those after a flat `Type` symbol; a control with
/// neither lacks the field.
pub fn find_type_tokens(items: &Vec<SExpr>) -> (r: Result<Vec<String>, FormatError>)
    ensures
        match type_tokens_spec(views(items@)) {
            Some(t) => r matches Ok(v) && strings_view(v@) == t,
            None => r matches Err(e) && is_missing(e, "Type"@, "CabControl"@),
        },
{
    let ghost vs = views(items@);
    if let Some(t) = type_list_items(items) {
        return Ok(t);
    }
    let mut i: usize = 0;
    while i < items.len()
        invariant
            i <= items@.len(),
            vs == views(items@),
            flat_type_from(vs, 0) == flat_type_from(vs, i as int),
            type_list_in(SExprV::List(vs)) is None,
        decreases items@.len() - i,
    {
        assert(vs[i as int] == items@[i as int].view_v());
        if is_type_tag(&items[i]) && i + 1 < items.len() {
            let mut out: Vec<String> = Vec::new();
            push_tokens(&items[i + 1], &mut out);
            assert(vs[i + 1] == items@[i + 1].view_v());
            assert(strings_view(out@) =~= tokens_of(vs[i + 1]));
            assert(flat_type_from(vs, i as int) == Some(tokens_of(vs[i + 1])));
            return Ok(out);
        }
        i = i + 1;
    }
    Err(FormatError::MissingField { key: "Type".to_string(), context: "CabControl".to_string() })
}

/// The control type named by a cab control's `Type` tokens.
pub fn parse_control_type(items: &Vec<SExpr>) -> (r: Result<ControlType, FormatError>)
    ensures
        match type_tokens_spec(views(items@)) {
            Some(t) => r matches Ok(c) && exists|v: Seq<String>|
                strings_view(v) == t && (match named_control_spec(upper_tokens(v)) {
                    Some(n) => c == n,
                    None => c matches ControlType::Generic(g) && (if t.len() > 0 {
                        g@ == t[0]
                    } else {
                        g@.len() == 0
                    }),
                }),
            None => r matches Err(e) && is_missing(e, "Type"@, "CabControl"@),
        },
{
    match find_type_tokens(items) {
        Ok(tokens) => {
            let c = ControlType::from_type_tokens(tokens.as_slice());
            assert(strings_view(tokens@) == type_tokens_spec(views(items@))->Some_0);
            Ok(c)
        },
        Err(e) => Err(e),
    }
}

/// The value a `(key value …)` list gives, the tag matched ignoring ASCII
/// case: its second item when that is a string or symbol, or the first item
/// of a list there when that is one.
pub open spec fn key_list_value(l: Seq<SExprV>, key: Seq<u8>) -> Option<Seq<char>> {
    if l.len() >= 2 && symbol_is(l[0], key) {
        match l[1] {
            SExprV::List(sub) => if sub.len() > 0 {
                text_atom(sub[0])
            } else {
                None
            },
            a => text_atom(a),
        }
    } else {
        None
    }
}

/// The value of the first `(key value …)` list in `e` that gives one, `e`
/// itself first, then depth first.
pub open spec fn key_value_in(e: SExprV, key: Seq<u8>) -> Option<Seq<char>>
    decreases e, 0int,
{
    match e {
        SExprV::List(l) => match key_list_value(l, key) {
            Some(s) => Some(s),
            None => key_value_from(l, key, 0),
        },
        _ => None,
    }
}

/// [`key_value_in`] of the first item of `items[i..]` that gives one.
pub open spec fn key_value_from(items: Seq<SExprV>, key: Seq<u8>, i: int) -> Option<Seq<char>>
    decreases items, items.len() - i,
{
    if i < 0 || i >= items.len() {
        None
    } else {
        match key_value_in(items[i], key) {
            Some(s) => Some(s),
            None => key_value_from(items, key, i + 1),
        }
    }
}

/// The value after the first flat `key` symbol of `items[i..]` followed by
/// an atom, or by a list that starts with an atom: that atom's text, if it
/// is a string or symbol.
pub open spec fn flat_key_from(items: Seq<SExprV>, key: Seq<u8>, i: int) -> Option<Seq<char>>
    decreases items.len() - i,
{
    if i < 0 || i >= items.len() {
        None
    } else if symbol_is(items[i], key) && i + 1 < items.len() && !(items[i + 1] is List) {
        text_atom(items[i + 1])
    } else if symbol_is(items[i], key) && i + 1 < items.len() && (match items[i + 1] {
        SExprV::List(sub) => sub.len() > 0 && !(sub[0] is List),
        _ => false,
    }) {
        text_atom(items[i + 1]->List_0[0])
    } else {
        flat_key_from(items, key, i + 1)
    }
}

/// The string value of field `key` among a control's items: from the first
/// `(key value)` list, the items' own list first and then depth first, else
/// after a flat `key` symbol.
pub open spec fn string_in_list_spec(items: Seq<SExprV>, key: Seq<u8>) -> Option<Seq<char>> {
    match key_value_in(SExprV::List(items), key) {
        Some(s) => Some(s),
        None => flat_key_from(items, key, 0),
    }
}

fn atom_text(e: &SExpr) -> (r: Option<String>)
    ensures
        opt_chars(r) == text_atom(e.view_v()),
{
    match e {
        SExpr::Symbol(s) => Some(s.clone()),
        SExpr::Str(s) => Some(s.clone()),
        _ => None,
    }
}

fn key_list_expr_value(l: &Vec<SExpr>, key: &str) -> (r: Option<String>)
    ensures
        opt_chars(r) == key_list_value(views(l@), key.spec_bytes()),
{
    let ghost vs = views(l@);
    if l.len() >= 2 {
        assert(vs[0] == l@[0].view_v());
        assert(vs[1] == l@[1].view_v());
        let head_ok = match &l[0] {
            SExpr::Symbol(h) => name_is(h.as_str(), key),
            _ => false,
        };
        if head_ok {
            match &l[1] {
                SExpr::List(sub) => {
                    let ghost ws = views(sub@);
                    assert(vs[1] is List);
                    assert(ws =~= vs[1]->List_0);
                    if sub.len() > 0 {
                        assert(ws[0] == sub@[0].view_v());
                        return atom_text(&sub[0]);
                    }
                    return None;
                },
                other => {
                    return atom_text(other);
                },
            }
        }
    }
    None
}

fn key_value_items(items: &Vec<SExpr>, key: &str) -> (r: Option<String>)
    ensures
        opt_chars(r) == key_value_in(SExprV::List(views(items@)), key.spec_bytes()),
    decreases items@, 1int,
{
    let ghost vs = views(items@);
    let own = key_list_expr_value(items, key);
    if own.is_some() {
        return own;
    }
    let mut i: usize = 0;
    while i < items.len()
        invariant
            i <= items@.len(),
            vs == views(items@),
            key_value_in(SExprV::List(vs), key.spec_bytes()) == key_value_from(
                vs,
                key.spec_bytes(),
                i as int,
            ),
        decreases items@.len() - i,
    {
        proof {
            assert(decreases_to!(items@ => items@[i as int]));
        }
        let r = key_value_expr(&items[i], key);
        assert(vs[i as int] == items@[i as int].view_v());
        if r.is_some() {
            return r;
        }
        i = i + 1;
    }
    None
}

fn key_value_expr(e: &SExpr, key: &str) -> (r: Option<String>)
    ensures
        opt_chars(r) == key_value_in(e.view_v(), key.spec_bytes()),
    decreases e, 0int,
{
    match e {
        SExpr::List(sub) => {
            let ghost vs = views(sub@);
            assert(e.view_v() is List);
            assert(vs =~= match e.view_v() {
                SExprV::List(v) => v,
                _ => seq![],
            });
            proof {
                assert(decreases_to!(*e => (*e)->List_0));
                assert(decreases_to!(*sub => sub@));
            }
            key_value_items(sub, key)
        },
        _ => None,
    }
}

/// The string value of field `key` among a cab control's items, the key
/// matched ignoring ASCII case: from the first `(key value)` list (the
/// items' own list first, then depth first) whose value is a string or
/// symbol, or the first atom of a list there; else after a flat `key` symbol.
pub fn find_string_in_list(items: &Vec<SExpr>, key: &str) -> (r: Option<String>)
    ensures
        opt_chars(r) == string_in_list_spec(views(items@), key.spec_bytes()),
{
    let ghost vs = views(items@);
    let found = key_value_items(items, key);
    if found.is_some() {
        return found;
    }
    let mut i: usize = 0;
    while i < items.len()
        invariant
            i <= items@.len(),
            vs == views(items@),
            flat_key_from(vs, key.spec_bytes(), 0) == flat_key_from(vs, key.spec_bytes(), i as int),
            key_value_in(SExprV::List(vs), key.spec_bytes()) is None,
        decreases items@.len() - i,
    {
        assert(vs[i as int] == items@[i as int].view_v());
        let tag = match &items[i] {
            SExpr::Symbol(h) => name_is(h.as_str(), key),
            _ => false,
        };
        if tag && i + 1 < items.len() {
            assert(vs[i + 1] == items@[i + 1].view_v());
            match &items[i + 1] {
                SExpr::List(sub) => {
                    let ghost ws = views(sub@);
                    assert(ws =~= vs[i + 1]->List_0);
                    if sub.len() > 0 {
                        assert(ws[0] == sub@[0].view_v());
                        match &sub[0] {
                            SExpr::List(_) => {},
                            first => {
                                return atom_text(first);
                            },
                        }
                    }
                },
                other => {
                    return atom_text(other);
                },
            }
        }
        i = i + 1;
    }
    None
}

/// `r` is the error for a non-string value of field `key`.
pub open spec fn is_not_string(r: FormatError, key: Seq<char>) -> bool {
    r matches FormatError::UnexpectedAtom { key: k, context: c, expected: x } && k@ == key && c@
        == "cvf"@ && x@ == "string"@
}

/// The string value of a `(key value)` entry: `None` when there is no atom
/// after the tag, an error naming `context` when that atom is a number.
pub fn parse_string_field(items: &Vec<SExpr>, context: &str) -> (r: Result<Option<String>, FormatError>)
    ensures
        items@.len() >= 2 && !(items@[1].view_v() is List) ==> match text_atom(items@[1].view_v()) {
            Some(s) => r matches Ok(Some(v)) && v@ == s,
            None => r matches Err(e) && is_not_string(e, context@),
        },
        !(items@.len() >= 2 && !(items@[1].view_v() is List)) ==> r matches Ok(None),
{
    if items.len() >= 2 {
        match &items[1] {
            SExpr::List(_) => {},
            other => {
                return match atom_text(other) {
                    Some(s) => Ok(Some(s)),
                    None => Err(
                        FormatError::UnexpectedAtom {
                            key: context.to_string(),
                            context: "cvf".to_string(),
                            expected: "string".to_string(),
                        },
                    ),
                };
            },
        }
    }
    Ok(None)
}

} // verus!
