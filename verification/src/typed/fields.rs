//! Field lookups in the S-expression tree, shared by the activity and route readers.
use vstd::prelude::*;
use vstd::string::StringSliceAdditionalSpecFns;
use vstd::utf8::*;

use crate::ascii::{ascii_lit_bytes, ends_with, ends_with_lit, lit_bytes, lower_seq, to_lower_vec};
use crate::parser::{views, SExpr, SExprV};
use crate::trim::{eq_ignore_case, matches_at_ignore_case};

verus! {

/// The text of a symbol or string atom.
pub open spec fn text_atom(e: SExprV) -> Option<Seq<char>> {
    match e {
        SExprV::Symbol(s) => Some(s),
        SExprV::Str(s) => Some(s),
        _ => None,
    }
}

/// The characters of an optional string.
pub open spec fn opt_chars(r: Option<String>) -> Option<Seq<char>> {
    match r {
        Some(s) => Some(s@),
        None => None,
    }
}

/// The UTF-8 bytes of each name.
pub open spec fn names_bytes(names: Seq<&str>) -> Seq<Seq<u8>> {
    Seq::new(names.len(), |k: int| names[k].spec_bytes())
}

/// `sym` equals one of `names`, ignoring ASCII case.
pub open spec fn names_match(sym: Seq<char>, names: Seq<Seq<u8>>) -> bool {
    exists|k: int| 0 <= k < names.len() && eq_ignore_case(encode_utf8(sym), #[trigger] names[k])
}

/// The first symbol or string atom in `e`, depth first.
pub open spec fn any_string(e: SExprV) -> Option<Seq<char>>
    decreases e, 0int,
{
    match e {
        SExprV::List(items) => any_string_from(items, 0),
        _ => text_atom(e),
    }
}

/// The first symbol or string atom in `items[i..]`, depth first.
pub open spec fn any_string_from(items: Seq<SExprV>, i: int) -> Option<Seq<char>>
    decreases items, items.len() - i,
{
    if i < 0 || i >= items.len() {
        None
    } else {
        match any_string(items[i]) {
            Some(s) => Some(s),
            None => any_string_from(items, i + 1),
        }
    }
}

/// The value of the first flat `Key value` pair in `items[i..]`: a symbol that
/// matches one of `names`, then an item that holds a string.
pub open spec fn flat_value_from(items: Seq<SExprV>, names: Seq<Seq<u8>>, i: int) -> Option<
    Seq<char>,
>
    decreases items.len() - i,
{
    if i < 0 || i + 1 >= items.len() {
        None
    } else {
        let here = match items[i] {
            SExprV::Symbol(sym) => if names_match(sym, names) {
                any_string(items[i + 1])
            } else {
                None
            },
            _ => None,
        };
        match here {
            Some(s) => Some(s),
            None => flat_value_from(items, names, i + 1),
        }
    }
}

/// `items` starts with a symbol that matches one of `names`.
pub open spec fn headed_by(items: Seq<SExprV>, names: Seq<Seq<u8>>) -> bool {
    items.len() > 0 && match items[0] {
        SExprV::Symbol(h) => names_match(h, names),
        _ => false,
    }
}

/// The first string value of a field named by one of `names` (ignoring ASCII
/// case), in `e` or below it: a list `(Name value)` headed by the name, or a
/// flat `Name value` pair of siblings; else the first child that has one.
pub open spec fn field_value(e: SExprV, names: Seq<Seq<u8>>) -> Option<Seq<char>>
    decreases e, 0int,
{
    match e {
        SExprV::List(items) => {
            let nested = if headed_by(items, names) {
                any_string_from(items, 1)
            } else {
                None
            };
            match nested {
                Some(s) => Some(s),
                None => match flat_value_from(items, names, 0) {
                    Some(s) => Some(s),
                    None => field_value_from(items, names, 0),
                },
            }
        },
        _ => None,
    }
}

/// [`field_value`] of the first item of `items[i..]` that has one.
pub open spec fn field_value_from(items: Seq<SExprV>, names: Seq<Seq<u8>>, i: int) -> Option<
    Seq<char>,
>
    decreases items, items.len() - i,
{
    if i < 0 || i >= items.len() {
        None
    } else {
        match field_value(items[i], names) {
            Some(s) => Some(s),
            None => field_value_from(items, names, i + 1),
        }
    }
}

/// `sym` names the given field, ignoring ASCII case.
fn name_in(sym: &str, names: &[&str]) -> (r: bool)
    ensures
        r == names_match(sym@, names_bytes(names@)),
{
    let b = sym.as_bytes();
    let ghost nb = names_bytes(names@);
    let mut k: usize = 0;
    while k < names.len()
        invariant
            k <= names@.len(),
            b@ == encode_utf8(sym@),
            nb == names_bytes(names@),
            forall|j: int| 0 <= j < k ==> !eq_ignore_case(b@, #[trigger] nb[j]),
        decreases names@.len() - k,
    {
        let n = names[k].as_bytes();
        assert(n@ == nb[k as int]);
        if n.len() == b.len() && matches_at_ignore_case(b, 0, n) {
            assert(b@.subrange(0, n@.len() as int) =~= b@);
            return true;
        }
        assert(b@.len() == n@.len() ==> b@.subrange(0, n@.len() as int) =~= b@);
        k = k + 1;
    }
    false
}

/// `e` is a symbol equal to `key`, ignoring ASCII case.
pub open spec fn symbol_is(e: SExprV, key: Seq<u8>) -> bool {
    match e {
        SExprV::Symbol(h) => eq_ignore_case(encode_utf8(h), key),
        _ => false,
    }
}

/// `sym` equals `key`, ignoring ASCII case.
pub fn name_is(sym: &str, key: &str) -> (r: bool)
    ensures
        r == eq_ignore_case(encode_utf8(sym@), key.spec_bytes()),
{
    let b = sym.as_bytes();
    let n = key.as_bytes();
    if n.len() == b.len() && matches_at_ignore_case(b, 0, n) {
        assert(b@.subrange(0, n@.len() as int) =~= b@);
        return true;
    }
    assert(b@.len() == n@.len() ==> b@.subrange(0, n@.len() as int) =~= b@);
    false
}

/// The first string or symbol atom in `e`, depth first.
pub fn extract_any_string(e: &SExpr) -> (r: Option<String>)
    ensures
        opt_chars(r) == any_string(e.view_v()),
    decreases e,
{
    match e {
        SExpr::Symbol(s) => Some(s.clone()),
        SExpr::Str(s) => Some(s.clone()),
        SExpr::List(items) => {
            let ghost vs = views(items@);
            assert(e.view_v() is List);
            assert(vs =~= match e.view_v() {
                SExprV::List(v) => v,
                _ => seq![],
            });
            assert(e.view_v() == SExprV::List(vs));
            let mut i: usize = 0;
            while i < items.len()
                invariant
                    i <= items@.len(),
                    *e == SExpr::List(*items),
                    vs == views(items@),
                    e.view_v() == SExprV::List(vs),
                    any_string(e.view_v()) == any_string_from(vs, i as int),
                decreases items@.len() - i,
            {
                proof {
                    assert(decreases_to!(*e => (*e)->List_0));
                    assert(decreases_to!(*items => items@));
                    assert(decreases_to!(items@ => items@[i as int]));
                }
                let r = extract_any_string(&items[i]);
                assert(vs[i as int] == items@[i as int].view_v());
                if r.is_some() {
                    return r;
                }
                i = i + 1;
            }
            None
        },
        _ => None,
    }
}

/// The first string or symbol after the key (`items[0]`) of a key-value list,
/// looking into nested lists.
pub fn string_after_first(items: &[SExpr]) -> (r: Option<String>)
    ensures
        opt_chars(r) == any_string_from(views(items@), 1),
{
    let ghost vs = views(items@);
    if items.len() == 0 {
        return None;
    }
    let mut i: usize = 1;
    while i < items.len()
        invariant
            1 <= i <= items@.len(),
            vs == views(items@),
            any_string_from(vs, 1) == any_string_from(vs, i as int),
        decreases items@.len() - i,
    {
        let r = extract_any_string(&items[i]);
        assert(vs[i as int] == items@[i as int].view_v());
        if r.is_some() {
            return r;
        }
        i = i + 1;
    }
    None
}

/// The value of the first flat `Key value` sibling pair whose key matches.
fn flat_value(items: &[SExpr], names: &[&str]) -> (r: Option<String>)
    ensures
        opt_chars(r) == flat_value_from(views(items@), names_bytes(names@), 0),
{
    let ghost vs = views(items@);
    let ghost nb = names_bytes(names@);
    let mut i: usize = 0;
    while items.len() > 0 && i < items.len() - 1
        invariant
            i <= items@.len(),
            vs == views(items@),
            nb == names_bytes(names@),
            flat_value_from(vs, nb, 0) == flat_value_from(vs, nb, i as int),
        decreases items@.len() - i,
    {
        assert(vs[i as int] == items@[i as int].view_v());
        assert(vs[i + 1] == items@[i + 1].view_v());
        if let SExpr::Symbol(sym) = &items[i] {
            if name_in(sym.as_str(), names) {
                let r = extract_any_string(&items[i + 1]);
                if r.is_some() {
                    return r;
                }
            }
        }
        i = i + 1;
    }
    None
}

/// The first string value of a field named by one of `names`, ignoring ASCII
/// case: a list `(Name "value")` headed by the name, or a flat `Name ( "value" )`
/// pair of siblings inside a list; else the first child that has one.
pub fn find_string_field(ast: &SExpr, names: &[&str]) -> (r: Option<String>)
    ensures
        opt_chars(r) == field_value(ast.view_v(), names_bytes(names@)),
    decreases ast,
{
    match ast {
        SExpr::List(items) => {
            let ghost vs = views(items@);
            let ghost nb = names_bytes(names@);
            assert(ast.view_v() is List);
            assert(vs =~= match ast.view_v() {
                SExprV::List(v) => v,
                _ => seq![],
            });
            assert(ast.view_v() == SExprV::List(vs));
            if items.len() > 0 {
                assert(vs[0] == items@[0].view_v());
                if let SExpr::Symbol(head) = &items[0] {
                    if name_in(head.as_str(), names) {
                        let s = string_after_first(items.as_slice());
                        if s.is_some() {
                            return s;
                        }
                    }
                }
            }
            let f = flat_value(items.as_slice(), names);
            if f.is_some() {
                return f;
            }
            let mut i: usize = 0;
            while i < items.len()
                invariant
                    i <= items@.len(),
                    *ast == SExpr::List(*items),
                    vs == views(items@),
                    nb == names_bytes(names@),
                    field_value(ast.view_v(), nb) == field_value_from(vs, nb, i as int),
                decreases items@.len() - i,
            {
                proof {
                    assert(decreases_to!(*ast => (*ast)->List_0));
                    assert(decreases_to!(*items => items@));
                    assert(decreases_to!(items@ => items@[i as int]));
                }
                let r = find_string_field(&items[i], names);
                assert(vs[i as int] == items@[i as int].view_v());
                if r.is_some() {
                    return r;
                }
                i = i + 1;
            }
            None
        },
        _ => None,
    }
}

/// The ASCII literal as a single-name list.
pub open spec fn one_name(c: Seq<char>) -> Seq<Seq<u8>> {
    seq![lit_bytes(c)]
}

/// `e` is a list headed by `Tr_Activity_Header`, ignoring ASCII case.
pub open spec fn is_header_list(e: SExprV) -> bool {
    match e {
        SExprV::List(sub) => headed_by(sub, one_name("Tr_Activity_Header"@)),
        _ => false,
    }
}

/// The `Name` field of the first `Tr_Activity_Header` list below `e`, depth
/// first; the first such header decides, whether it has a name or not.
pub open spec fn header_name(e: SExprV) -> Option<Seq<char>>
    decreases e, 0int,
{
    match e {
        SExprV::List(items) => header_name_from(items, 0),
        _ => None,
    }
}

/// [`header_name`] over `items[i..]`.
pub open spec fn header_name_from(items: Seq<SExprV>, i: int) -> Option<Seq<char>>
    decreases items, items.len() - i,
{
    if i < 0 || i >= items.len() {
        None
    } else if is_header_list(items[i]) {
        field_value(items[i], one_name("Name"@))
    } else {
        match header_name(items[i]) {
            Some(s) => Some(s),
            None => header_name_from(items, i + 1),
        }
    }
}

/// The tags of a service's consist field.
pub open spec fn consist_tags() -> Seq<Seq<u8>> {
    seq![lit_bytes("Train_Config"@), lit_bytes("Service_Train_Config"@)]
}

/// The consist named in `e` or below it: a list `(Train_Config name)` or
/// `(Service_Train_Config name)` whose second item is a string or symbol, else
/// the first such list among its items, depth first.
pub open spec fn consist_in(e: SExprV) -> Option<Seq<char>>
    decreases e, 0int,
{
    match e {
        SExprV::List(sub) => {
            let own = if headed_by(sub, consist_tags()) && sub.len() > 1 {
                text_atom(sub[1])
            } else {
                None
            };
            match own {
                Some(s) => Some(s),
                None => consist_from(sub, 0),
            }
        },
        _ => None,
    }
}

/// [`consist_in`] of the first item of `items[i..]` that names one.
pub open spec fn consist_from(items: Seq<SExprV>, i: int) -> Option<Seq<char>>
    decreases items, items.len() - i,
{
    if i < 0 || i >= items.len() {
        None
    } else {
        match consist_in(items[i]) {
            Some(s) => Some(s),
            None => consist_from(items, i + 1),
        }
    }
}

/// The string, lower-cased in ASCII, ends with `.pat`.
pub open spec fn is_pat_name(s: Seq<char>) -> bool {
    ends_with(lower_seq(encode_utf8(s)), lit_bytes(".pat"@))
}

/// The first string atom in `e` that names a `.pat` file, depth first.
pub open spec fn pat_in(e: SExprV) -> Option<Seq<char>>
    decreases e, 0int,
{
    match e {
        SExprV::Str(s) => if is_pat_name(s) {
            Some(s)
        } else {
            None
        },
        SExprV::List(sub) => pat_from(sub, 0),
        _ => None,
    }
}

/// [`pat_in`] of the first item of `items[i..]` that holds one.
pub open spec fn pat_from(items: Seq<SExprV>, i: int) -> Option<Seq<char>>
    decreases items, items.len() - i,
{
    if i < 0 || i >= items.len() {
        None
    } else {
        match pat_in(items[i]) {
            Some(s) => Some(s),
            None => pat_from(items, i + 1),
        }
    }
}

proof fn lemma_one_name(lit: &str, names: [&str; 1])
    requires
        is_ascii_chars(lit@),
        names@[0] == lit,
    ensures
        names_bytes(names@) == one_name(lit@),
{
    vstd::string::is_ascii_spec_bytes(lit);
    assert(lit.spec_bytes() =~= lit_bytes(lit@));
    assert(names_bytes(names@) =~= one_name(lit@));
}

fn is_header_expr(e: &SExpr) -> (r: bool)
    ensures
        r == is_header_list(e.view_v()),
{
    match e {
        SExpr::List(sub) => {
            let ghost vs = views(sub@);
            assert(e.view_v() is List);
            assert(vs =~= match e.view_v() {
                SExprV::List(v) => v,
                _ => seq![],
            });
            if sub.len() == 0 {
                return false;
            }
            assert(vs[0] == sub@[0].view_v());
            match &sub[0] {
                SExpr::Symbol(tag) => {
                    let names: [&str; 1] = ["Tr_Activity_Header"];
                    proof {
                        reveal_strlit("Tr_Activity_Header");
                        lemma_one_name("Tr_Activity_Header", names);
                    }
                    name_in(tag.as_str(), &names)
                },
                _ => false,
            }
        },
        _ => false,
    }
}

/// The `Name` field of the first `Tr_Activity_Header` list below `ast`, depth
/// first.
pub fn find_header_name(ast: &SExpr) -> (r: Option<String>)
    ensures
        opt_chars(r) == header_name(ast.view_v()),
    decreases ast,
{
    match ast {
        SExpr::List(items) => {
            let ghost vs = views(items@);
            assert(ast.view_v() is List);
            assert(vs =~= match ast.view_v() {
                SExprV::List(v) => v,
                _ => seq![],
            });
            let mut i: usize = 0;
            while i < items.len()
                invariant
                    i <= items@.len(),
                    *ast == SExpr::List(*items),
                    vs == views(items@),
                    header_name(ast.view_v()) == header_name_from(vs, i as int),
                decreases items@.len() - i,
            {
                proof {
                    assert(decreases_to!(*ast => (*ast)->List_0));
                    assert(decreases_to!(*items => items@));
                    assert(decreases_to!(items@ => items@[i as int]));
                }
                assert(vs[i as int] == items@[i as int].view_v());
                if is_header_expr(&items[i]) {
                    let names: [&str; 1] = ["Name"];
                    proof {
                        reveal_strlit("Name");
                        lemma_one_name("Name", names);
                    }
                    return find_string_field(&items[i], &names);
                }
                let r = find_header_name(&items[i]);
                if r.is_some() {
                    return r;
                }
                i = i + 1;
            }
            None
        },
        _ => None,
    }
}

fn consist_expr(e: &SExpr) -> (r: Option<String>)
    ensures
        opt_chars(r) == consist_in(e.view_v()),
    decreases e,
{
    match e {
        SExpr::List(sub) => {
            let ghost vs = views(sub@);
            assert(e.view_v() is List);
            assert(vs =~= match e.view_v() {
                SExprV::List(v) => v,
                _ => seq![],
            });
            if sub.len() > 1 {
                assert(vs[0] == sub@[0].view_v());
                assert(vs[1] == sub@[1].view_v());
                if let SExpr::Symbol(tag) = &sub[0] {
                    let names: [&str; 2] = ["Train_Config", "Service_Train_Config"];
                    proof {
                        reveal_strlit("Train_Config");
                        reveal_strlit("Service_Train_Config");
                        vstd::string::is_ascii_spec_bytes("Train_Config");
                        vstd::string::is_ascii_spec_bytes("Service_Train_Config");
                        assert("Train_Config".spec_bytes() =~= lit_bytes("Train_Config"@));
                        assert("Service_Train_Config".spec_bytes() =~= lit_bytes(
                            "Service_Train_Config"@,
                        ));
                        assert(names_bytes(names@) =~= consist_tags());
                    }
                    if name_in(tag.as_str(), &names) {
                        match &sub[1] {
                            SExpr::Symbol(s) => {
                                return Some(s.clone());
                            },
                            SExpr::Str(s) => {
                                return Some(s.clone());
                            },
                            _ => {},
                        }
                    }
                }
            }
            let mut i: usize = 0;
            while i < sub.len()
                invariant
                    i <= sub@.len(),
                    *e == SExpr::List(*sub),
                    vs == views(sub@),
                    consist_in(e.view_v()) == consist_from(vs, i as int),
                decreases sub@.len() - i,
            {
                proof {
                    assert(decreases_to!(*e => (*e)->List_0));
                    assert(decreases_to!(*sub => sub@));
                    assert(decreases_to!(sub@ => sub@[i as int]));
                }
                let r = consist_expr(&sub[i]);
                assert(vs[i as int] == sub@[i as int].view_v());
                if r.is_some() {
                    return r;
                }
                i = i + 1;
            }
            None
        },
        _ => None,
    }
}

/// The consist of a service body: the second item of the first list headed
/// by `Train_Config` or `Service_Train_Config` (ignoring ASCII case) that is a
/// string or symbol, depth first.
pub fn find_service_consist(items: &[SExpr]) -> (r: Option<String>)
    ensures
        opt_chars(r) == consist_from(views(items@), 0),
{
    let ghost vs = views(items@);
    let mut i: usize = 0;
    while i < items.len()
        invariant
            i <= items@.len(),
            vs == views(items@),
            consist_from(vs, 0) == consist_from(vs, i as int),
        decreases items@.len() - i,
    {
        let r = consist_expr(&items[i]);
        assert(vs[i as int] == items@[i as int].view_v());
        if r.is_some() {
            return r;
        }
        i = i + 1;
    }
    None
}

fn pat_expr(e: &SExpr) -> (r: Option<String>)
    ensures
        opt_chars(r) == pat_in(e.view_v()),
    decreases e,
{
    match e {
        SExpr::Str(s) => {
            let lower = to_lower_vec(s.as_str().as_bytes());
            proof {
                reveal_strlit(".pat");
            }
            if ends_with_lit(lower.as_slice(), ".pat") {
                Some(s.clone())
            } else {
                None
            }
        },
        SExpr::List(sub) => {
            let ghost vs = views(sub@);
            assert(e.view_v() is List);
            assert(vs =~= match e.view_v() {
                SExprV::List(v) => v,
                _ => seq![],
            });
            let mut i: usize = 0;
            while i < sub.len()
                invariant
                    i <= sub@.len(),
                    *e == SExpr::List(*sub),
                    vs == views(sub@),
                    pat_in(e.view_v()) == pat_from(vs, i as int),
                decreases sub@.len() - i,
            {
                proof {
                    assert(decreases_to!(*e => (*e)->List_0));
                    assert(decreases_to!(*sub => sub@));
                    assert(decreases_to!(sub@ => sub@[i as int]));
                }
                let r = pat_expr(&sub[i]);
                assert(vs[i as int] == sub@[i as int].view_v());
                if r.is_some() {
                    return r;
                }
                i = i + 1;
            }
            None
        },
        _ => None,
    }
}

/// The first string atom, depth first, that names a `.pat` file (ignoring
/// ASCII case).
pub fn find_pat_path(items: &[SExpr]) -> (r: Option<String>)
    ensures
        opt_chars(r) == pat_from(views(items@), 0),
{
    let ghost vs = views(items@);
    let mut i: usize = 0;
    while i < items.len()
        invariant
            i <= items@.len(),
            vs == views(items@),
            pat_from(vs, 0) == pat_from(vs, i as int),
        decreases items@.len() - i,
    {
        let r = pat_expr(&items[i]);
        assert(vs[i as int] == items@[i as int].view_v());
        if r.is_some() {
            return r;
        }
        i = i + 1;
    }
    None
}

} // verus!
