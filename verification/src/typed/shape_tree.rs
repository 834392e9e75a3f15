//! Sections of a shape tree in both layouts: classic `( tag count ( child … ) )`
//! and JINX `tag ( count child … )`, where a tag symbol precedes its payload
//! list.
use vstd::prelude::*;
use vstd::string::StringSliceAdditionalSpecFns;
use vstd::utf8::*;

use crate::parser::{views, SExpr, SExprV};
use crate::trim::eq_ignore_case;
use crate::typed::fields::{name_is, opt_chars, symbol_is, text_atom};

verus! {

/// The forms of each list of expressions.
pub open spec fn sections_view(v: Seq<Vec<SExpr>>) -> Seq<Seq<SExprV>> {
    Seq::new(v.len(), |k: int| views(v[k]@))
}

/// A numeral (a count in front of a section's children).
pub open spec fn is_count(e: SExprV) -> bool {
    e is Integer || e is Float
}

/// The items of a section after its tag: the children after the count when
/// the second item is a list that starts with a count and has more, else
/// every item after the tag.
pub open spec fn section_body(items: Seq<SExprV>) -> Seq<SExprV> {
    if items.len() > 1 && items[1] is List && items[1]->List_0.len() > 1 && is_count(
        items[1]->List_0[0],
    ) {
        items[1]->List_0.subrange(1, items[1]->List_0.len() as int)
    } else {
        items.subrange(1, items.len() as int)
    }
}

/// The sections named `name` in `e`, in source order, a section before the
/// sections inside it: each list headed by the name (ignoring ASCII case),
/// and each name symbol followed by a list, given as the name then that
/// list's items.
pub open spec fn named_sections(e: SExprV, name: Seq<char>) -> Seq<Seq<SExprV>>
    decreases e, 0int,
{
    match e {
        SExprV::List(items) => sections_from(items, name, 0),
        _ => seq![],
    }
}

/// [`named_sections`] over `items[i..]`.
pub open spec fn sections_from(items: Seq<SExprV>, name: Seq<char>, i: int) -> Seq<Seq<SExprV>>
    decreases items, items.len() - i,
{
    if i < 0 || i >= items.len() {
        seq![]
    } else if items[i] is List && items[i]->List_0.len() > 0 && symbol_is(
        items[i]->List_0[0],
        encode_utf8(name),
    ) {
        seq![items[i]->List_0] + named_sections(items[i], name) + sections_from(items, name, i + 1)
    } else if symbol_is(items[i], encode_utf8(name)) {
        if i + 1 < items.len() && items[i + 1] is List {
            seq![seq![SExprV::Symbol(name)] + items[i + 1]->List_0] + named_sections(
                items[i + 1],
                name,
            ) + sections_from(items, name, i + 2)
        } else {
            sections_from(items, name, i + 1)
        }
    } else {
        named_sections(items[i], name) + sections_from(items, name, i + 1)
    }
}

/// A copy of the expression.
pub fn clone_expr(e: &SExpr) -> (r: SExpr)
    ensures
        r.view_v() == e.view_v(),
    decreases e,
{
    match e {
        SExpr::Symbol(s) => SExpr::Symbol(s.clone()),
        SExpr::Str(s) => SExpr::Str(s.clone()),
        SExpr::Integer(v) => SExpr::Integer(*v),
        SExpr::Float(s) => SExpr::Float(s.clone()),
        SExpr::List(items) => {
            let ghost vs = views(items@);
            assert(e.view_v() is List);
            assert(vs =~= match e.view_v() {
                SExprV::List(v) => v,
                _ => seq![],
            });
            let mut out: Vec<SExpr> = Vec::new();
            let mut i: usize = 0;
            while i < items.len()
                invariant
                    i <= items@.len(),
                    *e == SExpr::List(*items),
                    vs == views(items@),
                    views(out@) == vs.subrange(0, i as int),
                decreases items@.len() - i,
            {
                proof {
                    assert(decreases_to!(*e => (*e)->List_0));
                    assert(decreases_to!(*items => items@));
                    assert(decreases_to!(items@ => items@[i as int]));
                }
                let c = clone_expr(&items[i]);
                let ghost prev = out@;
                out.push(c);
                assert(vs[i as int] == items@[i as int].view_v());
                assert(views(out@) =~= views(prev).push(vs[i as int]));
                assert(views(out@) =~= vs.subrange(0, i + 1));
                i = i + 1;
            }
            let r = SExpr::List(out);
            assert(views(out@) =~= vs);
            assert(r.view_v() is List);
            assert(views(out@) =~= match r.view_v() {
                SExprV::List(v) => v,
                _ => seq![],
            });
            r
        },
    }
}

/// Copies of `items[from..]`.
pub fn clone_items(items: &[SExpr], from: usize) -> (r: Vec<SExpr>)
    requires
        from <= items@.len(),
    ensures
        views(r@) == views(items@).subrange(from as int, items@.len() as int),
{
    let ghost vs = views(items@);
    let mut out: Vec<SExpr> = Vec::new();
    let mut i: usize = from;
    while i < items.len()
        invariant
            from <= i <= items@.len(),
            vs == views(items@),
            views(out@) == vs.subrange(from as int, i as int),
        decreases items@.len() - i,
    {
        let c = clone_expr(&items[i]);
        let ghost prev = out@;
        out.push(c);
        assert(vs[i as int] == items@[i as int].view_v());
        assert(views(out@) =~= views(prev).push(vs[i as int]));
        assert(views(out@) =~= vs.subrange(from as int, i + 1));
        i = i + 1;
    }
    out
}

/// The items of a section after its tag (see [`section_body`]).
pub fn shape_section_body(items: &[SExpr]) -> (r: &[SExpr])
    requires
        items@.len() >= 1,
    ensures
        views(r@) == section_body(views(items@)),
{
    let ghost vs = views(items@);
    if items.len() > 1 {
        assert(vs[1] == items@[1].view_v());
        if let SExpr::List(inner) = &items[1] {
            let ghost ws = views(inner@);
            assert(ws =~= vs[1]->List_0);
            if inner.len() > 1 {
                assert(ws[0] == inner@[0].view_v());
                let counted = match &inner[0] {
                    SExpr::Integer(_) => true,
                    SExpr::Float(_) => true,
                    _ => false,
                };
                if counted {
                    let r = vstd::slice::slice_subrange(inner.as_slice(), 1, inner.len());
                    assert(views(r@) =~= section_body(vs));
                    return r;
                }
            }
        }
    }
    let r = vstd::slice::slice_subrange(items, 1, items.len());
    assert(views(r@) =~= section_body(vs));
    r
}

fn push_named_sections(e: &SExpr, name: &str, out: &mut Vec<Vec<SExpr>>)
    ensures
        sections_view(final(out)@) == sections_view(old(out)@) + named_sections(e.view_v(), name@),
        forall|k: int|
            0 <= k < final(out)@.len() ==> (k < old(out)@.len() ==> final(out)@[k] == old(out)@[k])
                && (k >= old(out)@.len() ==> (#[trigger] final(out)@[k])@.len() >= 1),
    decreases e,
{
    match e {
        SExpr::List(items) => {
            let ghost vs = views(items@);
            let ghost n = name@;
            assert(e.view_v() is List);
            assert(vs =~= match e.view_v() {
                SExprV::List(v) => v,
                _ => seq![],
            });
            let ghost start = sections_view(out@);
            let ghost old_out = out@;
            let mut i: usize = 0;
            assert(start + sections_from(vs, n, 0) =~= start + sections_from(vs, n, 0));
            assert(sections_view(out@) =~= start + sections_from(vs, n, 0).subrange(0, 0));
            while i < items.len()
                invariant
                    i <= items@.len(),
                    *e == SExpr::List(*items),
                    vs == views(items@),
                    n == name@,
                    named_sections(e.view_v(), n) == sections_from(vs, n, 0),
                    start == sections_view(old_out),
                    old_out.len() <= out@.len(),
                    sections_view(out@) + sections_from(vs, n, i as int) == start
                        + sections_from(vs, n, 0),
                    forall|k: int|
                        0 <= k < out@.len() ==> (k < old_out.len() ==> out@[k] == old_out[k]) && (k
                            >= old_out.len() ==> (#[trigger] out@[k])@.len() >= 1),
                decreases items@.len() - i,
            {
                proof {
                    assert(decreases_to!(*e => (*e)->List_0));
                    assert(decreases_to!(*items => items@));
                    assert(decreases_to!(items@ => items@[i as int]));
                }
                let ghost before = sections_view(out@);
                assert(vs[i as int] == items@[i as int].view_v());
                let headed = match &items[i] {
                    SExpr::List(sub) => {
                        let ghost ws = views(sub@);
                        assert(ws =~= vs[i as int]->List_0);
                        if sub.len() > 0 {
                            assert(ws[0] == sub@[0].view_v());
                            match &sub[0] {
                                SExpr::Symbol(h) => name_is(h.as_str(), name),
                                _ => false,
                            }
                        } else {
                            false
                        }
                    },
                    _ => false,
                };
                let tag = match &items[i] {
                    SExpr::Symbol(h) => name_is(h.as_str(), name),
                    _ => false,
                };
                if headed {
                    if let SExpr::List(sub) = &items[i] {
                        let ghost ws = views(sub@);
                        assert(ws =~= vs[i as int]->List_0);
                        let copy = clone_items(sub.as_slice(), 0);
                        assert(ws.subrange(0, ws.len() as int) =~= ws);
                        out.push(copy);
                        assert(sections_view(out@) =~= before + seq![ws]);
                        push_named_sections(&items[i], name, out);
                        assert(sections_from(vs, n, i as int) == seq![ws] + named_sections(
                            vs[i as int],
                            n,
                        ) + sections_from(vs, n, i + 1));
                        assert(sections_view(out@) + sections_from(vs, n, i + 1) =~= before
                            + sections_from(vs, n, i as int));
                    }
                    i = i + 1;
                } else if tag {
                    if i + 1 < items.len() {
                        assert(vs[i + 1] == items@[i + 1].view_v());
                        match &items[i + 1] {
                            SExpr::List(body) => {
                                proof {
                                    assert(decreases_to!(items@ => items@[i + 1]));
                                }
                                let ghost ws = views(body@);
                                assert(ws =~= vs[i + 1]->List_0);
                                let mut syn: Vec<SExpr> = Vec::new();
                                syn.push(SExpr::Symbol(name.to_string()));
                                let mut rest = clone_items(body.as_slice(), 0);
                                assert(ws.subrange(0, ws.len() as int) =~= ws);
                                syn.append(&mut rest);
                                assert(views(syn@) =~= seq![SExprV::Symbol(n)] + ws);
                                out.push(syn);
                                assert(sections_view(out@) =~= before + seq![seq![SExprV::Symbol(n)] + ws]);
                                push_named_sections(&items[i + 1], name, out);
                                assert(sections_from(vs, n, i as int) == seq![seq![SExprV::Symbol(n)] + ws]
                                    + named_sections(vs[i + 1], n) + sections_from(vs, n, i + 2));
                                assert(sections_view(out@) + sections_from(vs, n, i + 2) =~= before
                                    + sections_from(vs, n, i as int));
                                i = i + 2;
                            },
                            _ => {
                                i = i + 1;
                            },
                        }
                    } else {
                        i = i + 1;
                    }
                } else {
                    push_named_sections(&items[i], name, out);
                    assert(sections_view(out@) + sections_from(vs, n, i + 1) =~= before
                        + sections_from(vs, n, i as int));
                    i = i + 1;
                }
            }
            assert(sections_view(out@) =~= start + named_sections(e.view_v(), n));
        },
        _ => {
            assert(sections_view(out@) =~= sections_view(old(out)@) + named_sections(
                e.view_v(),
                name@,
            ));
        },
    }
}

/// The sections named `name` in the tree (see [`named_sections`]), copied.
pub fn find_named_sections(ast: &SExpr, name: &str) -> (r: Vec<Vec<SExpr>>)
    ensures
        sections_view(r@) == named_sections(ast.view_v(), name@),
        forall|k: int| 0 <= k < r@.len() ==> (#[trigger] r@[k])@.len() >= 1,
{
    let mut out: Vec<Vec<SExpr>> = Vec::new();
    push_named_sections(ast, name, &mut out);
    assert(sections_view(out@) =~= named_sections(ast.view_v(), name@));
    out
}

/// The characters of each tag.
pub open spec fn tags_view(tags: Seq<&str>) -> Seq<Seq<char>> {
    Seq::new(tags.len(), |k: int| tags[k]@)
}

/// `s` equals the tag, ignoring ASCII case.
pub open spec fn tag_eq(s: Seq<char>, tag: Seq<char>) -> bool {
    eq_ignore_case(encode_utf8(s), encode_utf8(tag))
}

/// `s` matches one of `tags`, ignoring ASCII case.
pub open spec fn tag_match(s: Seq<char>, tags: Seq<Seq<char>>) -> bool {
    exists|k: int| 0 <= k < tags.len() && tag_eq(s, #[trigger] tags[k])
}

/// The first of `tags[k..]` that `s` matches.
pub open spec fn first_tag(s: Seq<char>, tags: Seq<Seq<char>>, k: int) -> Seq<char>
    decreases tags.len() - k,
{
    if k < 0 || k >= tags.len() {
        tags[0]
    } else if tag_eq(s, tags[k]) {
        tags[k]
    } else {
        first_tag(s, tags, k + 1)
    }
}

/// `e` is a list headed by one of `tags`.
pub open spec fn headed_by_tag(e: SExprV, tags: Seq<Seq<char>>) -> bool {
    e is List && e->List_0.len() > 0 && match e->List_0[0] {
        SExprV::Symbol(h) => tag_match(h, tags),
        _ => false,
    }
}

/// The tagged sections in `body[i..]`, in order: each list headed by one of
/// `tags`, and each tag symbol with what follows it: an optional name symbol
/// (one that is not the tag itself) and an optional list whose items join
/// it, given as the tag, the name and those items when anything follows.
pub open spec fn tagged_from(body: Seq<SExprV>, tags: Seq<Seq<char>>, i: int) -> Seq<Seq<SExprV>>
    decreases body.len() - i,
{
    if i < 0 || i >= body.len() {
        seq![]
    } else if headed_by_tag(body[i], tags) {
        seq![body[i]->List_0] + tagged_from(body, tags, i + 1)
    } else if body[i] is Symbol && tag_match(body[i]->Symbol_0, tags) {
        let tag = first_tag(body[i]->Symbol_0, tags, 0);
        let j = i + 1;
        let named = j < body.len() && body[j] is Symbol && !tag_eq(body[j]->Symbol_0, tag);
        let syn1 = if named {
            seq![SExprV::Symbol(tag), body[j]]
        } else {
            seq![SExprV::Symbol(tag)]
        };
        let j1 = if named {
            j + 1
        } else {
            j
        };
        let listed = j1 < body.len() && body[j1] is List;
        let syn2 = if listed {
            syn1 + body[j1]->List_0
        } else {
            syn1
        };
        let j2 = if listed {
            j1 + 1
        } else {
            j1
        };
        (if syn2.len() > 1 {
            seq![syn2]
        } else {
            seq![]
        }) + tagged_from(body, tags, j2)
    } else {
        tagged_from(body, tags, i + 1)
    }
}

/// The sections tagged by one of `tags` in a section's body.
pub open spec fn tagged_sections(items: Seq<SExprV>, tags: Seq<Seq<char>>) -> Seq<Seq<SExprV>> {
    tagged_from(section_body(items), tags, 0)
}

fn tag_index(s: &str, tags: &[&str]) -> (r: Option<usize>)
    ensures
        match r {
            Some(k) => k < tags@.len() && tag_match(s@, tags_view(tags@)) && first_tag(
                s@,
                tags_view(tags@),
                0,
            ) == tags@[k as int]@,
            None => !tag_match(s@, tags_view(tags@)),
        },
{
    let ghost tv = tags_view(tags@);
    let mut k: usize = 0;
    while k < tags.len()
        invariant
            k <= tags@.len(),
            tv == tags_view(tags@),
            forall|j: int| 0 <= j < k ==> !tag_eq(s@, #[trigger] tv[j]),
            first_tag(s@, tv, 0) == first_tag(s@, tv, k as int),
        decreases tags@.len() - k,
    {
        if name_is(s, tags[k]) {
            assert(tag_eq(s@, tv[k as int]));
            return Some(k);
        }
        k = k + 1;
    }
    None
}

fn copy_symbol(s: &String) -> (r: SExpr)
    ensures
        r.view_v() == SExprV::Symbol(s@),
{
    SExpr::Symbol(s.clone())
}

/// The sections tagged by one of `tags` in a section's body (see
/// [`tagged_sections`]), copied.
pub fn find_tagged_sections(items: &[SExpr], tags: &[&str]) -> (r: Vec<Vec<SExpr>>)
    requires
        items@.len() >= 1,
    ensures
        sections_view(r@) == tagged_sections(views(items@), tags_view(tags@)),
        forall|k: int| 0 <= k < r@.len() ==> (#[trigger] r@[k])@.len() >= 1,
{
    let body = shape_section_body(items);
    let ghost bv = views(body@);
    let ghost tv = tags_view(tags@);
    let mut out: Vec<Vec<SExpr>> = Vec::new();
    let mut i: usize = 0;
    assert(sections_view(out@) + tagged_from(bv, tv, 0) =~= tagged_from(bv, tv, 0));
    while i < body.len()
        invariant
            i <= body@.len(),
            bv == views(body@),
            tv == tags_view(tags@),
            sections_view(out@) + tagged_from(bv, tv, i as int) == tagged_from(bv, tv, 0),
            forall|k: int| 0 <= k < out@.len() ==> (#[trigger] out@[k])@.len() >= 1,
        decreases body@.len() - i,
    {
        let ghost before = sections_view(out@);
        assert(bv[i as int] == body@[i as int].view_v());
        let headed = match &body[i] {
            SExpr::List(sub) => {
                let ghost ws = views(sub@);
                assert(ws =~= bv[i as int]->List_0);
                if sub.len() > 0 {
                    assert(ws[0] == sub@[0].view_v());
                    match &sub[0] {
                        SExpr::Symbol(h) => tag_index(h.as_str(), tags).is_some(),
                        _ => false,
                    }
                } else {
                    false
                }
            },
            _ => false,
        };
        if headed {
            if let SExpr::List(sub) = &body[i] {
                let ghost ws = views(sub@);
                assert(ws =~= bv[i as int]->List_0);
                let copy = clone_items(sub.as_slice(), 0);
                assert(ws.subrange(0, ws.len() as int) =~= ws);
                out.push(copy);
                assert(sections_view(out@) =~= before + seq![ws]);
                assert(sections_view(out@) + tagged_from(bv, tv, i + 1) =~= before + tagged_from(
                    bv,
                    tv,
                    i as int,
                ));
            }
            i = i + 1;
        } else {
            let found = match &body[i] {
                SExpr::Symbol(h) => tag_index(h.as_str(), tags),
                _ => None,
            };
            match found {
                Some(k) => {
                    let tag = tags[k];
                    let ghost t = tag@;
                    let ghost j0 = i + 1;
                    let mut syn: Vec<SExpr> = Vec::new();
                    syn.push(SExpr::Symbol(tag.to_string()));
                    i = i + 1;
                    let mut named = false;
                    if i < body.len() {
                        assert(bv[i as int] == body@[i as int].view_v());
                        if let SExpr::Symbol(nm) = &body[i] {
                            if !name_is(nm.as_str(), tag) {
                                syn.push(copy_symbol(nm));
                                named = true;
                                i = i + 1;
                            }
                        }
                    }
                    let ghost j1 = i as int;
                    let ghost syn1 = views(syn@);
                    let mut listed = false;
                    if i < body.len() {
                        assert(bv[i as int] == body@[i as int].view_v());
                        if let SExpr::List(coords) = &body[i] {
                            let ghost ws = views(coords@);
                            assert(ws =~= bv[i as int]->List_0);
                            let mut rest = clone_items(coords.as_slice(), 0);
                            assert(ws.subrange(0, ws.len() as int) =~= ws);
                            syn.append(&mut rest);
                            assert(views(syn@) =~= syn1 + ws);
                            listed = true;
                            i = i + 1;
                        }
                    }
                    proof {
                        let b0 = bv[j0 - 1];
                        assert(b0 is Symbol);
                        assert(first_tag(b0->Symbol_0, tv, 0) == t);
                        if named {
                            assert(syn1 =~= seq![SExprV::Symbol(t), bv[j0]]);
                        } else {
                            assert(syn1 =~= seq![SExprV::Symbol(t)]);
                        }
                    }
                    if syn.len() > 1 {
                        out.push(syn);
                    }
                    assert(sections_view(out@) + tagged_from(bv, tv, i as int) =~= before
                        + tagged_from(bv, tv, j0 - 1));
                },
                None => {
                    assert(sections_view(out@) + tagged_from(bv, tv, i + 1) =~= before
                        + tagged_from(bv, tv, i as int));
                    i = i + 1;
                },
            }
        }
    }
    assert(sections_view(out@) =~= tagged_from(bv, tv, 0));
    out
}

/// The string atoms (not symbols) of `items`, in order.
pub open spec fn string_atoms(items: Seq<SExprV>) -> Seq<Seq<char>>
    decreases items.len(),
{
    if items.len() == 0 {
        seq![]
    } else {
        string_atoms(items.drop_last()) + match items.last() {
            SExprV::Str(s) => seq![s],
            _ => seq![],
        }
    }
}

/// The string atoms of each section's body, in order.
pub open spec fn body_strings(secs: Seq<Seq<SExprV>>) -> Seq<Seq<char>>
    decreases secs.len(),
{
    if secs.len() == 0 {
        seq![]
    } else {
        body_strings(secs.drop_last()) + string_atoms(section_body(secs.last()))
    }
}

/// The string atoms of the bodies of the `image` sections of each section.
pub open spec fn image_strings(secs: Seq<Seq<SExprV>>) -> Seq<Seq<char>>
    decreases secs.len(),
{
    if secs.len() == 0 {
        seq![]
    } else {
        image_strings(secs.drop_last()) + body_strings(
            tagged_sections(secs.last(), seq!["image"@]),
        )
    }
}

/// A shape's texture file names: the strings of its `texture_filenames`
/// sections, or, when those give none, the strings of the `image` entries
/// of its `images` sections.
pub open spec fn texture_names(e: SExprV) -> Seq<Seq<char>> {
    let listed = body_strings(named_sections(e, "texture_filenames"@));
    if listed.len() > 0 {
        listed
    } else {
        image_strings(named_sections(e, "images"@))
    }
}

fn push_string_atoms(items: &[SExpr], out: &mut Vec<String>)
    ensures
        crate::typed::cvf_tree::strings_view(final(out)@) == crate::typed::cvf_tree::strings_view(
            old(out)@,
        ) + string_atoms(views(items@)),
{
    let ghost vs = views(items@);
    let ghost start = crate::typed::cvf_tree::strings_view(out@);
    let mut i: usize = 0;
    assert(vs.subrange(0, 0) =~= Seq::<SExprV>::empty());
    assert(crate::typed::cvf_tree::strings_view(out@) =~= start + string_atoms(vs.subrange(0, 0)));
    while i < items.len()
        invariant
            i <= items@.len(),
            vs == views(items@),
            crate::typed::cvf_tree::strings_view(out@) == start + string_atoms(
                vs.subrange(0, i as int),
            ),
        decreases items@.len() - i,
    {
        assert(vs[i as int] == items@[i as int].view_v());
        assert(vs.subrange(0, i + 1).drop_last() =~= vs.subrange(0, i as int));
        assert(vs.subrange(0, i + 1).last() == vs[i as int]);
        let ghost prev = out@;
        if let SExpr::Str(s) = &items[i] {
            out.push(s.clone());
            assert(crate::typed::cvf_tree::strings_view(out@) =~= crate::typed::cvf_tree::strings_view(
                prev,
            ) + seq![s@]);
        }
        assert(crate::typed::cvf_tree::strings_view(out@) =~= start + string_atoms(
            vs.subrange(0, i + 1),
        ));
        i = i + 1;
    }
    assert(vs.subrange(0, vs.len() as int) =~= vs);
}

fn push_body_strings(secs: &Vec<Vec<SExpr>>, out: &mut Vec<String>)
    requires
        forall|k: int| 0 <= k < secs@.len() ==> (#[trigger] secs@[k])@.len() >= 1,
    ensures
        crate::typed::cvf_tree::strings_view(final(out)@) == crate::typed::cvf_tree::strings_view(
            old(out)@,
        ) + body_strings(sections_view(secs@)),
{
    let ghost sv = sections_view(secs@);
    let ghost start = crate::typed::cvf_tree::strings_view(out@);
    let mut k: usize = 0;
    assert(crate::typed::cvf_tree::strings_view(out@) =~= start + body_strings(sv.subrange(0, 0)));
    while k < secs.len()
        invariant
            k <= secs@.len(),
            sv == sections_view(secs@),
            forall|j: int| 0 <= j < secs@.len() ==> (#[trigger] secs@[j])@.len() >= 1,
            crate::typed::cvf_tree::strings_view(out@) == start + body_strings(
                sv.subrange(0, k as int),
            ),
        decreases secs@.len() - k,
    {
        assert(secs@[k as int]@.len() >= 1);
        let body = shape_section_body(secs[k].as_slice());
        push_string_atoms(body, out);
        assert(sv.subrange(0, k + 1).drop_last() =~= sv.subrange(0, k as int));
        assert(sv.subrange(0, k + 1).last() == sv[k as int]);
        assert(crate::typed::cvf_tree::strings_view(out@) =~= start + body_strings(
            sv.subrange(0, k + 1),
        ));
        k = k + 1;
    }
    assert(sv.subrange(0, sv.len() as int) =~= sv);
}

/// A shape's texture file names (see [`texture_names`]).
pub fn collect_texture_filenames(ast: &SExpr) -> (r: Vec<String>)
    ensures
        crate::typed::cvf_tree::strings_view(r@) == texture_names(ast.view_v()),
{
    let mut out: Vec<String> = Vec::new();
    let listed = find_named_sections(ast, "texture_filenames");
    push_body_strings(&listed, &mut out);
    assert(crate::typed::cvf_tree::strings_view(out@) =~= body_strings(
        named_sections(ast.view_v(), "texture_filenames"@),
    ));
    if out.len() > 0 {
        return out;
    }
    let images = find_named_sections(ast, "images");
    let ghost sv = sections_view(images@);
    let tags: [&str; 1] = ["image"];
    assert(tags_view(tags@) =~= seq!["image"@]);
    let mut k: usize = 0;
    assert(crate::typed::cvf_tree::strings_view(out@) =~= image_strings(sv.subrange(0, 0)));
    while k < images.len()
        invariant
            k <= images@.len(),
            sv == sections_view(images@),
            tags_view(tags@) == seq!["image"@],
            forall|j: int| 0 <= j < images@.len() ==> (#[trigger] images@[j])@.len() >= 1,
            crate::typed::cvf_tree::strings_view(out@) == image_strings(sv.subrange(0, k as int)),
        decreases images@.len() - k,
    {
        assert(images@[k as int]@.len() >= 1);
        let subs = find_tagged_sections(images[k].as_slice(), &tags);
        push_body_strings(&subs, &mut out);
        assert(sv.subrange(0, k + 1).drop_last() =~= sv.subrange(0, k as int));
        assert(sv.subrange(0, k + 1).last() == sv[k as int]);
        assert(crate::typed::cvf_tree::strings_view(out@) =~= image_strings(
            sv.subrange(0, k + 1),
        ));
        k = k + 1;
    }
    assert(sv.subrange(0, sv.len() as int) =~= sv);
    out
}

/// The first string or symbol atom of `items[i..]`, lists and numbers skipped.
pub open spec fn first_text_atom(items: Seq<SExprV>, i: int) -> Option<Seq<char>>
    decreases items.len() - i,
{
    if i < 0 || i >= items.len() {
        None
    } else {
        match text_atom(items[i]) {
            Some(s) => Some(s),
            None => first_text_atom(items, i + 1),
        }
    }
}

/// The shader name an item of a `shader_names` section gives: a string, or
/// the first string or symbol after the tag of a `named_shader` list.
pub open spec fn shader_entry(e: SExprV) -> Seq<Seq<char>> {
    match e {
        SExprV::Str(s) => seq![s],
        SExprV::List(sub) => if sub.len() > 0 && symbol_is(sub[0], "named_shader".spec_bytes()) {
            match first_text_atom(sub, 1) {
                Some(s) => seq![s],
                None => seq![],
            }
        } else {
            seq![]
        },
        _ => seq![],
    }
}

/// The shader names the items give, in order.
pub open spec fn shader_entries(items: Seq<SExprV>) -> Seq<Seq<char>>
    decreases items.len(),
{
    if items.len() == 0 {
        seq![]
    } else {
        shader_entries(items.drop_last()) + shader_entry(items.last())
    }
}

/// The shader names of each section, its items after the tag, in order.
pub open spec fn section_shaders(secs: Seq<Seq<SExprV>>) -> Seq<Seq<char>>
    decreases secs.len(),
{
    if secs.len() == 0 {
        seq![]
    } else {
        section_shaders(secs.drop_last()) + shader_entries(
            secs.last().subrange(1, secs.last().len() as int),
        )
    }
}

/// A shape's shader names: those of its `shader_names` sections.
pub open spec fn shader_names(e: SExprV) -> Seq<Seq<char>> {
    section_shaders(named_sections(e, "shader_names"@))
}

fn shader_of(e: &SExpr) -> (r: Option<String>)
    ensures
        match r {
            Some(s) => shader_entry(e.view_v()) == seq![s@],
            None => shader_entry(e.view_v()) == Seq::<Seq<char>>::empty(),
        },
{
    match e {
        SExpr::Str(s) => Some(s.clone()),
        SExpr::List(sub) => {
            let ghost ws = views(sub@);
            assert(e.view_v() is List);
            assert(ws =~= match e.view_v() {
                SExprV::List(v) => v,
                _ => seq![],
            });
            if sub.len() == 0 {
                return None;
            }
            assert(ws[0] == sub@[0].view_v());
            let named = match &sub[0] {
                SExpr::Symbol(h) => name_is(h.as_str(), "named_shader"),
                _ => false,
            };
            if !named {
                return None;
            }
            assert(e.view_v() == SExprV::List(ws));
            let mut i: usize = 1;
            while i < sub.len()
                invariant
                    1 <= i <= sub@.len(),
                    ws == views(sub@),
                    e.view_v() == SExprV::List(ws),
                    ws.len() > 0 && symbol_is(ws[0], "named_shader".spec_bytes()),
                    first_text_atom(ws, 1) == first_text_atom(ws, i as int),
                decreases sub@.len() - i,
            {
                assert(ws[i as int] == sub@[i as int].view_v());
                match &sub[i] {
                    SExpr::Symbol(s) => {
                        return Some(s.clone());
                    },
                    SExpr::Str(s) => {
                        return Some(s.clone());
                    },
                    _ => {},
                }
                i = i + 1;
            }
            None
        },
        _ => None,
    }
}

/// A shape's shader names (see [`shader_names`]).
pub fn collect_shader_names(ast: &SExpr) -> (r: Vec<String>)
    ensures
        crate::typed::cvf_tree::strings_view(r@) == shader_names(ast.view_v()),
{
    let secs = find_named_sections(ast, "shader_names");
    let ghost sv = sections_view(secs@);
    let mut out: Vec<String> = Vec::new();
    let mut k: usize = 0;
    assert(crate::typed::cvf_tree::strings_view(out@) =~= section_shaders(sv.subrange(0, 0)));
    while k < secs.len()
        invariant
            k <= secs@.len(),
            sv == sections_view(secs@),
            forall|j: int| 0 <= j < secs@.len() ==> (#[trigger] secs@[j])@.len() >= 1,
            crate::typed::cvf_tree::strings_view(out@) == section_shaders(sv.subrange(0, k as int)),
        decreases secs@.len() - k,
    {
        let sec = &secs[k];
        let ghost items = sv[k as int];
        assert(items == views(sec@));
        assert(sec@.len() >= 1);
        let ghost start = crate::typed::cvf_tree::strings_view(out@);
        let mut i: usize = 1;
        assert(items.subrange(1, 1) =~= Seq::<SExprV>::empty());
        assert(crate::typed::cvf_tree::strings_view(out@) =~= start + shader_entries(
            items.subrange(1, 1),
        ));
        while i < sec.len()
            invariant
                1 <= i <= sec@.len(),
                items == views(sec@),
                crate::typed::cvf_tree::strings_view(out@) == start + shader_entries(
                    items.subrange(1, i as int),
                ),
            decreases sec@.len() - i,
        {
            assert(items[i as int] == sec@[i as int].view_v());
            assert(items.subrange(1, i + 1).drop_last() =~= items.subrange(1, i as int));
            assert(items.subrange(1, i + 1).last() == items[i as int]);
            let ghost prev = out@;
            match shader_of(&sec[i]) {
                Some(name) => {
                    out.push(name);
                    assert(crate::typed::cvf_tree::strings_view(out@)
                        =~= crate::typed::cvf_tree::strings_view(prev) + shader_entry(
                        items[i as int],
                    ));
                },
                None => {},
            }
            assert(crate::typed::cvf_tree::strings_view(out@) =~= start + shader_entries(
                items.subrange(1, i + 1),
            ));
            i = i + 1;
        }
        assert(sv.subrange(0, k + 1).drop_last() =~= sv.subrange(0, k as int));
        assert(sv.subrange(0, k + 1).last() == items);
        assert(crate::typed::cvf_tree::strings_view(out@) =~= section_shaders(
            sv.subrange(0, k + 1),
        ));
        k = k + 1;
    }
    assert(sv.subrange(0, sv.len() as int) =~= sv);
    out
}

} // verus!
