//! The `ActivityObject` entries of an activity tree: which atoms give each
//! object's track item, workers and kind.
//!
//! An item id or worker count is kept as every candidate number in order,
//! since whether one is taken depends on its value (a negative one is not);
//! [`finish_activity_object`] makes the choice from the values.
use vstd::prelude::*;
use vstd::string::StringSliceAdditionalSpecFns;
use vstd::utf8::*;

use crate::parser::{views, SExpr, SExprV};
use crate::typed::activity::ActivityObjectDef;
use crate::typed::fields::{name_is, symbol_is, text_atom};
use crate::typed::shape_prims::{number_slot, Num64, Num64V};

verus! {

/// The candidate numbers and kind of one activity object.
#[derive(Clone, Debug, PartialEq)]
pub struct ActivityObjectSlots {
    /// Numbers of `TrItemId` / `UiD` fields and of `TrItemId` entries under
    /// `Track_Items`, in order; the first one taken is the item id.
    pub item_ids: Vec<Num64>,
    /// Numbers of `Workers` / `Population` fields, in order; the last one
    /// taken is the count.
    pub workers: Vec<Num64>,
    /// The first non-empty `ObjectType` / `Type` text.
    pub kind: String,
}

/// Mathematical form of [`ActivityObjectSlots`].
#[verifier::ext_equal]
pub struct ObjectV {
    pub item_ids: Seq<Num64V>,
    pub workers: Seq<Num64V>,
    pub kind: Seq<char>,
}

pub open spec fn nums_view(v: Seq<Num64>) -> Seq<Num64V> {
    Seq::new(v.len(), |i: int| v[i].view_n())
}

impl ActivityObjectSlots {
    pub open spec fn view_o(&self) -> ObjectV {
        ObjectV { item_ids: nums_view(self.item_ids@), workers: nums_view(self.workers@), kind: self.kind@ }
    }
}

/// `e` is a list headed by the tag (ignoring ASCII case).
pub open spec fn headed(e: SExprV, tag: Seq<u8>) -> bool {
    e is List && e->List_0.len() > 0 && symbol_is(e->List_0[0], tag)
}

/// The number after the tag of a list, as a sequence of zero or one.
pub open spec fn second_number(sub: Seq<SExprV>) -> Seq<Num64V> {
    if sub.len() > 1 && number_slot(sub[1]) is Some {
        seq![number_slot(sub[1])->Some_0]
    } else {
        seq![]
    }
}

/// The `TrItemId` numbers among the first `n` entries after the tag of a
/// `Track_Items` list.
pub open spec fn track_item_ids(sub: Seq<SExprV>, n: int) -> Seq<Num64V>
    decreases n,
{
    if n <= 1 || n > sub.len() {
        seq![]
    } else {
        track_item_ids(sub, n - 1) + if headed(sub[n - 1], "TrItemId".spec_bytes()) {
            second_number(sub[n - 1]->List_0)
        } else {
            seq![]
        }
    }
}

/// Reading one field of an activity object.
pub open spec fn object_step(a: ObjectV, e: SExprV) -> ObjectV {
    if !(e is List) || e->List_0.len() == 0 || !(e->List_0[0] is Symbol) {
        a
    } else {
        let sub = e->List_0;
        if headed(e, "tritemid".spec_bytes()) || headed(e, "uid".spec_bytes()) {
            ObjectV { item_ids: a.item_ids + second_number(sub), ..a }
        } else if headed(e, "workers".spec_bytes()) || headed(e, "population".spec_bytes()) {
            ObjectV { workers: a.workers + second_number(sub), ..a }
        } else if headed(e, "objecttype".spec_bytes()) || headed(e, "type".spec_bytes()) {
            if a.kind.len() == 0 && sub.len() > 1 && text_atom(sub[1]) is Some {
                ObjectV { kind: text_atom(sub[1])->Some_0, ..a }
            } else {
                a
            }
        } else if headed(e, "track_items".spec_bytes()) {
            ObjectV { item_ids: a.item_ids + track_item_ids(sub, sub.len() as int), ..a }
        } else {
            a
        }
    }
}

/// [`object_step`] over `items[1..n]`.
pub open spec fn object_fold(items: Seq<SExprV>, n: int) -> ObjectV
    decreases n,
{
    if n <= 1 || n > items.len() {
        ObjectV { item_ids: seq![], workers: seq![], kind: seq![] }
    } else {
        object_step(object_fold(items, n - 1), items[n - 1])
    }
}

/// The candidates of an `ActivityObject` list.
pub open spec fn activity_object_spec(items: Seq<SExprV>) -> ObjectV {
    object_fold(items, items.len() as int)
}

/// The activity objects of `e`, depth first: a list headed by
/// `ActivityObject` is one object (nothing inside it is searched).
pub open spec fn objects_in(e: SExprV) -> Seq<ObjectV>
    decreases e, 0int,
{
    match e {
        SExprV::List(items) => if items.len() > 0 && symbol_is(items[0], "ActivityObject".spec_bytes()) {
            seq![activity_object_spec(items)]
        } else {
            objects_from(items, 0)
        },
        _ => seq![],
    }
}

/// [`objects_in`] over `items[i..]`, concatenated.
pub open spec fn objects_from(items: Seq<SExprV>, i: int) -> Seq<ObjectV>
    decreases items, items.len() - i,
{
    if i < 0 || i >= items.len() {
        seq![]
    } else {
        objects_in(items[i]) + objects_from(items, i + 1)
    }
}

pub open spec fn objects_view(v: Seq<ActivityObjectSlots>) -> Seq<ObjectV> {
    Seq::new(v.len(), |i: int| v[i].view_o())
}

fn headed_exec(e: &SExpr, tag: &str) -> (r: bool)
    ensures
        r == headed(e.view_v(), tag.spec_bytes()),
{
    match e {
        SExpr::List(sub) => {
            let ghost vs = views(sub@);
            assert(vs =~= e.view_v()->List_0);
            if sub.len() == 0 {
                return false;
            }
            assert(vs[0] == sub@[0].view_v());
            match &sub[0] {
                SExpr::Symbol(h) => name_is(h.as_str(), tag),
                _ => false,
            }
        },
        _ => false,
    }
}

fn second_number_of(sub: &Vec<SExpr>, out: &mut Vec<Num64>)
    ensures
        nums_view(final(out)@) == nums_view(old(out)@) + second_number(views(sub@)),
{
    let ghost prev = out@;
    if sub.len() > 1 {
        assert(views(sub@)[1] == sub@[1].view_v());
        match &sub[1] {
            SExpr::Integer(i) => {
                out.push(Num64::Int(*i));
            },
            SExpr::Float(t) => {
                out.push(Num64::Decimal(t.clone()));
            },
            _ => {},
        }
    }
    assert(nums_view(out@) =~= nums_view(prev) + second_number(views(sub@)));
}

fn push_track_ids(sub: &Vec<SExpr>, out: &mut Vec<Num64>)
    ensures
        nums_view(final(out)@) == nums_view(old(out)@) + track_item_ids(views(sub@), sub@.len() as int),
{
    let ghost vs = views(sub@);
    let ghost start = nums_view(out@);
    if sub.len() == 0 {
        assert(nums_view(out@) =~= start + track_item_ids(vs, 0));
        return;
    }
    let mut i: usize = 1;
    assert(nums_view(out@) =~= start + track_item_ids(vs, 1));
    while i < sub.len()
        invariant
            1 <= i <= sub@.len(),
            vs == views(sub@),
            nums_view(out@) == start + track_item_ids(vs, i as int),
        decreases sub@.len() - i,
    {
        assert(vs[i as int] == sub@[i as int].view_v());
        let ghost before = nums_view(out@);
        if headed_exec(&sub[i], "TrItemId") {
            if let SExpr::List(isub) = &sub[i] {
                assert(views(isub@) =~= vs[i as int]->List_0);
                second_number_of(isub, out);
            }
        }
        assert(nums_view(out@) =~= start + track_item_ids(vs, i + 1));
        i = i + 1;
    }
}

fn object_apply(o: &mut ActivityObjectSlots, e: &SExpr)
    ensures
        final(o).view_o() == object_step(old(o).view_o(), e.view_v()),
{
    let ok = match e {
        SExpr::List(sub) => {
            let ghost vs = views(sub@);
            assert(vs =~= e.view_v()->List_0);
            if sub.len() > 0 {
                assert(vs[0] == sub@[0].view_v());
                match &sub[0] {
                    SExpr::Symbol(_) => true,
                    _ => false,
                }
            } else {
                false
            }
        },
        _ => false,
    };
    if !ok {
        return;
    }
    if let SExpr::List(sub) = e {
        let ghost vs = views(sub@);
        assert(vs =~= e.view_v()->List_0);
        if headed_exec(e, "tritemid") || headed_exec(e, "uid") {
            second_number_of(sub, &mut o.item_ids);
        } else if headed_exec(e, "workers") || headed_exec(e, "population") {
            second_number_of(sub, &mut o.workers);
        } else if headed_exec(e, "objecttype") || headed_exec(e, "type") {
            if o.kind.as_str().is_empty() && sub.len() > 1 {
                assert(vs[1] == sub@[1].view_v());
                match &sub[1] {
                    SExpr::Symbol(s) => {
                        o.kind = s.clone();
                    },
                    SExpr::Str(s) => {
                        o.kind = s.clone();
                    },
                    _ => {},
                }
            }
        } else if headed_exec(e, "track_items") {
            push_track_ids(sub, &mut o.item_ids);
        }
    }
}

/// The candidates of an `ActivityObject` list (see [`activity_object_spec`]).
pub fn activity_object_slots(items: &Vec<SExpr>) -> (r: ActivityObjectSlots)
    ensures
        r.view_o() == activity_object_spec(views(items@)),
{
    let ghost vs = views(items@);
    let mut o = ActivityObjectSlots { item_ids: Vec::new(), workers: Vec::new(), kind: String::new() };
    assert(o.view_o() =~= object_fold(vs, 1));
    if items.len() == 0 {
        assert(o.view_o() =~= object_fold(vs, 0));
        return o;
    }
    let mut i: usize = 1;
    while i < items.len()
        invariant
            1 <= i <= items@.len(),
            vs == views(items@),
            o.view_o() == object_fold(vs, i as int),
        decreases items@.len() - i,
    {
        assert(vs[i as int] == items@[i as int].view_v());
        object_apply(&mut o, &items[i]);
        i = i + 1;
    }
    o
}

fn push_objects(e: &SExpr, out: &mut Vec<ActivityObjectSlots>)
    ensures
        objects_view(final(out)@) == objects_view(old(out)@) + objects_in(e.view_v()),
    decreases e,
{
    match e {
        SExpr::List(items) => {
            let ghost vs = views(items@);
            assert(e.view_v() is List);
            assert(vs =~= e.view_v()->List_0);
            let is_object = if items.len() > 0 {
                assert(vs[0] == items@[0].view_v());
                match &items[0] {
                    SExpr::Symbol(h) => name_is(h.as_str(), "ActivityObject"),
                    _ => false,
                }
            } else {
                false
            };
            if is_object {
                let ghost prev = out@;
                let o = activity_object_slots(items);
                out.push(o);
                assert(objects_view(out@) =~= objects_view(prev) + seq![o.view_o()]);
                return;
            }
            let ghost start = objects_view(out@);
            let mut i: usize = 0;
            assert(objects_view(out@) =~= start + objects_from(vs, 0).subrange(0, 0));
            while i < items.len()
                invariant
                    i <= items@.len(),
                    *e == SExpr::List(*items),
                    vs == views(items@),
                    start == objects_view(old(out)@),
                    objects_in(e.view_v()) == objects_from(vs, 0),
                    objects_view(out@) + objects_from(vs, i as int) == start + objects_from(vs, 0),
                decreases items@.len() - i,
            {
                proof {
                    assert(decreases_to!(*e => (*e)->List_0));
                    assert(decreases_to!(*items => items@));
                    assert(decreases_to!(items@ => items@[i as int]));
                }
                let ghost before = objects_view(out@);
                push_objects(&items[i], out);
                assert(vs[i as int] == items@[i as int].view_v());
                assert(objects_view(out@) + objects_from(vs, i + 1) =~= before + objects_from(vs, i as int));
                i = i + 1;
            }
            assert(objects_view(out@) =~= start + objects_from(vs, 0));
        },
        _ => {
            assert(objects_view(out@) =~= objects_view(old(out)@) + objects_in(e.view_v()));
        },
    }
}

/// The activity objects of a tree, depth first (see [`objects_in`]).
pub fn collect_activity_objects(ast: &SExpr) -> (r: Vec<ActivityObjectSlots>)
    ensures
        objects_view(r@) == objects_in(ast.view_v()),
{
    let mut out: Vec<ActivityObjectSlots> = Vec::new();
    push_objects(ast, &mut out);
    assert(objects_view(out@) =~= objects_in(ast.view_v()));
    out
}

/// The first taken value (`Some`) of a sequence, if any.
pub open spec fn first_taken(v: Seq<Option<u32>>) -> Option<u32>
    decreases v.len(),
{
    if v.len() == 0 {
        None
    } else if v[0] is Some {
        v[0]
    } else {
        first_taken(v.drop_first())
    }
}

/// The last taken value (`Some`) of a sequence, if any.
pub open spec fn last_taken(v: Seq<Option<u32>>) -> Option<u32>
    decreases v.len(),
{
    if v.len() == 0 {
        None
    } else if v.last() is Some {
        v.last()
    } else {
        last_taken(v.drop_last())
    }
}

/// An integer candidate's value: taken when not negative, as `u32`
/// (clamped, as a number cast to `u32`).
pub fn taken_int(i: i64) -> (r: Option<u32>)
    ensures
        r == (if i < 0 {
            None
        } else if i > u32::MAX {
            Some(u32::MAX)
        } else {
            Some(i as u32)
        }),
{
    if i < 0 {
        None
    } else if i > 0xFFFF_FFFFi64 {
        Some(u32::MAX)
    } else {
        Some(i as u32)
    }
}

/// The object from its candidates' values: the first taken item id (no
/// object without one), the last taken worker count (else 0), and the kind.
pub fn finish_activity_object(item_ids: &[Option<u32>], workers: &[Option<u32>], kind: String) -> (r:
    Option<ActivityObjectDef>)
    ensures
        match first_taken(item_ids@) {
            None => r is None,
            Some(id) => r matches Some(d) && d.item_id == id && d.workers == (match last_taken(
                workers@,
            ) {
                Some(w) => w,
                None => 0,
            }) && d.kind@ == kind@,
        },
{
    let mut id: Option<u32> = None;
    let mut i: usize = 0;
    assert(item_ids@.subrange(0, item_ids@.len() as int) =~= item_ids@);
    while i < item_ids.len()
        invariant
            i <= item_ids@.len(),
            id is None ==> first_taken(item_ids@) == first_taken(item_ids@.subrange(i as int, item_ids@.len() as int)),
            id is Some ==> first_taken(item_ids@) == id,
        decreases item_ids@.len() - i,
    {
        let ghost rest = item_ids@.subrange(i as int, item_ids@.len() as int);
        assert(rest.drop_first() =~= item_ids@.subrange(i + 1, item_ids@.len() as int));
        if id.is_none() {
            id = item_ids[i];
        }
        i = i + 1;
    }
    assert(item_ids@.subrange(i as int, item_ids@.len() as int) =~= Seq::<Option<u32>>::empty());
    let mut w: Option<u32> = None;
    let mut j: usize = 0;
    while j < workers.len()
        invariant
            j <= workers@.len(),
            w == last_taken(workers@.subrange(0, j as int)),
        decreases workers@.len() - j,
    {
        assert(workers@.subrange(0, j + 1).drop_last() =~= workers@.subrange(0, j as int));
        if workers[j].is_some() {
            w = workers[j];
        }
        j = j + 1;
    }
    assert(workers@.subrange(0, workers@.len() as int) =~= workers@);
    match id {
        Some(item_id) => Some(ActivityObjectDef {
            item_id,
            workers: match w {
                Some(v) => v,
                None => 0,
            },
            kind,
        }),
        None => None,
    }
}

} // verus!
