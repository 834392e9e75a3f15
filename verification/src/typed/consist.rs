//! Consist (`.con` / activity `TrainCfg`) entries.
use vstd::prelude::*;
use vstd::string::StringSliceAdditionalSpecFns;
use vstd::utf8::*;

use crate::ascii::{ascii_lit_bytes, bytes_eq, lit_bytes};
use crate::error::FormatError;
use crate::message::{finish_text, push_piece};
use crate::parser::{views, SExpr, SExprV};
use crate::trim::trim_spec;
use crate::typed::fields::{name_is, symbol_is, text_atom};
use crate::typed::shape_prims::{number_slot, Num64, Num64V};
use crate::typed::fields::opt_chars;
use crate::utf8_bounds::trimmed_string;

verus! {

/// One Engine/Wagon slot from a `.con` / `TrainCfg` list.
#[derive(Clone, Debug, PartialEq)]
pub enum ConsistEntry {
    Engine {
        path: String,
        /// MSTS/OR `UiD` when present.
        uid: Option<u32>,
        /// True when the entry has a `Flip` field (any form).
        flipped: bool,
    },
    Wagon { path: String, uid: Option<u32>, flipped: bool },
}

impl ConsistEntry {
    /// The entry's vehicle path, engine or wagon alike.
    pub open spec fn path_spec(self) -> Seq<char> {
        match self {
            ConsistEntry::Engine { path, .. } => path@,
            ConsistEntry::Wagon { path, .. } => path@,
        }
    }

    /// The entry's `UiD`, engine or wagon alike.
    pub open spec fn uid_spec(self) -> Option<u32> {
        match self {
            ConsistEntry::Engine { uid, .. } => uid,
            ConsistEntry::Wagon { uid, .. } => uid,
        }
    }

    /// Whether the entry is flipped, engine or wagon alike.
    pub open spec fn flipped_spec(self) -> bool {
        match self {
            ConsistEntry::Engine { flipped, .. } => flipped,
            ConsistEntry::Wagon { flipped, .. } => flipped,
        }
    }

    pub fn path(&self) -> (r: &str)
        ensures
            r@ == self.path_spec(),
    {
        match self {
            ConsistEntry::Engine { path, .. } => path.as_str(),
            ConsistEntry::Wagon { path, .. } => path.as_str(),
        }
    }

    pub fn uid(&self) -> (r: Option<u32>)
        ensures
            r == self.uid_spec(),
    {
        match self {
            ConsistEntry::Engine { uid, .. } => *uid,
            ConsistEntry::Wagon { uid, .. } => *uid,
        }
    }

    pub fn flipped(&self) -> (r: bool)
        ensures
            r == self.flipped_spec(),
    {
        match self {
            ConsistEntry::Engine { flipped, .. } => *flipped,
            ConsistEntry::Wagon { flipped, .. } => *flipped,
        }
    }
}

/// A parsed consist: its engine and wagon entries in file order.
#[derive(Clone, Debug, PartialEq)]
pub struct ConsistFile {
    pub entries: Vec<ConsistEntry>,
}

/// How a `Flip` field reads: a flag, or a decimal numeral (flipped when its
/// value is not zero).
#[derive(Clone, Debug, PartialEq)]
pub enum FlipSlot {
    Flag(bool),
    Decimal(String),
}

/// Mathematical form of a [`FlipSlot`].
pub enum FlipV {
    Flag(bool),
    Decimal(Seq<char>),
}

/// One Engine/Wagon entry before its numbers are read: the `UiD` number and
/// the `Flip` reading in force (`None`: no such field).
#[derive(Clone, Debug, PartialEq)]
pub struct ConsistEntrySlots {
    pub wagon: bool,
    pub path: String,
    pub uid: Option<Num64>,
    pub flip: Option<FlipSlot>,
}

/// Mathematical form of a [`ConsistEntrySlots`].
pub struct EntryV {
    pub wagon: bool,
    pub path: Seq<char>,
    pub uid: Option<Num64V>,
    pub flip: Option<FlipV>,
}

pub open spec fn flip_view(f: Option<FlipSlot>) -> Option<FlipV> {
    match f {
        Some(FlipSlot::Flag(b)) => Some(FlipV::Flag(b)),
        Some(FlipSlot::Decimal(t)) => Some(FlipV::Decimal(t@)),
        None => None,
    }
}

pub open spec fn uid_view(u: Option<Num64>) -> Option<Num64V> {
    match u {
        Some(n) => Some(n.view_n()),
        None => None,
    }
}

pub open spec fn entries_view(v: Seq<ConsistEntrySlots>) -> Seq<EntryV> {
    Seq::new(v.len(), |i: int| EntryV {
        wagon: v[i].wagon,
        path: v[i].path@,
        uid: uid_view(v[i].uid),
        flip: flip_view(v[i].flip),
    })
}

/// How an atom reads as a `Flip` value: a number is a flag when it is not
/// zero; a text is a flag unless, trimmed, it is `0`, `false` or `no`.
pub open spec fn flag_of_atom(e: SExprV) -> FlipV {
    match e {
        SExprV::Integer(i) => FlipV::Flag(i != 0),
        SExprV::Float(t) => FlipV::Decimal(t),
        SExprV::Symbol(s) => FlipV::Flag(!off_text(trim_spec(encode_utf8(s)))),
        SExprV::Str(s) => FlipV::Flag(!off_text(trim_spec(encode_utf8(s)))),
        SExprV::List(_) => FlipV::Flag(true),
    }
}

/// `0`, `false` or `no`.
pub open spec fn off_text(t: Seq<u8>) -> bool {
    t == lit_bytes("0"@) || t == lit_bytes("false"@) || t == lit_bytes("no"@)
}

/// The `UiD` and `Flip` readings in force.
pub struct MetaV {
    pub uid: Option<Num64V>,
    pub flip: Option<FlipV>,
}

/// `l` is a list headed by the tag (UTF-8 bytes), ignoring ASCII case.
pub open spec fn tagged(e: SExprV, tag: Seq<u8>) -> bool {
    e is List && e->List_0.len() > 0 && symbol_is(e->List_0[0], tag)
}

/// Reading one item of an entry: `(UiD n)` sets the number, `(Flip …)` the
/// flip reading (no value, or an empty or nested list, reads as flipped).
pub open spec fn meta_step(m: MetaV, e: SExprV) -> MetaV {
    if tagged(e, "UiD".spec_bytes()) {
        let sub = e->List_0;
        if sub.len() > 1 && number_slot(sub[1]) is Some {
            MetaV { uid: number_slot(sub[1]), ..m }
        } else {
            m
        }
    } else if tagged(e, "Flip".spec_bytes()) {
        let sub = e->List_0;
        let f = if sub.len() < 2 {
            FlipV::Flag(true)
        } else {
            match sub[1] {
                SExprV::List(inner) => if inner.len() == 0 || inner[0] is List {
                    FlipV::Flag(true)
                } else {
                    flag_of_atom(inner[0])
                },
                a => flag_of_atom(a),
            }
        };
        MetaV { flip: Some(f), ..m }
    } else {
        m
    }
}

/// [`meta_step`] over `items[1..n]`.
pub open spec fn meta_fold(items: Seq<SExprV>, n: int) -> MetaV
    decreases n,
{
    if n <= 1 || n > items.len() {
        MetaV { uid: None, flip: None }
    } else {
        meta_step(meta_fold(items, n - 1), items[n - 1])
    }
}

/// The text of an atom, empty for anything else.
pub open spec fn atom_or_empty(items: Seq<SExprV>, k: int) -> Seq<char> {
    if 0 <= k < items.len() {
        match text_atom(items[k]) {
            Some(s) => s,
            None => seq![],
        }
    } else {
        seq![]
    }
}

/// The path a `(EngineData vehicle folder)` or `(WagonData (vehicle folder))`
/// list names: `trains/<folder>/<vehicle>.eng` (`.wag` under `WagonData`).
pub open spec fn trainset_path_spec(data: Seq<SExprV>) -> Seq<char> {
    let (vehicle, folder) = if data.len() > 1 && data[1] is List {
        (atom_or_empty(data[1]->List_0, 0), atom_or_empty(data[1]->List_0, 1))
    } else {
        (atom_or_empty(data, 1), atom_or_empty(data, 2))
    };
    let ext = if data.len() > 0 && symbol_is(data[0], "WagonData".spec_bytes()) {
        "wag"@
    } else {
        "eng"@
    };
    "trains/"@ + folder + "/"@ + vehicle + "."@ + ext
}

/// The first data list (`EngineData` or `WagonData`) among `items[k..]`.
pub open spec fn data_from(items: Seq<SExprV>, tag: Seq<u8>, k: int) -> Option<Seq<SExprV>>
    decreases items.len() - k,
{
    if k < 1 || k >= items.len() {
        None
    } else if tagged(items[k], tag) {
        Some(items[k]->List_0)
    } else {
        data_from(items, tag, k + 1)
    }
}

/// The data tag of an engine or wagon entry.
pub open spec fn data_tag(wagon: bool) -> Seq<u8> {
    if wagon {
        "WagonData".spec_bytes()
    } else {
        "EngineData".spec_bytes()
    }
}

/// An Engine/Wagon entry: its path is the text after the tag, or else the
/// path its data list names; without either there is no entry.
pub open spec fn entry_spec(items: Seq<SExprV>, wagon: bool) -> Option<EntryV> {
    let m = meta_fold(items, items.len() as int);
    let path = if items.len() >= 2 && text_atom(items[1]) is Some {
        text_atom(items[1])
    } else {
        match data_from(items, data_tag(wagon), 1) {
            Some(d) => Some(trainset_path_spec(d)),
            None => None,
        }
    };
    match path {
        Some(p) => Some(EntryV { wagon, path: p, uid: m.uid, flip: m.flip }),
        None => None,
    }
}

/// The entries of `e`, depth first: a list headed by `Engine` or `Wagon`
/// is one entry (nothing inside it is searched); other lists are searched.
pub open spec fn entries_in(e: SExprV) -> Seq<EntryV>
    decreases e, 0int,
{
    match e {
        SExprV::List(items) => if items.len() > 0 && symbol_is(items[0], "Engine".spec_bytes()) {
            match entry_spec(items, false) {
                Some(x) => seq![x],
                None => seq![],
            }
        } else if items.len() > 0 && symbol_is(items[0], "Wagon".spec_bytes()) {
            match entry_spec(items, true) {
                Some(x) => seq![x],
                None => seq![],
            }
        } else {
            entries_from(items, 0)
        },
        _ => seq![],
    }
}

/// [`entries_in`] over `items[i..]`, concatenated.
pub open spec fn entries_from(items: Seq<SExprV>, i: int) -> Seq<EntryV>
    decreases items, items.len() - i,
{
    if i < 0 || i >= items.len() {
        seq![]
    } else {
        entries_in(items[i]) + entries_from(items, i + 1)
    }
}

fn atom_string(e: &SExpr) -> (r: Option<String>)
    ensures
        opt_chars(r) == text_atom(e.view_v()),
{
    match e {
        SExpr::Symbol(s) => Some(s.clone()),
        SExpr::Str(s) => Some(s.clone()),
        _ => None,
    }
}

fn is_off(s: &String) -> (r: bool)
    ensures
        r == off_text(trim_spec(encode_utf8(s@))),
{
    let t = trimmed_string(s.as_str());
    let b = t.as_str().as_bytes();
    proof {
        reveal_strlit("0");
        reveal_strlit("false");
        reveal_strlit("no");
    }
    bytes_eq(b, ascii_lit_bytes("0")) || bytes_eq(b, ascii_lit_bytes("false")) || bytes_eq(
        b,
        ascii_lit_bytes("no"),
    )
}

fn flag_of(e: &SExpr) -> (r: FlipSlot)
    ensures
        flip_view(Some(r)) == Some(flag_of_atom(e.view_v())),
{
    match e {
        SExpr::Integer(i) => FlipSlot::Flag(*i != 0),
        SExpr::Float(t) => FlipSlot::Decimal(t.clone()),
        SExpr::Symbol(s) => FlipSlot::Flag(!is_off(s)),
        SExpr::Str(s) => FlipSlot::Flag(!is_off(s)),
        SExpr::List(_) => FlipSlot::Flag(true),
    }
}

fn tagged_exec(e: &SExpr, tag: &str) -> (r: bool)
    ensures
        r == tagged(e.view_v(), tag.spec_bytes()),
{
    match e {
        SExpr::List(sub) => {
            let ghost vs = views(sub@);
            assert(e.view_v() is List);
            assert(vs =~= e.view_v()->List_0);
            if sub.len() == 0 {
                return false;
            }
            assert(vs[0] == sub@[0].view_v());
            match &sub[0] {
                SExpr::Symbol(h) => name_is(h.as_str(), tag),
                _ => false,
            }
        },
        _ => false,
    }
}

fn number_of(e: &SExpr) -> (r: Option<Num64>)
    ensures
        uid_view(r) == number_slot(e.view_v()),
{
    match e {
        SExpr::Integer(i) => Some(Num64::Int(*i)),
        SExpr::Float(t) => Some(Num64::Decimal(t.clone())),
        _ => None,
    }
}

fn meta_apply(uid: &mut Option<Num64>, flip: &mut Option<FlipSlot>, e: &SExpr)
    ensures
        ({
            let m = meta_step(MetaV { uid: uid_view(*old(uid)), flip: flip_view(*old(flip)) }, e.view_v());
            uid_view(*final(uid)) == m.uid && flip_view(*final(flip)) == m.flip
        }),
{
    if tagged_exec(e, "UiD") {
        if let SExpr::List(sub) = e {
            let ghost vs = views(sub@);
            assert(vs =~= e.view_v()->List_0);
            if sub.len() > 1 {
                assert(vs[1] == sub@[1].view_v());
                let n = number_of(&sub[1]);
                if n.is_some() {
                    *uid = n;
                }
            }
        }
    } else if tagged_exec(e, "Flip") {
        if let SExpr::List(sub) = e {
            let ghost vs = views(sub@);
            assert(vs =~= e.view_v()->List_0);
            let f = if sub.len() < 2 {
                FlipSlot::Flag(true)
            } else {
                assert(vs[1] == sub@[1].view_v());
                match &sub[1] {
                    SExpr::List(inner) => {
                        let ghost ws = views(inner@);
                        assert(ws =~= vs[1]->List_0);
                        if inner.len() == 0 {
                            FlipSlot::Flag(true)
                        } else {
                            assert(ws[0] == inner@[0].view_v());
                            match &inner[0] {
                                SExpr::List(_) => FlipSlot::Flag(true),
                                a => flag_of(a),
                            }
                        }
                    },
                    a => flag_of(a),
                }
            };
            *flip = Some(f);
        }
    }
}

fn text_or_empty(items: &Vec<SExpr>, k: usize) -> (r: String)
    ensures
        r@ == atom_or_empty(views(items@), k as int),
{
    if k < items.len() {
        assert(views(items@)[k as int] == items@[k as int].view_v());
        match atom_string(&items[k]) {
            Some(s) => s,
            None => String::new(),
        }
    } else {
        String::new()
    }
}

/// The path a data list names (see [`trainset_path_spec`]).
pub fn trainset_path(data: &Vec<SExpr>) -> (r: String)
    ensures
        r@ == trainset_path_spec(views(data@)),
{
    let ghost dv = views(data@);
    let (vehicle, folder) = if data.len() > 1 {
        assert(dv[1] == data@[1].view_v());
        match &data[1] {
            SExpr::List(inner) => {
                assert(views(inner@) =~= dv[1]->List_0);
                (text_or_empty(inner, 0), text_or_empty(inner, 1))
            },
            _ => (text_or_empty(data, 1), text_or_empty(data, 2)),
        }
    } else {
        (text_or_empty(data, 1), text_or_empty(data, 2))
    };
    let wag = if data.len() > 0 {
        assert(dv[0] == data@[0].view_v());
        match &data[0] {
            SExpr::Symbol(h) => name_is(h.as_str(), "WagonData"),
            _ => false,
        }
    } else {
        false
    };
    let ext = if wag {
        "wag"
    } else {
        "eng"
    };
    let mut out: Vec<u8> = Vec::new();
    let ghost mut t: Seq<char> = seq![];
    assert(out@ =~= encode_utf8(t));
    push_piece(&mut out, "trains/", Ghost(t));
    proof { t = t + "trains/"@; }
    push_piece(&mut out, folder.as_str(), Ghost(t));
    proof { t = t + folder@; }
    push_piece(&mut out, "/", Ghost(t));
    proof { t = t + "/"@; }
    push_piece(&mut out, vehicle.as_str(), Ghost(t));
    proof { t = t + vehicle@; }
    push_piece(&mut out, ".", Ghost(t));
    proof { t = t + "."@; }
    push_piece(&mut out, ext, Ghost(t));
    proof { t = t + ext@; }
    finish_text(out, Ghost(t))
}

fn data_index(items: &Vec<SExpr>, tag: &str) -> (r: Option<usize>)
    ensures
        match r {
            Some(k) => k < items@.len() && items@[k as int] is List && data_from(views(items@), tag.spec_bytes(), 1)
                == Some(views(items@)[k as int]->List_0),
            None => data_from(views(items@), tag.spec_bytes(), 1) is None,
        },
{
    let ghost vs = views(items@);
    if items.len() == 0 {
        return None;
    }
    let mut k: usize = 1;
    while k < items.len()
        invariant
            1 <= k <= items@.len(),
            vs == views(items@),
            data_from(vs, tag.spec_bytes(), 1) == data_from(vs, tag.spec_bytes(), k as int),
        decreases items@.len() - k,
    {
        assert(vs[k as int] == items@[k as int].view_v());
        if tagged_exec(&items[k], tag) {
            return Some(k);
        }
        k = k + 1;
    }
    None
}

fn parse_entry(items: &Vec<SExpr>, wagon: bool) -> (r: Option<ConsistEntrySlots>)
    ensures
        match entry_spec(views(items@), wagon) {
            Some(x) => r matches Some(y) && entries_view(seq![y]) == seq![x],
            None => r is None,
        },
{
    let ghost vs = views(items@);
    let mut uid: Option<Num64> = None;
    let mut flip: Option<FlipSlot> = None;
    let mut i: usize = 1;
    while i < items.len()
        invariant
            1 <= i <= items@.len() || items@.len() == 0,
            vs == views(items@),
            (MetaV { uid: uid_view(uid), flip: flip_view(flip) }) == meta_fold(vs, i as int),
        decreases items@.len() - i,
    {
        assert(vs[i as int] == items@[i as int].view_v());
        meta_apply(&mut uid, &mut flip, &items[i]);
        i = i + 1;
    }
    assert((MetaV { uid: uid_view(uid), flip: flip_view(flip) }) == meta_fold(vs, vs.len() as int));
    let mut path: Option<String> = None;
    if items.len() >= 2 {
        assert(vs[1] == items@[1].view_v());
        path = atom_string(&items[1]);
    }
    if path.is_none() {
        let tag = if wagon {
            "WagonData"
        } else {
            "EngineData"
        };
        match data_index(items, tag) {
            Some(k) => {
                if let SExpr::List(d) = &items[k] {
                    assert(vs[k as int] == items@[k as int].view_v());
                    assert(views(d@) =~= vs[k as int]->List_0);
                    path = Some(trainset_path(d));
                }
            },
            None => {},
        }
    }
    match path {
        Some(p) => {
            let y = ConsistEntrySlots { wagon, path: p, uid, flip };
            assert(entries_view(seq![y]) =~= seq![EntryV { wagon, path: y.path@, uid: uid_view(y.uid), flip: flip_view(y.flip) }]);
            Some(y)
        },
        None => None,
    }
}

fn push_entries(e: &SExpr, out: &mut Vec<ConsistEntrySlots>)
    ensures
        entries_view(final(out)@) == entries_view(old(out)@) + entries_in(e.view_v()),
    decreases e,
{
    match e {
        SExpr::List(items) => {
            let ghost vs = views(items@);
            assert(e.view_v() is List);
            assert(vs =~= e.view_v()->List_0);
            let head = if items.len() > 0 {
                assert(vs[0] == items@[0].view_v());
                match &items[0] {
                    SExpr::Symbol(h) => if name_is(h.as_str(), "Engine") {
                        1u8
                    } else if name_is(h.as_str(), "Wagon") {
                        2u8
                    } else {
                        0u8
                    },
                    _ => 0u8,
                }
            } else {
                0u8
            };
            if head > 0 {
                let ghost prev = out@;
                match parse_entry(items, head == 2) {
                    Some(y) => {
                        out.push(y);
                        assert(entries_view(out@) =~= entries_view(prev) + entries_view(seq![y]));
                    },
                    None => {},
                }
                assert(entries_view(out@) =~= entries_view(old(out)@) + entries_in(e.view_v()));
                return;
            }
            let ghost start = entries_view(out@);
            let mut i: usize = 0;
            assert(entries_view(out@) =~= start + entries_from(vs, 0).subrange(0, 0));
            while i < items.len()
                invariant
                    i <= items@.len(),
                    *e == SExpr::List(*items),
                    vs == views(items@),
                    start == entries_view(old(out)@),
                    entries_in(e.view_v()) == entries_from(vs, 0),
                    entries_view(out@) + entries_from(vs, i as int) == start + entries_from(vs, 0),
                decreases items@.len() - i,
            {
                proof {
                    assert(decreases_to!(*e => (*e)->List_0));
                    assert(decreases_to!(*items => items@));
                    assert(decreases_to!(items@ => items@[i as int]));
                }
                let ghost before = entries_view(out@);
                push_entries(&items[i], out);
                assert(vs[i as int] == items@[i as int].view_v());
                assert(entries_view(out@) + entries_from(vs, i + 1) =~= before + entries_from(vs, i as int));
                i = i + 1;
            }
            assert(entries_view(out@) =~= start + entries_from(vs, 0));
        },
        _ => {
            assert(entries_view(out@) =~= entries_view(old(out)@) + entries_in(e.view_v()));
        },
    }
}

/// The Engine/Wagon entries of a `.con` / `TrainCfg` tree, in order (see
/// [`entries_in`]); a tree with none lacks the field.
pub fn consist_entries(ast: &SExpr) -> (r: Result<Vec<ConsistEntrySlots>, FormatError>)
    ensures
        entries_in(ast.view_v()).len() > 0 ==> (r matches Ok(v) && entries_view(v@) == entries_in(
            ast.view_v(),
        )),
        entries_in(ast.view_v()).len() == 0 ==> (r matches Err(FormatError::MissingField { key, context })
            && key@ == "Engine|Wagon"@ && context@ == "Train"@),
{
    let mut out: Vec<ConsistEntrySlots> = Vec::new();
    push_entries(ast, &mut out);
    assert(entries_view(out@) =~= entries_in(ast.view_v()));
    if out.len() == 0 {
        return Err(FormatError::MissingField { key: "Engine|Wagon".to_string(), context: "Train".to_string() });
    }
    Ok(out)
}

/// A `UiD` integer as `u32` (read through a number): clamped to `0..=u32::MAX`.
pub fn uid_from_int(i: i64) -> (r: u32)
    ensures
        r == (if i < 0 {
            0
        } else if i > u32::MAX {
            u32::MAX as int
        } else {
            i as int
        }),
{
    if i < 0 {
        0
    } else if i > 0xFFFF_FFFFi64 {
        u32::MAX
    } else {
        i as u32
    }
}

} // verus!
