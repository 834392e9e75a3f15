//! Primitive states and primitives of a shape tree: which atom fills each
//! field, in both section layouts.
//!
//! A number is kept as the exact 32-bit value of an integer numeral or hex
//! symbol, or, for a decimal numeral, as its text ([`Num32::Decimal`]); the
//! reader of decimal text turns the latter into a value.
use vstd::prelude::*;
use vstd::string::StringSliceAdditionalSpecFns;
use vstd::utf8::*;

use crate::parser::{views, SExpr, SExprV};
use crate::typed::fields::{name_is, symbol_is};
use crate::typed::shape_tree::{
    find_tagged_sections, section_body, sections_view, shape_section_body, tagged_sections,
    tags_view,
};

verus! {

/// A 32-bit field value: exact, or a decimal numeral's text.
#[derive(Clone, Debug, PartialEq)]
pub enum Num32 {
    Exact(i32),
    Decimal(String),
}

/// Mathematical form of a [`Num32`].
pub enum Num32V {
    Exact(i32),
    Decimal(Seq<char>),
}

impl Num32 {
    pub open spec fn view_n(&self) -> Num32V {
        match self {
            Num32::Exact(v) => Num32V::Exact(*v),
            Num32::Decimal(t) => Num32V::Decimal(t@),
        }
    }
}

/// A number as read: an integer (a hex symbol's value too), or a decimal
/// numeral's text.
#[derive(Clone, Debug, PartialEq)]
pub enum Num64 {
    Int(i64),
    Decimal(String),
}

/// Mathematical form of a [`Num64`].
pub enum Num64V {
    Int(i64),
    Decimal(Seq<char>),
}

impl Num64 {
    pub open spec fn view_n(&self) -> Num64V {
        match self {
            Num64::Int(v) => Num64V::Int(*v),
            Num64::Decimal(t) => Num64V::Decimal(t@),
        }
    }
}

/// Forms of an optional number.
pub open spec fn opt_num64(v: Option<Num64>) -> Option<Num64V> {
    match v {
        Some(n) => Some(n.view_n()),
        None => None,
    }
}

/// Forms of a sequence of numbers.
pub open spec fn nums_view(v: Seq<Num32>) -> Seq<Num32V> {
    Seq::new(v.len(), |i: int| v[i].view_n())
}

/// Forms of an optional number.
pub open spec fn opt_num(v: Option<Num32>) -> Option<Num32V> {
    match v {
        Some(n) => Some(n.view_n()),
        None => None,
    }
}

/// An integer read as a number and cast to `i32`: clamped to the `i32` range.
pub open spec fn clamp32(i: i64) -> i32 {
    if i > i32::MAX {
        i32::MAX
    } else if i < i32::MIN {
        i32::MIN
    } else {
        i as i32
    }
}

/// A number atom as read.
pub open spec fn number_slot(e: SExprV) -> Option<Num64V> {
    match e {
        SExprV::Integer(i) => Some(Num64V::Int(i)),
        SExprV::Float(t) => Some(Num64V::Decimal(t)),
        _ => None,
    }
}

/// A 32-bit atom value as a number.
pub open spec fn widen(n: Num32V) -> Num64V {
    match n {
        Num32V::Exact(v) => Num64V::Int(v as i64),
        Num32V::Decimal(t) => Num64V::Decimal(t),
    }
}

/// An ASCII hex digit's value.
pub open spec fn hex_digit(c: u8) -> Option<int> {
    if 48 <= c <= 57 {
        Some(c - 48)
    } else if 97 <= c <= 102 {
        Some(c - 87)
    } else if 65 <= c <= 70 {
        Some(c - 55)
    } else {
        None
    }
}

/// Value of a run of hex digits (`None` if any byte is not one).
pub open spec fn hex_value(b: Seq<u8>) -> Option<int>
    decreases b.len(),
{
    if b.len() == 0 {
        Some(0)
    } else {
        match (hex_value(b.drop_last()), hex_digit(b.last())) {
            (Some(v), Some(d)) => Some(v * 16 + d),
            _ => None,
        }
    }
}

/// The digits of a hex symbol: after a `0x` prefix, when there is one.
pub open spec fn hex_digits(b: Seq<u8>) -> Seq<u8> {
    if b.len() >= 2 && b[0] == 48 && b[1] == 120 {
        b.subrange(2, b.len() as int)
    } else {
        b
    }
}

/// A hex symbol's 32-bit value: a non-empty run of hex digits (after an
/// optional `0x`) whose value fits a `u32`, cast to `i32`.
pub open spec fn hex_symbol(b: Seq<u8>) -> Option<i32> {
    let h = hex_digits(b);
    match hex_value(h) {
        Some(v) => if h.len() > 0 && v <= u32::MAX {
            Some((v as u32) as i32)
        } else {
            None
        },
        None => None,
    }
}

/// An atom read as a 32-bit integer: integer numerals cast (wrapping),
/// decimal numerals by value, hex symbols by their digits.
pub open spec fn i32_slot(e: SExprV) -> Option<Num32V> {
    match e {
        SExprV::Integer(i) => Some(Num32V::Exact(i as i32)),
        SExprV::Float(t) => Some(Num32V::Decimal(t)),
        SExprV::Symbol(s) => match hex_symbol(encode_utf8(s)) {
            Some(v) => Some(Num32V::Exact(v)),
            None => None,
        },
        _ => None,
    }
}

/// The 32-bit values of the atoms of `items`, in order (others skipped).
pub open spec fn i32_atoms(items: Seq<SExprV>) -> Seq<Num32V>
    decreases items.len(),
{
    if items.len() == 0 {
        seq![]
    } else {
        i32_atoms(items.drop_last()) + match i32_slot(items.last()) {
            Some(n) => seq![n],
            None => seq![],
        }
    }
}

/// The first number after the tag of a list.
pub open spec fn first_number_from(items: Seq<SExprV>, i: int) -> Option<Num64V>
    decreases items.len() - i,
{
    if i < 1 || i >= items.len() {
        None
    } else {
        match number_slot(items[i]) {
            Some(n) => Some(n),
            None => first_number_from(items, i + 1),
        }
    }
}

/// The texture indices of a `tex_idxs` list: the 32-bit atoms of its body
/// without the leading count (a lone value stays).
pub open spec fn tex_list(sub: Seq<SExprV>) -> Seq<Num32V> {
    let nums = i32_atoms(section_body(sub));
    if nums.len() > 1 {
        nums.subrange(1, nums.len() as int)
    } else {
        nums
    }
}

/// `e` is a list whose head is one of the names (UTF-8 bytes), ignoring ASCII case.
pub open spec fn list_headed(e: SExprV, names: Seq<Seq<u8>>) -> bool {
    e is List && e->List_0.len() > 0 && exists|k: int|
        0 <= k < names.len() && symbol_is(e->List_0[0], #[trigger] names[k])
}

/// What a `prim_state` has read so far.
#[verifier::ext_equal]
pub struct PrimAcc {
    pub name: Option<Seq<char>>,
    pub flags: Option<Num64V>,
    pub shader_idx: Option<Num64V>,
    pub vertex_state_idx: Option<Num64V>,
    pub z_bias: Option<Num64V>,
    pub alpha_test_mode: Option<Num64V>,
    pub z_buf_mode: Option<Num64V>,
    pub tex_indices: Seq<Num32V>,
    pub top: Seq<Num64V>,
}

pub open spec fn empty_acc() -> PrimAcc {
    PrimAcc {
        name: None,
        flags: None,
        shader_idx: None,
        vertex_state_idx: None,
        z_bias: None,
        alpha_test_mode: None,
        z_buf_mode: None,
        tex_indices: seq![],
        top: seq![],
    }
}

/// The list's first number, or what was there before.
pub open spec fn or_keep(sub: Seq<SExprV>, old_v: Option<Num64V>) -> Option<Num64V> {
    match first_number_from(sub, 1) {
        Some(n) => Some(n),
        None => old_v,
    }
}

/// Reading one item of a `prim_state` after its tag: the first string names
/// it; other atoms that read as numbers join the positional numbers; a list
/// headed by a field's tag sets that field from its first number (the
/// texture list from its body).
#[verifier::opaque]
pub open spec fn prim_step(a: PrimAcc, e: SExprV) -> PrimAcc {
    if e is Str && a.name is None {
        PrimAcc { name: Some(e->Str_0), ..a }
    } else if !(e is List) {
        match number_slot(e) {
            Some(n) => PrimAcc { top: a.top.push(n), ..a },
            None => match i32_slot(e) {
                Some(n) => PrimAcc { top: a.top.push(widen(n)), ..a },
                None => a,
            },
        }
    } else {
        let sub = e->List_0;
        if list_headed(e, seq!["tex_idxs".spec_bytes()]) {
            PrimAcc { tex_indices: tex_list(sub), ..a }
        } else if list_headed(e, seq!["flags".spec_bytes()]) {
            PrimAcc { flags: or_keep(sub, a.flags), ..a }
        } else if list_headed(e, seq!["shader_idx".spec_bytes()]) {
            PrimAcc { shader_idx: or_keep(sub, a.shader_idx), ..a }
        } else if list_headed(e, seq!["ivtx_state".spec_bytes(), "vtx_state_idx".spec_bytes()]) {
            PrimAcc { vertex_state_idx: or_keep(sub, a.vertex_state_idx), ..a }
        } else if list_headed(e, seq!["zbias".spec_bytes(), "z_bias".spec_bytes()]) {
            PrimAcc { z_bias: first_number_from(sub, 1), ..a }
        } else if list_headed(
            e,
            seq!["alpha_test_mode".spec_bytes(), "alphatest_mode".spec_bytes()],
        ) {
            PrimAcc { alpha_test_mode: or_keep(sub, a.alpha_test_mode), ..a }
        } else if list_headed(
            e,
            seq!["z_buf_mode".spec_bytes(), "zbuf_mode".spec_bytes(), "zBufferMode".spec_bytes()],
        ) {
            PrimAcc { z_buf_mode: or_keep(sub, a.z_buf_mode), ..a }
        } else {
            a
        }
    }
}

/// [`prim_step`] over `items[1..n]`.
pub open spec fn prim_fold(items: Seq<SExprV>, n: int) -> PrimAcc
    decreases n,
{
    if n <= 1 || n > items.len() {
        empty_acc()
    } else {
        prim_step(prim_fold(items, n - 1), items[n - 1])
    }
}

/// The texture list of the last `tex_idxs` section of `secs`.
pub open spec fn last_tex(secs: Seq<Seq<SExprV>>) -> Option<Seq<Num32V>> {
    if secs.len() == 0 {
        None
    } else {
        Some(tex_list(secs.last()))
    }
}

/// The fields of a `prim_state` list (unset ones `None`): positional
/// numbers after the name give flags, shader index, vertex state index and
/// z-bias, over the tagged lists; with no texture list among the items, the
/// last tagged `tex_idxs` section of the body gives the textures.
pub open spec fn prim_state_spec(items: Seq<SExprV>) -> PrimAcc {
    let a = prim_fold(items, items.len() as int);
    let t = a.top;
    PrimAcc {
        flags: if t.len() > 0 { Some(t[0]) } else { a.flags },
        shader_idx: if t.len() > 1 { Some(t[1]) } else { a.shader_idx },
        vertex_state_idx: if t.len() > 2 { Some(t[2]) } else { a.vertex_state_idx },
        z_bias: if a.z_bias is None && t.len() > 3 { Some(t[3]) } else { a.z_bias },
        tex_indices: if a.tex_indices.len() == 0 {
            match last_tex(tagged_sections(items, seq!["tex_idxs"@])) {
                Some(l) => l,
                None => a.tex_indices,
            }
        } else {
            a.tex_indices
        },
        ..a
    }
}

/// The fields of one `prim_state` (see [`prim_state_spec`]).
#[derive(Clone, Debug, PartialEq)]
pub struct PrimStateFields {
    pub name: Option<String>,
    pub flags: Option<Num64>,
    pub shader_idx: Option<Num64>,
    pub vertex_state_idx: Option<Num64>,
    pub z_bias: Option<Num64>,
    pub alpha_test_mode: Option<Num64>,
    pub z_buf_mode: Option<Num64>,
    pub tex_indices: Vec<Num32>,
}

impl PrimStateFields {
    /// The fields' mathematical form (no positional numbers).
    pub open spec fn view_f(&self) -> PrimAcc {
        PrimAcc {
            name: match self.name {
                Some(s) => Some(s@),
                None => None,
            },
            flags: opt_num64(self.flags),
            shader_idx: opt_num64(self.shader_idx),
            vertex_state_idx: opt_num64(self.vertex_state_idx),
            z_bias: opt_num64(self.z_bias),
            alpha_test_mode: opt_num64(self.alpha_test_mode),
            z_buf_mode: opt_num64(self.z_buf_mode),
            tex_indices: nums_view(self.tex_indices@),
            top: seq![],
        }
    }
}

/// An integer read as a number and cast to `i32`: clamped to its range.
pub fn int_as_i32(i: i64) -> (r: i32)
    ensures
        r == clamp32(i),
{
    if i > i32::MAX as i64 {
        i32::MAX
    } else if i < i32::MIN as i64 {
        i32::MIN
    } else {
        i as i32
    }
}

/// The alpha mode of a `prim_state`: an explicit mode stands; otherwise
/// non-zero flags with bit `0x40` give blending (2), else with bit `0x80`
/// alpha testing (1).
pub open spec fn alpha_mode_spec(explicit: i32, flags: i32) -> i32 {
    if explicit < 0 && flags != 0 {
        if flags & 0x40 != 0 {
            2
        } else if flags & 0x80 != 0 {
            1
        } else {
            explicit
        }
    } else {
        explicit
    }
}

/// The alpha mode of a `prim_state` from its explicit mode and flags (see
/// [`alpha_mode_spec`]).
pub fn alpha_test_mode_for(explicit: i32, flags: i32) -> (r: i32)
    ensures
        r == alpha_mode_spec(explicit, flags),
{
    if explicit < 0 && flags != 0 {
        if flags & 0x40 != 0 {
            2
        } else if flags & 0x80 != 0 {
            1
        } else {
            explicit
        }
    } else {
        explicit
    }
}

fn number_of(e: &SExpr) -> (r: Option<Num64>)
    ensures
        opt_num64(r) == number_slot(e.view_v()),
{
    match e {
        SExpr::Integer(i) => Some(Num64::Int(*i)),
        SExpr::Float(t) => Some(Num64::Decimal(t.clone())),
        _ => None,
    }
}

fn hex_digit_of(c: u8) -> (r: Option<u64>)
    ensures
        match hex_digit(c) {
            Some(d) => r == Some(d as u64),
            None => r is None,
        },
{
    if 48u8 <= c && c <= 57u8 {
        Some((c - 48u8) as u64)
    } else if 97u8 <= c && c <= 102u8 {
        Some((c - 87u8) as u64)
    } else if 65u8 <= c && c <= 70u8 {
        Some((c - 55u8) as u64)
    } else {
        None
    }
}

proof fn lemma_hex_none(h: Seq<u8>, k: int)
    requires
        0 <= k <= h.len(),
        hex_value(h.subrange(0, k)) is None,
    ensures
        hex_value(h) is None,
    decreases h.len() - k,
{
    if k < h.len() {
        assert(h.subrange(0, k + 1).drop_last() =~= h.subrange(0, k));
        lemma_hex_none(h, k + 1);
    } else {
        assert(h.subrange(0, k) =~= h);
    }
}

/// The 32-bit value of a hex symbol's bytes (see [`hex_symbol`]).
pub fn hex_symbol_value(b: &[u8]) -> (r: Option<i32>)
    ensures
        r == hex_symbol(b@),
{
    let start: usize = if b.len() >= 2 && b[0] == 48u8 && b[1] == 120u8 {
        2
    } else {
        0
    };
    let ghost h = hex_digits(b@);
    assert(h =~= b@.subrange(start as int, b@.len() as int));
    let mut acc: u64 = 0;
    let mut over = false;
    let mut i: usize = start;
    assert(h.subrange(0, 0) =~= Seq::<u8>::empty());
    while i < b.len()
        invariant
            start <= i <= b@.len(),
            h == b@.subrange(start as int, b@.len() as int),
            h == hex_digits(b@),
            acc <= u32::MAX,
            !over ==> hex_value(h.subrange(0, i - start)) == Some(acc as int),
            over ==> (hex_value(h.subrange(0, i - start)) matches Some(v) ==> v > u32::MAX),
        decreases b@.len() - i,
    {
        let ghost pre = h.subrange(0, i - start);
        let ghost next = h.subrange(0, i + 1 - start);
        assert(next.drop_last() =~= pre);
        assert(next.last() == b@[i as int]);
        match hex_digit_of(b[i]) {
            None => {
                proof {
                    assert(hex_digit(b@[i as int]) is None);
                    assert(hex_digit(next.last()) is None);
                    assert(next.len() > 0);
                    assert(hex_value(next) is None);
                    lemma_hex_none(h, i + 1 - start);
                }
                return None;
            },
            Some(d) => {
                if !over {
                    let v = acc * 16 + d;
                    if v > 0xFFFF_FFFFu64 {
                        over = true;
                    } else {
                        acc = v;
                    }
                }
            },
        }
        i = i + 1;
    }
    assert(h.subrange(0, h.len() as int) =~= h);
    if over || i == start {
        return None;
    }
    Some((acc as u32) as i32)
}

fn i32_of(e: &SExpr) -> (r: Option<Num32>)
    ensures
        opt_num(r) == i32_slot(e.view_v()),
{
    match e {
        SExpr::Integer(i) => Some(Num32::Exact(*i as i32)),
        SExpr::Float(t) => Some(Num32::Decimal(t.clone())),
        SExpr::Symbol(s) => match hex_symbol_value(s.as_str().as_bytes()) {
            Some(v) => Some(Num32::Exact(v)),
            None => None,
        },
        _ => None,
    }
}

/// The 32-bit values of the atoms of `items` (see [`i32_atoms`]).
pub fn i32_atoms_of(items: &[SExpr]) -> (r: Vec<Num32>)
    ensures
        nums_view(r@) == i32_atoms(views(items@)),
{
    let ghost vs = views(items@);
    let mut out: Vec<Num32> = Vec::new();
    let mut i: usize = 0;
    assert(nums_view(out@) =~= i32_atoms(vs.subrange(0, 0)));
    while i < items.len()
        invariant
            i <= items@.len(),
            vs == views(items@),
            nums_view(out@) == i32_atoms(vs.subrange(0, i as int)),
        decreases items@.len() - i,
    {
        assert(vs[i as int] == items@[i as int].view_v());
        assert(vs.subrange(0, i + 1).drop_last() =~= vs.subrange(0, i as int));
        assert(vs.subrange(0, i + 1).last() == vs[i as int]);
        let ghost prev = out@;
        match i32_of(&items[i]) {
            Some(n) => {
                out.push(n);
                assert(nums_view(out@) =~= nums_view(prev) + seq![n.view_n()]);
            },
            None => {},
        }
        assert(nums_view(out@) =~= i32_atoms(vs.subrange(0, i + 1)));
        i = i + 1;
    }
    assert(vs.subrange(0, vs.len() as int) =~= vs);
    out
}

/// The first number after the tag of a list (see [`first_number_from`]).
pub fn first_number_after_head(items: &[SExpr]) -> (r: Option<Num64>)
    ensures
        opt_num64(r) == first_number_from(views(items@), 1),
{
    let ghost vs = views(items@);
    let mut i: usize = 1;
    if items.len() == 0 {
        return None;
    }
    while i < items.len()
        invariant
            1 <= i <= items@.len(),
            vs == views(items@),
            first_number_from(vs, 1) == first_number_from(vs, i as int),
        decreases items@.len() - i,
    {
        assert(vs[i as int] == items@[i as int].view_v());
        let r = number_of(&items[i]);
        if r.is_some() {
            return r;
        }
        i = i + 1;
    }
    None
}

/// The texture indices of a `tex_idxs` list (see [`tex_list`]).
pub fn parse_tex_idxs_list(sub: &[SExpr]) -> (r: Vec<Num32>)
    requires
        sub@.len() >= 1,
    ensures
        nums_view(r@) == tex_list(views(sub@)),
{
    let body = shape_section_body(sub);
    let mut nums = i32_atoms_of(body);
    if nums.len() > 1 {
        let ghost prev = nums@;
        let _ = nums.remove(0);
        assert(nums_view(nums@) =~= nums_view(prev).subrange(1, prev.len() as int));
    }
    nums
}

fn headed_by_any(e: &SExpr, names: &[&str]) -> (r: bool)
    ensures
        r == list_headed(e.view_v(), crate::typed::fields::names_bytes(names@)),
{
    match e {
        SExpr::List(sub) => {
            let ghost vs = views(sub@);
            assert(e.view_v() is List);
            assert(vs =~= e.view_v()->List_0);
            if sub.len() == 0 {
                return false;
            }
            assert(vs[0] == sub@[0].view_v());
            match &sub[0] {
                SExpr::Symbol(h) => {
                    let ghost nb = crate::typed::fields::names_bytes(names@);
                    let mut k: usize = 0;
                    while k < names.len()
                        invariant
                            k <= names@.len(),
                            nb == crate::typed::fields::names_bytes(names@),
                            vs.len() > 0,
                            e.view_v() is List,
                            e.view_v()->List_0 == vs,
                            vs[0] == SExprV::Symbol(h@),
                            forall|j: int| 0 <= j < k ==> !symbol_is(vs[0], #[trigger] nb[j]),
                        decreases names@.len() - k,
                    {
                        if name_is(h.as_str(), names[k]) {
                            assert(symbol_is(vs[0], nb[k as int]));
                            return true;
                        }
                        k = k + 1;
                    }
                    false
                },
                _ => false,
            }
        },
        _ => false,
    }
}

/// Forms of a sequence of numbers as read.
pub open spec fn nums64_view(v: Seq<Num64>) -> Seq<Num64V> {
    Seq::new(v.len(), |i: int| v[i].view_n())
}

/// The state read so far, with its positional numbers.
pub open spec fn acc_of(f: PrimStateFields, top: Seq<Num64>) -> PrimAcc {
    PrimAcc { top: nums64_view(top), ..f.view_f() }
}

fn copy_num(n: &Num64) -> (r: Num64)
    ensures
        r.view_n() == n.view_n(),
{
    match n {
        Num64::Int(v) => Num64::Int(*v),
        Num64::Decimal(t) => Num64::Decimal(t.clone()),
    }
}

fn widen_of(n: Num32) -> (r: Num64)
    ensures
        r.view_n() == widen(n.view_n()),
{
    match n {
        Num32::Exact(v) => Num64::Int(v as i64),
        Num32::Decimal(t) => Num64::Decimal(t),
    }
}

proof fn names_lemma1(a: &str, names: [&str; 1])
    requires
        names@[0] == a,
    ensures
        crate::typed::fields::names_bytes(names@) == seq![a.spec_bytes()],
{
    assert(crate::typed::fields::names_bytes(names@) =~= seq![a.spec_bytes()]);
}

fn apply_list(f: &mut PrimStateFields, e: &SExpr)
    requires
        e.view_v() is List,
    ensures
        final(f).view_f() == (PrimAcc { top: seq![], ..prim_step(old(f).view_f(), e.view_v()) }),
{
    reveal(prim_step);
    if let SExpr::List(sub) = e {
        let ghost sv = views(sub@);
        assert(sv =~= e.view_v()->List_0);
        let n_tex: [&str; 1] = ["tex_idxs"];
        let n_flags: [&str; 1] = ["flags"];
        let n_shader: [&str; 1] = ["shader_idx"];
        let n_vtx: [&str; 2] = ["ivtx_state", "vtx_state_idx"];
        let n_z: [&str; 2] = ["zbias", "z_bias"];
        let n_alpha: [&str; 2] = ["alpha_test_mode", "alphatest_mode"];
        let n_zbuf: [&str; 3] = ["z_buf_mode", "zbuf_mode", "zBufferMode"];
        proof {
            names_lemma1("tex_idxs", n_tex);
            names_lemma1("flags", n_flags);
            names_lemma1("shader_idx", n_shader);
            assert(crate::typed::fields::names_bytes(n_vtx@) =~= seq!["ivtx_state".spec_bytes(), "vtx_state_idx".spec_bytes()]);
            assert(crate::typed::fields::names_bytes(n_z@) =~= seq!["zbias".spec_bytes(), "z_bias".spec_bytes()]);
            assert(crate::typed::fields::names_bytes(n_alpha@) =~= seq!["alpha_test_mode".spec_bytes(), "alphatest_mode".spec_bytes()]);
            assert(crate::typed::fields::names_bytes(n_zbuf@) =~= seq!["z_buf_mode".spec_bytes(), "zbuf_mode".spec_bytes(), "zBufferMode".spec_bytes()]);
        }
        if headed_by_any(e, &n_tex) {
            f.tex_indices = parse_tex_idxs_list(sub.as_slice());
        } else if headed_by_any(e, &n_flags) {
            if let Some(n) = first_number_after_head(sub.as_slice()) {
                f.flags = Some(n);
            }
        } else if headed_by_any(e, &n_shader) {
            if let Some(n) = first_number_after_head(sub.as_slice()) {
                f.shader_idx = Some(n);
            }
        } else if headed_by_any(e, &n_vtx) {
            if let Some(n) = first_number_after_head(sub.as_slice()) {
                f.vertex_state_idx = Some(n);
            }
        } else if headed_by_any(e, &n_z) {
            f.z_bias = first_number_after_head(sub.as_slice());
        } else if headed_by_any(e, &n_alpha) {
            if let Some(n) = first_number_after_head(sub.as_slice()) {
                f.alpha_test_mode = Some(n);
            }
        } else if headed_by_any(e, &n_zbuf) {
            if let Some(n) = first_number_after_head(sub.as_slice()) {
                f.z_buf_mode = Some(n);
            }
        }
    }
}

fn apply_item(f: &mut PrimStateFields, top: &mut Vec<Num64>, e: &SExpr)
    ensures
        acc_of(*final(f), final(top)@) == prim_step(acc_of(*old(f), old(top)@), e.view_v()),
{
    reveal(prim_step);
    let is_str_name = match e {
        SExpr::Str(_) => f.name.is_none(),
        _ => false,
    };
    if is_str_name {
        if let SExpr::Str(s) = e {
            f.name = Some(s.clone());
        }
        assert(acc_of(*f, top@) =~= prim_step(acc_of(*old(f), old(top)@), e.view_v()));
    } else if let SExpr::List(_) = e {
        apply_list(f, e);
        assert(acc_of(*f, top@) =~= prim_step(acc_of(*old(f), old(top)@), e.view_v()));
    } else {
        let ghost prev = top@;
        match number_of(e) {
            Some(n) => {
                top.push(n);
                assert(nums64_view(top@) =~= nums64_view(prev).push(n.view_n()));
            },
            None => match i32_of(e) {
                Some(n) => {
                    let w = widen_of(n);
                    top.push(w);
                    assert(nums64_view(top@) =~= nums64_view(prev).push(w.view_n()));
                },
                None => {},
            },
        }
        assert(acc_of(*f, top@) =~= prim_step(acc_of(*old(f), old(top)@), e.view_v()));
    }
}

/// The fields of a `prim_state` list (see [`prim_state_spec`]).
pub fn prim_state_from_items(items: &[SExpr]) -> (r: PrimStateFields)
    requires
        items@.len() >= 1,
    ensures
        r.view_f() == (PrimAcc { top: seq![], ..prim_state_spec(views(items@)) }),
{
    let ghost vs = views(items@);
    let mut f = PrimStateFields {
        name: None,
        flags: None,
        shader_idx: None,
        vertex_state_idx: None,
        z_bias: None,
        alpha_test_mode: None,
        z_buf_mode: None,
        tex_indices: Vec::new(),
    };
    let mut top: Vec<Num64> = Vec::new();
    assert(acc_of(f, top@) =~= prim_fold(vs, 1));
    let mut i: usize = 1;
    while i < items.len()
        invariant
            1 <= i <= items@.len(),
            vs == views(items@),
            acc_of(f, top@) == prim_fold(vs, i as int),
        decreases items@.len() - i,
    {
        assert(vs[i as int] == items@[i as int].view_v());
        apply_item(&mut f, &mut top, &items[i]);
        i = i + 1;
    }
    let ghost a = acc_of(f, top@);
    let ghost t = nums64_view(top@);
    assert(a == prim_fold(vs, vs.len() as int));
    if top.len() > 0 {
        f.flags = Some(copy_num(&top[0]));
    }
    if top.len() > 1 {
        f.shader_idx = Some(copy_num(&top[1]));
    }
    if top.len() > 2 {
        f.vertex_state_idx = Some(copy_num(&top[2]));
    }
    if f.z_bias.is_none() && top.len() > 3 {
        f.z_bias = Some(copy_num(&top[3]));
    }
    if f.tex_indices.len() == 0 {
        let tags: [&str; 1] = ["tex_idxs"];
        assert(tags_view(tags@) =~= seq!["tex_idxs"@]);
        let secs = find_tagged_sections(items, &tags);
        if secs.len() > 0 {
            let last = secs.len() - 1;
            assert(secs@[last as int]@.len() >= 1);
            f.tex_indices = parse_tex_idxs_list(secs[last].as_slice());
            assert(sections_view(secs@).last() == views(secs@[last as int]@));
        }
    }
    assert(f.view_f() =~= (PrimAcc { top: seq![], ..prim_state_spec(vs) }));
    f
}

/// One `indexed_trilist` of a `primitives` section: the state index in
/// force (`None`: none yet) and the 32-bit atoms of its `vertex_idxs`
/// bodies, in order.
#[derive(Clone, Debug, PartialEq)]
pub struct PrimitiveSlots {
    pub state: Option<Num64>,
    pub indices: Vec<Num32>,
}

/// Mathematical form of a [`PrimitiveSlots`].
pub struct PrimitiveSlotsV {
    pub state: Option<Num64V>,
    pub indices: Seq<Num32V>,
}

pub open spec fn slots_view(v: Seq<PrimitiveSlots>) -> Seq<PrimitiveSlotsV> {
    Seq::new(v.len(), |i: int| PrimitiveSlotsV { state: opt_num64(v[i].state), indices: nums_view(v[i].indices@) })
}

/// `l` starts with the given tag symbol (UTF-8 bytes), ignoring ASCII case.
pub open spec fn starts_with_tag(l: Seq<SExprV>, tag: Seq<u8>) -> bool {
    l.len() > 0 && symbol_is(l[0], tag)
}

/// The 32-bit atoms of each section's body, concatenated.
pub open spec fn body_atoms(secs: Seq<Seq<SExprV>>) -> Seq<Num32V>
    decreases secs.len(),
{
    if secs.len() == 0 {
        seq![]
    } else {
        body_atoms(secs.drop_last()) + i32_atoms(section_body(secs.last()))
    }
}

/// Reading the entries of a `primitives` section in order: a
/// `prim_state_idx` entry sets the state index in force from its first
/// number, and each `indexed_trilist` entry gives a primitive.
pub open spec fn prim_entries(es: Seq<Seq<SExprV>>, current: Option<Num64V>) -> Seq<PrimitiveSlotsV>
    decreases es.len(),
{
    if es.len() == 0 {
        seq![]
    } else {
        let e = es[0];
        if starts_with_tag(e, "prim_state_idx".spec_bytes()) {
            prim_entries(es.drop_first(), match first_number_from(e, 1) {
                Some(n) => Some(n),
                None => current,
            })
        } else if starts_with_tag(e, "indexed_trilist".spec_bytes()) {
            seq![PrimitiveSlotsV { state: current, indices: body_atoms(tagged_sections(e, seq!["vertex_idxs"@])) }]
                + prim_entries(es.drop_first(), current)
        } else {
            prim_entries(es.drop_first(), current)
        }
    }
}

/// The primitives of each `primitives` section, concatenated.
pub open spec fn prims_of_sections(secs: Seq<Seq<SExprV>>) -> Seq<PrimitiveSlotsV>
    decreases secs.len(),
{
    if secs.len() == 0 {
        seq![]
    } else {
        prims_of_sections(secs.drop_last()) + prim_entries(
            tagged_sections(secs.last(), seq!["prim_state_idx"@, "indexed_trilist"@]),
            None,
        )
    }
}

/// The primitives of a sub-object's items: its `primitives` sections, each
/// read from no state index.
pub open spec fn primitives_spec(items: Seq<SExprV>) -> Seq<PrimitiveSlotsV> {
    prims_of_sections(tagged_sections(items, seq!["primitives"@]))
}

fn starts_with_tag_exec(l: &Vec<SExpr>, tag: &str) -> (r: bool)
    ensures
        r == starts_with_tag(views(l@), tag.spec_bytes()),
{
    if l.len() == 0 {
        return false;
    }
    assert(views(l@)[0] == l@[0].view_v());
    match &l[0] {
        SExpr::Symbol(h) => name_is(h.as_str(), tag),
        _ => false,
    }
}

fn vertex_atoms(prim: &Vec<SExpr>) -> (r: Vec<Num32>)
    requires
        prim@.len() >= 1,
    ensures
        nums_view(r@) == body_atoms(tagged_sections(views(prim@), seq!["vertex_idxs"@])),
{
    let tags: [&str; 1] = ["vertex_idxs"];
    assert(tags_view(tags@) =~= seq!["vertex_idxs"@]);
    let secs = find_tagged_sections(prim.as_slice(), &tags);
    let ghost sv = sections_view(secs@);
    let mut out: Vec<Num32> = Vec::new();
    let mut k: usize = 0;
    assert(nums_view(out@) =~= body_atoms(sv.subrange(0, 0)));
    while k < secs.len()
        invariant
            k <= secs@.len(),
            sv == sections_view(secs@),
            forall|j: int| 0 <= j < secs@.len() ==> (#[trigger] secs@[j])@.len() >= 1,
            nums_view(out@) == body_atoms(sv.subrange(0, k as int)),
        decreases secs@.len() - k,
    {
        assert(secs@[k as int]@.len() >= 1);
        let body = shape_section_body(secs[k].as_slice());
        let mut more = i32_atoms_of(body);
        let ghost prev = out@;
        let ghost m = more@;
        out.append(&mut more);
        assert(nums_view(out@) =~= nums_view(prev) + nums_view(m));
        assert(sv.subrange(0, k + 1).drop_last() =~= sv.subrange(0, k as int));
        assert(sv.subrange(0, k + 1).last() == sv[k as int]);
        k = k + 1;
    }
    assert(sv.subrange(0, sv.len() as int) =~= sv);
    out
}

fn copy_opt_num(n: &Option<Num64>) -> (r: Option<Num64>)
    ensures
        opt_num64(r) == opt_num64(*n),
{
    match n {
        Some(v) => Some(copy_num(v)),
        None => None,
    }
}

fn push_section_prims(sec: &Vec<SExpr>, out: &mut Vec<PrimitiveSlots>)
    requires
        sec@.len() >= 1,
    ensures
        slots_view(final(out)@) == slots_view(old(out)@) + prim_entries(
            tagged_sections(views(sec@), seq!["prim_state_idx"@, "indexed_trilist"@]),
            None,
        ),
{
    let tags: [&str; 2] = ["prim_state_idx", "indexed_trilist"];
    assert(tags_view(tags@) =~= seq!["prim_state_idx"@, "indexed_trilist"@]);
    let es = find_tagged_sections(sec.as_slice(), &tags);
    let ghost ev = sections_view(es@);
    let ghost start = slots_view(out@);
    let mut current: Option<Num64> = None;
    let mut k: usize = 0;
    assert(ev.subrange(0, ev.len() as int) =~= ev);
    assert(slots_view(out@) =~= start + seq![]);
    while k < es.len()
        invariant
            k <= es@.len(),
            ev == sections_view(es@),
            forall|j: int| 0 <= j < es@.len() ==> (#[trigger] es@[j])@.len() >= 1,
            start + prim_entries(ev, None) == slots_view(out@) + prim_entries(
                ev.subrange(k as int, ev.len() as int),
                opt_num64(current),
            ),
        decreases es@.len() - k,
    {
        let e = &es[k];
        let ghost rest = ev.subrange(k as int, ev.len() as int);
        assert(rest[0] == views(e@));
        assert(rest.drop_first() =~= ev.subrange(k + 1, ev.len() as int));
        let ghost prev = slots_view(out@);
        if starts_with_tag_exec(e, "prim_state_idx") {
            match first_number_after_head(e.as_slice()) {
                Some(n) => {
                    current = Some(n);
                },
                None => {},
            }
        } else if starts_with_tag_exec(e, "indexed_trilist") {
            let idx = vertex_atoms(e);
            let p = PrimitiveSlots { state: copy_opt_num(&current), indices: idx };
            out.push(p);
            assert(slots_view(out@) =~= prev + seq![PrimitiveSlotsV { state: opt_num64(current), indices: nums_view(p.indices@) }]);
        }
        k = k + 1;
    }
    assert(ev.subrange(k as int, ev.len() as int) =~= Seq::<Seq<SExprV>>::empty());
    assert(slots_view(out@) =~= start + prim_entries(ev, None));
}

/// The primitives of a sub-object's items (see [`primitives_spec`]).
pub fn primitives_from_section(items: &[SExpr]) -> (r: Vec<PrimitiveSlots>)
    requires
        items@.len() >= 1,
    ensures
        slots_view(r@) == primitives_spec(views(items@)),
{
    let tags: [&str; 1] = ["primitives"];
    assert(tags_view(tags@) =~= seq!["primitives"@]);
    let secs = find_tagged_sections(items, &tags);
    let ghost sv = sections_view(secs@);
    let mut out: Vec<PrimitiveSlots> = Vec::new();
    let mut k: usize = 0;
    assert(slots_view(out@) =~= prims_of_sections(sv.subrange(0, 0)));
    while k < secs.len()
        invariant
            k <= secs@.len(),
            sv == sections_view(secs@),
            forall|j: int| 0 <= j < secs@.len() ==> (#[trigger] secs@[j])@.len() >= 1,
            slots_view(out@) == prims_of_sections(sv.subrange(0, k as int)),
        decreases secs@.len() - k,
    {
        assert(secs@[k as int]@.len() >= 1);
        push_section_prims(&secs[k], &mut out);
        assert(sv.subrange(0, k + 1).drop_last() =~= sv.subrange(0, k as int));
        assert(sv.subrange(0, k + 1).last() == sv[k as int]);
        k = k + 1;
    }
    assert(sv.subrange(0, sv.len() as int) =~= sv);
    out
}

/// The vertex indices of a primitive from its atoms' values: the
/// non-negative ones, without the first of them (the count).
pub open spec fn kept_indices(v: Seq<i32>) -> Seq<u32>
    decreases v.len(),
{
    if v.len() == 0 {
        seq![]
    } else {
        kept_indices(v.drop_last()) + if v.last() >= 0 {
            seq![v.last() as u32]
        } else {
            seq![]
        }
    }
}

/// The vertex indices of a primitive (see [`kept_indices`]), the first
/// kept value (the count) dropped.
pub fn vertex_indices_from(values: &[i32]) -> (r: Vec<u32>)
    ensures
        r@ == (if kept_indices(values@).len() > 0 {
            kept_indices(values@).drop_first()
        } else {
            kept_indices(values@)
        }),
{
    let mut out: Vec<u32> = Vec::new();
    let mut i: usize = 0;
    while i < values.len()
        invariant
            i <= values@.len(),
            out@ == kept_indices(values@.subrange(0, i as int)),
        decreases values@.len() - i,
    {
        assert(values@.subrange(0, i + 1).drop_last() =~= values@.subrange(0, i as int));
        if values[i] >= 0 {
            out.push(values[i] as u32);
        }
        i = i + 1;
        assert(out@ =~= kept_indices(values@.subrange(0, i as int)));
    }
    assert(values@.subrange(0, values@.len() as int) =~= values@);
    if out.len() > 0 {
        let ghost prev = out@;
        let _ = out.remove(0);
        assert(out@ =~= prev.drop_first());
    }
    out
}

} // verus!
