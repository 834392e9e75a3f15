//! Field audit of MSTS `.eng` / `.wag` files: how well each field is supported.
use vstd::prelude::*;
use vstd::string::StringSliceAdditionalSpecFns;

use vstd::utf8::*;

use crate::ascii::{lit_bytes, upper_eq, upper_seq};
use crate::parser::{SExpr, SExprV};
use crate::msts_tile_name::{extension_of, extension_spec};
use crate::trim::{lower_byte, to_lower};

verus! {

/// How far a parser handles a vehicle field.
#[derive(Clone, Copy, Debug, PartialEq, Eq, Structural)]
pub enum ParserSupport {
    Parsed,
    Partial,
    Ignored,
    NotImplemented,
    NotApplicable,
}

/// Which vehicle files a field belongs to.
#[derive(Clone, Copy, Debug, PartialEq, Eq, Structural)]
pub enum VehicleKind {
    Engine,
    Wagon,
    Both,
}

/// Catalog metadata of one vehicle field.
#[derive(Clone, Copy, Debug)]
pub struct VehicleFieldSpec {
    pub token: &'static str,
    pub category: &'static str,
    pub applies_to: VehicleKind,
    pub openrailsrs: ParserSupport,
    pub openbve: ParserSupport,
    pub notes: &'static str,
}

/// One symbol present in the file, annotated with catalog metadata.
#[derive(Clone, Debug, PartialEq, Eq)]
pub struct FieldAuditEntry {
    pub token: String,
    pub category: String,
    pub openrailsrs: ParserSupport,
    pub openbve: ParserSupport,
    pub notes: String,
}

/// Short label of each support level.
pub open spec fn support_label_text(s: ParserSupport) -> Seq<char> {
    match s {
        ParserSupport::Parsed => "parsed"@,
        ParserSupport::Partial => "partial"@,
        ParserSupport::Ignored => "ignored"@,
        ParserSupport::NotImplemented => "no"@,
        ParserSupport::NotApplicable => "n/a"@,
    }
}

/// Short label of a support level, as the audit report prints it.
pub fn support_label(s: ParserSupport) -> (r: &'static str)
    ensures
        r@ == support_label_text(s),
{
    match s {
        ParserSupport::Parsed => "parsed",
        ParserSupport::Partial => "partial",
        ParserSupport::Ignored => "ignored",
        ParserSupport::NotImplemented => "no",
        ParserSupport::NotApplicable => "n/a",
    }
}

/// A parser reads the field, fully or in part.
pub open spec fn parsed_spec(s: ParserSupport) -> bool {
    s == ParserSupport::Parsed || s == ParserSupport::Partial
}

/// A parser reads the field, fully or in part.
pub fn is_parsed(s: ParserSupport) -> (r: bool)
    ensures
        r == parsed_spec(s),
{
    match s {
        ParserSupport::Parsed | ParserSupport::Partial => true,
        _ => false,
    }
}

/// OpenBVE reads the field and openrailsrs does not (skips or ignores it).
pub fn is_openbve_gap(spec: &VehicleFieldSpec) -> (r: bool)
    ensures
        r == (parsed_spec(spec.openbve) && (spec.openrailsrs == ParserSupport::NotImplemented
            || spec.openrailsrs == ParserSupport::Ignored)),
{
    is_parsed(spec.openbve) && match spec.openrailsrs {
        ParserSupport::NotImplemented | ParserSupport::Ignored => true,
        _ => false,
    }
}

/// openrailsrs reads the field and OpenBVE does not have it.
pub fn is_orrs_only(spec: &VehicleFieldSpec) -> (r: bool)
    ensures
        r == (parsed_spec(spec.openrailsrs) && (spec.openbve == ParserSupport::NotImplemented
            || spec.openbve == ParserSupport::NotApplicable)),
{
    is_parsed(spec.openrailsrs) && match spec.openbve {
        ParserSupport::NotImplemented | ParserSupport::NotApplicable => true,
        _ => false,
    }
}

/// The field belongs to files of `kind` (fields for both kinds belong to all).
pub fn applies_to_kind(spec: &VehicleFieldSpec, kind: VehicleKind) -> (r: bool)
    ensures
        r == (spec.applies_to == VehicleKind::Both || spec.applies_to == kind),
{
    spec.applies_to == VehicleKind::Both || spec.applies_to == kind
}

/// Vehicle kind from which of `Engine` / `Wagon` heads occur, else `fallback`.
pub fn vehicle_kind_from_heads(has_engine: bool, has_wagon: bool, fallback: VehicleKind) -> (r:
    VehicleKind)
    ensures
        r == (if has_engine && !has_wagon {
            VehicleKind::Engine
        } else if !has_engine && has_wagon {
            VehicleKind::Wagon
        } else {
            fallback
        }),
{
    match (has_engine, has_wagon) {
        (true, false) => VehicleKind::Engine,
        (false, true) => VehicleKind::Wagon,
        _ => fallback,
    }
}

/// The path's extension is `wag` in any case.
pub open spec fn wagon_path_spec(path: Seq<u8>) -> bool {
    extension_spec(path) matches Some(e) && e.len() == 3 && lower_byte(e[0]) == 119
        && lower_byte(e[1]) == 97 && lower_byte(e[2]) == 103
}

/// Vehicle kind from the file's path text: a `.wag` file (any case) is a
/// wagon, any other an engine.
pub fn vehicle_kind_from_path(path: &str) -> (r: VehicleKind)
    ensures
        r == (if wagon_path_spec(path.spec_bytes()) {
            VehicleKind::Wagon
        } else {
            VehicleKind::Engine
        }),
{
    match extension_of(path.as_bytes()) {
        Some(e) => {
            if e.len() == 3 && to_lower(e[0]) == 119u8 && to_lower(e[1]) == 97u8 && to_lower(e[2])
                == 103u8 {
                VehicleKind::Wagon
            } else {
                VehicleKind::Engine
            }
        },
        None => VehicleKind::Engine,
    }
}

/// Symbols (any case) that structure vehicle and cab files rather than name fields.
pub open spec fn structural_noise_spec(s: Seq<u8>) -> bool {
    let u = upper_seq(s);
    u == lit_bytes("ENGINE"@) || u == lit_bytes("WAGON"@) || u == lit_bytes("TYPE"@) || u
        == lit_bytes("COMMENT"@) || u == lit_bytes("DESCRIPTION"@) || u == lit_bytes("STATE"@)
        || u == lit_bytes("STYLE"@) || u == lit_bytes("SWITCHVAL"@) || u == lit_bytes("STATES"@)
        || u == lit_bytes("POSITIVECOLOUR"@) || u == lit_bytes("CONTROLCOLOR"@) || u == lit_bytes(
        "NEGATIVECOLOUR"@,
    ) || u == lit_bytes("DECREASECOLOUR"@) || u == lit_bytes("ORTSFONT"@) || u == lit_bytes(
        "SUBOBJECT"@,
    ) || u == lit_bytes("SUBOBJECTS"@)
}

/// Symbols (any case) that structure vehicle and cab files rather than name fields.
pub fn is_structural_noise(symbol: &str) -> (r: bool)
    ensures
        r == structural_noise_spec(symbol.spec_bytes()),
{
    proof {
        reveal_strlit("ENGINE");
        reveal_strlit("WAGON");
        reveal_strlit("TYPE");
        reveal_strlit("COMMENT");
        reveal_strlit("DESCRIPTION");
        reveal_strlit("STATE");
        reveal_strlit("STYLE");
        reveal_strlit("SWITCHVAL");
        reveal_strlit("STATES");
        reveal_strlit("POSITIVECOLOUR");
        reveal_strlit("CONTROLCOLOR");
        reveal_strlit("NEGATIVECOLOUR");
        reveal_strlit("DECREASECOLOUR");
        reveal_strlit("ORTSFONT");
        reveal_strlit("SUBOBJECT");
        reveal_strlit("SUBOBJECTS");
    }
    let s = symbol.as_bytes();
    upper_eq(s, "ENGINE") || upper_eq(s, "WAGON") || upper_eq(s, "TYPE") || upper_eq(s, "COMMENT")
        || upper_eq(s, "DESCRIPTION") || upper_eq(s, "STATE") || upper_eq(s, "STYLE") || upper_eq(
        s,
        "SWITCHVAL",
    ) || upper_eq(s, "STATES") || upper_eq(s, "POSITIVECOLOUR") || upper_eq(s, "CONTROLCOLOR")
        || upper_eq(s, "NEGATIVECOLOUR") || upper_eq(s, "DECREASECOLOUR") || upper_eq(s, "ORTSFONT")
        || upper_eq(s, "SUBOBJECT") || upper_eq(s, "SUBOBJECTS")
}


// ── list-head symbols ───────────────────────────────────────────────────────

/// `a` sorts before `b`, comparing from index `i` on byte by byte (a proper
/// prefix sorts first): the order of `str`.
pub open spec fn bytes_lt_from(a: Seq<u8>, b: Seq<u8>, i: int) -> bool
    decreases a.len() - i,
{
    if i < 0 {
        false
    } else if i >= a.len() {
        b.len() > i
    } else if i >= b.len() {
        false
    } else if a[i] != b[i] {
        a[i] < b[i]
    } else {
        bytes_lt_from(a, b, i + 1)
    }
}

/// `a` sorts before `b` (the order of `str`).
pub open spec fn bytes_lt(a: Seq<u8>, b: Seq<u8>) -> bool {
    bytes_lt_from(a, b, 0)
}

proof fn lemma_bytes_lt_irreflexive(a: Seq<u8>, i: int)
    requires
        0 <= i,
    ensures
        !bytes_lt_from(a, a, i),
    decreases a.len() - i,
{
    if i < a.len() {
        lemma_bytes_lt_irreflexive(a, i + 1);
    }
}

proof fn lemma_bytes_lt_asymmetric(a: Seq<u8>, b: Seq<u8>, i: int)
    requires
        0 <= i,
        bytes_lt_from(a, b, i),
    ensures
        !bytes_lt_from(b, a, i),
    decreases a.len() - i,
{
    if i < a.len() && i < b.len() && a[i] == b[i] {
        lemma_bytes_lt_asymmetric(a, b, i + 1);
    }
}

proof fn lemma_bytes_lt_transitive(a: Seq<u8>, b: Seq<u8>, c: Seq<u8>, i: int)
    requires
        0 <= i,
        bytes_lt_from(a, b, i),
        bytes_lt_from(b, c, i),
    ensures
        bytes_lt_from(a, c, i),
    decreases a.len() - i,
{
    if i < a.len() && i < b.len() && i < c.len() && a[i] == b[i] && b[i] == c[i] {
        lemma_bytes_lt_transitive(a, b, c, i + 1);
    }
}

proof fn lemma_bytes_lt_total(a: Seq<u8>, b: Seq<u8>, i: int)
    requires
        0 <= i <= a.len(),
        i <= b.len(),
        forall|k: int| 0 <= k < i ==> a[k] == b[k],
    ensures
        a == b || bytes_lt_from(a, b, i) || bytes_lt_from(b, a, i),
    decreases a.len() - i,
{
    if i < a.len() && i < b.len() && a[i] == b[i] {
        lemma_bytes_lt_total(a, b, i + 1);
    } else if i == a.len() && i == b.len() {
        assert(a =~= b);
    }
}

/// Byte-wise comparison of two UTF-8 texts.
fn bytes_less(a: &[u8], b: &[u8]) -> (r: bool)
    ensures
        r == bytes_lt(a@, b@),
{
    let mut i: usize = 0;
    while i < a.len() && i < b.len() && a[i] == b[i]
        invariant
            i <= a@.len(),
            i <= b@.len(),
            bytes_lt(a@, b@) == bytes_lt_from(a@, b@, i as int),
        decreases a@.len() - i,
    {
        i = i + 1;
    }
    if i >= a.len() {
        b.len() > i
    } else if i >= b.len() {
        false
    } else {
        a[i] < b[i]
    }
}

/// Strings sorted strictly by their UTF-8 bytes (so none occurs twice).
pub open spec fn sorted_symbols(v: Seq<String>) -> bool {
    forall|i: int, j: int|
        0 <= i < j < v.len() ==> bytes_lt(encode_utf8(#[trigger] v[i]@), encode_utf8(#[trigger] v[j]@))
}

/// The texts of a sequence of strings, as a set.
pub open spec fn symbol_set(v: Seq<String>) -> Set<Seq<char>> {
    Set::new(|c: Seq<char>| exists|i: int| 0 <= i < v.len() && (#[trigger] v[i])@ == c)
}

/// Insert a text into a strictly sorted vector unless it is there already.
fn insert_sorted(out: &mut Vec<String>, s: String)
    requires
        sorted_symbols(old(out)@),
    ensures
        sorted_symbols(final(out)@),
        symbol_set(final(out)@) == symbol_set(old(out)@).insert(s@),
{
    let ghost sb = encode_utf8(s@);
    let mut i: usize = 0;
    while i < out.len()
        invariant
            i <= out@.len(),
            out@ == old(out)@,
            sorted_symbols(out@),
            sb == encode_utf8(s@),
            forall|k: int| 0 <= k < i ==> bytes_lt(encode_utf8(#[trigger] out@[k]@), sb),
        ensures
            i <= out@.len(),
            out@ == old(out)@,
            sorted_symbols(out@),
            forall|k: int| 0 <= k < i ==> bytes_lt(encode_utf8(#[trigger] out@[k]@), sb),
            i < out@.len() ==> bytes_lt(sb, encode_utf8(out@[i as int]@)),
        decreases out@.len() - i,
    {
        let cur = out[i].as_str().as_bytes();
        let sbytes = s.as_str().as_bytes();
        if cur.len() == sbytes.len() && crate::ascii::bytes_eq(cur, sbytes) {
            proof {
                assert(encode_utf8(out@[i as int]@) == sb);
                encode_utf8_decode_utf8(s@);
                encode_utf8_decode_utf8(out@[i as int]@);
                assert(out@[i as int]@ == s@);
                assert(symbol_set(out@).insert(s@) =~= symbol_set(out@));
            }
            return;
        }
        if bytes_less(sbytes, cur) {
            break;
        }
        proof {
            lemma_bytes_lt_total(encode_utf8(out@[i as int]@), sb, 0);
        }
        i = i + 1;
    }
    let ghost old_v = out@;
    proof {
        if i < old_v.len() {
            assert(bytes_lt(sb, encode_utf8(old_v[i as int]@)));
        }
    }
    out.insert(i, s);
    proof {
        let nv = out@;
        assert(nv == old_v.insert(i as int, s));
        assert forall|x: int, y: int| 0 <= x < y < nv.len() implies bytes_lt(
            encode_utf8(#[trigger] nv[x]@),
            encode_utf8(#[trigger] nv[y]@),
        ) by {
            if y < i {
                assert(nv[x] == old_v[x] && nv[y] == old_v[y]);
            } else if y == i {
                assert(nv[x] == old_v[x]);
            } else if x == i {
                assert(nv[y] == old_v[y - 1]);
                if y - 1 > i {
                    assert(bytes_lt(encode_utf8(old_v[i as int]@), encode_utf8(old_v[y - 1]@)));
                    lemma_bytes_lt_transitive(
                        sb,
                        encode_utf8(old_v[i as int]@),
                        encode_utf8(old_v[y - 1]@),
                        0,
                    );
                }
            } else if x < i {
                assert(nv[x] == old_v[x] && nv[y] == old_v[y - 1]);
                assert(bytes_lt(encode_utf8(old_v[x]@), encode_utf8(old_v[y - 1]@)));
            } else {
                assert(nv[x] == old_v[x - 1] && nv[y] == old_v[y - 1]);
            }
        }
        assert forall|c: Seq<char>| symbol_set(nv).contains(c) <==> symbol_set(old_v).insert(
            s@,
        ).contains(c) by {
            if symbol_set(nv).contains(c) {
                let k = choose|k: int| 0 <= k < nv.len() && (#[trigger] nv[k])@ == c;
                if k < i {
                    assert(nv[k] == old_v[k]);
                } else if k > i {
                    assert(nv[k] == old_v[k - 1]);
                }
            }
            if symbol_set(old_v).contains(c) {
                let k = choose|k: int| 0 <= k < old_v.len() && (#[trigger] old_v[k])@ == c;
                if k < i {
                    assert(nv[k] == old_v[k]);
                } else {
                    assert(nv[k + 1] == old_v[k]);
                }
            }
            if c == s@ {
                assert(nv[i as int] == s);
            }
        }
        assert(symbol_set(nv) =~= symbol_set(old_v).insert(s@));
    }
}


/// The symbols that head a list somewhere in `e`.
pub open spec fn head_symbols(e: SExprV) -> Set<Seq<char>>
    decreases e, 0int,
{
    match e {
        SExprV::List(items) => {
            let own = if items.len() > 0 {
                match items[0] {
                    SExprV::Symbol(h) => set![h],
                    _ => Set::empty(),
                }
            } else {
                Set::empty()
            };
            own.union(heads_upto(items, items.len() as int))
        },
        _ => Set::empty(),
    }
}

/// The head symbols found in the first `i` items.
pub open spec fn heads_upto(items: Seq<SExprV>, i: int) -> Set<Seq<char>>
    decreases items, i,
{
    if i <= 0 || i > items.len() {
        Set::empty()
    } else {
        heads_upto(items, i - 1).union(head_symbols(items[i - 1]))
    }
}

fn collect_symbols_recursive(e: &SExpr, out: &mut Vec<String>)
    requires
        sorted_symbols(old(out)@),
    ensures
        sorted_symbols(final(out)@),
        symbol_set(final(out)@) == symbol_set(old(out)@).union(head_symbols(e.view_v())),
    decreases e,
{
    match e {
        SExpr::List(items) => {
            let ghost vs = crate::parser::views(items@);
            assert(e.view_v() is List);
            assert(vs =~= match e.view_v() {
                SExprV::List(v) => v,
                _ => seq![],
            });
            assert(e.view_v() == SExprV::List(vs));
            let ghost own: Set<Seq<char>> = if vs.len() > 0 {
                match vs[0] {
                    SExprV::Symbol(h) => set![h],
                    _ => Set::empty(),
                }
            } else {
                Set::empty()
            };
            if items.len() > 0 {
                match &items[0] {
                    SExpr::Symbol(h) => {
                        assert(vs[0] == items@[0].view_v());
                        insert_sorted(out, h.clone());
                        assert(set![h@] =~= Set::<Seq<char>>::empty().insert(h@));
                    },
                    _ => {
                        assert(vs[0] == items@[0].view_v());
                    },
                }
            }
            assert(symbol_set(out@) =~= symbol_set(old(out)@).union(own).union(heads_upto(vs, 0)));
            let mut i: usize = 0;
            while i < items.len()
                invariant
                    i <= items@.len(),
                    *e == SExpr::List(*items),
                    vs == crate::parser::views(items@),
                    sorted_symbols(out@),
                    symbol_set(out@) == symbol_set(old(out)@).union(own).union(heads_upto(vs, i as int)),
                decreases items@.len() - i,
            {
                proof {
                    assert(decreases_to!(*e => (*e)->List_0));
                    assert(decreases_to!(*items => items@));
                    assert(decreases_to!(items@ => items@[i as int]));
                }
                collect_symbols_recursive(&items[i], out);
                assert(vs[i as int] == items@[i as int].view_v());
                assert(symbol_set(out@) =~= symbol_set(old(out)@).union(own).union(heads_upto(
                    vs,
                    i + 1,
                )));
                i = i + 1;
            }
            assert(symbol_set(out@) =~= symbol_set(old(out)@).union(head_symbols(e.view_v())));
        },
        _ => {
            assert(symbol_set(out@) =~= symbol_set(old(out)@).union(head_symbols(e.view_v())));
        },
    }
}

/// The symbols that head a list anywhere in the tree, each once, sorted by
/// their UTF-8 bytes (the order of a `BTreeSet<String>`).
pub fn collect_msts_list_head_symbols(ast: &SExpr) -> (r: Vec<String>)
    ensures
        sorted_symbols(r@),
        symbol_set(r@) == head_symbols(ast.view_v()),
{
    let mut out: Vec<String> = Vec::new();
    assert(symbol_set(out@) =~= Set::<Seq<char>>::empty());
    collect_symbols_recursive(ast, &mut out);
    assert(symbol_set(out@) =~= head_symbols(ast.view_v()));
    out
}

/// Some text of `set` reads `word` once upper-cased.
pub open spec fn has_symbol_ci(set: Set<Seq<char>>, word: Seq<u8>) -> bool {
    exists|c: Seq<char>| set.contains(c) && upper_seq(encode_utf8(c)) == word
}

fn any_symbol_ci(symbols: &Vec<String>, word: &str) -> (r: bool)
    requires
        vstd::utf8::is_ascii_chars(word@),
    ensures
        r == has_symbol_ci(symbol_set(symbols@), lit_bytes(word@)),
{
    let mut i: usize = 0;
    while i < symbols.len()
        invariant
            i <= symbols@.len(),
            vstd::utf8::is_ascii_chars(word@),
            forall|k: int|
                0 <= k < i ==> upper_seq(encode_utf8(#[trigger] symbols@[k]@)) != lit_bytes(word@),
        decreases symbols@.len() - i,
    {
        if upper_eq(symbols[i].as_str().as_bytes(), word) {
            assert(symbol_set(symbols@).contains(symbols@[i as int]@));
            return true;
        }
        i = i + 1;
    }
    assert(!has_symbol_ci(symbol_set(symbols@), lit_bytes(word@))) by {
        if has_symbol_ci(symbol_set(symbols@), lit_bytes(word@)) {
            let c = choose|c: Seq<char>|
                symbol_set(symbols@).contains(c) && upper_seq(encode_utf8(c)) == lit_bytes(word@);
            let k = choose|k: int| 0 <= k < symbols@.len() && (#[trigger] symbols@[k])@ == c;
            assert(upper_seq(encode_utf8(symbols@[k]@)) != lit_bytes(word@));
        }
    }
    false
}

/// Vehicle kind from the tree's list heads: `Engine` alone (any case) means
/// an engine, `Wagon` alone a wagon, anything else `fallback`.
pub fn vehicle_kind_from_ast(ast: &SExpr, fallback: VehicleKind) -> (r: VehicleKind)
    ensures
        ({
            let heads = head_symbols(ast.view_v());
            let e = has_symbol_ci(heads, lit_bytes("ENGINE"@));
            let w = has_symbol_ci(heads, lit_bytes("WAGON"@));
            r == (if e && !w {
                VehicleKind::Engine
            } else if !e && w {
                VehicleKind::Wagon
            } else {
                fallback
            })
        }),
{
    proof {
        reveal_strlit("ENGINE");
        reveal_strlit("WAGON");
    }
    let symbols = collect_msts_list_head_symbols(ast);
    let has_engine = any_symbol_ci(&symbols, "ENGINE");
    let has_wagon = any_symbol_ci(&symbols, "WAGON");
    vehicle_kind_from_heads(has_engine, has_wagon, fallback)
}

// ── classifying the symbols of a vehicle file ──────────────────────────────

/// What the field audit finds among the symbols of one vehicle file.
#[derive(Clone, Debug, PartialEq)]
pub struct VehicleSymbolAudit {
    /// Catalog fields present in the file, sorted by token.
    pub known_fields: Vec<FieldAuditEntry>,
    /// Present fields that OpenBVE parses and openrailsrs does not, sorted.
    pub gaps_openbve_parsed_we_dont: Vec<String>,
    /// Present fields that openrailsrs parses and OpenBVE does not, sorted.
    pub orrs_only_in_file: Vec<String>,
    /// Symbols with no catalog row, structural noise left out, sorted.
    pub unknown_symbols: Vec<String>,
}

/// The catalog row of symbol `j` applies to files of `kind`.
pub open spec fn applicable(specs: Seq<Option<VehicleFieldSpec>>, kind: VehicleKind, j: int) -> bool {
    specs[j] matches Some(sp) && (sp.applies_to == VehicleKind::Both || sp.applies_to == kind)
}

/// The canonical token of the catalog row of symbol `j`.
pub open spec fn row_token(specs: Seq<Option<VehicleFieldSpec>>, j: int) -> Seq<char> {
    specs[j]->Some_0.token@
}

/// Symbol `j` is the first applicable one with its canonical token.
pub open spec fn first_row(specs: Seq<Option<VehicleFieldSpec>>, kind: VehicleKind, j: int) -> bool {
    applicable(specs, kind, j) && forall|k: int|
        0 <= k < j && #[trigger] applicable(specs, kind, k) ==> row_token(specs, k) != row_token(
            specs,
            j,
        )
}

/// Row of symbol `j` is a gap: OpenBVE parses it, openrailsrs does not.
pub open spec fn row_gap(specs: Seq<Option<VehicleFieldSpec>>, j: int) -> bool {
    let sp = specs[j]->Some_0;
    parsed_spec(sp.openbve) && (sp.openrailsrs == ParserSupport::NotImplemented || sp.openrailsrs
        == ParserSupport::Ignored)
}

/// Row of symbol `j` is openrailsrs-only.
pub open spec fn row_orrs_only(specs: Seq<Option<VehicleFieldSpec>>, j: int) -> bool {
    let sp = specs[j]->Some_0;
    parsed_spec(sp.openrailsrs) && (sp.openbve == ParserSupport::NotImplemented || sp.openbve
        == ParserSupport::NotApplicable)
}

/// Canonical tokens of the applicable rows among the first `n` symbols.
pub open spec fn known_tokens(specs: Seq<Option<VehicleFieldSpec>>, kind: VehicleKind, n: int) -> Set<
    Seq<char>,
> {
    Set::new(|t: Seq<char>| exists|j: int| 0 <= j < n && applicable(specs, kind, j) && #[trigger] row_token(specs, j) == t)
}

/// Canonical tokens of the gap rows (first of their token) among the first `n` symbols.
pub open spec fn gap_tokens(specs: Seq<Option<VehicleFieldSpec>>, kind: VehicleKind, n: int) -> Set<
    Seq<char>,
> {
    Set::new(
        |t: Seq<char>|
            exists|j: int|
                0 <= j < n && first_row(specs, kind, j) && row_gap(specs, j) && #[trigger] row_token(
                    specs,
                    j,
                ) == t,
    )
}

/// Canonical tokens of the openrailsrs-only rows (first of their token) among the first `n` symbols.
pub open spec fn orrs_tokens(specs: Seq<Option<VehicleFieldSpec>>, kind: VehicleKind, n: int) -> Set<
    Seq<char>,
> {
    Set::new(
        |t: Seq<char>|
            exists|j: int|
                0 <= j < n && first_row(specs, kind, j) && row_orrs_only(specs, j)
                    && #[trigger] row_token(specs, j) == t,
    )
}

/// Symbols among the first `n` with no catalog row that are not structural noise.
pub open spec fn unknown_set(symbols: Seq<String>, specs: Seq<Option<VehicleFieldSpec>>, n: int) -> Set<
    Seq<char>,
> {
    Set::new(
        |t: Seq<char>|
            exists|j: int|
                0 <= j < n && specs[j] is None && !structural_noise_spec(encode_utf8(symbols[j]@))
                    && (#[trigger] symbols[j])@ == t,
    )
}

/// The tokens of the entries.
pub open spec fn entry_tokens(v: Seq<FieldAuditEntry>) -> Seq<String> {
    Seq::new(v.len(), |k: int| v[k].token)
}

/// Each entry carries the catalog row of a symbol that is the first
/// applicable one with its token.
pub open spec fn entries_from_rows(
    v: Seq<FieldAuditEntry>,
    specs: Seq<Option<VehicleFieldSpec>>,
    kind: VehicleKind,
) -> bool {
    forall|m: int|
        0 <= m < v.len() ==> exists|j: int|
            0 <= j < specs.len() && first_row(specs, kind, j) && entry_of_row(#[trigger] v[m], specs, j)
}

/// The entry carries the catalog row of symbol `j`.
pub open spec fn entry_of_row(e: FieldAuditEntry, specs: Seq<Option<VehicleFieldSpec>>, j: int) -> bool {
    let sp = specs[j]->Some_0;
    &&& e.token@ == sp.token@
    &&& e.category@ == sp.category@
    &&& e.openrailsrs == sp.openrailsrs
    &&& e.openbve == sp.openbve
    &&& e.notes@ == sp.notes@
}

fn sorted_contains(v: &Vec<String>, s: &String) -> (r: bool)
    ensures
        r == symbol_set(v@).contains(s@),
{
    let mut i: usize = 0;
    while i < v.len()
        invariant
            i <= v@.len(),
            forall|k: int| 0 <= k < i ==> (#[trigger] v@[k])@ != s@,
        decreases v@.len() - i,
    {
        if v[i] == *s {
            assert(symbol_set(v@).contains(s@)) by {
                assert(v@[i as int]@ == s@);
            }
            return true;
        }
        i = i + 1;
    }
    false
}

/// Classify the list-head symbols of a vehicle file of `kind`, each with its
/// catalog row (`specs[i]` for `symbols[i]`, `None` when there is none).
///
/// Rows that do not apply to `kind` are passed over; a canonical token is
/// kept once, from its first row. The known fields, the OpenBVE gaps and the
/// openrailsrs-only fields come from the kept rows; symbols with no row that
/// are not structural noise are unknown. Every list is sorted.
pub fn classify_vehicle_symbols(
    symbols: &[String],
    specs: &[Option<VehicleFieldSpec>],
    kind: VehicleKind,
) -> (r: VehicleSymbolAudit)
    requires
        specs@.len() == symbols@.len(),
        sorted_symbols(symbols@),
    ensures
        sorted_symbols(entry_tokens(r.known_fields@)),
        symbol_set(entry_tokens(r.known_fields@)) == known_tokens(specs@, kind, symbols@.len() as int),
        entries_from_rows(r.known_fields@, specs@, kind),
        sorted_symbols(r.gaps_openbve_parsed_we_dont@),
        symbol_set(r.gaps_openbve_parsed_we_dont@) == gap_tokens(specs@, kind, symbols@.len() as int),
        sorted_symbols(r.orrs_only_in_file@),
        symbol_set(r.orrs_only_in_file@) == orrs_tokens(specs@, kind, symbols@.len() as int),
        sorted_symbols(r.unknown_symbols@),
        symbol_set(r.unknown_symbols@) == unknown_set(symbols@, specs@, symbols@.len() as int),
{
    let ghost sp = specs@;
    let mut seen: Vec<String> = Vec::new();
    let mut gaps: Vec<String> = Vec::new();
    let mut orrs: Vec<String> = Vec::new();
    let mut unknown: Vec<String> = Vec::new();
    let mut i: usize = 0;
    assert(symbol_set(seen@) =~= known_tokens(sp, kind, 0));
    assert(symbol_set(gaps@) =~= gap_tokens(sp, kind, 0));
    assert(symbol_set(orrs@) =~= orrs_tokens(sp, kind, 0));
    assert(symbol_set(unknown@) =~= unknown_set(symbols@, sp, 0));
    while i < symbols.len()
        invariant
            i <= symbols@.len(),
            sp == specs@,
            specs@.len() == symbols@.len(),
            sorted_symbols(seen@),
            sorted_symbols(gaps@),
            sorted_symbols(orrs@),
            sorted_symbols(unknown@),
            symbol_set(seen@) == known_tokens(sp, kind, i as int),
            symbol_set(gaps@) == gap_tokens(sp, kind, i as int),
            symbol_set(orrs@) == orrs_tokens(sp, kind, i as int),
            symbol_set(unknown@) == unknown_set(symbols@, sp, i as int),
        decreases symbols@.len() - i,
    {
        let ghost ii = i as int;
        match specs[i] {
            Some(row) => {
                if applies_to_kind(&row, kind) {
                    let canonical = row.token.to_string();
                    let dup = sorted_contains(&seen, &canonical);
                    proof {
                        assert(applicable(sp, kind, ii));
                        assert(row_token(sp, ii) == canonical@);
                        if !dup {
                            assert forall|k: int| 0 <= k < ii && #[trigger] applicable(sp, kind, k)
                                implies row_token(sp, k) != row_token(sp, ii) by {
                                if row_token(sp, k) == row_token(sp, ii) {
                                    assert(known_tokens(sp, kind, ii).contains(row_token(sp, k)));
                                }
                            }
                            assert(first_row(sp, kind, ii));
                        } else {
                            let t = canonical@;
                            assert(known_tokens(sp, kind, ii).contains(t));
                            let w = choose|j: int| 0 <= j < ii && applicable(sp, kind, j) && #[trigger] row_token(sp, j) == t;
                            assert(!first_row(sp, kind, ii)) by {
                                assert(applicable(sp, kind, w));
                            }
                        }
                    }
                    let gap = is_openbve_gap(&row);
                    let only = is_orrs_only(&row);
                    if !dup {
                        if gap {
                            insert_sorted(&mut gaps, canonical.clone());
                        }
                        if only {
                            insert_sorted(&mut orrs, canonical.clone());
                        }
                    }
                    insert_sorted(&mut seen, canonical);
                    proof {
                        assert(symbol_set(seen@) =~= known_tokens(sp, kind, ii + 1)) by {
                            assert forall|t: Seq<char>| #[trigger] known_tokens(sp, kind, ii + 1).contains(t)
                                implies symbol_set(seen@).contains(t) by {
                                let j = choose|j: int| 0 <= j < ii + 1 && applicable(sp, kind, j) && #[trigger] row_token(sp, j) == t;
                                if j < ii {
                                    assert(known_tokens(sp, kind, ii).contains(t));
                                }
                            }
                            assert forall|t: Seq<char>| symbol_set(seen@).contains(t)
                                implies #[trigger] known_tokens(sp, kind, ii + 1).contains(t) by {
                                if known_tokens(sp, kind, ii).contains(t) {
                                    let j = choose|j: int| 0 <= j < ii && applicable(sp, kind, j) && #[trigger] row_token(sp, j) == t;
                                    assert(0 <= j < ii + 1);
                                } else {
                                    assert(row_token(sp, ii) == t);
                                }
                            }
                        }
                        assert(symbol_set(gaps@) =~= gap_tokens(sp, kind, ii + 1)) by {
                            assert forall|t: Seq<char>| #[trigger] gap_tokens(sp, kind, ii + 1).contains(t)
                                implies symbol_set(gaps@).contains(t) by {
                                let j = choose|j: int| 0 <= j < ii + 1 && first_row(sp, kind, j) && row_gap(sp, j) && #[trigger] row_token(sp, j) == t;
                                if j < ii {
                                    assert(gap_tokens(sp, kind, ii).contains(t));
                                }
                            }
                            assert forall|t: Seq<char>| symbol_set(gaps@).contains(t)
                                implies #[trigger] gap_tokens(sp, kind, ii + 1).contains(t) by {
                                if gap_tokens(sp, kind, ii).contains(t) {
                                    let j = choose|j: int| 0 <= j < ii && first_row(sp, kind, j) && row_gap(sp, j) && #[trigger] row_token(sp, j) == t;
                                    assert(0 <= j < ii + 1);
                                } else {
                                    assert(row_token(sp, ii) == t);
                                }
                            }
                        }
                        assert(symbol_set(orrs@) =~= orrs_tokens(sp, kind, ii + 1)) by {
                            assert forall|t: Seq<char>| #[trigger] orrs_tokens(sp, kind, ii + 1).contains(t)
                                implies symbol_set(orrs@).contains(t) by {
                                let j = choose|j: int| 0 <= j < ii + 1 && first_row(sp, kind, j) && row_orrs_only(sp, j) && #[trigger] row_token(sp, j) == t;
                                if j < ii {
                                    assert(orrs_tokens(sp, kind, ii).contains(t));
                                }
                            }
                            assert forall|t: Seq<char>| symbol_set(orrs@).contains(t)
                                implies #[trigger] orrs_tokens(sp, kind, ii + 1).contains(t) by {
                                if orrs_tokens(sp, kind, ii).contains(t) {
                                    let j = choose|j: int| 0 <= j < ii && first_row(sp, kind, j) && row_orrs_only(sp, j) && #[trigger] row_token(sp, j) == t;
                                    assert(0 <= j < ii + 1);
                                } else {
                                    assert(row_token(sp, ii) == t);
                                }
                            }
                        }
                        assert(symbol_set(unknown@) =~= unknown_set(symbols@, sp, ii + 1)) by {
                            assert forall|t: Seq<char>| #[trigger] unknown_set(symbols@, sp, ii + 1).contains(t)
                                implies symbol_set(unknown@).contains(t) by {
                                let j = choose|j: int| 0 <= j < ii + 1 && sp[j] is None && !structural_noise_spec(encode_utf8(symbols@[j]@)) && (#[trigger] symbols@[j])@ == t;
                                assert(j < ii);
                                assert(unknown_set(symbols@, sp, ii).contains(t));
                            }
                            assert forall|t: Seq<char>| symbol_set(unknown@).contains(t)
                                implies #[trigger] unknown_set(symbols@, sp, ii + 1).contains(t) by {
                                assert(unknown_set(symbols@, sp, ii).contains(t));
                                let j = choose|j: int| 0 <= j < ii && sp[j] is None && !structural_noise_spec(encode_utf8(symbols@[j]@)) && (#[trigger] symbols@[j])@ == t;
                                assert(0 <= j < ii + 1);
                            }
                        }
                    }
                } else {
                    proof {
                        assert(!applicable(sp, kind, ii));
                        lemma_sets_same_when_skipped(symbols@, sp, kind, ii);
                    }
                }
            },
            None => {
                let noise = is_structural_noise(symbols[i].as_str());
                if !noise {
                    insert_sorted(&mut unknown, symbols[i].clone());
                }
                proof {
                    assert(!applicable(sp, kind, ii));
                    lemma_tokens_same_when_skipped(sp, kind, ii);
                    assert(symbol_set(unknown@) =~= unknown_set(symbols@, sp, ii + 1)) by {
                        assert forall|t: Seq<char>| #[trigger] unknown_set(symbols@, sp, ii + 1).contains(t)
                            implies symbol_set(unknown@).contains(t) by {
                            let j = choose|j: int| 0 <= j < ii + 1 && sp[j] is None && !structural_noise_spec(encode_utf8(symbols@[j]@)) && (#[trigger] symbols@[j])@ == t;
                            if j < ii {
                                assert(unknown_set(symbols@, sp, ii).contains(t));
                            }
                        }
                        assert forall|t: Seq<char>| symbol_set(unknown@).contains(t)
                            implies #[trigger] unknown_set(symbols@, sp, ii + 1).contains(t) by {
                            if unknown_set(symbols@, sp, ii).contains(t) {
                                let j = choose|j: int| 0 <= j < ii && sp[j] is None && !structural_noise_spec(encode_utf8(symbols@[j]@)) && (#[trigger] symbols@[j])@ == t;
                                assert(0 <= j < ii + 1);
                            } else {
                                assert(symbols@[ii]@ == t);
                            }
                        }
                    }
                }
            },
        }
        i = i + 1;
    }
    let ghost n = symbols@.len() as int;
    let mut known: Vec<FieldAuditEntry> = Vec::new();
    let mut k: usize = 0;
    while k < seen.len()
        invariant
            k <= seen@.len(),
            sp == specs@,
            n == specs@.len(),
            symbol_set(seen@) == known_tokens(sp, kind, n),
            known@.len() == k,
            forall|m: int| 0 <= m < k ==> (#[trigger] known@[m]).token@ == seen@[m]@,
            entries_from_rows(known@, specs@, kind),
        decreases seen@.len() - k,
    {
        let t = &seen[k];
        proof {
            assert(symbol_set(seen@).contains(t@)) by {
                assert(seen@[k as int]@ == t@);
            }
        }
        let mut j: usize = 0;
        let mut found: Option<usize> = None;
        while j < specs.len()
            invariant
                j <= specs@.len(),
                sp == specs@,
                n == specs@.len(),
                known_tokens(sp, kind, n).contains(t@),
                found matches Some(f) ==> f < n && first_row(sp, kind, f as int) && row_token(sp, f as int) == t@,
                found is None ==> forall|q: int| 0 <= q < j && #[trigger] applicable(sp, kind, q) ==> row_token(sp, q) != t@,
            decreases specs@.len() - j,
        {
            if found.is_none() {
                if let Some(row) = specs[j] {
                    if applies_to_kind(&row, kind) {
                        let tok = row.token.to_string();
                        if tok == *t {
                            found = Some(j);
                        }
                    }
                }
            }
            j = j + 1;
        }
        match found {
            Some(f) => {
                let row = specs[f].unwrap();
                let e = FieldAuditEntry {
                    token: row.token.to_string(),
                    category: row.category.to_string(),
                    openrailsrs: row.openrailsrs,
                    openbve: row.openbve,
                    notes: row.notes.to_string(),
                };
                let ghost prev = known@;
                known.push(e);
                proof {
                    assert(entry_of_row(e, sp, f as int));
                    assert(e.token@ == t@);
                    assert forall|m: int| 0 <= m < k + 1 implies (#[trigger] known@[m]).token@ == seen@[m]@ by {
                        if m < k {
                            assert(known@[m] == prev[m]);
                        }
                    }
                    assert forall|m: int| 0 <= m < known@.len() implies exists|j: int|
                        0 <= j < specs@.len() && first_row(specs@, kind, j) && entry_of_row(#[trigger] known@[m], specs@, j) by {
                        if m < prev.len() {
                            assert(known@[m] == prev[m]);
                            assert(entries_from_rows(prev, specs@, kind));
                        } else {
                            assert(known@[m] == e);
                        }
                    }
                    assert(entries_from_rows(known@, specs@, kind));
                }
            },
            None => {
                proof {
                    let w = choose|q: int| 0 <= q < n && applicable(sp, kind, q) && #[trigger] row_token(sp, q) == t@;
                    assert(applicable(sp, kind, w));
                    assert(false);
                }
            },
        }
        k = k + 1;
    }
    proof {
        let et = entry_tokens(known@);
        assert forall|m: int| 0 <= m < et.len() implies (#[trigger] et[m])@ == seen@[m]@ by {
            assert(et[m] == known@[m].token);
        }
        assert forall|a: int, b: int| 0 <= a < b < et.len() implies bytes_lt(
            encode_utf8(#[trigger] et[a]@),
            encode_utf8(#[trigger] et[b]@),
        ) by {
            assert(et[a]@ == seen@[a]@);
            assert(et[b]@ == seen@[b]@);
        }
        assert forall|c: Seq<char>| symbol_set(et).contains(c) <==> symbol_set(seen@).contains(c) by {
            if symbol_set(et).contains(c) {
                let m = choose|m: int| 0 <= m < et.len() && (#[trigger] et[m])@ == c;
                assert(seen@[m]@ == c);
            }
            if symbol_set(seen@).contains(c) {
                let m = choose|m: int| 0 <= m < seen@.len() && (#[trigger] seen@[m])@ == c;
                assert(et[m]@ == c);
            }
        }
        assert(symbol_set(et) =~= symbol_set(seen@));
    }
    let r = VehicleSymbolAudit {
        known_fields: known,
        gaps_openbve_parsed_we_dont: gaps,
        orrs_only_in_file: orrs,
        unknown_symbols: unknown,
    };
    assert(entries_from_rows(r.known_fields@, specs@, kind)) by {
        assert(r.known_fields@ == known@);
    }
    r
}

proof fn lemma_tokens_same_when_skipped(sp: Seq<Option<VehicleFieldSpec>>, kind: VehicleKind, i: int)
    requires
        0 <= i < sp.len(),
        !applicable(sp, kind, i),
    ensures
        known_tokens(sp, kind, i + 1) == known_tokens(sp, kind, i),
        gap_tokens(sp, kind, i + 1) == gap_tokens(sp, kind, i),
        orrs_tokens(sp, kind, i + 1) == orrs_tokens(sp, kind, i),
{
    assert forall|t: Seq<char>| #[trigger] known_tokens(sp, kind, i + 1).contains(t) implies known_tokens(sp, kind, i).contains(t) by {
        let j = choose|j: int| 0 <= j < i + 1 && applicable(sp, kind, j) && #[trigger] row_token(sp, j) == t;
        assert(j < i);
    }
    assert forall|t: Seq<char>| #[trigger] known_tokens(sp, kind, i).contains(t) implies known_tokens(sp, kind, i + 1).contains(t) by {
        let j = choose|j: int| 0 <= j < i && applicable(sp, kind, j) && #[trigger] row_token(sp, j) == t;
        assert(0 <= j < i + 1);
    }
    assert(known_tokens(sp, kind, i + 1) =~= known_tokens(sp, kind, i));
    assert forall|t: Seq<char>| #[trigger] gap_tokens(sp, kind, i + 1).contains(t) implies gap_tokens(sp, kind, i).contains(t) by {
        let j = choose|j: int| 0 <= j < i + 1 && first_row(sp, kind, j) && row_gap(sp, j) && #[trigger] row_token(sp, j) == t;
        assert(j < i);
    }
    assert forall|t: Seq<char>| #[trigger] gap_tokens(sp, kind, i).contains(t) implies gap_tokens(sp, kind, i + 1).contains(t) by {
        let j = choose|j: int| 0 <= j < i && first_row(sp, kind, j) && row_gap(sp, j) && #[trigger] row_token(sp, j) == t;
        assert(0 <= j < i + 1);
    }
    assert(gap_tokens(sp, kind, i + 1) =~= gap_tokens(sp, kind, i));
    assert forall|t: Seq<char>| #[trigger] orrs_tokens(sp, kind, i + 1).contains(t) implies orrs_tokens(sp, kind, i).contains(t) by {
        let j = choose|j: int| 0 <= j < i + 1 && first_row(sp, kind, j) && row_orrs_only(sp, j) && #[trigger] row_token(sp, j) == t;
        assert(j < i);
    }
    assert forall|t: Seq<char>| #[trigger] orrs_tokens(sp, kind, i).contains(t) implies orrs_tokens(sp, kind, i + 1).contains(t) by {
        let j = choose|j: int| 0 <= j < i && first_row(sp, kind, j) && row_orrs_only(sp, j) && #[trigger] row_token(sp, j) == t;
        assert(0 <= j < i + 1);
    }
    assert(orrs_tokens(sp, kind, i + 1) =~= orrs_tokens(sp, kind, i));
}

proof fn lemma_sets_same_when_skipped(
    symbols: Seq<String>,
    sp: Seq<Option<VehicleFieldSpec>>,
    kind: VehicleKind,
    i: int,
)
    requires
        0 <= i < sp.len(),
        sp.len() == symbols.len(),
        sp[i] is Some,
        !applicable(sp, kind, i),
    ensures
        known_tokens(sp, kind, i + 1) == known_tokens(sp, kind, i),
        gap_tokens(sp, kind, i + 1) == gap_tokens(sp, kind, i),
        orrs_tokens(sp, kind, i + 1) == orrs_tokens(sp, kind, i),
        unknown_set(symbols, sp, i + 1) == unknown_set(symbols, sp, i),
{
    lemma_tokens_same_when_skipped(sp, kind, i);
    assert forall|t: Seq<char>| #[trigger] unknown_set(symbols, sp, i + 1).contains(t) implies unknown_set(symbols, sp, i).contains(t) by {
        let j = choose|j: int| 0 <= j < i + 1 && sp[j] is None && !structural_noise_spec(encode_utf8(symbols[j]@)) && (#[trigger] symbols[j])@ == t;
        assert(j < i);
    }
    assert forall|t: Seq<char>| #[trigger] unknown_set(symbols, sp, i).contains(t) implies unknown_set(symbols, sp, i + 1).contains(t) by {
        let j = choose|j: int| 0 <= j < i && sp[j] is None && !structural_noise_spec(encode_utf8(symbols[j]@)) && (#[trigger] symbols[j])@ == t;
        assert(0 <= j < i + 1);
    }
    assert(unknown_set(symbols, sp, i + 1) =~= unknown_set(symbols, sp, i));
}

} // verus!
