//! Track database (`.tdb`) records and the small decisions its loader makes.
use vstd::prelude::*;
use vstd::string::StringSliceAdditionalSpecFns;

use std::collections::HashMap;

use crate::ascii::{ends_with, ends_with_lit, lit_bytes, lower_eq, lower_seq};

verus! {

/// One connection reference on a junction or vector node (`TrPin` in MSTS).
#[derive(Clone, Debug, PartialEq, Eq)]
pub struct TrPinRef {
    /// Referenced TDB node id (end, junction, or vector).
    pub node_id: u32,
    /// MSTS branch index: 0 = common/stem, 1+ = diverging branches.
    pub branch_index: u8,
}

/// Initial signal aspect parsed from a `SignalItem` (defaults to `Stop` for safety).
#[derive(Clone, Copy, Debug, Default, PartialEq, Eq)]
pub enum SignalAspectKind {
    #[default]
    Stop,
    Caution,
    Clear,
}

/// Lower-case name of each aspect in the `track.toml` `[[signals]]` schema.
pub open spec fn aspect_toml_text(k: SignalAspectKind) -> Seq<char> {
    match k {
        SignalAspectKind::Stop => "stop"@,
        SignalAspectKind::Caution => "caution"@,
        SignalAspectKind::Clear => "clear"@,
    }
}

impl SignalAspectKind {
    /// Lowercase string used in the `track.toml` `[[signals]]` schema.
    pub fn as_toml_str(self) -> (r: &'static str)
        ensures
            r@ == aspect_toml_text(self),
    {
        match self {
            SignalAspectKind::Stop => "stop",
            SignalAspectKind::Caution => "caution",
            SignalAspectKind::Clear => "clear",
        }
    }
}

/// Host vector node for a `TrItem` referenced via `TrItemRefs`.
#[derive(Clone, Copy, Debug, PartialEq, Eq)]
pub struct TrItemHost {
    pub vector_id: u32,
}

/// The two ends a vector node connects: its first two pins, `0` where missing.
pub open spec fn pin_pair_spec(pins: Seq<TrPinRef>) -> (u32, u32) {
    if pins.len() >= 2 {
        (pins[0].node_id, pins[1].node_id)
    } else if pins.len() == 1 {
        (pins[0].node_id, 0)
    } else {
        (0, 0)
    }
}

/// The two ends a vector node connects: its first two pins, `0` where missing.
pub fn vector_pin_pair(pins: &[TrPinRef]) -> (r: (u32, u32))
    ensures
        r == pin_pair_spec(pins@),
{
    if pins.len() >= 2 {
        (pins[0].node_id, pins[1].node_id)
    } else if pins.len() == 1 {
        (pins[0].node_id, 0)
    } else {
        (0, 0)
    }
}

/// A `TrVectorSection` shape index in the range real routes use.
pub fn is_plausible_shape_id(id: i32) -> (r: bool)
    ensures
        r == (20_000 <= id <= 500_000),
{
    20_000 <= id && id <= 500_000
}

/// `|v|` as an integer.
pub open spec fn abs_int(v: i32) -> int {
    if v < 0 {
        -v
    } else {
        v as int
    }
}

/// Tile coordinates in the range real routes use (`|x|` in 1000..=20000, `|z|` in 10000..=20000).
pub fn is_plausible_tile_pair(tile_x: i32, tile_z: i32) -> (r: bool)
    ensures
        r == (1000 <= abs_int(tile_x) <= 20_000 && 10_000 <= abs_int(tile_z) <= 20_000),
{
    let ax: i64 = if tile_x < 0 {
        -(tile_x as i64)
    } else {
        tile_x as i64
    };
    let az: i64 = if tile_z < 0 {
        -(tile_z as i64)
    } else {
        tile_z as i64
    };
    1000 <= ax && ax <= 20_000 && 10_000 <= az && az <= 20_000
}

/// A `TrItemTable` child tag that names an item: ends with `Item`, or is `SignalItem` in any case.
pub fn is_tr_item_kind_tag(tag: &str) -> (r: bool)
    ensures
        r == (ends_with(tag.spec_bytes(), lit_bytes("Item"@)) || lower_seq(tag.spec_bytes())
            == lit_bytes("signalitem"@)),
{
    proof {
        reveal_strlit("Item");
        reveal_strlit("signalitem");
    }
    let t = tag.as_bytes();
    ends_with_lit(t, "Item") || lower_eq(t, "signalitem")
}

/// Initial aspect named by an `InitialAspect` / `SignalAspect` value (any case).
pub open spec fn aspect_from_name_spec(n: Seq<u8>) -> SignalAspectKind {
    let l = lower_seq(n);
    if l == lit_bytes("clear"@) || l == lit_bytes("green"@) || l == lit_bytes("proceed"@) {
        SignalAspectKind::Clear
    } else if l == lit_bytes("caution"@) || l == lit_bytes("yellow"@) || l == lit_bytes(
        "approach"@,
    ) {
        SignalAspectKind::Caution
    } else {
        SignalAspectKind::Stop
    }
}

/// Initial aspect named by an `InitialAspect` / `SignalAspect` value (any case).
///
/// `clear`, `green`, `proceed` → clear; `caution`, `yellow`, `approach` →
/// caution; anything else → stop.
pub fn signal_aspect_from_name(name: &str) -> (r: SignalAspectKind)
    ensures
        r == aspect_from_name_spec(name.spec_bytes()),
{
    proof {
        reveal_strlit("clear");
        reveal_strlit("green");
        reveal_strlit("proceed");
        reveal_strlit("caution");
        reveal_strlit("yellow");
        reveal_strlit("approach");
    }
    let n = name.as_bytes();
    if lower_eq(n, "clear") || lower_eq(n, "green") || lower_eq(n, "proceed") {
        SignalAspectKind::Clear
    } else if lower_eq(n, "caution") || lower_eq(n, "yellow") || lower_eq(n, "approach") {
        SignalAspectKind::Caution
    } else {
        SignalAspectKind::Stop
    }
}


// ── track graph queries ─────────────────────────────────────────────────────

/// Kind of a track database node.
#[derive(Clone, Copy, Debug, PartialEq, Eq, Structural)]
pub enum TrackNodeClass {
    /// Dead end or route entry/exit point.
    End,
    /// Switch (points).
    Junction,
    /// Track section.
    Vector,
}

/// What the graph queries read of a `.tdb` node: its id, its `TrPin`
/// entries, its kind, and (for a vector node) the `TrItemId`s it references.
#[derive(Clone, Debug, PartialEq)]
pub struct TrackNodeLinks {
    /// 1-based sequential id as stored in the `.tdb` file.
    pub id: u32,
    pub pin_refs: Vec<TrPinRef>,
    pub class: TrackNodeClass,
    /// `TrItemId`s referenced via `TrItemRefs` (vector nodes).
    pub item_ids: Vec<u32>,
}

/// The track graph of a `.tdb` file: its nodes and the ids of its `TrItemTable` entries.
#[derive(Clone, Debug, Default, PartialEq)]
pub struct TrackGraph {
    pub nodes: Vec<TrackNodeLinks>,
    pub item_ids: Vec<u32>,
}

/// Index of the first node from `k` on with id `id`.
pub open spec fn node_index_from(nodes: Seq<TrackNodeLinks>, id: u32, k: int) -> Option<int>
    decreases nodes.len() - k,
{
    if k < 0 || k >= nodes.len() {
        None
    } else if nodes[k].id == id {
        Some(k)
    } else {
        node_index_from(nodes, id, k + 1)
    }
}

/// A node found by [`node_index_from`] is one of the nodes, from `k` on.
pub proof fn lemma_node_index_bounds(nodes: Seq<TrackNodeLinks>, id: u32, k: int)
    ensures
        node_index_from(nodes, id, k) matches Some(j) ==> 0 <= k <= j < nodes.len() && nodes[j].id
            == id,
    decreases nodes.len() - k,
{
    if 0 <= k < nodes.len() && nodes[k].id != id {
        lemma_node_index_bounds(nodes, id, k + 1);
    }
}

/// The junction nodes among the first `n`, in order.
pub open spec fn junctions_upto(nodes: Seq<TrackNodeLinks>, n: int) -> Seq<TrackNodeLinks>
    decreases n,
{
    if n <= 0 || n > nodes.len() {
        seq![]
    } else if nodes[n - 1].class == TrackNodeClass::Junction {
        junctions_upto(nodes, n - 1).push(nodes[n - 1])
    } else {
        junctions_upto(nodes, n - 1)
    }
}

/// Some pin of the node refers to `other`.
pub open spec fn pins_to(node: TrackNodeLinks, other: u32) -> bool {
    exists|k: int| 0 <= k < node.pin_refs@.len() && (#[trigger] node.pin_refs@[k]).node_id == other
}

/// `other` is one `TrPin` hop from node `a`: a pin of the node with id `a`
/// refers to `other`, or a pin of the node with id `other` refers to `a`
/// (the first node of each id counts).
pub open spec fn pins_connect_spec(nodes: Seq<TrackNodeLinks>, a: u32, other: u32) -> bool {
    match node_index_from(nodes, a, 0) {
        None => false,
        Some(i) => pins_to(nodes[i], other) || match node_index_from(nodes, other, 0) {
            Some(j) => pins_to(nodes[j], a),
            None => false,
        },
    }
}

/// A single `TrPin` hop connects two nodes that both exist in either
/// direction alike.
pub proof fn lemma_pins_connect_symmetric(graph: TrackGraph, a: u32, b: u32)
    requires
        node_index_from(graph.nodes@, a, 0) is Some,
        node_index_from(graph.nodes@, b, 0) is Some,
    ensures
        pins_connect_spec(graph.nodes@, a, b) == pins_connect_spec(graph.nodes@, b, a),
{
}

/// Number of times `x` occurs in `s`.
pub open spec fn count_of(s: Seq<u32>, x: u32) -> nat
    decreases s.len(),
{
    if s.len() == 0 {
        0
    } else {
        count_of(s.drop_last(), x) + if s.last() == x {
            1nat
        } else {
            0nat
        }
    }
}

/// The ids of the vector nodes among the first `n` that reference item
/// `item`, once per reference, in node order.
pub open spec fn hosts_upto(nodes: Seq<TrackNodeLinks>, item: u32, n: int) -> Seq<u32>
    decreases n,
{
    if n <= 0 || n > nodes.len() {
        seq![]
    } else {
        let node = nodes[n - 1];
        let here = if node.class == TrackNodeClass::Vector {
            Seq::new(count_of(node.item_ids@, item), |i: int| node.id)
        } else {
            seq![]
        };
        hosts_upto(nodes, item, n - 1) + here
    }
}

/// The hosts of `item` among all nodes.
pub open spec fn hosts_of(nodes: Seq<TrackNodeLinks>, item: u32) -> Seq<u32> {
    hosts_upto(nodes, item, nodes.len() as int)
}

fn has_pin_to(node: &TrackNodeLinks, other: u32) -> (r: bool)
    ensures
        r == pins_to(*node, other),
{
    let mut k: usize = 0;
    while k < node.pin_refs.len()
        invariant
            k <= node.pin_refs@.len(),
            forall|q: int| 0 <= q < k ==> (#[trigger] node.pin_refs@[q]).node_id != other,
        decreases node.pin_refs@.len() - k,
    {
        if node.pin_refs[k].node_id == other {
            return true;
        }
        k = k + 1;
    }
    false
}

impl TrackGraph {
    fn node_index(&self, id: u32) -> (r: Option<usize>)
        ensures
            r matches Some(k) ==> node_index_from(self.nodes@, id, 0) == Some(k as int) && k
                < self.nodes@.len(),
            r is None ==> node_index_from(self.nodes@, id, 0) is None,
    {
        let mut k: usize = 0;
        while k < self.nodes.len()
            invariant
                k <= self.nodes@.len(),
                node_index_from(self.nodes@, id, 0) == node_index_from(self.nodes@, id, k as int),
            decreases self.nodes@.len() - k,
        {
            if self.nodes[k].id == id {
                return Some(k);
            }
            k = k + 1;
        }
        None
    }

    /// The first node with the 1-based `.tdb` id `id`.
    pub fn node_by_id(&self, id: u32) -> (r: Option<&TrackNodeLinks>)
        ensures
            match node_index_from(self.nodes@, id, 0) {
                Some(k) => r matches Some(n) && *n == self.nodes@[k],
                None => r is None,
            },
    {
        match self.node_index(id) {
            Some(k) => Some(&self.nodes[k]),
            None => None,
        }
    }

    /// The junction nodes, in order.
    pub fn junction_nodes(&self) -> (r: Vec<&TrackNodeLinks>)
        ensures
            r@.len() == junctions_upto(self.nodes@, self.nodes@.len() as int).len(),
            forall|k: int|
                0 <= k < r@.len() ==> *(#[trigger] r@[k]) == junctions_upto(
                    self.nodes@,
                    self.nodes@.len() as int,
                )[k],
    {
        let mut out: Vec<&TrackNodeLinks> = Vec::new();
        let mut k: usize = 0;
        while k < self.nodes.len()
            invariant
                k <= self.nodes@.len(),
                out@.len() == junctions_upto(self.nodes@, k as int).len(),
                forall|q: int|
                    0 <= q < out@.len() ==> *(#[trigger] out@[q]) == junctions_upto(
                        self.nodes@,
                        k as int,
                    )[q],
            decreases self.nodes@.len() - k,
        {
            if self.nodes[k].class == TrackNodeClass::Junction {
                out.push(&self.nodes[k]);
            }
            k = k + 1;
        }
        out
    }

    /// Index of the first `TrItemTable` entry with id `id`.
    pub fn item_by_id(&self, id: u32) -> (r: Option<usize>)
        ensures
            r matches Some(k) ==> k < self.item_ids@.len() && self.item_ids@[k as int] == id
                && forall|q: int| 0 <= q < k ==> self.item_ids@[q] != id,
            r is None ==> forall|q: int| 0 <= q < self.item_ids@.len() ==> self.item_ids@[q] != id,
    {
        let mut k: usize = 0;
        while k < self.item_ids.len()
            invariant
                k <= self.item_ids@.len(),
                forall|q: int| 0 <= q < k ==> self.item_ids@[q] != id,
            decreases self.item_ids@.len() - k,
        {
            if self.item_ids[k] == id {
                return Some(k);
            }
            k = k + 1;
        }
        None
    }

    /// `other` is one `TrPin` hop from node `node_id`, in either direction.
    pub fn pins_connect(&self, node_id: u32, other_id: u32) -> (r: bool)
        ensures
            r == pins_connect_spec(self.nodes@, node_id, other_id),
    {
        proof {
            lemma_node_index_bounds(self.nodes@, node_id, 0);
            lemma_node_index_bounds(self.nodes@, other_id, 0);
        }
        let node = match self.node_by_id(node_id) {
            Some(n) => n,
            None => return false,
        };
        if has_pin_to(node, other_id) {
            return true;
        }
        match self.node_by_id(other_id) {
            Some(other) => has_pin_to(other, node_id),
            None => false,
        }
    }

    /// Each `TrItemId` that vector nodes reference, with the ids of those
    /// nodes, once per reference, in node order.
    pub fn index_item_hosts(&self) -> (r: HashMap<u32, Vec<u32>>)
        ensures
            forall|item: u32| #[trigger] r@.contains_key(item) <==> hosts_of(self.nodes@, item).len() > 0,
            forall|item: u32| #[trigger] r@.contains_key(item) ==> r@[item]@ == hosts_of(self.nodes@, item),
    {
        broadcast use vstd::std_specs::hash::group_hash_axioms;

        let mut hosts: HashMap<u32, Vec<u32>> = HashMap::new();
        let mut k: usize = 0;
        while k < self.nodes.len()
            invariant
                k <= self.nodes@.len(),
                forall|item: u32| #[trigger] hosts@.contains_key(item) <==> hosts_upto(self.nodes@, item, k as int).len() > 0,
                forall|item: u32| #[trigger] hosts@.contains_key(item) ==> hosts@[item]@ == hosts_upto(self.nodes@, item, k as int),
            decreases self.nodes@.len() - k,
        {
            let node = &self.nodes[k];
            if node.class == TrackNodeClass::Vector {
                let mut q: usize = 0;
                while q < node.item_ids.len()
                    invariant
                        q <= node.item_ids@.len(),
                        k < self.nodes@.len(),
                        *node == self.nodes@[k as int],
                        node.class == TrackNodeClass::Vector,
                        forall|item: u32| #[trigger] hosts@.contains_key(item) <==> (hosts_upto(self.nodes@, item, k as int) + Seq::new(
                            count_of(node.item_ids@.subrange(0, q as int), item),
                            |i: int| node.id,
                        )).len() > 0,
                        forall|item: u32| #[trigger] hosts@.contains_key(item) ==> hosts@[item]@ == hosts_upto(self.nodes@, item, k as int) + Seq::new(
                            count_of(node.item_ids@.subrange(0, q as int), item),
                            |i: int| node.id,
                        ),
                    decreases node.item_ids@.len() - q,
                {
                    let item = node.item_ids[q];
                    let ghost old_map = hosts@;
                    let mut v = match hosts.remove(&item) {
                        Some(v) => v,
                        None => Vec::new(),
                    };
                    v.push(node.id);
                    hosts.insert(item, v);
                    proof {
                        assert(node.item_ids@.subrange(0, q + 1).drop_last() =~= node.item_ids@.subrange(0, q as int));
                        assert forall|x: u32| #[trigger] hosts@.contains_key(x) <==> (hosts_upto(self.nodes@, x, k as int) + Seq::new(
                            count_of(node.item_ids@.subrange(0, q + 1), x),
                            |i: int| node.id,
                        )).len() > 0 by {}
                        assert forall|x: u32| #[trigger] hosts@.contains_key(x) implies hosts@[x]@ == hosts_upto(self.nodes@, x, k as int) + Seq::new(
                            count_of(node.item_ids@.subrange(0, q + 1), x),
                            |i: int| node.id,
                        ) by {
                            if x == item {
                                assert(hosts@[x]@ =~= hosts_upto(self.nodes@, x, k as int) + Seq::new(
                                    count_of(node.item_ids@.subrange(0, q + 1), x),
                                    |i: int| node.id,
                                ));
                            } else {
                                assert(old_map.contains_key(x));
                            }
                        }
                    }
                    q = q + 1;
                }
                proof {
                    assert(node.item_ids@.subrange(0, node.item_ids@.len() as int) =~= node.item_ids@);
                    assert forall|x: u32| #[trigger] hosts@.contains_key(x) implies hosts@[x]@ == hosts_upto(self.nodes@, x, k + 1) by {
                        assert(hosts_upto(self.nodes@, x, k + 1) == hosts_upto(self.nodes@, x, k as int) + Seq::new(
                            count_of(node.item_ids@, x),
                            |i: int| node.id,
                        ));
                    }
                    assert forall|x: u32| #[trigger] hosts@.contains_key(x) <==> hosts_upto(self.nodes@, x, k + 1).len() > 0 by {
                        assert(hosts_upto(self.nodes@, x, k + 1) == hosts_upto(self.nodes@, x, k as int) + Seq::new(
                            count_of(node.item_ids@, x),
                            |i: int| node.id,
                        ));
                    }
                }
            } else {
                proof {
                    assert forall|x: u32| #[trigger] hosts_upto(self.nodes@, x, k + 1) == hosts_upto(self.nodes@, x, k as int) by {
                        assert(hosts_upto(self.nodes@, x, k + 1) =~= hosts_upto(self.nodes@, x, k as int) + Seq::<u32>::empty());
                    }
                }
            }
            k = k + 1;
        }
        hosts
    }

    /// The host vector of a `TrItemId`: the one vector node referencing it,
    /// when exactly one reference exists.
    pub fn host_vector_for_item(&self, item_id: u32) -> (r: Option<u32>)
        ensures
            r == (if hosts_of(self.nodes@, item_id).len() == 1 {
                Some(hosts_of(self.nodes@, item_id)[0])
            } else {
                None::<u32>
            }),
    {
        let mut hosts: Vec<u32> = Vec::new();
        let mut k: usize = 0;
        while k < self.nodes.len()
            invariant
                k <= self.nodes@.len(),
                hosts@ == hosts_upto(self.nodes@, item_id, k as int),
            decreases self.nodes@.len() - k,
        {
            let node = &self.nodes[k];
            let ghost before = hosts@;
            if node.class == TrackNodeClass::Vector {
                let mut q: usize = 0;
                while q < node.item_ids.len()
                    invariant
                        q <= node.item_ids@.len(),
                        *node == self.nodes@[k as int],
                        hosts@ == before + Seq::new(
                            count_of(node.item_ids@.subrange(0, q as int), item_id),
                            |i: int| node.id,
                        ),
                    decreases node.item_ids@.len() - q,
                {
                    let ghost pre = node.item_ids@.subrange(0, q as int);
                    assert(node.item_ids@.subrange(0, q + 1).drop_last() =~= pre);
                    if node.item_ids[q] == item_id {
                        hosts.push(node.id);
                    }
                    q = q + 1;
                    assert(hosts@ =~= before + Seq::new(
                        count_of(node.item_ids@.subrange(0, q as int), item_id),
                        |i: int| node.id,
                    ));
                }
                assert(node.item_ids@.subrange(0, node.item_ids@.len() as int) =~= node.item_ids@);
            } else {
                assert(hosts@ =~= before + Seq::<u32>::empty());
            }
            k = k + 1;
        }
        if hosts.len() == 1 {
            Some(hosts[0])
        } else {
            None
        }
    }

    /// The host vector of a `TrItemId`, as a record.
    pub fn tr_item_host(&self, item_id: u32) -> (r: Option<TrItemHost>)
        ensures
            r == (if hosts_of(self.nodes@, item_id).len() == 1 {
                Some(TrItemHost { vector_id: hosts_of(self.nodes@, item_id)[0] })
            } else {
                None::<TrItemHost>
            }),
    {
        match self.host_vector_for_item(item_id) {
            Some(vector_id) => Some(TrItemHost { vector_id }),
            None => None,
        }
    }
}

} // verus!
