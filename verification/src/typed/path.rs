//! Path (`.pat`) records: the data points of a path and the queries on them.
//!
//! A point's world position is a record of type `W`, which these queries do
//! not read.
use vstd::prelude::*;

verus! {

/// One point along the path.
#[derive(Clone, Debug, PartialEq)]
pub struct PathDataPoint<W> {
    /// TDB `TrackNode` id when present (`TrPathPDP`); native `TrackPDP` has none.
    pub node_id: Option<u32>,
    /// Junction flag (Open Rails `flag1`).
    pub junction_flag: i32,
    /// Invalid / broken-path flag (Open Rails `flag2`).
    pub invalid_flag: i32,
    /// World position from native `TrackPDP` lines, when present.
    pub world: Option<W>,
}

impl<W> PathDataPoint<W> {
    /// Open Rails treats the point as invalid (`invalidFlag == 9`).
    pub fn is_invalid(&self) -> (r: bool)
        ensures
            r == (self.invalid_flag == 9),
    {
        self.invalid_flag == 9
    }
}

/// A path: its name and its ordered data points.
#[derive(Clone, Debug, Default)]
pub struct PathFile<W> {
    pub name: String,
    pub pdps: Vec<PathDataPoint<W>>,
}

/// The node id of the first point from `i` on that has one.
pub open spec fn first_node_from<W>(pdps: Seq<PathDataPoint<W>>, i: int) -> Option<u32>
    decreases pdps.len() - i,
{
    if i < 0 || i >= pdps.len() {
        None
    } else {
        match pdps[i].node_id {
            Some(n) => Some(n),
            None => first_node_from(pdps, i + 1),
        }
    }
}

/// The node id of the last point before `j` that has one.
pub open spec fn last_node_before<W>(pdps: Seq<PathDataPoint<W>>, j: int) -> Option<u32>
    decreases j,
{
    if j <= 0 || j > pdps.len() {
        None
    } else {
        match pdps[j - 1].node_id {
            Some(n) => Some(n),
            None => last_node_before(pdps, j - 1),
        }
    }
}

impl<W> PathFile<W> {
    /// First TDB node id of the path, when points carry node ids.
    pub fn start_node(&self) -> (r: Option<u32>)
        ensures
            r == first_node_from(self.pdps@, 0),
    {
        let mut i: usize = 0;
        while i < self.pdps.len()
            invariant
                i <= self.pdps@.len(),
                first_node_from(self.pdps@, 0) == first_node_from(self.pdps@, i as int),
            decreases self.pdps@.len() - i,
        {
            if let Some(n) = self.pdps[i].node_id {
                return Some(n);
            }
            i = i + 1;
        }
        None
    }

    /// Last TDB node id of the path, when points carry node ids.
    pub fn end_node(&self) -> (r: Option<u32>)
        ensures
            r == last_node_before(self.pdps@, self.pdps@.len() as int),
    {
        let mut j: usize = self.pdps.len();
        while j > 0
            invariant
                j <= self.pdps@.len(),
                last_node_before(self.pdps@, self.pdps@.len() as int) == last_node_before(
                    self.pdps@,
                    j as int,
                ),
            decreases j,
        {
            if let Some(n) = self.pdps[j - 1].node_id {
                return Some(n);
            }
            j = j - 1;
        }
        None
    }

    /// Some point carries a native world position.
    pub fn has_world_pdps(&self) -> (r: bool)
        ensures
            r == exists|i: int| 0 <= i < self.pdps@.len() && (#[trigger] self.pdps@[i]).world is Some,
    {
        let mut i: usize = 0;
        while i < self.pdps.len()
            invariant
                i <= self.pdps@.len(),
                forall|k: int| 0 <= k < i ==> (#[trigger] self.pdps@[k]).world is None,
            decreases self.pdps@.len() - i,
        {
            if self.pdps[i].world.is_some() {
                return true;
            }
            i = i + 1;
        }
        false
    }
}


/// Some point from `k` on carries a node id exactly when a first one is found there.
proof fn lemma_first_node_exists<W>(pdps: Seq<PathDataPoint<W>>, k: int)
    requires
        0 <= k,
    ensures
        first_node_from(pdps, k) is Some <==> exists|i: int|
            k <= i < pdps.len() && (#[trigger] pdps[i]).node_id is Some,
    decreases pdps.len() - k,
{
    if k < pdps.len() {
        lemma_first_node_exists(pdps, k + 1);
        if pdps[k].node_id is None {
            assert forall|i: int| k <= i < pdps.len() && (#[trigger] pdps[i]).node_id is Some implies k
                + 1 <= i by {}
        }
    }
}

/// Some point before `j` carries a node id exactly when a last one is found there.
proof fn lemma_last_node_exists<W>(pdps: Seq<PathDataPoint<W>>, j: int)
    requires
        j <= pdps.len(),
    ensures
        last_node_before(pdps, j) is Some <==> exists|i: int|
            0 <= i < j && (#[trigger] pdps[i]).node_id is Some,
    decreases j,
{
    if j > 0 {
        lemma_last_node_exists(pdps, j - 1);
        if pdps[j - 1].node_id is None {
            assert forall|i: int| 0 <= i < j && (#[trigger] pdps[i]).node_id is Some implies i < j
                - 1 by {}
        }
    }
}

/// A path has a start node exactly when it has an end node: both exist
/// when some point carries a node id, and neither does otherwise.
pub proof fn lemma_start_end_node_agree<W>(path: PathFile<W>)
    ensures
        first_node_from(path.pdps@, 0) is Some <==> exists|i: int|
            0 <= i < path.pdps@.len() && (#[trigger] path.pdps@[i]).node_id is Some,
        first_node_from(path.pdps@, 0) is Some <==> last_node_before(
            path.pdps@,
            path.pdps@.len() as int,
        ) is Some,
{
    lemma_first_node_exists(path.pdps@, 0);
    lemma_last_node_exists(path.pdps@, path.pdps@.len() as int);
}

} // verus!
