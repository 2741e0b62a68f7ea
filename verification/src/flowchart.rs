//! Flowchart connector vocabulary: the side and slot a connector attaches to.

use vstd::prelude::*;
use crate::float_bits::{clamp_unit_bits, spec_clamp_unit};

verus! {

/// Side of a flowchart shape a connector is attached to.
#[derive(Debug, Clone, Copy, PartialEq, Eq, Hash, Structural)]
pub enum FlowchartEdgeSide {
    Top,
    Right,
    Bottom,
    Left,
}

/// Where a connector end sits on a shape: its centre, or slot `slot` of
/// `slots` evenly spread anchors along one side. A snapped position along
/// the side, when set, is kept as the bit pattern of an `f64` in 0..1.
#[derive(Debug, Clone, Copy, PartialEq, Eq, Structural)]
pub enum FlowchartAnchor {
    Center,
    Edge { side: FlowchartEdgeSide, slot: u32, slots: u32, edge_t_bits: Option<u64> },
}

/// An anchor is well formed when an edge anchor's slot is one of its slots.
pub open spec fn anchor_wf(a: FlowchartAnchor) -> bool {
    match a {
        FlowchartAnchor::Center => true,
        FlowchartAnchor::Edge { side: _, slot, slots, edge_t_bits: _ } => slot < slots,
    }
}

impl FlowchartAnchor {
    /// Edge anchor in slot `slot` of `slots`; at least one slot, and the slot
    /// is clamped to the last one.
    pub fn edge(side: FlowchartEdgeSide, slot: u32, slots: u32) -> (a: FlowchartAnchor)
        ensures
            a == (FlowchartAnchor::Edge {
                side,
                slot: if slots <= 1 {
                    0
                } else if slot < slots {
                    slot
                } else {
                    (slots - 1) as u32
                },
                slots: if slots == 0 {
                    1
                } else {
                    slots
                },
                edge_t_bits: None,
            }),
            anchor_wf(a),
    {
        let slots = if slots >= 1 {
            slots
        } else {
            1
        };
        let last = slots - 1;
        let slot = if slot <= last {
            slot
        } else {
            last
        };
        FlowchartAnchor::Edge { side, slot, slots, edge_t_bits: None }
    }

    /// The side of an edge anchor.
    pub fn edge_side(&self) -> (r: Option<FlowchartEdgeSide>)
        ensures
            r == (match *self {
                FlowchartAnchor::Center => None,
                FlowchartAnchor::Edge { side, slot: _, slots: _, edge_t_bits: _ } => Some(side),
            }),
    {
        match self {
            FlowchartAnchor::Center => None,
            FlowchartAnchor::Edge { side, .. } => Some(*side),
        }
    }
}

impl FlowchartAnchor {
    /// Edge anchor in slot `slot` of `slots` (at least one slot, the slot
    /// clamped to the last one) at position `edge_t_bits` along the side,
    /// clamped to 0..1.
    pub fn edge_at_doc_t(side: FlowchartEdgeSide, slot: u32, slots: u32, edge_t_bits: u64) -> (a: FlowchartAnchor)
        ensures
            a == (FlowchartAnchor::Edge {
                side,
                slot: if slots <= 1 {
                    0
                } else if slot < slots {
                    slot
                } else {
                    (slots - 1) as u32
                },
                slots: if slots == 0 {
                    1
                } else {
                    slots
                },
                edge_t_bits: Some(spec_clamp_unit(edge_t_bits)),
            }),
            anchor_wf(a),
    {
        match FlowchartAnchor::edge(side, slot, slots) {
            FlowchartAnchor::Edge { side, slot, slots, .. } => FlowchartAnchor::Edge {
                side,
                slot,
                slots,
                edge_t_bits: Some(clamp_unit_bits(edge_t_bits)),
            },
            FlowchartAnchor::Center => FlowchartAnchor::Center,
        }
    }
}

/// Id that marks the connector being drawn (it takes a slot but is not
/// updated).
pub const PREVIEW_PATH_ID: u128 = 0;

/// A connector end attached to a side of a flowchart shape: the path and
/// which end, the shape and side, its rank along the side (the order of
/// its position there), and the anchor it has now.
#[derive(Debug, Clone, Copy)]
pub struct EdgeEnd {
    pub path_id: u128,
    pub is_start: bool,
    pub node: u128,
    pub side: FlowchartEdgeSide,
    pub rank: u64,
    pub anchor: Option<FlowchartAnchor>,
}

/// A connector end still being drawn toward a side of a shape.
#[derive(Debug, Clone, Copy)]
pub struct PendingEnd {
    pub node: u128,
    pub side: FlowchartEdgeSide,
    pub rank: u64,
}

/// The (shape, side, rank) of every end: the attached ones, then the
/// pending ones.
pub open spec fn slot_keys(ends: Seq<EdgeEnd>, pending: Seq<PendingEnd>) -> Seq<(u128, FlowchartEdgeSide, u64)> {
    ends.map_values(|e: EdgeEnd| (e.node, e.side, e.rank)) + pending.map_values(
        |p: PendingEnd| (p.node, p.side, p.rank),
    )
}

/// Entry `j` of `k` is on the same side of the same shape as entry `i`.
pub open spec fn same_side(k: Seq<(u128, FlowchartEdgeSide, u64)>, i: int, j: int) -> bool {
    k[j].0 == k[i].0 && k[j].1 == k[i].1
}

/// Entry `j` comes before entry `i` on their side: a lower rank, or the
/// same rank and listed earlier (the sort is stable).
pub open spec fn comes_before(k: Seq<(u128, FlowchartEdgeSide, u64)>, i: int, j: int) -> bool {
    same_side(k, i, j) && (k[j].2 < k[i].2 || (k[j].2 == k[i].2 && j < i))
}

/// Number of entries among the first `n` of `k` on the side of entry `i`.
pub open spec fn count_side(k: Seq<(u128, FlowchartEdgeSide, u64)>, i: int, n: int) -> nat
    decreases n,
{
    if n <= 0 {
        0
    } else {
        count_side(k, i, n - 1) + if same_side(k, i, n - 1) {
            1nat
        } else {
            0nat
        }
    }
}

/// Number of entries among the first `n` of `k` that come before entry `i`.
pub open spec fn count_before(k: Seq<(u128, FlowchartEdgeSide, u64)>, i: int, n: int) -> nat
    decreases n,
{
    if n <= 0 {
        0
    } else {
        count_before(k, i, n - 1) + if comes_before(k, i, n - 1) {
            1nat
        } else {
            0nat
        }
    }
}

/// The anchor an end gets in slot `slot` of `slots` on `side`: a snapped
/// position on the same side is kept (clamped to 0..1), otherwise the
/// slot's even spread.
pub open spec fn rebalanced_anchor(side: FlowchartEdgeSide, slot: u32, slots: u32, old: Option<FlowchartAnchor>) -> FlowchartAnchor {
    match old {
        Some(FlowchartAnchor::Edge { side: s0, slot: _, slots: _, edge_t_bits: Some(t) }) if s0 == side =>
            FlowchartAnchor::Edge { side, slot, slots, edge_t_bits: Some(spec_clamp_unit(t)) },
        _ => FlowchartAnchor::Edge { side, slot, slots, edge_t_bits: None },
    }
}

proof fn lemma_counts(k: Seq<(u128, FlowchartEdgeSide, u64)>, i: int, n: int)
    requires
        0 <= i < n <= k.len(),
    ensures
        count_before(k, i, n) < count_side(k, i, n),
        count_side(k, i, n) <= n,
    decreases n,
{
    if n - 1 > i {
        lemma_counts(k, i, n - 1);
    } else {
        lemma_count_le(k, i, n - 1);
    }
}

proof fn lemma_count_le(k: Seq<(u128, FlowchartEdgeSide, u64)>, i: int, n: int)
    requires
        0 <= n <= i,
    ensures
        count_before(k, i, n) <= count_side(k, i, n) <= n,
    decreases n,
{
    if n > 0 {
        lemma_count_le(k, i, n - 1);
    }
}

/// The update for attached end `i`: its path, which end, and its anchor in
/// its slot among the ends on its side.
pub open spec fn rebalanced_end(ends: Seq<EdgeEnd>, pending: Seq<PendingEnd>, i: int) -> (u128, bool, FlowchartAnchor) {
    let k = slot_keys(ends, pending);
    (ends[i].path_id, ends[i].is_start, rebalanced_anchor(
        ends[i].side,
        count_before(k, i, k.len() as int) as u32,
        count_side(k, i, k.len() as int) as u32,
        ends[i].anchor,
    ))
}

/// The updates for the first `n` attached ends, in order, leaving out the
/// end being drawn.
pub open spec fn rebalanced_updates(ends: Seq<EdgeEnd>, pending: Seq<PendingEnd>, n: int) -> Seq<(u128, bool, FlowchartAnchor)>
    decreases n,
{
    if n <= 0 {
        Seq::empty()
    } else if ends[n - 1].path_id != PREVIEW_PATH_ID {
        rebalanced_updates(ends, pending, n - 1).push(rebalanced_end(ends, pending, n - 1))
    } else {
        rebalanced_updates(ends, pending, n - 1)
    }
}

/// Respreads the connector ends along every side of every flowchart shape:
/// on each side the ends (and the ends still being drawn) take slots
/// `0..n` in rank order, `n` being their number; a snapped position on the
/// same side is kept. Returns, for each attached end but the one being
/// drawn, in order, its path, which end, and its new anchor.
pub fn rebalance_edge_slots(ends: &Vec<EdgeEnd>, pending: &Vec<PendingEnd>) -> (r: Vec<(u128, bool, FlowchartAnchor)>)
    requires
        ends@.len() + pending@.len() <= u32::MAX,
    ensures
        r@ == rebalanced_updates(ends@, pending@, ends@.len() as int),
        forall|x: int| 0 <= x < r@.len() ==> anchor_wf(#[trigger] r@[x].2),
{
    let ghost k = slot_keys(ends@, pending@);
    let ne = ends.len();
    let np = pending.len();
    let total = ne + np;
    assert(k.len() == total);
    let mut r: Vec<(u128, bool, FlowchartAnchor)> = Vec::new();
    let mut i: usize = 0;
    while i < ne
        invariant
            ne == ends@.len(),
            np == pending@.len(),
            total == ne + np,
            total <= u32::MAX,
            k == slot_keys(ends@, pending@),
            k.len() == total,
            i <= ne,
            r@ == rebalanced_updates(ends@, pending@, i as int),
            forall|x: int| 0 <= x < r@.len() ==> anchor_wf(#[trigger] r@[x].2),
        decreases ne - i,
    {
        let e = ends[i];
        if e.path_id != PREVIEW_PATH_ID {
            // Count the ends on this side, and those before this one.
            let mut before: u32 = 0;
            let mut side_n: u32 = 0;
            let mut j: usize = 0;
            assert(k[i as int] == (e.node, e.side, e.rank));
            while j < total
                invariant
                    ne == ends@.len(),
                    np == pending@.len(),
                    total == ne + np,
                    total <= u32::MAX,
                    k == slot_keys(ends@, pending@),
                    k.len() == total,
                    i < ne,
                    e == ends@[i as int],
                    k[i as int] == (e.node, e.side, e.rank),
                    j <= total,
                    before == count_before(k, i as int, j as int),
                    side_n == count_side(k, i as int, j as int),
                    side_n <= j,
                    before <= side_n,
                decreases total - j,
            {
                let (node, side, rank) = if j < ne {
                    let o = ends[j];
                    (o.node, o.side, o.rank)
                } else {
                    let o = pending[j - ne];
                    (o.node, o.side, o.rank)
                };
                assert(k[j as int] == (node, side, rank));
                if node == e.node && side == e.side {
                    side_n = side_n + 1;
                    if rank < e.rank || (rank == e.rank && j < i) {
                        before = before + 1;
                    }
                }
                j = j + 1;
            }
            proof {
                lemma_counts(k, i as int, total as int);
            }
            let anchor = match e.anchor {
                Some(FlowchartAnchor::Edge { side: s0, edge_t_bits: Some(t), .. }) if s0 == e.side =>
                    FlowchartAnchor::Edge { side: e.side, slot: before, slots: side_n, edge_t_bits: Some(clamp_unit_bits(t)) },
                _ => FlowchartAnchor::Edge { side: e.side, slot: before, slots: side_n, edge_t_bits: None },
            };
            r.push((e.path_id, e.is_start, anchor));
            assert(r@.last() == rebalanced_end(ends@, pending@, i as int));
        }
        i = i + 1;
    }
    r
}

proof fn lemma_count_mono(k: Seq<(u128, FlowchartEdgeSide, u64)>, i: int, j: int, n: int)
    requires
        0 <= i < k.len(),
        0 <= j < k.len(),
        n <= k.len(),
        comes_before(k, j, i),
    ensures
        count_before(k, i, n) + (if 0 <= i < n { 1nat } else { 0nat }) <= count_before(k, j, n),
        count_side(k, i, n) == count_side(k, j, n),
    decreases n,
{
    if n > 0 {
        lemma_count_mono(k, i, j, n - 1);
    }
}

/// Law: on one side of a shape, an end that comes earlier in rank order
/// gets a lower slot; both count the same number of slots, and every slot
/// is below that number.
pub proof fn lemma_slots_follow_rank(ends: Seq<EdgeEnd>, pending: Seq<PendingEnd>, i: int, j: int)
    requires
        0 <= i < slot_keys(ends, pending).len(),
        0 <= j < slot_keys(ends, pending).len(),
        comes_before(slot_keys(ends, pending), j, i),
    ensures
        ({
            let k = slot_keys(ends, pending);
            &&& count_before(k, i, k.len() as int) < count_before(k, j, k.len() as int)
            &&& count_side(k, i, k.len() as int) == count_side(k, j, k.len() as int)
            &&& count_before(k, j, k.len() as int) < count_side(k, j, k.len() as int)
        }),
{
    let k = slot_keys(ends, pending);
    lemma_count_mono(k, i, j, k.len() as int);
    lemma_counts(k, j, k.len() as int);
}

} // verus!
