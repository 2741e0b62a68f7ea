use vadadee_doc::flowchart::FlowchartEdgeSide::{Bottom, Left, Right, Top};
use vadadee_doc::float_bits::{clamp_unit_bits, max_one_f32_bits, widen_f32_bits};
use vadadee_doc::flowchart::{
    rebalance_edge_slots, EdgeEnd, FlowchartAnchor, FlowchartEdgeSide, PendingEnd,
};

fn end(path_id: u128, is_start: bool, node: u128, side: FlowchartEdgeSide, rank: u64) -> EdgeEnd {
    EdgeEnd { path_id, is_start, node, side, rank, anchor: None }
}

fn slot_of(a: &FlowchartAnchor) -> (u32, u32) {
    match a {
        FlowchartAnchor::Edge { slot, slots, .. } => (*slot, *slots),
        FlowchartAnchor::Center => panic!("not an edge anchor"),
    }
}

#[test]
fn slots_follow_rank_per_side() {
    let ends = vec![
        end(10, true, 1, Top, 30),
        end(11, false, 1, Top, 10),
        end(12, true, 1, Left, 5),
        end(13, true, 2, Top, 0),
    ];
    // A connector being drawn to the top of shape 1, between the two.
    let pending = vec![PendingEnd { node: 1, side: Top, rank: 20 }];
    let r = rebalance_edge_slots(&ends, &pending);
    assert_eq!(r.len(), 4);
    assert_eq!((r[0].0, r[0].1), (10, true));
    assert_eq!(slot_of(&r[0].2), (2, 3));
    assert_eq!(slot_of(&r[1].2), (0, 3));
    assert_eq!(slot_of(&r[2].2), (0, 1));
    assert_eq!(slot_of(&r[3].2), (0, 1));
}

#[test]
fn equal_ranks_keep_their_order_and_snaps_are_kept() {
    let mut a = end(20, true, 7, Bottom, 4);
    a.anchor = Some(FlowchartAnchor::Edge { side: Bottom, slot: 0, slots: 1, edge_t_bits: Some(1.5f64.to_bits()) });
    let mut b = end(21, false, 7, Bottom, 4);
    b.anchor = Some(FlowchartAnchor::Edge { side: Right, slot: 0, slots: 1, edge_t_bits: Some(0.25f64.to_bits()) });
    // The id of the connector being drawn is never updated.
    let c = end(0, true, 7, Bottom, 1);
    let r = rebalance_edge_slots(&vec![a, b, c], &vec![]);
    assert_eq!(r.len(), 2);
    assert_eq!(r[0].2, FlowchartAnchor::Edge { side: Bottom, slot: 1, slots: 3, edge_t_bits: Some(1.0f64.to_bits()) });
    assert_eq!(r[1].2, FlowchartAnchor::Edge { side: Bottom, slot: 2, slots: 3, edge_t_bits: None });
}

#[test]
fn edge_position_clamps_to_unit() {
    assert_eq!(f64::from_bits(clamp_unit_bits((-0.5f64).to_bits())), 0.0);
    assert_eq!(f64::from_bits(clamp_unit_bits(0.5f64.to_bits())), 0.5);
    assert_eq!(f64::from_bits(clamp_unit_bits(7.0f64.to_bits())), 1.0);
    assert!(f64::from_bits(clamp_unit_bits(f64::NAN.to_bits())).is_nan());
    let a = FlowchartAnchor::edge_at_doc_t(FlowchartEdgeSide::Top, 5, 3, 2.0f64.to_bits());
    assert_eq!(a, FlowchartAnchor::Edge { side: FlowchartEdgeSide::Top, slot: 2, slots: 3, edge_t_bits: Some(1.0f64.to_bits()) });
}

#[test]
fn f32_settings_widen_exactly() {
    for v in [0.0f32, -0.0, 1.0, -2.5, 794.0, 1e-40, -3e-45, f32::MAX, f32::MIN_POSITIVE, f32::INFINITY, f32::NEG_INFINITY] {
        assert_eq!(widen_f32_bits(v.to_bits()), (v as f64).to_bits(), "{v}");
    }
    assert!(f64::from_bits(widen_f32_bits(f32::NAN.to_bits())).is_nan());
    assert_eq!(f32::from_bits(max_one_f32_bits(0.5f32.to_bits())), 1.0);
    assert_eq!(f32::from_bits(max_one_f32_bits(3.0f32.to_bits())), 3.0);
    assert_eq!(f32::from_bits(max_one_f32_bits((-7.0f32).to_bits())), 1.0);
    assert_eq!(f32::from_bits(max_one_f32_bits(f32::NAN.to_bits())), 1.0);
    assert_eq!(f32::from_bits(max_one_f32_bits(f32::INFINITY.to_bits())), f32::INFINITY);
}
