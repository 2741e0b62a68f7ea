use vadadee_doc::animation::{FrameSpan, InterpolationMode, KeyframeTrack, StackAnimationFunction};
use vadadee_doc::flowchart::{FlowchartAnchor, FlowchartEdgeSide};
use vadadee_doc::node::BezierHandleMode;

fn bits(v: f64) -> u64 {
    v.to_bits()
}

fn frames(t: &KeyframeTrack) -> Vec<usize> {
    t.keyframes.iter().map(|k| k.frame).collect()
}

#[test]
fn insert_keeps_track_sorted() {
    let mut t = KeyframeTrack::default();
    t.insert(10, bits(1.0));
    t.insert(0, bits(0.0));
    t.insert(5, bits(0.5));
    assert_eq!(frames(&t), vec![0, 5, 10]);
    let k = t.keyframes[1];
    assert_eq!(k.value_bits, bits(0.5));
    assert_eq!(k.interpolation, InterpolationMode::Linear);
    assert_eq!(k.handle_mode, BezierHandleMode::Both);
    assert_eq!(f64::from_bits(k.handle_left_x_bits), -5.0);
    assert_eq!(f64::from_bits(k.handle_left_y_bits), 0.0);
    assert_eq!(f64::from_bits(k.handle_right_x_bits), 5.0);
    assert_eq!(f64::from_bits(k.handle_right_y_bits), 0.0);
}

#[test]
fn insert_at_existing_frame_replaces_value() {
    let mut t = KeyframeTrack::default();
    t.insert(3, bits(1.0));
    t.insert(7, bits(2.0));
    t.insert(3, bits(9.0));
    assert_eq!(frames(&t), vec![3, 7]);
    assert_eq!(t.keyframes[0].value_bits, bits(9.0));
}

#[test]
fn insert_sorts_an_unsorted_track_stably() {
    let mut t = KeyframeTrack::default();
    t.insert(1, bits(1.0));
    t.insert(2, bits(2.0));
    // Reorder by hand, as a loaded file might be.
    t.keyframes.swap(0, 1);
    assert_eq!(frames(&t), vec![2, 1]);
    t.insert(0, bits(0.0));
    assert_eq!(frames(&t), vec![0, 1, 2]);
}

#[test]
fn span_of_a_frame() {
    let mut t = KeyframeTrack::default();
    assert_eq!(t.span_at(4), FrameSpan::NoKeys);
    t.insert(10, bits(1.0));
    t.insert(20, bits(2.0));
    t.insert(30, bits(3.0));
    assert_eq!(t.span_at(0), FrameSpan::First);
    assert_eq!(t.span_at(10), FrameSpan::First);
    assert_eq!(t.span_at(15), FrameSpan::Between(0));
    assert_eq!(t.span_at(20), FrameSpan::Between(0));
    assert_eq!(t.span_at(25), FrameSpan::Between(1));
    assert_eq!(t.span_at(30), FrameSpan::Last);
    assert_eq!(t.span_at(99), FrameSpan::Last);
}

#[test]
fn flowchart_edge_anchor_clamps_slot() {
    assert_eq!(
        FlowchartAnchor::edge(FlowchartEdgeSide::Top, 5, 3),
        FlowchartAnchor::Edge { side: FlowchartEdgeSide::Top, slot: 2, slots: 3, edge_t_bits: None }
    );
    assert_eq!(
        FlowchartAnchor::edge(FlowchartEdgeSide::Left, 4, 0),
        FlowchartAnchor::Edge { side: FlowchartEdgeSide::Left, slot: 0, slots: 1, edge_t_bits: None }
    );
    assert_eq!(FlowchartAnchor::edge(FlowchartEdgeSide::Right, 1, 4).edge_side(), Some(FlowchartEdgeSide::Right));
    assert_eq!(FlowchartAnchor::Center.edge_side(), None);
}

#[test]
fn clearing_an_open_span_keeps_endpoints() {
    let mut t = KeyframeTrack::default();
    for f in [0usize, 5, 10, 15, 20] {
        t.insert(f, bits(f as f64));
    }
    t.clear_keyframes_in_open_span(5, 15);
    assert_eq!(frames(&t), vec![0, 5, 15, 20]);
    t.clear_keyframes_in_open_span(0, 1);
    assert_eq!(frames(&t), vec![0, 5, 15, 20]);
}

#[test]
fn stack_function_span() {
    let sf = StackAnimationFunction { id: 1, start_frame: 10, duration_frames: 20, channels: vec![] };
    assert_eq!(sf.end_frame(), 30);
    assert!(sf.contains_frame(10) && sf.contains_frame(30));
    assert!(!sf.contains_frame(9) && !sf.contains_frame(31));
    let zero = StackAnimationFunction { id: 2, start_frame: 4, duration_frames: 0, channels: vec![] };
    assert_eq!(zero.end_frame(), 5);
    let edge = StackAnimationFunction { id: 3, start_frame: usize::MAX - 1, duration_frames: 9, channels: vec![] };
    assert_eq!(edge.end_frame(), usize::MAX);
}

#[test]
fn insert_replaces_value_and_keeps_others() {
    let mut t = KeyframeTrack::default();
    for (f, v) in [(0usize, 0.0), (4, 4.0), (8, 8.0)] {
        t.insert(f, bits(v));
    }
    let before = t.keyframes.clone();
    t.insert(4, bits(40.0));
    assert_eq!(frames(&t), vec![0, 4, 8]);
    assert_eq!(t.keyframes[1].value_bits, bits(40.0));
    assert_eq!((t.keyframes[0], t.keyframes[2]), (before[0], before[2]));
    t.insert(6, bits(6.0));
    assert_eq!(frames(&t), vec![0, 4, 6, 8]);
    assert!(t.keyframes.windows(2).all(|w| w[0].frame < w[1].frame));
}
