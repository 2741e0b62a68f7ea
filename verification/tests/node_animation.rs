use vadadee_doc::animation::{FrameSpan, StackAnimChannel, StackAnimationFunction};
use vadadee_doc::node_animation::{track_slot, ChannelStarts, NodeAnimation, TrackSlot};

fn bits(v: f64) -> u64 {
    v.to_bits()
}

#[test]
fn labels_address_tracks() {
    assert_eq!(track_slot("pos_x"), TrackSlot::Named(0));
    assert_eq!(track_slot("stroke_a"), TrackSlot::Named(12));
    assert_eq!(track_slot("geom_3"), TrackSlot::Geom(3));
    assert_eq!(track_slot("geom_+7"), TrackSlot::Geom(7));
    assert_eq!(track_slot("geom_x"), TrackSlot::Missing);
    assert_eq!(track_slot("param:abc"), TrackSlot::Param);
    assert_eq!(track_slot("param"), TrackSlot::Missing);
    assert_eq!(track_slot("scale"), TrackSlot::Missing);
}

#[test]
fn param_track_insert_and_lookup() {
    let mut anim = NodeAnimation::default();
    let lbl = "param:00000000-0000-0000-0000-000000000001";
    assert!(anim.get_track(lbl).is_none());
    anim.ensure_track(lbl);
    assert!(anim.get_track(lbl).unwrap().keyframes.is_empty());
    anim.get_track_mut(lbl).unwrap().insert(0, bits(1.0));
    anim.get_track_mut(lbl).unwrap().insert(10, bits(11.0));
    let t = anim.get_track(lbl).unwrap();
    assert_eq!(t.keyframes.len(), 2);
    assert_eq!(t.keyframes[1].value_bits, bits(11.0));
    assert_eq!(t.span_at(5), FrameSpan::Between(0));
    assert_eq!(anim.param_tracks.len(), 1);
}

#[test]
fn geometry_tracks_grow_on_write() {
    let mut anim = NodeAnimation::default();
    assert!(anim.get_track("geom_2").is_none());
    anim.get_track_mut("geom_2").unwrap().insert(4, bits(2.0));
    assert_eq!(anim.geom_tracks.len(), 3);
    assert!(anim.geom_tracks[0].keyframes.is_empty());
    assert_eq!(anim.get_track("geom_2").unwrap().keyframes[0].frame, 4);
    anim.get_track_mut("pos_y").unwrap().insert(1, bits(5.0));
    assert_eq!(anim.pos_y.keyframes.len(), 1);
    assert!(anim.get_track_mut("nope").is_none());
}

#[test]
fn removing_stack_functions() {
    let mut anim = NodeAnimation::default();
    for id in [1u128, 2, 1] {
        anim.stack_functions.push(StackAnimationFunction { id, start_frame: 0, duration_frames: 10, channels: vec![] });
    }
    assert!(anim.remove_stack_function(1));
    assert_eq!(anim.stack_functions.len(), 1);
    assert_eq!(anim.stack_functions[0].id, 2);
    assert!(!anim.remove_stack_function(9));
}

#[test]
fn stack_start_keyframes_are_added_once() {
    let mut anim = NodeAnimation::default();
    anim.get_track_mut("pos_x").unwrap().insert(5, bits(42.0));
    let ch = |track: &str, v: f64| StackAnimChannel {
        track: track.to_string(),
        expr: String::new(),
        start_value_bits: bits(v),
        last_error: None,
    };
    anim.stack_functions.push(StackAnimationFunction {
        id: 1,
        start_frame: 5,
        duration_frames: 10,
        channels: vec![ch("pos_x", 1.0), ch("geom_1", 2.0), ch("nothing", 3.0)],
    });
    anim.ensure_stack_start_keyframes();
    // An existing keyframe at the start frame keeps its value.
    assert_eq!(anim.pos_x.keyframes.len(), 1);
    assert_eq!(anim.pos_x.keyframes[0].value_bits, bits(42.0));
    // A missing one is added with the channel's start value.
    assert_eq!(anim.geom_tracks.len(), 2);
    assert_eq!(anim.geom_tracks[1].keyframes.len(), 1);
    assert_eq!(anim.geom_tracks[1].keyframes[0].frame, 5);
    assert_eq!(anim.geom_tracks[1].keyframes[0].value_bits, bits(2.0));
    // Running it again changes nothing.
    anim.ensure_stack_start_keyframes();
    assert_eq!(anim.geom_tracks[1].keyframes.len(), 1);
}

#[test]
fn clearing_spans_by_label() {
    let mut anim = NodeAnimation::default();
    for f in [0usize, 3, 6, 9] {
        anim.get_track_mut("rotation").unwrap().insert(f, bits(f as f64));
        anim.get_track_mut("opacity").unwrap().insert(f, bits(1.0));
    }
    anim.clear_keyframes_in_open_span(&["rotation", "param:x"], 0, 9);
    let frames: Vec<usize> = anim.rotation.keyframes.iter().map(|k| k.frame).collect();
    assert_eq!(frames, vec![0, 9]);
    assert_eq!(anim.opacity.keyframes.len(), 4);
    // The parameter track was created (empty) on the way.
    assert!(anim.get_track("param:x").unwrap().keyframes.is_empty());
    anim.clear_keyframes_under_stack(&["opacity"], 3, 9);
    let frames: Vec<usize> = anim.opacity.keyframes.iter().map(|k| k.frame).collect();
    assert_eq!(frames, vec![0, 3, 9]);
}

fn channel(track: &str, v: f64) -> StackAnimChannel {
    StackAnimChannel { track: track.to_string(), expr: String::new(), start_value_bits: bits(v), last_error: None }
}

fn stack(id: u128, start_frame: usize, channels: Vec<StackAnimChannel>) -> StackAnimationFunction {
    StackAnimationFunction { id, start_frame, duration_frames: 10, channels }
}

fn starts(x: f64, y: f64, r: f64, g: f64, b: f64, a: f64) -> ChannelStarts {
    ChannelStarts { x_bits: bits(x), y_bits: bits(y), r_bits: bits(r), g_bits: bits(g), b_bits: bits(b), a_bits: bits(a) }
}

#[test]
fn channel_starts_by_track() {
    let sf = stack(1, 0, vec![channel("pos_x", 3.0), channel("pos_y", 4.0), channel("color_r", 0.5), channel("color_a", 0.25)]);
    assert_eq!(sf.channel_starts(), starts(3.0, 4.0, 0.5, 0.0, 0.0, 0.25));
    // No channels: zeros, opaque alpha.
    assert_eq!(stack(2, 0, vec![]).channel_starts(), starts(0.0, 0.0, 0.0, 0.0, 0.0, 1.0));
}

#[test]
fn channel_starts_from_geometry_and_order() {
    // Even geometry indices are X-like, odd ones Y-like; the first of each wins.
    let sf = stack(1, 0, vec![channel("geom_2", 7.0), channel("geom_5", 8.0), channel("geom_4", 9.0)]);
    assert_eq!(sf.channel_starts(), starts(7.0, 8.0, 0.0, 0.0, 0.0, 1.0));
    // pos_x overrides a geometry X; without a Y source the second channel is y.
    let sf = stack(1, 0, vec![channel("geom_0", 1.0), channel("pos_x", 2.0), channel("geom_4", 5.0)]);
    assert_eq!(sf.channel_starts(), starts(2.0, 2.0, 0.0, 0.0, 0.0, 1.0));
    // The last pos_x channel wins.
    let sf = stack(1, 0, vec![channel("pos_x", 1.0), channel("pos_x", 6.0), channel("geom_+3", 4.0)]);
    assert_eq!(sf.channel_starts(), starts(6.0, 4.0, 0.0, 0.0, 0.0, 1.0));
    // A single channel of another kind feeds both x and y.
    assert_eq!(stack(1, 0, vec![channel("rotation", 9.0)]).channel_starts(), starts(9.0, 9.0, 0.0, 0.0, 0.0, 1.0));
    // Two unrelated channels: first is x, second is y.
    let sf = stack(1, 0, vec![channel("opacity", 0.5), channel("stroke_width", 3.0)]);
    assert_eq!(sf.channel_starts(), starts(0.5, 3.0, 0.0, 0.0, 0.0, 1.0));
}

#[test]
fn sync_pulls_start_values_from_keyframes() {
    let mut anim = NodeAnimation::default();
    anim.get_track_mut("pos_x").unwrap().insert(10, bits(5.0));
    anim.get_track_mut("pos_x").unwrap().insert(20, bits(6.0));
    anim.get_track_mut("geom_1").unwrap().insert(10, bits(7.5));
    anim.stack_functions.push(stack(1, 10, vec![channel("pos_x", 0.0), channel("color_r", 0.3), channel("geom_1", 1.0)]));
    anim.stack_functions.push(stack(2, 20, vec![channel("pos_x", 0.0), channel("bogus", 2.0)]));
    anim.sync_stack_starts_from_keyframes();
    let v = |i: usize, j: usize| anim.stack_functions[i].channels[j].start_value_bits;
    assert_eq!(v(0, 0), bits(5.0));
    assert_eq!(v(0, 1), bits(0.3));
    assert_eq!(v(0, 2), bits(7.5));
    assert_eq!(v(1, 0), bits(6.0));
    assert_eq!(v(1, 1), bits(2.0));
    assert_eq!(anim.pos_x.keyframes.len(), 2);
}

#[test]
fn sync_writes_to_first_stack_with_the_identity() {
    // Two stacks share an identity: the second one's update lands on the first.
    let mut anim = NodeAnimation::default();
    anim.get_track_mut("pos_y").unwrap().insert(3, bits(1.5));
    anim.stack_functions.push(stack(4, 0, vec![channel("pos_y", 0.0)]));
    anim.stack_functions.push(stack(4, 3, vec![channel("pos_y", 0.0)]));
    anim.sync_stack_starts_from_keyframes();
    assert_eq!(anim.stack_functions[0].channels[0].start_value_bits, bits(1.5));
    assert_eq!(anim.stack_functions[1].channels[0].start_value_bits, bits(0.0));
}

#[test]
fn removing_a_stack_drops_its_anchor_keyframes() {
    let mut anim = NodeAnimation::default();
    for f in [0usize, 5, 7, 15, 20] {
        anim.get_track_mut("pos_x").unwrap().insert(f, bits(f as f64));
        anim.get_track_mut("opacity").unwrap().insert(f, bits(1.0));
    }
    // Stack 1 spans 5..=15 on pos_x and opacity; stack 2 starts at 15 on pos_x.
    anim.stack_functions.push(stack(1, 5, vec![channel("pos_x", 0.0), channel("opacity", 0.5)]));
    anim.stack_functions.push(StackAnimationFunction { id: 2, start_frame: 15, duration_frames: 5, channels: vec![channel("pos_x", 9.0)] });
    assert!(anim.remove_stack_function_with_keyframes(1));
    assert_eq!(anim.stack_functions.len(), 1);
    assert_eq!(anim.stack_functions[0].id, 2);
    // pos_x: 5 goes; 15 and 20 are stack 2's start and end and stay.
    let frames: Vec<usize> = anim.pos_x.keyframes.iter().map(|k| k.frame).collect();
    assert_eq!(frames, vec![0, 7, 15, 20]);
    // opacity: both ends of stack 1 go.
    let frames: Vec<usize> = anim.opacity.keyframes.iter().map(|k| k.frame).collect();
    assert_eq!(frames, vec![0, 7, 20]);
    // Unknown identity: nothing happens.
    assert!(!anim.remove_stack_function_with_keyframes(9));
    assert_eq!(anim.stack_functions.len(), 1);
}

#[test]
fn removing_a_stack_restores_remaining_start_keys() {
    let mut anim = NodeAnimation::default();
    anim.get_track_mut("rotation").unwrap().insert(3, bits(2.0));
    // Both stacks start at 3 on rotation; removing one keeps the other's anchor.
    anim.stack_functions.push(stack(1, 3, vec![channel("rotation", 0.0)]));
    anim.stack_functions.push(stack(2, 3, vec![channel("rotation", 4.0)]));
    assert!(anim.remove_stack_function_with_keyframes(1));
    assert_eq!(anim.rotation.keyframes.len(), 1);
    assert_eq!(anim.rotation.keyframes[0].value_bits, bits(2.0));
    // With no other stack there, the anchor goes and the start key comes back
    // from the remaining stacks only.
    let mut anim = NodeAnimation::default();
    anim.get_track_mut("rotation").unwrap().insert(3, bits(2.0));
    anim.stack_functions.push(stack(1, 3, vec![channel("rotation", 0.0)]));
    anim.stack_functions.push(stack(2, 30, vec![channel("rotation", 4.0)]));
    assert!(anim.remove_stack_function_with_keyframes(1));
    let keys: Vec<(usize, u64)> = anim.rotation.keyframes.iter().map(|k| (k.frame, k.value_bits)).collect();
    assert_eq!(keys, vec![(30, bits(4.0))]);
}

#[test]
fn clearing_creates_missing_tracks_empty() {
    let mut anim = NodeAnimation::default();
    anim.get_track_mut("pos_x").unwrap().insert(4, bits(1.0));
    anim.clear_keyframes_in_open_span(&["geom_3", "param:y"], 0, 9);
    assert_eq!(anim.geom_tracks.len(), 4);
    assert!(anim.geom_tracks.iter().all(|t| t.keyframes.is_empty()));
    assert!(anim.get_track("param:y").unwrap().keyframes.is_empty());
    assert_eq!(anim.pos_x.keyframes.len(), 1);
}
