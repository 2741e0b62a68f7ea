use vadadee_doc::av_clip::AvClip;
use vadadee_doc::timeline::lowest_free_row;
use vadadee_doc::document::{
    default_capture_bitrate_kbps, default_capture_fps, default_is_renderer, default_true, AvRole,
    Document, Layer, LayerKind, PageUnit,
};
use vadadee_doc::node_store::{Node, NodeKind, NodeStore};

fn doc_with(layers: Vec<Layer>, active: usize) -> Document {
    Document { title: "Untitled".to_string(), layers, active_layer_index: active, page_unit: PageUnit::Px }
}

fn image(id: u128, nodes: Vec<u128>) -> Layer {
    Layer::new_image(id, format!("L{id}"), true, false, nodes)
}

#[test]
fn layer_defaults() {
    assert!(default_true());
    assert_eq!(default_capture_fps(), 60);
    assert_eq!(default_capture_bitrate_kbps(), 0);
    assert!(default_is_renderer());
    assert_eq!(PageUnit::default(), PageUnit::Px);
    assert_eq!(LayerKind::default(), LayerKind::Image);
    assert_eq!(AvRole::default(), AvRole::Video);
}

#[test]
fn layer_constructors() {
    let l = Layer::new_image(7, "Base".to_string(), false, true, vec![1, 2]);
    assert_eq!((l.id, l.name.as_str(), l.visible, l.locked), (7, "Base", false, true));
    assert_eq!(l.nodes, vec![1, 2]);
    assert_eq!(l.kind, LayerKind::Image);
    assert!(l.is_renderer && l.capture_cursor && l.capture_audio && !l.screen_recording);
    assert_eq!(l.capture_fps, 60);

    let sr = Layer::new_screen_record_layer(8, "Rec".to_string());
    assert_eq!(sr.kind, LayerKind::ScreenRecord);
    assert!(!sr.is_renderer);

    let ne = Layer::new_node_editor_layer(9, "Graph".to_string());
    assert_eq!(ne.kind, LayerKind::NodeEditor);
    assert_eq!(ne.node_graph.as_ref().unwrap().nodes.len(), 1);

    let mut img = Layer::new_image(10, "x".to_string(), true, false, vec![]);
    img.ensure_node_graph();
    assert!(img.node_graph.is_none());
    let mut ne2 = Layer::new_flowchart_layer(11, "f".to_string());
    ne2.kind = LayerKind::NodeEditor;
    ne2.ensure_node_graph();
    assert!(ne2.node_graph.is_some());
}

#[test]
fn av_layer_role_follows_media() {
    assert_eq!(Layer::new_av_layer(1, "a".to_string(), "/m/song.MP3".to_string()).av_role, AvRole::Audio);
    assert_eq!(Layer::new_av_layer(1, "a".to_string(), "/m/clip.mp4".to_string()).av_role, AvRole::Video);
    assert_eq!(Layer::new_av_layer(1, "a".to_string(), String::new()).av_role, AvRole::Video);
    let l = Layer::new_empty_av_layer_with_role(2, "daw".to_string(), AvRole::Daw);
    assert_eq!((l.kind, l.av_role), (LayerKind::AV, AvRole::Daw));
    assert!(l.video_path.is_empty());
}

#[test]
fn append_and_remove_nodes() {
    let mut d = doc_with(vec![image(1, vec![10, 11]), image(2, vec![11, 12])], 1);
    d.append_to_active_layer(13);
    assert_eq!(d.layers[1].nodes, vec![11, 12, 13]);
    assert_eq!(d.layers[0].nodes, vec![10, 11]);
    d.remove_from_layers(11);
    assert_eq!(d.layers[0].nodes, vec![10]);
    assert_eq!(d.layers[1].nodes, vec![12, 13]);
    // No active layer: nothing happens.
    d.active_layer_index = 5;
    d.append_to_active_layer(99);
    assert_eq!(d.layers[0].nodes, vec![10]);
    assert_eq!(d.layers[1].nodes, vec![12, 13]);
    assert!(d.active_layer().is_none());
}

#[test]
fn remove_undoes_append() {
    let mut d = doc_with(vec![image(1, vec![10, 11]), image(2, vec![12])], 0);
    d.append_to_active_layer(42);
    d.remove_from_layers(42);
    assert_eq!(d.layers[0].nodes, vec![10, 11]);
    assert_eq!(d.layers[1].nodes, vec![12]);
}

#[test]
fn ordered_ids_skip_hidden_layers() {
    let mut hidden = image(2, vec![20, 21]);
    hidden.visible = false;
    let d = doc_with(vec![image(1, vec![10, 11]), hidden, image(3, vec![30])], 0);
    assert_eq!(d.ordered_node_ids(), vec![10, 11, 30]);
}

#[test]
fn adding_layers_returns_their_index() {
    let mut d = doc_with(vec![image(1, vec![])], 0);
    assert_eq!(d.add_layer("Second"), 1);
    assert_eq!(d.layers[1].name, "Second");
    assert_eq!(d.layers[1].kind, LayerKind::Image);
    assert_eq!(d.add_flowchart_layer("Flow"), 2);
    assert_eq!(d.layers[2].kind, LayerKind::Flowchart);
    assert_eq!(d.add_screen_record_layer("Rec"), 3);
    assert_eq!(d.add_node_editor_layer("NE"), 4);
    assert!(d.layers[4].node_graph.is_some());
    assert_eq!(d.add_empty_av_layer("AV"), 5);
    assert_eq!(d.layers[5].av_role, AvRole::Video);
    assert_eq!(d.active_layer_index, 0);
    assert_ne!(d.layers[1].id, d.layers[2].id);
}

#[test]
fn shading_layer_goes_to_bottom() {
    let mut d = doc_with(vec![image(1, vec![]), image(2, vec![])], 1);
    assert_eq!(d.add_shading_layer("Vignette"), 0);
    assert_eq!(d.layers.len(), 3);
    assert_eq!(d.layers[0].kind, LayerKind::Shading);
    assert_eq!(d.layers[0].name, "Vignette");
    assert_eq!((d.layers[1].id, d.layers[2].id), (1, 2));
    assert_eq!(d.active_layer_index, 0);
}

#[test]
fn ensure_av_role_layer_prefers_active_then_first_then_creates() {
    let mut d = doc_with(vec![image(1, vec![])], 0);
    assert_eq!(d.find_av_role_layer(AvRole::Audio), None);
    let a = d.ensure_av_role_layer(AvRole::Audio, "Audio");
    assert_eq!(a, 1);
    assert_eq!(d.layers.len(), 2);
    assert_eq!((d.layers[1].kind, d.layers[1].av_role), (LayerKind::AV, AvRole::Audio));
    assert_eq!(d.layers[1].name, "Audio");
    assert_eq!(d.active_layer_index, 1);
    // Asking again changes nothing.
    assert_eq!(d.ensure_av_role_layer(AvRole::Audio, "Other"), 1);
    assert_eq!(d.layers.len(), 2);
    // A later matching layer is not preferred over the first one ...
    d.add_empty_av_layer_with_role("Audio 2", AvRole::Audio);
    d.active_layer_index = 0;
    assert_eq!(d.find_av_role_layer(AvRole::Audio), Some(1));
    assert_eq!(d.ensure_av_role_layer(AvRole::Audio, "x"), 1);
    // ... unless it is the active one.
    d.active_layer_index = 2;
    assert_eq!(d.ensure_av_role_layer(AvRole::Audio, "x"), 2);
    assert_eq!(d.layers.len(), 3);
}

#[test]
fn move_node_clamps_and_reports() {
    let mut d = doc_with(vec![image(1, vec![10, 11, 12, 13])], 0);
    assert!(d.move_node_in_active_layer(10, 2));
    assert_eq!(d.layers[0].nodes, vec![11, 12, 10, 13]);
    assert!(d.move_node_in_active_layer(10, 100));
    assert_eq!(d.layers[0].nodes, vec![11, 12, 13, 10]);
    assert!(!d.move_node_in_active_layer(10, 1));
    assert!(d.move_node_in_active_layer(10, -100));
    assert_eq!(d.layers[0].nodes, vec![10, 11, 12, 13]);
    assert!(!d.move_node_in_active_layer(99, 1));
    assert!(!d.move_node_in_active_layer(12, 0));
    d.active_layer_index = 3;
    assert!(!d.move_node_in_active_layer(12, 1));
    assert_eq!(d.layers[0].nodes, vec![10, 11, 12, 13]);
}

#[test]
fn output_proxy_layer_lookup() {
    let mut ne = Layer::new_node_editor_layer(5, "NE".to_string());
    ne.ne_output_proxy = Some(77);
    let mut wrong = image(6, vec![]);
    wrong.ne_output_proxy = Some(77);
    let d = doc_with(vec![wrong, image(1, vec![]), ne], 0);
    assert_eq!(d.ne_output_proxy_layer_index(77), Some(2));
    assert_eq!(d.ne_output_proxy_layer_index(78), None);
}

/// A project with one image layer (id 1) and an active node-editor layer.
fn ne_project() -> Document {
    let mut doc = doc_with(vec![image(1, vec![])], 0);
    let idx = doc.add_node_editor_layer("NE");
    doc.active_layer_index = idx;
    doc
}

fn is_blank_image(n: &Node) -> bool {
    matches!(n.kind, NodeKind::Image { ref bytes, .. } if bytes.is_empty())
}

#[test]
fn ensure_ne_output_proxy_creates_and_reuses() {
    let mut pf = ne_project();
    let mut nodes = NodeStore::default();
    let i = pf.active_layer_index;
    let id1 = pf.layers[i].ensure_ne_output_proxy(&mut nodes).expect("proxy");
    let id2 = pf.layers[i].ensure_ne_output_proxy(&mut nodes).expect("proxy again");
    assert_eq!(id1, id2);
    assert_eq!(pf.layers[i].ne_output_proxy, Some(id1));
    assert!(nodes.get(id1).is_some());
    assert!(pf.layers[i].nodes.contains(&id1));
    let n = nodes.get(id1).unwrap();
    assert_eq!(n.name, "Output Object");
    assert!(is_blank_image(n));
}

#[test]
fn ensure_ne_output_proxy_rebinds_stale_id() {
    let mut pf = ne_project();
    let mut nodes = NodeStore::default();
    let i = pf.active_layer_index;
    let id1 = pf.layers[i].ensure_ne_output_proxy(&mut nodes).unwrap();
    // Orphaned pointer: the node is gone but the field is still set.
    nodes.remove(id1);
    pf.layers[i].nodes.retain(|n| *n != id1);
    pf.layers[i].ne_output_proxy = Some(id1);
    let id2 = pf.layers[i].ensure_ne_output_proxy(&mut nodes).unwrap();
    assert_ne!(id1, id2);
    assert!(nodes.get(id2).is_some());
    assert_eq!(pf.layers[i].ne_output_proxy, Some(id2));
}

#[test]
fn ensure_ne_output_proxy_reuses_existing_named_image() {
    let mut pf = ne_project();
    let mut nodes = NodeStore::default();
    let i = pf.active_layer_index;
    let mut node = Node::image(10.0f64.to_bits(), 20.0f64.to_bits(), 100.0f64.to_bits(), 80.0f64.to_bits(), Vec::new());
    node.name = "Output Object".into();
    let nid = node.id;
    nodes.insert(node);
    pf.layers[i].nodes.push(nid);
    // Field unset: the existing node is adopted.
    assert!(pf.layers[i].ne_output_proxy.is_none());
    let got = pf.layers[i].ensure_ne_output_proxy(&mut nodes).unwrap();
    assert_eq!(got, nid);
    assert_eq!(pf.layers[i].ne_output_proxy, Some(nid));
}

#[test]
fn ensure_ne_output_proxy_noop_on_image_layer() {
    let mut pf = doc_with(vec![image(1, vec![])], 0);
    let mut nodes = NodeStore::default();
    let id = pf.layers[0].ensure_ne_output_proxy(&mut nodes);
    assert!(id.is_none());
    assert!(pf.layers[0].ne_output_proxy.is_none());
    assert!(pf.layers[0].nodes.is_empty());
    assert_eq!(nodes.map.len(), 0);
}

#[test]
fn new_proxy_takes_the_layer_place_and_size() {
    let mut l = Layer::new_node_editor_layer(3, "NE".to_string());
    l.x_bits = 12.5f32.to_bits();
    l.y_bits = (-4.0f32).to_bits();
    l.width_bits = 0.25f32.to_bits();
    l.height_bits = 300.0f32.to_bits();
    let mut nodes = NodeStore::default();
    let id = l.ensure_ne_output_proxy(&mut nodes).unwrap();
    assert_eq!(l.nodes, vec![id]);
    let n = nodes.get(id).unwrap();
    assert_eq!(n.id, id);
    match &n.kind {
        NodeKind::Image { x_bits, y_bits, width_bits, height_bits, bytes } => {
            assert_eq!(f64::from_bits(*x_bits), 12.5);
            assert_eq!(f64::from_bits(*y_bits), -4.0);
            // The size is at least 1 × 1.
            assert_eq!(f64::from_bits(*width_bits), 1.0);
            assert_eq!(f64::from_bits(*height_bits), 300.0);
            assert!(bytes.is_empty());
        }
        NodeKind::Other => panic!("not an image"),
    }
}

#[test]
fn proxy_kept_and_put_back_on_layer() {
    let mut nodes = NodeStore::default();
    let mut n9 = Node::image(0, 0, 0, 0, vec![1]);
    n9.id = 9;
    nodes.insert(n9);
    let mut l = Layer::new_node_editor_layer(3, "NE".to_string());
    l.ne_output_proxy = Some(9);
    // Live but missing from the layer: it goes back on top.
    assert_eq!(l.ensure_ne_output_proxy(&mut nodes), Some(9));
    assert_eq!(l.nodes, vec![9]);
    // A non-blank node on the layer is not adopted; the first blank one is.
    let mut l2 = Layer::new_node_editor_layer(4, "NE".to_string());
    for (id, name, bytes) in [(5u128, "Output Object", vec![7u8]), (6, "Output Object", vec![]), (7, "Output Object", vec![])] {
        let mut n = Node::image(0, 0, 0, 0, bytes);
        n.id = id;
        n.name = name.to_string();
        nodes.insert(n);
    }
    l2.nodes = vec![5, 6, 7];
    assert_eq!(l2.ensure_ne_output_proxy(&mut nodes), Some(6));
    assert_eq!(l2.ne_output_proxy, Some(6));
    assert_eq!(l2.nodes, vec![5, 6, 7]);
    // A stale proxy with nothing to adopt: a new node is made.
    let mut l3 = Layer::new_node_editor_layer(5, "NE".to_string());
    l3.nodes = vec![5];
    l3.ne_output_proxy = Some(42);
    let before = nodes.map.len();
    let id = l3.ensure_ne_output_proxy(&mut nodes).unwrap();
    assert_ne!(id, 42);
    assert_eq!(l3.nodes, vec![5, id]);
    assert_eq!(nodes.map.len(), before + 1);
}

#[test]
fn lowest_free_row_skips_taken_rows() {
    assert_eq!(lowest_free_row(&vec![]), 0);
    assert_eq!(lowest_free_row(&vec![1, 2]), 0);
    assert_eq!(lowest_free_row(&vec![0, 1, 0, 3]), 2);
    assert_eq!(lowest_free_row(&vec![2, 1, 0]), 3);
}

#[test]
fn empty_project_has_one_image_layer() {
    let d = Document::new_empty_project();
    assert_eq!(d.title, "Untitled");
    assert_eq!(d.page_unit, PageUnit::Px);
    assert_eq!(d.active_layer_index, 0);
    assert_eq!(d.layers.len(), 1);
    let l = &d.layers[0];
    assert_eq!((l.name.as_str(), l.kind, l.visible, l.locked), ("Layer 1", LayerKind::Image, true, false));
    assert!(l.nodes.is_empty());
    let d2 = Document::new_default_project();
    assert_ne!(d2.layers[0].id, l.id);
}

#[test]
fn video_and_audio_layers_follow_the_file() {
    let v = Layer::new_video(1, "v".to_string(), "/m/a.mov".to_string());
    assert_eq!((v.kind, v.av_role), (LayerKind::AV, AvRole::Video));
    assert_eq!(v.video_path, "/m/a.mov");
    let a = Layer::new_audio(2, "a".to_string(), "/m/a.wav".to_string());
    assert_eq!((a.kind, a.av_role), (LayerKind::AV, AvRole::Audio));
    // The role follows the file, whichever constructor is used.
    assert_eq!(Layer::new_audio(3, "x".to_string(), "/m/b.mp4".to_string()).av_role, AvRole::Video);
}

#[test]
fn active_layer_mut_edits_the_active_layer() {
    let mut d = doc_with(vec![image(1, vec![]), image(2, vec![])], 1);
    d.active_layer_mut().unwrap().nodes.push(9);
    assert_eq!(d.layers[1].nodes, vec![9]);
    assert!(d.layers[0].nodes.is_empty());
    d.active_layer_index = 5;
    assert!(d.active_layer_mut().is_none());
}

#[test]
fn av_layers_carry_a_clip_of_their_media() {
    let mut d = doc_with(vec![image(1, vec![])], 0);
    let i = d.add_av_layer("/media/holiday.final.mp4", "/media/holiday.final.mp4".to_string());
    assert_eq!(i, 1);
    let l = &d.layers[i];
    assert_eq!(l.name, "holiday.final");
    assert_eq!((l.kind, l.av_role), (LayerKind::AV, AvRole::Video));
    assert_eq!(l.av_clips.len(), 1);
    let c = &l.av_clips[0];
    assert_eq!(c.id, l.id);
    assert_eq!((c.name.as_str(), c.media_path.as_str()), ("holiday.final", "/media/holiday.final.mp4"));
    assert_eq!(f32::from_bits(c.video_play_length_bits), 3600.0);
    assert_eq!((c.video_start_offset_bits, c.video_timeline_start_bits, c.track_row), (0, 0, 0));
    assert!(c.media_source_duration_bits.is_none());
    // No media: no clip; a name without a stem is kept whole.
    let j = d.add_audio_layer("Voice", String::new());
    assert_eq!(d.layers[j].name, "Voice");
    assert!(d.layers[j].av_clips.is_empty());
    let k = d.add_video_layer("take.wav", "/a/take.wav".to_string());
    assert_eq!((d.layers[k].name.as_str(), d.layers[k].av_role), ("take", AvRole::Audio));
    assert_eq!(d.active_layer_index, 0);
}

#[test]
fn av_clip_constructors() {
    let c = AvClip::new_from_media("a".to_string(), "/x/a.mov".to_string(), 2.5f32.to_bits());
    assert_eq!(f32::from_bits(c.video_timeline_start_bits), 2.5);
    assert!(!c.is_audio_only());
    let e = AvClip::new_empty("gap".to_string(), 0);
    assert_eq!(f32::from_bits(e.video_play_length_bits), 1.0);
    assert!(e.media_path.is_empty() && e.is_audio_only());
    assert_ne!(c.id, e.id);
    let l = AvClip::from_legacy(5, "old".to_string(), "/s.ogg".to_string(), 1, 2, 3, Some(4));
    assert_eq!((l.id, l.video_start_offset_bits, l.video_play_length_bits, l.video_timeline_start_bits), (5, 1, 2, 3));
    assert_eq!((l.media_source_duration_bits, l.track_row), (Some(4), 0));
    assert!(l.is_audio_only() && AvClip::path_is_audio_only("/s.OGG"));
}

fn legacy_av(path: &str, start: f32, length: f32) -> Layer {
    let mut l = Layer::new_av_layer(40, "Old".to_string(), path.to_string());
    l.video_timeline_start_bits = start.to_bits();
    l.video_play_length_bits = length.to_bits();
    l.video_start_offset_bits = 2.0f32.to_bits();
    l
}

#[test]
fn legacy_fields_become_a_clip_once() {
    let mut l = legacy_av("/m/a.mp4", 0.0, 3600.0);
    l.ensure_av_clips();
    assert_eq!(l.av_clips.len(), 1);
    let c = &l.av_clips[0];
    assert_eq!((c.id, c.name.as_str(), c.media_path.as_str(), c.track_row), (40, "Old", "/m/a.mp4", 0));
    assert_eq!(f32::from_bits(c.video_start_offset_bits), 2.0);
    l.ensure_av_clips();
    assert_eq!(l.av_clips.len(), 1);
    // No media and the default timing (also with a -0.0 start): nothing to move.
    for start in [0.0f32, -0.0] {
        let mut e = legacy_av("", start, 3600.0);
        e.ensure_av_clips();
        assert!(e.av_clips.is_empty());
    }
    // Timing other than the default is kept as a clip, even without media.
    for (start, length) in [(1.0f32, 3600.0f32), (0.0, 10.0), (0.0, f32::NAN)] {
        let mut t = legacy_av("", start, length);
        t.ensure_av_clips();
        assert_eq!(t.av_clips.len(), 1);
    }
    let mut inf = legacy_av("", 0.0, f32::INFINITY);
    inf.ensure_av_clips();
    assert!(inf.av_clips.is_empty());
    // Other layers are left alone.
    let mut img = image(1, vec![]);
    img.video_timeline_start_bits = 5.0f32.to_bits();
    img.ensure_av_clips();
    assert!(img.av_clips.is_empty());
}

#[test]
fn legacy_fields_follow_clips_and_back() {
    let mut l = legacy_av("/m/a.mp4", 0.0, 3600.0);
    l.av_clips.push(AvClip::from_legacy(7, "A".to_string(), String::new(), 0, 0, 0, None));
    l.av_clips.push(AvClip::from_legacy(8, "B".to_string(), "/m/b.mov".to_string(), 11, 12, 13, Some(14)));
    l.sync_legacy_from_clip_id(8);
    assert_eq!(l.video_path, "/m/b.mov");
    assert_eq!((l.video_start_offset_bits, l.video_play_length_bits, l.video_timeline_start_bits), (11, 12, 13));
    assert_eq!(l.media_source_duration_bits, Some(14));
    l.sync_legacy_from_clip_id(99);
    assert_eq!(l.video_path, "/m/b.mov");
    l.sync_legacy_from_primary_clip();
    assert_eq!((l.video_path.as_str(), l.video_start_offset_bits), ("", 0));
    // Back: the trim goes onto one clip; an empty clip path takes the layer's.
    l.video_path = "/m/c.mp4".to_string();
    l.media_source_duration_bits = Some(99);
    l.sync_clip_from_legacy(7, 1, 2);
    let a = &l.av_clips[0];
    assert_eq!((a.media_path.as_str(), a.video_start_offset_bits, a.video_play_length_bits), ("/m/c.mp4", 1, 2));
    assert_eq!(a.media_source_duration_bits, Some(99));
    let b = &l.av_clips[1];
    assert_eq!((b.media_path.as_str(), b.video_start_offset_bits), ("/m/b.mov", 11));
    l.prepare_av_for_export(5, 6);
    assert_eq!((l.av_clips[0].video_start_offset_bits, l.av_clips[0].video_play_length_bits), (5, 6));
    assert_eq!(l.av_clips[1].video_play_length_bits, 12);
}

#[test]
fn export_trim_goes_onto_primary_clip() {
    let mut layer = Layer::new_av_layer(3, "Audio".to_string(), "track.mp3".to_string());
    layer.av_clips.clear();
    layer.av_clips.push(AvClip::from_legacy(
        9,
        "clip".to_string(),
        "track.mp3".to_string(),
        0.0f32.to_bits(),
        120.0f32.to_bits(),
        0.0f32.to_bits(),
        Some(180.0f32.to_bits()),
    ));
    layer.video_start_offset_bits = 40.0f32.to_bits();
    layer.video_play_length_bits = 60.0f32.to_bits();
    layer.media_source_duration_bits = Some(180.0f32.to_bits());
    // The panel values, clamped by the caller, land on the first clip.
    layer.prepare_av_for_export(40.0f32.to_bits(), 60.0f32.to_bits());
    let clip = layer.av_clips.first().expect("primary");
    assert_eq!(f32::from_bits(clip.video_start_offset_bits), 40.0);
    assert_eq!(f32::from_bits(clip.video_play_length_bits), 60.0);
    assert_eq!(clip.media_source_duration_bits, Some(180.0f32.to_bits()));
}
