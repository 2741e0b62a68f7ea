use indexmap::IndexMap;
use vadadee_doc::graph_output::{ImageEnd, SoundEnd};
use vadadee_doc::node_graph::{GraphImageSource, GraphSoundSource, GraphView, NodeGraph};
use vadadee_doc::ports::GraphNodeKind;

fn bits(v: f64) -> u64 {
    v.to_bits()
}

fn value(g: &mut NodeGraph, v: f64) -> u128 {
    g.add_node(GraphNodeKind::Value { value_bits: bits(v) }, 0, 0)
}

#[test]
fn trace_app_object_through_brightness() {
    let mut g = NodeGraph::new_empty();
    let out_id = g.output_node_id.expect("seeded output");
    let app_id = 4242u128;
    let src = g.add_node(GraphNodeKind::ObjectFromApp { node_ids: vec![app_id] }, 0, 0);
    let bright = g.add_node(GraphNodeKind::Brightness, 0, 0);
    let amount = value(&mut g, 0.5);
    g.try_add_link(src, "out", bright, "in").unwrap();
    g.try_add_link(amount, "out", bright, "amount").unwrap();
    g.try_add_link(bright, "out", out_id, "image").unwrap();
    let t = g.trace_image_input(g.output_sink_order()[0], "image", 0);
    assert_eq!(t.end, ImageEnd::Source(GraphImageSource::AppObjects(vec![app_id])));
    // The brightness node is on the path, driven by the 0.5 value.
    assert_eq!(t.effects, vec![bright]);
    assert_eq!(g.real_input_source(bright, "amount"), Some(amount));
}

#[test]
fn trace_color_blur_speed_stack() {
    let mut g = NodeGraph::new_empty();
    let out_id = g.output_node_id.expect("seeded output");
    let img = g.add_node(GraphNodeKind::ObjectImage { path: "/tmp/x.png".into() }, 0, 0);
    let blur = g.add_node(GraphNodeKind::LinearBlur, 0, 0);
    let color = g.add_node(GraphNodeKind::ColorChanger, 0, 0);
    let speed = g.add_node(GraphNodeKind::Speed, 0, 0);
    let hue = value(&mut g, 90.0);
    let sat = value(&mut g, 1.5);
    let rad = value(&mut g, 3.0);
    let fac = value(&mut g, 2.0);
    g.try_add_link(img, "out", blur, "in").unwrap();
    g.try_add_link(rad, "out", blur, "amount").unwrap();
    g.try_add_link(blur, "out", color, "in").unwrap();
    g.try_add_link(hue, "out", color, "hue").unwrap();
    g.try_add_link(sat, "out", color, "sat").unwrap();
    g.try_add_link(color, "out", speed, "in").unwrap();
    g.try_add_link(fac, "out", speed, "factor").unwrap();
    g.try_add_link(speed, "out", out_id, "image").unwrap();
    let t = g.trace_image_input(out_id, "image", 0);
    assert_eq!(t.end, ImageEnd::Source(GraphImageSource::FilePath("/tmp/x.png".into())));
    assert_eq!(t.effects, vec![speed, color, blur]);
    assert_eq!(g.real_input_source(color, "sat"), Some(sat));
    assert_eq!(g.real_input_source(speed, "factor"), Some(fac));
}

#[test]
fn trace_sound_through_equalizer() {
    let mut g = NodeGraph {
        nodes: IndexMap::new(),
        links: Vec::new(),
        view: GraphView::default(),
        parameters: Vec::new(),
        output_node_id: None,
        root_error: None,
    };
    let audio = g.add_node(GraphNodeKind::ObjectAudio { path: "/tmp/a.mp3".into() }, 0, 0);
    let eq = g.add_node(GraphNodeKind::Equalizer, 0, 0);
    let bass = value(&mut g, 3.0);
    let vol = value(&mut g, 0.5);
    let out = g.add_node(GraphNodeKind::OutputObject, 0, 0);
    g.output_node_id = Some(out);
    g.try_add_link(audio, "out", eq, "in").unwrap();
    g.try_add_link(bass, "out", eq, "bass").unwrap();
    g.try_add_link(vol, "out", eq, "volume").unwrap();
    g.try_add_link(eq, "out", out, "sound").unwrap();
    assert_eq!(g.output_sink_order(), vec![out]);
    let s = g.trace_sound_input(out, "sound", 0);
    assert_eq!(s.end, SoundEnd::Source(GraphSoundSource::FilePath("/tmp/a.mp3".into())));
    assert_eq!(s.equalizers, vec![eq]);
    assert_eq!(g.real_input_source(eq, "volume"), Some(vol));
}

#[test]
fn trace_output_file_path() {
    let mut g = NodeGraph::new_empty();
    let out_id = g.output_node_id.expect("seeded output");
    let img = g.add_node(GraphNodeKind::ObjectImage { path: "/tmp/foo.png".into() }, 0, 0);
    g.try_add_link(img, "out", out_id, "image").unwrap();
    let order = g.output_sink_order();
    assert_eq!(order, vec![out_id]);
    let t = g.trace_image_input(order[0], "image", 0);
    assert_eq!(t.end, ImageEnd::Source(GraphImageSource::FilePath("/tmp/foo.png".into())));
    assert!(t.effects.is_empty());
}

#[test]
fn trace_geo_placement_and_size() {
    let mut g = NodeGraph::new_empty();
    let out_id = g.output_node_id.expect("seeded");
    let img = g.add_node(GraphNodeKind::ObjectImage { path: "/tmp/g.png".into() }, 0, 0);
    let size = g.add_node(GraphNodeKind::GeoSize, 0, 0);
    let place = g.add_node(GraphNodeKind::GeoPlacement, 0, 0);
    let sw = value(&mut g, 2.0);
    let sh = value(&mut g, 0.5);
    let px = value(&mut g, 10.0);
    let py = value(&mut g, 20.0);
    g.try_add_link(img, "out", size, "in").unwrap();
    g.try_add_link(sw, "out", size, "w").unwrap();
    g.try_add_link(sh, "out", size, "h").unwrap();
    g.try_add_link(size, "out", place, "in").unwrap();
    g.try_add_link(px, "out", place, "x").unwrap();
    g.try_add_link(py, "out", place, "y").unwrap();
    g.try_add_link(place, "out", out_id, "image").unwrap();
    let t = g.trace_image_input(out_id, "image", 0);
    assert_eq!(t.effects, vec![place, size]);
    assert_eq!(t.end, ImageEnd::Source(GraphImageSource::FilePath("/tmp/g.png".into())));
    assert_eq!(g.real_input_source(size, "w"), Some(sw));
    assert_eq!(g.real_input_source(place, "y"), Some(py));
}

#[test]
fn image_chain_stops_past_depth_limit() {
    let mut g = NodeGraph::new_empty();
    let out_id = g.output_node_id.unwrap();
    let img = g.add_node(GraphNodeKind::ObjectImage { path: "/tmp/deep.png".into() }, 0, 0);
    let mut prev = img;
    for _ in 0..70 {
        let b = g.add_node(GraphNodeKind::Brightness, 0, 0);
        g.try_add_link(prev, "out", b, "in").unwrap();
        prev = b;
    }
    g.try_add_link(prev, "out", out_id, "image").unwrap();
    let t = g.trace_image_input(out_id, "image", 0);
    assert_eq!(t.effects.len(), 65);
    assert_eq!(t.effects[0], prev);
    assert_eq!(t.end, ImageEnd::Source(GraphImageSource::Empty));
    // Six fewer effects reach the source.
    let mut g2 = NodeGraph::new_empty();
    let out2 = g2.output_node_id.unwrap();
    let img2 = g2.add_node(GraphNodeKind::ObjectImage { path: "/tmp/ok.png".into() }, 0, 0);
    let mut p2 = img2;
    for _ in 0..64 {
        let b = g2.add_node(GraphNodeKind::Brightness, 0, 0);
        g2.try_add_link(p2, "out", b, "in").unwrap();
        p2 = b;
    }
    g2.try_add_link(p2, "out", out2, "image").unwrap();
    let t2 = g2.trace_image_input(out2, "image", 0);
    assert_eq!(t2.effects.len(), 64);
    assert_eq!(t2.end, ImageEnd::Source(GraphImageSource::FilePath("/tmp/ok.png".into())));
}

#[test]
fn chains_end_at_players_and_adds() {
    let mut g = NodeGraph::new_empty();
    let out_id = g.output_node_id.unwrap();
    let add = g.add_node(GraphNodeKind::GeoAdd, 0, 0);
    let rot = g.add_node(GraphNodeKind::GeoRotate, 0, 0);
    g.try_add_link(add, "out", rot, "in").unwrap();
    g.try_add_link(rot, "out", out_id, "image").unwrap();
    let t = g.trace_image_input(out_id, "image", 0);
    assert_eq!(t.effects, vec![rot]);
    assert_eq!(t.end, ImageEnd::Add { node: add, depth: 2 });
    // A blank path is no source.
    let mut g2 = NodeGraph::new_empty();
    let out2 = g2.output_node_id.unwrap();
    let img = g2.add_node(GraphNodeKind::ObjectImage { path: "  ".into() }, 0, 0);
    g2.try_add_link(img, "out", out2, "image").unwrap();
    assert_eq!(g2.trace_image_input(out2, "image", 0).end, ImageEnd::Source(GraphImageSource::Empty));
    // Nothing wired.
    assert_eq!(g2.trace_sound_input(out2, "sound", 0).end, SoundEnd::Source(GraphSoundSource::Empty));
}

#[test]
fn node_image_and_sink_order() {
    let mut g = NodeGraph::new_empty();
    let out_id = g.output_node_id.unwrap();
    let img = g.add_node(GraphNodeKind::ObjectImage { path: "/tmp/p.png".into() }, 0, 0);
    let bright = g.add_node(GraphNodeKind::Brightness, 0, 0);
    g.try_add_link(img, "out", bright, "in").unwrap();
    // An effect node's own output: itself applied to its input.
    let t = g.trace_node_image(bright);
    assert_eq!(t.effects, vec![bright]);
    assert_eq!(t.end, ImageEnd::Source(GraphImageSource::FilePath("/tmp/p.png".into())));
    // A node without image output puts out nothing.
    let v = value(&mut g, 1.0);
    assert_eq!(g.trace_node_image(v).end, ImageEnd::Source(GraphImageSource::Empty));
    assert!(g.trace_node_image(v).effects.is_empty());
    // Sinks: the primary first, then the other Output Objects in order.
    let out2 = g.add_node(GraphNodeKind::OutputObject, 0, 0);
    assert_eq!(g.output_sink_order(), vec![out_id, out2]);
    g.output_node_id = Some(out2);
    assert_eq!(g.output_sink_order(), vec![out2, out_id]);
}
