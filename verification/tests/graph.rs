use vadadee_doc::node_graph::{GraphParam, GraphParamKind, NodeGraph};
use vadadee_doc::ports::{GraphNodeKind, PortDir, PortType};

fn bits(v: f64) -> u64 {
    v.to_bits()
}

#[test]
fn type_mismatch_rejected() {
    let mut g = NodeGraph::new_empty();
    let v = g.add_node(GraphNodeKind::Value { value_bits: bits(1.0) }, 0, 0);
    let img = g.add_node(GraphNodeKind::ObjectImage { path: String::new() }, 0, 0);
    let b = g.add_node(GraphNodeKind::Brightness, 0, 0);
    // Real -> RawImage rejected
    assert!(g.try_add_link(v, "out", b, "in").is_err());
    // Real -> amount OK
    assert!(g.try_add_link(v, "out", b, "amount").is_ok());
    // Image -> amount rejected
    assert!(g.try_add_link(img, "out", b, "amount").is_err());
}

#[test]
fn catalog_accepts_real() {
    let kinds = NodeGraph::catalog_kinds_accepting(PortType::Real);
    assert!(kinds.iter().any(|k| matches!(
        k,
        GraphNodeKind::ExprX { .. } | GraphNodeKind::ExprXy { .. } | GraphNodeKind::ExprXyz { .. }
    )));
    assert!(kinds.iter().any(|k| matches!(k, GraphNodeKind::Brightness)));
    assert!(!kinds.iter().any(|k| matches!(k, GraphNodeKind::ObjectImage { .. })));
}

#[test]
fn catalog_producing_real_includes_frame() {
    let kinds = NodeGraph::catalog_kinds_producing(PortType::Real);
    assert!(kinds.iter().any(|k| matches!(k, GraphNodeKind::Frame)));
    assert!(kinds.iter().any(|k| matches!(k, GraphNodeKind::Value { .. })));
    assert!(!kinds.iter().any(|k| matches!(k, GraphNodeKind::ObjectImage { .. })));
}

#[test]
fn param_anim_track_labels() {
    let r = GraphParam::new_real("a", bits(1.0));
    assert_eq!(r.anim_track_labels().len(), 1);
    assert!(r.anim_track_labels()[0].starts_with("param:"));
    let c = GraphParam::new_color("c", bits(1.0), bits(0.0), bits(0.0));
    assert_eq!(c.anim_track_labels().len(), 4);
    let p = GraphParam::new_position("p", bits(0.0), bits(1.0));
    assert_eq!(p.anim_track_labels().len(), 2);
}

#[test]
fn geometry_nodes_have_control_ports() {
    let size = GraphNodeKind::GeoSize.ports();
    assert!(size.iter().any(|p| p.id == "w" && p.ty == PortType::Real));
    assert!(size.iter().any(|p| p.id == "h" && p.ty == PortType::Real));
    assert!(size.iter().any(|p| p.id == "in" && p.ty == PortType::RawImage));
    assert!(size.iter().any(|p| p.id == "out" && p.ty == PortType::RawImage));

    let place = GraphNodeKind::GeoPlacement.ports();
    assert!(place.iter().any(|p| p.id == "x"));
    assert!(place.iter().any(|p| p.id == "y"));

    let rot = GraphNodeKind::GeoRotate.ports();
    assert!(rot.iter().any(|p| p.id == "angle" && p.ty == PortType::Real));

    let add = GraphNodeKind::GeoAdd.ports();
    assert!(add.iter().any(|p| p.id == "a"));
    assert!(add.iter().any(|p| p.id == "b"));
    assert!(!add.iter().any(|p| p.id == "in"));
}

#[test]
fn sync_parameters_drops_orphans() {
    let mut g = NodeGraph::new_empty();
    let p = GraphParam::new_real("orphan", bits(1.0));
    let pid = p.id;
    g.parameters.push(p);
    // No ParamReal node: the orphan is removed.
    g.sync_parameters_with_nodes();
    assert!(g.parameters.is_empty());

    let p2 = GraphParam::new_real("live", bits(2.0));
    let pid2 = p2.id;
    g.parameters.push(p2);
    g.add_node(GraphNodeKind::ParamReal { param_id: pid2 }, 0, 0);
    g.sync_parameters_with_nodes();
    assert_eq!(g.parameters.len(), 1);
    assert_eq!(g.parameters[0].id, pid2);

    // Removing the node takes the parameter away.
    let nid = *g
        .nodes
        .keys()
        .find(|id| matches!(g.nodes.get(*id).map(|n| &n.kind), Some(GraphNodeKind::ParamReal { .. })))
        .unwrap();
    g.remove_node(nid);
    assert!(g.parameters.iter().all(|p| p.id != pid2));
    let _ = pid;
}

#[test]
fn new_graph_has_one_primary_output() {
    let g = NodeGraph::new_empty();
    assert_eq!(g.nodes.len(), 1);
    let out = g.primary_output_id().unwrap();
    assert_eq!(g.output_node_id, Some(out));
    let n = g.nodes.get(&out).unwrap();
    assert!(matches!(n.kind, GraphNodeKind::OutputObject));
    assert_eq!(n.name, "Output Object");
    assert_eq!(n.x_bits, 280.0f32.to_bits());
    assert_eq!(n.y_bits, 120.0f32.to_bits());
    assert!(g.links.is_empty());
}

#[test]
fn second_output_does_not_steal_primary() {
    let mut g = NodeGraph::new_empty();
    let first = g.primary_output_id().unwrap();
    let second = g.add_node(GraphNodeKind::OutputObject, 0, 0);
    assert_ne!(first, second);
    assert_eq!(g.primary_output_id(), Some(first));
    // Removing the primary falls back to the other Output Object.
    g.remove_node(first);
    assert_eq!(g.primary_output_id(), Some(second));
}

#[test]
fn link_errors_name_the_reason() {
    let mut g = NodeGraph::new_empty();
    let v = g.add_node(GraphNodeKind::Value { value_bits: bits(1.0) }, 0, 0);
    let img = g.add_node(GraphNodeKind::ObjectImage { path: String::new() }, 0, 0);
    let b = g.add_node(GraphNodeKind::Brightness, 0, 0);
    assert_eq!(g.try_add_link(b, "out", b, "in"), Err("Cannot connect a node to itself".to_string()));
    assert_eq!(g.try_add_link(v, "nope", b, "in"), Err("Unknown output port".to_string()));
    assert_eq!(g.try_add_link(v, "out", b, "nope"), Err("Unknown input port".to_string()));
    assert_eq!(g.try_add_link(b, "in", v, "out"), Err("Wire must go from output to input".to_string()));
    assert_eq!(g.try_add_link(img, "out", b, "amount"), Err("Type mismatch: Image → Real".to_string()));
    assert!(g.links.is_empty());
}

#[test]
fn one_link_per_input_port() {
    let mut g = NodeGraph::new_empty();
    let v1 = g.add_node(GraphNodeKind::Value { value_bits: bits(1.0) }, 0, 0);
    let v2 = g.add_node(GraphNodeKind::Value { value_bits: bits(2.0) }, 0, 0);
    let b = g.add_node(GraphNodeKind::Brightness, 0, 0);
    assert!(g.try_add_link(v1, "out", b, "amount").is_ok());
    assert!(g.try_add_link(v2, "out", b, "amount").is_ok());
    let into: Vec<_> = g.links.iter().filter(|l| l.to_node == b && l.to_port == "amount").collect();
    assert_eq!(into.len(), 1);
    assert_eq!(into[0].from_node, v2);
    assert_eq!(g.input_source_node(b, "amount"), Some(v2));
    assert_eq!(g.real_input_source(b, "amount"), Some(v2));
    assert_eq!(g.input_source_node(b, "in"), None);
}

#[test]
fn video_feeds_image_input() {
    let mut g = NodeGraph::new_empty();
    let vid = g.add_node(GraphNodeKind::ObjectVideo { path: "/tmp/a.mp4".to_string() }, 0, 0);
    let b = g.add_node(GraphNodeKind::Brightness, 0, 0);
    assert_eq!(g.port_type(vid, "out"), Some(PortType::RawVideo));
    assert_eq!(g.port_type(b, "in"), Some(PortType::RawImage));
    assert!(g.try_add_link(vid, "out", b, "in").is_ok());
    assert!(PortType::can_connect(PortType::RawVideo, PortType::RawImage));
    assert!(!PortType::can_connect(PortType::RawImage, PortType::RawVideo));
    assert!(PortType::can_connect(PortType::Color, PortType::Color));
    assert!(!PortType::can_connect(PortType::Color, PortType::Real));
}

#[test]
fn removing_a_node_drops_its_links() {
    let mut g = NodeGraph::new_empty();
    let out = g.primary_output_id().unwrap();
    let img = g.add_node(GraphNodeKind::ObjectImage { path: "/tmp/x.png".to_string() }, 0, 0);
    let b = g.add_node(GraphNodeKind::Brightness, 0, 0);
    assert!(g.try_add_link(img, "out", b, "in").is_ok());
    assert!(g.try_add_link(b, "out", out, "image").is_ok());
    assert_eq!(g.links.len(), 2);
    g.remove_node(b);
    assert!(g.links.is_empty());
    assert!(g.nodes.get(&b).is_none());
    assert_eq!(g.nodes.len(), 2);
}

#[test]
fn port_type_labels() {
    assert_eq!(PortType::RawImage.label(), "Image");
    assert_eq!(PortType::RawVideo.label(), "Video");
    assert_eq!(PortType::RawSound.label(), "Sound");
    assert_eq!(PortType::Septic.label(), "Septic");
    assert_eq!(PortType::Mouse.label(), "Mouse");
    assert_eq!(PortType::Real.label(), "Real");
    assert_eq!(PortType::Color.label(), "Color");
    assert_eq!(PortType::Position.label(), "Position");
}

#[test]
fn track_label_component_roundtrip() {
    let c = GraphParam::new_color("c", bits(1.0), bits(0.5), bits(0.0));
    assert!(matches!(c.kind, GraphParamKind::Color));
    let labels = c.anim_track_labels();
    for (i, l) in labels.iter().enumerate() {
        assert_eq!(GraphParam::component_from_track_label(l, c.id), Some(Some(i)));
    }
    let r = GraphParam::new_real("r", bits(3.0));
    let l = &r.anim_track_labels()[0];
    assert_eq!(*l, format!("param:{}", uuid::Uuid::from_u128(r.id)));
    assert_eq!(GraphParam::component_from_track_label(l, r.id), Some(None));
    assert_eq!(GraphParam::component_from_track_label("param:x", r.id), None);
    assert_eq!(GraphParam::component_from_track_label(&format!("{l}:+2"), r.id), Some(Some(2)));
    assert_eq!(GraphParam::component_from_track_label(&format!("{l}:"), r.id), None);
}

#[test]
fn image_port_directions() {
    assert_eq!(NodeGraph::image_port_dirs(&GraphNodeKind::Brightness), (true, true));
    assert_eq!(NodeGraph::image_port_dirs(&GraphNodeKind::OutputObject), (true, false));
    assert_eq!(NodeGraph::image_port_dirs(&GraphNodeKind::ObjectImage { path: String::new() }), (false, true));
    assert_eq!(NodeGraph::image_port_dirs(&GraphNodeKind::Frame), (false, false));
}

#[test]
fn output_ports_of_output_object() {
    let ports = GraphNodeKind::OutputObject.ports();
    assert!(ports.iter().all(|p| p.dir == PortDir::Input));
    assert!(ports.iter().any(|p| p.id == "image" && p.ty == PortType::RawImage));
    assert!(ports.iter().any(|p| p.id == "sound" && p.ty == PortType::RawSound));
}

#[test]
fn second_parameter_sync_changes_nothing() {
    let mut g = NodeGraph::new_empty();
    let keep = GraphParam::new_real("keep", bits(1.0));
    let kid = keep.id;
    g.parameters.push(keep);
    g.parameters.push(GraphParam::new_real("drop", bits(2.0)));
    g.add_node(GraphNodeKind::ParamReal { param_id: kid }, 0, 0);
    g.sync_parameters_with_nodes();
    let once = g.parameters.clone();
    g.sync_parameters_with_nodes();
    assert_eq!(g.parameters, once);
    assert_eq!(once.len(), 1);
    assert_eq!(once[0].id, kid);
}

#[test]
fn kept_links_keep_their_ids() {
    let mut g = NodeGraph::new_empty();
    let out = g.primary_output_id().unwrap();
    let v1 = g.add_node(GraphNodeKind::Value { value_bits: bits(1.0) }, 0, 0);
    let v2 = g.add_node(GraphNodeKind::Value { value_bits: bits(2.0) }, 0, 0);
    let b = g.add_node(GraphNodeKind::Brightness, 0, 0);
    let img = g.add_node(GraphNodeKind::ObjectImage { path: String::new() }, 0, 0);
    g.try_add_link(img, "out", b, "in").unwrap();
    g.try_add_link(v1, "out", b, "amount").unwrap();
    g.try_add_link(b, "out", out, "image").unwrap();
    let (first, third) = (g.links[0].id, g.links[2].id);
    // Rewiring `amount` drops only the old wire into it; the others keep their ids.
    g.try_add_link(v2, "out", b, "amount").unwrap();
    assert_eq!(g.links.len(), 3);
    assert_eq!((g.links[0].id, g.links[1].id), (first, third));
    assert_eq!(g.links[2].from_node, v2);
    g.remove_node(v2);
    assert_eq!(g.links.iter().map(|l| l.id).collect::<Vec<_>>(), vec![first, third]);
}

#[test]
fn port_tables_are_well_formed() {
    let kinds = vec![
        GraphNodeKind::ObjectImage { path: String::new() },
        GraphNodeKind::ObjectVideo { path: String::new() },
        GraphNodeKind::ObjectAudio { path: String::new() },
        GraphNodeKind::OutputObject,
        GraphNodeKind::VideoPlayer,
        GraphNodeKind::SepticPlayer,
        GraphNodeKind::Frame,
        GraphNodeKind::Brightness,
        GraphNodeKind::Equalizer,
        GraphNodeKind::GeoAdd,
    ];
    for k in kinds {
        let ps = k.ports();
        assert!(!ps.is_empty());
        for i in 0..ps.len() {
            for j in i + 1..ps.len() {
                assert_ne!(ps[i].id, ps[j].id);
            }
        }
        let only_inputs = ps.iter().all(|p| p.dir == PortDir::Input);
        assert_eq!(only_inputs, matches!(k, GraphNodeKind::OutputObject));
    }
}
