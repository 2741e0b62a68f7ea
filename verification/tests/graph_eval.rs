use vadadee_doc::node_graph::{GraphView, NodeGraph};
use vadadee_doc::ports::GraphNodeKind;

fn empty_graph() -> NodeGraph {
    NodeGraph {
        nodes: indexmap::IndexMap::new(),
        links: Vec::new(),
        view: GraphView::default(),
        parameters: Vec::new(),
        output_node_id: None,
        root_error: None,
    }
}

fn expr_x() -> GraphNodeKind {
    GraphNodeKind::ExprX { expr: "x".to_string() }
}

fn pos(v: &[u128], x: u128) -> usize {
    v.iter().position(|y| *y == x).unwrap()
}

#[test]
fn cycle_marks_error() {
    let mut g = empty_graph();
    let e1 = g.add_node(expr_x(), 0, 0);
    let e2 = g.add_node(expr_x(), 0, 0);
    g.try_add_link(e1, "out", e2, "x").unwrap();
    g.try_add_link(e2, "out", e1, "x").unwrap();
    let r = g.prepare_real_eval();
    assert!(g.root_error.as_ref().is_some_and(|e| e.contains("cycle")));
    assert!(r.order.is_empty());
    assert_eq!(r.blocked.len(), 2);
    assert_eq!(g.nodes.get(&e1).unwrap().error.as_deref(), Some("cycle in Real graph"));
    assert_eq!(g.nodes.get(&e2).unwrap().error.as_deref(), Some("cycle in Real graph"));
}

#[test]
fn chain_is_ordered_and_feeders_of_cycles_still_run() {
    let mut g = NodeGraph::new_empty();
    let v = g.add_node(GraphNodeKind::Value { value_bits: 2.0f64.to_bits() }, 0, 0);
    let a = g.add_node(expr_x(), 0, 0);
    let b = g.add_node(expr_x(), 0, 0);
    let f = g.add_node(GraphNodeKind::Frame, 0, 0);
    g.try_add_link(a, "out", b, "x").unwrap();
    g.try_add_link(v, "out", a, "x").unwrap();
    let r = g.real_eval_order();
    assert!(r.blocked.is_empty());
    assert_eq!(r.order.len(), 4);
    assert!(pos(&r.order, v) < pos(&r.order, a));
    assert!(pos(&r.order, a) < pos(&r.order, b));
    assert!(r.order.contains(&f));
    // The Output Object has no Real output and is not ordered.
    assert!(!r.order.contains(&g.primary_output_id().unwrap()));

    // A loop hx -> hy -> hx: the value feeding it still runs.
    let mut h = NodeGraph::new_empty();
    let hv = h.add_node(GraphNodeKind::Value { value_bits: 1.0f64.to_bits() }, 0, 0);
    let hx = h.add_node(GraphNodeKind::ExprXy { expr: "x+y".to_string() }, 0, 0);
    let hy = h.add_node(expr_x(), 0, 0);
    h.try_add_link(hv, "out", hx, "x").unwrap();
    h.try_add_link(hx, "out", hy, "x").unwrap();
    h.try_add_link(hy, "out", hx, "y").unwrap();
    let r = h.prepare_real_eval();
    assert_eq!(r.order, vec![hv]);
    assert_eq!(r.blocked.len(), 2);
    assert!(r.blocked.contains(&hx) && r.blocked.contains(&hy));
    assert_eq!(h.root_error.as_deref(), Some("Graph error: cycle in algebra nodes"));
    assert_eq!(h.nodes.get(&hv).unwrap().error, None);
}

#[test]
fn evaluation_outcomes_set_and_clear_errors() {
    let mut g = empty_graph();
    let e = g.add_node(expr_x(), 0, 0);
    g.record_eval_outcome(e, Err("unknown variable 'q' (t,f,s,x,y,r,g,b,a)".to_string()));
    assert_eq!(
        g.nodes.get(&e).unwrap().error.as_deref(),
        Some("Expr: unknown variable 'q' (t,f,s,x,y,r,g,b,a)")
    );
    g.record_eval_outcome(e, Ok(()));
    assert_eq!(g.nodes.get(&e).unwrap().error, None);
    // Unknown ids change nothing.
    g.record_eval_outcome(12345, Err("x".to_string()));
    assert_eq!(g.nodes.len(), 1);
}

#[test]
fn preparing_clears_stale_algebra_errors_only() {
    let mut g = empty_graph();
    let e = g.add_node(expr_x(), 0, 0);
    let img = g.add_node(GraphNodeKind::ObjectFromApp { node_ids: vec![] }, 0, 0);
    g.nodes.get_mut(&e).unwrap().error = Some("Expr: division by zero".to_string());
    g.nodes.get_mut(&img).unwrap().error = Some("Source object deleted".to_string());
    g.root_error = Some("Graph error: cycle in algebra nodes".to_string());
    let r = g.prepare_real_eval();
    assert_eq!(r.order, vec![e]);
    assert_eq!(g.nodes.get(&e).unwrap().error, None);
    assert_eq!(g.nodes.get(&img).unwrap().error.as_deref(), Some("Source object deleted"));
    assert_eq!(g.root_error, None);
}

#[test]
fn nodes_downstream_of_a_cycle_are_blocked() {
    let mut g = empty_graph();
    let a = g.add_node(expr_x(), 0, 0);
    let b = g.add_node(expr_x(), 0, 0);
    let c = g.add_node(expr_x(), 0, 0);
    let v = g.add_node(GraphNodeKind::Value { value_bits: 3.0f64.to_bits() }, 0, 0);
    g.try_add_link(a, "out", b, "x").unwrap();
    g.try_add_link(b, "out", a, "x").unwrap();
    // c only hangs off the loop: it can never be evaluated.
    g.try_add_link(b, "out", c, "x").unwrap();
    let r = g.real_eval_order();
    assert_eq!(r.order, vec![v]);
    assert_eq!(r.blocked.len(), 3);
    assert!(r.blocked.contains(&c));
}
