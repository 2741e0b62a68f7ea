//! Node-editor graph: typed nodes, ports, links and layer parameters. One
//! graph per node-editor layer; the Output Object is the continuous render
//! sink.

use vstd::prelude::*;
use indexmap::IndexMap;
use crate::ids::{fresh_id, uuid_to_string, uuid_text};
use crate::node_map::{
    entries_insert, key_index, node_entries, nodes_get, nodes_get_index, nodes_insert, nodes_len,
    nodes_new, nodes_replace_at, nodes_shift_remove,
};
use crate::ports::{
    accepting_candidate, accepting_candidates, accepts_input, find_port, image_port_dirs_of,
    kind_port, ports_view, produces_output, producing_candidate, producing_candidates,
    spec_accepts, spec_can_connect, spec_image_port_dirs, spec_port_type_label, spec_ports,
    spec_produces, spec_title, GraphNodeKind, NodeKindView, PortDef, PortDir, PortType,
};
use crate::seqs::{
    first_index, lemma_filter_take_step, lemma_first_index, lemma_first_index_is,
    lemma_first_index_none,
};
use vstd::string::StrSliceExecFns;
use crate::text::{concat2, is_blank, owned, str_eq, str_is_blank};

verus! {

/// A node of the graph.
#[derive(Debug, Clone, PartialEq, Eq)]
pub struct GraphNode {
    pub id: u128,
    pub name: String,
    pub kind: GraphNodeKind,
    /// Position in graph space, as the bit patterns of two `f32`.
    pub x_bits: u32,
    pub y_bits: u32,
    pub error: Option<String>,
}

pub ghost struct GraphNodeView {
    pub id: u128,
    pub name: Seq<char>,
    pub kind: NodeKindView,
    pub x_bits: u32,
    pub y_bits: u32,
    pub error: Option<Seq<char>>,
}

pub open spec fn opt_text(o: Option<String>) -> Option<Seq<char>> {
    match o {
        Some(s) => Some(s@),
        None => None,
    }
}

impl View for GraphNode {
    type V = GraphNodeView;

    open spec fn view(&self) -> GraphNodeView {
        GraphNodeView {
            id: self.id,
            name: self.name@,
            kind: self.kind@,
            x_bits: self.x_bits,
            y_bits: self.y_bits,
            error: opt_text(self.error),
        }
    }
}

impl GraphNode {
    /// A new node with a fresh id, titled after its kind, without error.
    pub fn new(kind: GraphNodeKind, x_bits: u32, y_bits: u32) -> (n: GraphNode)
        ensures
            n.name@ == spec_title(kind@),
            n.kind@ == kind@,
            n.x_bits == x_bits,
            n.y_bits == y_bits,
            n.error is None,
    {
        let name = owned(kind.default_title());
        GraphNode { id: fresh_id(), name, kind, x_bits, y_bits, error: None }
    }

    pub fn ports(&self) -> (r: Vec<PortDef>)
        ensures
            ports_view(r@) == spec_ports(self.kind@),
    {
        self.kind.ports()
    }
}

/// A wire from an output port to an input port.
#[derive(Debug, Clone, PartialEq, Eq)]
pub struct GraphLink {
    pub id: u128,
    pub from_node: u128,
    pub from_port: String,
    pub to_node: u128,
    pub to_port: String,
}

/// A link as the contracts see it: (from node, from port, to node, to port).
pub type LinkView = (u128, Seq<char>, u128, Seq<char>);

/// The wire does not end at input `(to_node, to_port)`.
pub open spec fn link_not_into(to_node: u128, to_port: Seq<char>) -> spec_fn(GraphLink) -> bool {
    |l: GraphLink| !(l.to_node == to_node && l.to_port@ == to_port)
}

/// The wire neither starts nor ends at node `id`.
pub open spec fn link_untouched(id: u128) -> spec_fn(GraphLink) -> bool {
    |l: GraphLink| l.from_node != id && l.to_node != id
}

impl View for GraphLink {
    type V = LinkView;

    open spec fn view(&self) -> LinkView {
        (self.from_node, self.from_port@, self.to_node, self.to_port@)
    }
}

pub open spec fn links_view(s: Seq<GraphLink>) -> Seq<LinkView> {
    s.map_values(|l: GraphLink| l@)
}

impl GraphLink {
    /// A new link with a fresh id.
    pub fn new(from_node: u128, from_port: &str, to_node: u128, to_port: &str) -> (l: GraphLink)
        ensures
            l@ == (from_node, from_port@, to_node, to_port@),
    {
        GraphLink {
            id: fresh_id(),
            from_node,
            from_port: owned(from_port),
            to_node,
            to_port: owned(to_port),
        }
    }
}

/// Pan and zoom of the graph canvas, as `f32` bit patterns.
#[derive(Debug, Clone, Copy, PartialEq, Eq)]
pub struct GraphView {
    pub pan_x_bits: u32,
    pub pan_y_bits: u32,
    pub zoom_bits: u32,
}

/// Bit pattern of `1.0_f32`.
pub const F32_ONE_BITS: u32 = 0x3f80_0000;

impl Default for GraphView {
    fn default() -> (v: Self)
        ensures
            v.pan_x_bits == 0 && v.pan_y_bits == 0 && v.zoom_bits == F32_ONE_BITS,
    {
        GraphView { pan_x_bits: 0, pan_y_bits: 0, zoom_bits: F32_ONE_BITS }
    }
}


#[derive(Debug, Clone, Copy, PartialEq, Eq, Structural)]
pub enum GraphParamKind {
    Real,
    Color,
    Position,
}

impl Default for GraphParamKind {
    fn default() -> (k: Self)
        ensures
            k == GraphParamKind::Real,
    {
        GraphParamKind::Real
    }
}

/// Bit pattern of `1.0_f64` (default alpha of a parameter).
pub const F64_ONE_BITS: u64 = 0x3ff0_0000_0000_0000;

/// Animatable parameter exposed on the Parameter tab. The values are `f64`
/// bit patterns: the real value, or R,G,B,A of a color, or X,Y of a position.
#[derive(Debug, Clone, PartialEq, Eq)]
pub struct GraphParam {
    pub id: u128,
    pub name: String,
    pub kind: GraphParamKind,
    pub v0_bits: u64,
    pub v1_bits: u64,
    pub v2_bits: u64,
    pub v3_bits: u64,
}

/// `param:` followed by the hyphenated id: the label of a parameter's whole-value track.
pub open spec fn track_base(id: u128) -> Seq<char> {
    "param:"@ + uuid_text(id)
}

/// Track labels of a parameter: one for a real, `:0`..`:3` (rgba) for a
/// color, `:0`..`:1` (xy) for a position.
pub open spec fn spec_track_labels(kind: GraphParamKind, id: u128) -> Seq<Seq<char>> {
    let b = track_base(id);
    match kind {
        GraphParamKind::Real => seq![b],
        GraphParamKind::Color => seq![b + ":0"@, b + ":1"@, b + ":2"@, b + ":3"@],
        GraphParamKind::Position => seq![b + ":0"@, b + ":1"@],
    }
}

/// Which component a track label addresses for parameter `id`: `Some(None)`
/// for the whole-value track, `Some(Some(n))` for `base:n`, `None` otherwise.
pub open spec fn spec_component_from_label(label: Seq<char>, id: u128) -> Option<Option<usize>> {
    let b = track_base(id);
    if label == b {
        Some(None)
    } else if label.len() >= b.len() + 1 && label.take(b.len() + 1 as int) == b + ":"@ {
        match crate::text::spec_parse_usize(label.skip(b.len() + 1 as int)) {
            Some(n) => Some(Some(n)),
            None => None,
        }
    } else {
        None
    }
}

impl GraphParam {
    pub fn new_real(name: &str, value_bits: u64) -> (p: GraphParam)
        ensures
            p.name@ == name@,
            p.kind == GraphParamKind::Real,
            p.v0_bits == value_bits && p.v1_bits == 0 && p.v2_bits == 0,
            p.v3_bits == F64_ONE_BITS,
    {
        GraphParam {
            id: fresh_id(),
            name: owned(name),
            kind: GraphParamKind::Real,
            v0_bits: value_bits,
            v1_bits: 0,
            v2_bits: 0,
            v3_bits: F64_ONE_BITS,
        }
    }

    pub fn new_color(name: &str, r_bits: u64, g_bits: u64, b_bits: u64) -> (p: GraphParam)
        ensures
            p.name@ == name@,
            p.kind == GraphParamKind::Color,
            p.v0_bits == r_bits && p.v1_bits == g_bits && p.v2_bits == b_bits,
            p.v3_bits == F64_ONE_BITS,
    {
        GraphParam {
            id: fresh_id(),
            name: owned(name),
            kind: GraphParamKind::Color,
            v0_bits: r_bits,
            v1_bits: g_bits,
            v2_bits: b_bits,
            v3_bits: F64_ONE_BITS,
        }
    }

    pub fn new_position(name: &str, x_bits: u64, y_bits: u64) -> (p: GraphParam)
        ensures
            p.name@ == name@,
            p.kind == GraphParamKind::Position,
            p.v0_bits == x_bits && p.v1_bits == y_bits && p.v2_bits == 0,
            p.v3_bits == F64_ONE_BITS,
    {
        GraphParam {
            id: fresh_id(),
            name: owned(name),
            kind: GraphParamKind::Position,
            v0_bits: x_bits,
            v1_bits: y_bits,
            v2_bits: 0,
            v3_bits: F64_ONE_BITS,
        }
    }

    /// Animation track labels stored on the node-editor layer's animation.
    pub fn anim_track_labels(&self) -> (r: Vec<String>)
        ensures
            r@.map_values(|s: String| s@) == spec_track_labels(self.kind, self.id),
    {
        let base = concat2("param:", uuid_to_string(self.id).as_str());
        let r = match self.kind {
            GraphParamKind::Real => vec![base],
            GraphParamKind::Color => vec![
                concat2(base.as_str(), ":0"),
                concat2(base.as_str(), ":1"),
                concat2(base.as_str(), ":2"),
                concat2(base.as_str(), ":3"),
            ],
            GraphParamKind::Position => vec![
                concat2(base.as_str(), ":0"),
                concat2(base.as_str(), ":1"),
            ],
        };
        assert(r@.map_values(|s: String| s@) =~= spec_track_labels(self.kind, self.id));
        r
    }

    /// Component index for a track label (`None` inside for the whole-value track).
    pub fn component_from_track_label(label: &str, param_id: u128) -> (r: Option<Option<usize>>)
        ensures
            r == spec_component_from_label(label@, param_id),
    {
        let base = concat2("param:", uuid_to_string(param_id).as_str());
        if str_eq(label, base.as_str()) {
            return Some(None);
        }
        let prefix = concat2(base.as_str(), ":");
        let n = label.unicode_len();
        let plen = prefix.as_str().unicode_len();
        if n < plen {
            return None;
        }
        let head = crate::text::char_slice(label, 0, plen);
        if !str_eq(head.as_str(), prefix.as_str()) {
            return None;
        }
        proof {
            let b = track_base(param_id);
            reveal_strlit(":");
            assert(prefix@ == b + ":"@);
            assert(plen == b.len() + 1);
            assert(label@.take(plen as int) =~= head@);
            assert(label@ != b);
        }
        match crate::text::parse_usize_from(label, plen) {
            Some(v) => Some(Some(v)),
            None => None,
        }
    }
}

/// Sound source resolved from the Output Object `sound` input.
#[derive(Debug, Clone, PartialEq, Eq)]
pub enum GraphSoundSource {
    FilePath(String),
    Empty,
}

/// Image source feeding the Output Object (after walking pass-through effects).
#[derive(Debug, Clone, PartialEq, Eq)]
pub enum GraphImageSource {
    /// Document object ids (App Object node).
    AppObjects(Vec<u128>),
    /// Filesystem path (Image / Video node).
    FilePath(String),
    /// Nothing connected or unresolved.
    Empty,
}

/// The node-editor graph of one layer.
#[derive(Debug)]
pub struct NodeGraph {
    pub nodes: IndexMap<u128, GraphNode>,
    pub links: Vec<GraphLink>,
    pub view: GraphView,
    pub parameters: Vec<GraphParam>,
    /// Primary Output Object node (continuous video sink).
    pub output_node_id: Option<u128>,
    /// Last evaluation error for the root output (propagated from broken links).
    pub root_error: Option<String>,
}

/// The node table of a graph, as (id, node) pairs in order.
pub open spec fn entries_view(s: Seq<(u128, GraphNode)>) -> Seq<(u128, GraphNodeView)> {
    s.map_values(|e: (u128, GraphNode)| (e.0, e.1@))
}

/// The node stored under `id`.
pub open spec fn node_of(s: Seq<(u128, GraphNode)>, id: u128) -> Option<GraphNodeView> {
    if key_index(s, id) >= 0 {
        Some(s[key_index(s, id)].1@)
    } else {
        None
    }
}

/// The (type, direction) of port `port` of node `id`, if both exist.
pub open spec fn node_port(s: Seq<(u128, GraphNode)>, id: u128, port: Seq<char>) -> Option<(PortType, PortDir)> {
    match node_of(s, id) {
        Some(n) => match find_port(spec_ports(n.kind), port) {
            Some(p) => Some((p.2, p.3)),
            None => None,
        },
        None => None,
    }
}

pub open spec fn is_output_object(n: GraphNodeView) -> bool {
    n.kind == NodeKindView::OutputObject
}

pub open spec fn output_pred() -> spec_fn((u128, GraphNode)) -> bool {
    |e: (u128, GraphNode)| is_output_object(e.1@)
}

/// Index of the first Output Object in the table, or -1.
pub open spec fn first_output_index(s: Seq<(u128, GraphNode)>) -> int {
    first_index(s, output_pred())
}

/// Id (as stored in the node) of the first Output Object in the table.
pub open spec fn first_output_id(s: Seq<(u128, GraphNode)>) -> Option<u128> {
    if first_output_index(s) >= 0 {
        Some(s[first_output_index(s)].1.id)
    } else {
        None
    }
}

impl NodeGraph {
    pub open spec fn entries(&self) -> Seq<(u128, GraphNode)> {
        node_entries(self.nodes)
    }

    /// Lookup of node `id` in the table.
    pub(crate) fn get_node(&self, id: u128) -> (r: Option<&GraphNode>)
        ensures
            match node_of(self.entries(), id) {
                Some(v) => r is Some && r.unwrap()@ == v,
                None => r is None,
            },
    {
        nodes_get(&self.nodes, id)
    }

    /// Id of the first Output Object node, scanning the table in order.
    fn find_output_node(&self) -> (r: Option<u128>)
        ensures
            r == first_output_id(self.entries()),
    {
        let n = nodes_len(&self.nodes);
        let ghost s = self.entries();
        let ghost p = output_pred();
        let mut i: usize = 0;
        while i < n
            invariant
                n == s.len(),
                s == self.entries(),
                p == output_pred(),
                i <= n,
                forall|j: int| 0 <= j < i ==> !p(#[trigger] s[j]),
            decreases n - i,
        {
            let (_k, node) = nodes_get_index(&self.nodes, i);
            if matches!(node.kind, GraphNodeKind::OutputObject) {
                proof {
                    lemma_first_index_is(s, p, i as int);
                }
                return Some(node.id);
            }
            i = i + 1;
        }
        proof {
            lemma_first_index_none(s, p);
        }
        None
    }

    /// A graph seeded with one Output Object, which is the primary sink.
    pub fn new_empty() -> (g: NodeGraph)
        ensures
            g.entries().len() == 1,
            g.output_node_id == Some(g.entries()[0].0),
            g.entries()[0].1.id == g.entries()[0].0,
            g.entries()[0].1@.kind == NodeKindView::OutputObject,
            g.entries()[0].1@.name == spec_title(NodeKindView::OutputObject),
            g.entries()[0].1@.error is None,
            g.entries()[0].1.x_bits == 0x438c_0000,
            g.entries()[0].1.y_bits == 0x42f0_0000,
            g.links@.len() == 0,
            g.parameters@.len() == 0,
            g.root_error is None,
    {
        // Seeded at graph position (280, 120).
        let out = GraphNode::new(GraphNodeKind::OutputObject, 0x438c_0000, 0x42f0_0000);
        let id = out.id;
        let mut nodes = nodes_new();
        nodes_insert(&mut nodes, id, out);
        proof {
            reveal_with_fuel(first_index, 2);
        }
        NodeGraph {
            nodes,
            links: Vec::new(),
            view: GraphView::default(),
            parameters: Vec::new(),
            output_node_id: Some(id),
            root_error: None,
        }
    }

    /// Adds a node with a fresh id. The first Output Object becomes the
    /// primary sink; later ones do not steal it.
    pub fn add_node(&mut self, kind: GraphNodeKind, x_bits: u32, y_bits: u32) -> (id: u128)
        ensures
            ({
                let k = key_index(old(self).entries(), id);
                let n = if k >= 0 { final(self).entries()[k].1 } else { final(self).entries().last().1 };
                &&& final(self).entries() == entries_insert(old(self).entries(), id, n)
                &&& n.id == id
                &&& n.name@ == spec_title(kind@)
                &&& n.kind@ == kind@
                &&& n.x_bits == x_bits && n.y_bits == y_bits
                &&& n.error is None
            }),
            final(self).output_node_id == (if kind@ == NodeKindView::OutputObject
                && old(self).output_node_id is None {
                Some(id)
            } else {
                old(self).output_node_id
            }),
            final(self).links == old(self).links,
            final(self).parameters == old(self).parameters,
            final(self).root_error == old(self).root_error,
            final(self).view == old(self).view,
    {
        let is_output = matches!(kind, GraphNodeKind::OutputObject);
        let node = GraphNode::new(kind, x_bits, y_bits);
        let id = node.id;
        if is_output && self.output_node_id.is_none() {
            self.output_node_id = Some(id);
        }
        let ghost before = self.entries();
        nodes_insert(&mut self.nodes, id, node);
        proof {
            crate::node_map::lemma_key_index(before, id);
            let k = key_index(before, id);
            if k >= 0 {
                assert(self.entries()[k] == (id, node));
            } else {
                assert(self.entries().last() == (id, node));
            }
        }
        id
    }
}

/// The primary sink: the recorded Output Object when it still exists, else
/// the first Output Object in table order.
pub open spec fn spec_primary_output(s: Seq<(u128, GraphNode)>, out: Option<u128>) -> Option<u128> {
    match out {
        Some(id) => if key_index(s, id) >= 0 {
            Some(id)
        } else {
            first_output_id(s)
        },
        None => first_output_id(s),
    }
}

/// Why a wire from `(from, fp)` to `(to, tp)` is refused, if it is.
pub open spec fn link_error(
    s: Seq<(u128, GraphNode)>,
    from: u128,
    fp: Seq<char>,
    to: u128,
    tp: Seq<char>,
) -> Option<Seq<char>> {
    if from == to {
        Some("Cannot connect a node to itself"@)
    } else if node_port(s, from, fp) is None {
        Some("Unknown output port"@)
    } else if node_port(s, to, tp) is None {
        Some("Unknown input port"@)
    } else if node_port(s, from, fp).unwrap().1 != PortDir::Output || node_port(s, to, tp).unwrap().1
        != PortDir::Input {
        Some("Wire must go from output to input"@)
    } else if !spec_can_connect(node_port(s, from, fp).unwrap().0, node_port(s, to, tp).unwrap().0) {
        Some(
            "Type mismatch: "@ + spec_port_type_label(node_port(s, from, fp).unwrap().0) + " → "@
                + spec_port_type_label(node_port(s, to, tp).unwrap().0),
        )
    } else {
        None
    }
}

/// The link ends at input `(to, tp)`.
pub open spec fn into_pred(to: u128, tp: Seq<char>) -> spec_fn(LinkView) -> bool {
    |l: LinkView| l.2 == to && l.3 == tp
}

/// The link does not end at input `(to, tp)`.
pub open spec fn not_into_pred(to: u128, tp: Seq<char>) -> spec_fn(LinkView) -> bool {
    |l: LinkView| !(l.2 == to && l.3 == tp)
}

/// The link ends at `(to, tp)` and comes from a Real port.
pub open spec fn real_into_pred(s: Seq<(u128, GraphNode)>, to: u128, tp: Seq<char>) -> spec_fn(LinkView) -> bool {
    |l: LinkView|
        l.2 == to && l.3 == tp && node_port(s, l.0, l.1) is Some && node_port(s, l.0, l.1).unwrap().0
            == PortType::Real
}

/// The link neither starts nor ends at node `id`.
pub open spec fn untouched_pred(id: u128) -> spec_fn(LinkView) -> bool {
    |l: LinkView| l.0 != id && l.2 != id
}

proof fn lemma_links_view_push(s: Seq<GraphLink>, l: GraphLink)
    ensures
        links_view(s.push(l)) == links_view(s).push(l@),
{
    assert(links_view(s.push(l)) =~= links_view(s).push(l@));
}

proof fn lemma_links_view_remove_first(s: Seq<GraphLink>)
    requires
        s.len() > 0,
    ensures
        links_view(s.remove(0)) == links_view(s).skip(1),
        links_view(s)[0] == s[0]@,
{
    assert(links_view(s.remove(0)) =~= links_view(s).skip(1));
}

impl NodeGraph {
    /// Primary Output Object, or the first Output Object if the primary is unset or gone.
    pub fn primary_output_id(&self) -> (r: Option<u128>)
        ensures
            r == spec_primary_output(self.entries(), self.output_node_id),
    {
        if let Some(id) = self.output_node_id {
            if self.get_node(id).is_some() {
                return Some(id);
            }
        }
        self.find_output_node()
    }

    /// Type and direction of port `port_id` of node `node_id`.
    fn port_info(&self, node_id: u128, port_id: &str) -> (r: Option<(PortType, PortDir)>)
        ensures
            r == node_port(self.entries(), node_id, port_id@),
    {
        match self.get_node(node_id) {
            Some(n) => kind_port(&n.kind, port_id),
            None => None,
        }
    }

    /// Type of port `port_id` of node `node_id`.
    pub fn port_type(&self, node_id: u128, port_id: &str) -> (r: Option<PortType>)
        ensures
            r == (match node_port(self.entries(), node_id, port_id@) {
                Some(p) => Some(p.0),
                None => None,
            }),
    {
        match self.port_info(node_id, port_id) {
            Some(p) => Some(p.0),
            None => None,
        }
    }

    /// Adds a wire from an output port to an input port, replacing any wire
    /// already feeding that input (one link per input port).
    pub fn try_add_link(&mut self, from_node: u128, from_port: &str, to_node: u128, to_port: &str) -> (r: Result<(), String>)
        ensures
            final(self).entries() == old(self).entries(),
            final(self).output_node_id == old(self).output_node_id,
            final(self).parameters == old(self).parameters,
            final(self).root_error == old(self).root_error,
            match r {
                Err(e) => {
                    &&& link_error(old(self).entries(), from_node, from_port@, to_node, to_port@) == Some(e@)
                    &&& final(self).links == old(self).links
                },
                Ok(()) => {
                    &&& link_error(old(self).entries(), from_node, from_port@, to_node, to_port@) is None
                    &&& links_view(final(self).links@) == links_view(old(self).links@).filter(
                        not_into_pred(to_node, to_port@),
                    ).push((from_node, from_port@, to_node, to_port@))
                    &&& final(self).links@.drop_last() == old(self).links@.filter(link_not_into(to_node, to_port@))
                },
            },
            final(self).view == old(self).view,
    {
        if from_node == to_node {
            return Err(owned("Cannot connect a node to itself"));
        }
        let from_info = match self.port_info(from_node, from_port) {
            Some(p) => p,
            None => {
                return Err(owned("Unknown output port"));
            },
        };
        let to_info = match self.port_info(to_node, to_port) {
            Some(p) => p,
            None => {
                return Err(owned("Unknown input port"));
            },
        };
        if from_info.1 != PortDir::Output || to_info.1 != PortDir::Input {
            return Err(owned("Wire must go from output to input"));
        }
        if !PortType::can_connect(from_info.0, to_info.0) {
            let mut msg = concat2("Type mismatch: ", from_info.0.label());
            msg.append(" → ");
            msg.append(to_info.0.label());
            return Err(msg);
        }
        // One link per input port.
        let mut rest: Vec<GraphLink> = Vec::new();
        std::mem::swap(&mut rest, &mut self.links);
        let ghost orig = links_view(rest@);
        let ghost origl = rest@;
        let ghost p = not_into_pred(to_node, to_port@);
        let ghost lp = link_not_into(to_node, to_port@);
        let ghost mut k: int = 0;
        while rest.len() > 0
            invariant
                self.view == old(self).view,
                p == not_into_pred(to_node, to_port@),
                lp == link_not_into(to_node, to_port@),
                origl == old(self).links@,
                k <= origl.len(),
                rest@ == origl.skip(k),
                self.links@ == origl.take(k).filter(lp),
                self.entries() == old(self).entries(),
                self.output_node_id == old(self).output_node_id,
                self.parameters == old(self).parameters,
                self.root_error == old(self).root_error,
                0 <= k <= orig.len(),
                links_view(rest@) == orig.skip(k),
                links_view(self.links@) == orig.take(k).filter(p),
            decreases rest@.len(),
        {
            proof {
                lemma_links_view_remove_first(rest@);
                lemma_filter_take_step(orig, p, k);
                lemma_filter_take_step(origl, lp, k);
                assert(orig.skip(k)[0] == orig[k]);
                assert(orig.skip(k).skip(1) =~= orig.skip(k + 1));
                assert(origl.skip(k).remove(0) =~= origl.skip(k + 1));
            }
            let l = rest.remove(0);
            let keep = !(l.to_node == to_node && str_eq(l.to_port.as_str(), to_port));
            if keep {
                proof {
                    lemma_links_view_push(self.links@, l);
                }
                self.links.push(l);
            }
            proof {
                k = k + 1;
            }
        }
        proof {
            assert(orig.take(k) =~= orig);
            assert(origl.take(k) =~= origl);
        }
        let link = GraphLink::new(from_node, from_port, to_node, to_port);
        proof {
            lemma_links_view_push(self.links@, link);
        }
        self.links.push(link);
        assert(self.links@.drop_last() =~= origl.filter(lp));
        Ok(())
    }

    /// Source node of the first link feeding input `(to_node, to_port)`.
    pub fn input_source_node(&self, to_node: u128, to_port: &str) -> (r: Option<u128>)
        ensures
            ({
                let lv = links_view(self.links@);
                let i = first_index(lv, into_pred(to_node, to_port@));
                r == (if i >= 0 { Some(lv[i].0) } else { None })
            }),
    {
        let ghost lv = links_view(self.links@);
        let ghost p = into_pred(to_node, to_port@);
        let mut i: usize = 0;
        while i < self.links.len()
            invariant
                lv == links_view(self.links@),
                p == into_pred(to_node, to_port@),
                i <= self.links@.len(),
                forall|j: int| 0 <= j < i ==> !p(#[trigger] lv[j]),
            decreases self.links@.len() - i,
        {
            assert(lv[i as int] == self.links@[i as int]@);
            if self.links[i].to_node == to_node && str_eq(self.links[i].to_port.as_str(), to_port) {
                proof {
                    lemma_first_index_is(lv, p, i as int);
                }
                return Some(self.links[i].from_node);
            }
            i = i + 1;
        }
        proof {
            lemma_first_index_none(lv, p);
        }
        None
    }

    /// Source node of the first link into `(to_node, to_port)` that comes
    /// from a Real port.
    pub fn real_input_source(&self, to_node: u128, to_port: &str) -> (r: Option<u128>)
        ensures
            ({
                let lv = links_view(self.links@);
                let i = first_index(lv, real_into_pred(self.entries(), to_node, to_port@));
                r == (if i >= 0 { Some(lv[i].0) } else { None })
            }),
    {
        let ghost lv = links_view(self.links@);
        let ghost p = real_into_pred(self.entries(), to_node, to_port@);
        let mut i: usize = 0;
        while i < self.links.len()
            invariant
                lv == links_view(self.links@),
                p == real_into_pred(self.entries(), to_node, to_port@),
                i <= self.links@.len(),
                forall|j: int| 0 <= j < i ==> !p(#[trigger] lv[j]),
            decreases self.links@.len() - i,
        {
            let l = &self.links[i];
            assert(lv[i as int] == l@);
            if l.to_node == to_node && str_eq(l.to_port.as_str(), to_port) {
                match self.port_type(l.from_node, l.from_port.as_str()) {
                    Some(PortType::Real) => {
                        proof {
                            lemma_first_index_is(lv, p, i as int);
                        }
                        return Some(l.from_node);
                    },
                    _ => {},
                }
            }
            i = i + 1;
        }
        proof {
            lemma_first_index_none(lv, p);
        }
        None
    }
}


/// The parameter a Param node refers to.
pub open spec fn param_id_of(k: NodeKindView) -> Option<u128> {
    match k {
        NodeKindView::ParamReal { param_id } => Some(param_id),
        NodeKindView::ParamColor { param_id } => Some(param_id),
        NodeKindView::ParamPosition { param_id } => Some(param_id),
        _ => None,
    }
}

/// Some Param node of the table refers to parameter `pid`.
pub open spec fn param_in_use(s: Seq<(u128, GraphNode)>, pid: u128) -> bool {
    exists|i: int| 0 <= i < s.len() && param_id_of((#[trigger] s[i]).1@.kind) == Some(pid)
}

pub open spec fn in_use_pred(s: Seq<(u128, GraphNode)>) -> spec_fn(GraphParam) -> bool {
    |p: GraphParam| param_in_use(s, p.id)
}

/// The ids a node kind lists as App Objects (empty for other kinds).
pub open spec fn app_object_ids(k: NodeKindView) -> Seq<u128> {
    match k {
        NodeKindView::ObjectFromApp { node_ids } => node_ids,
        _ => Seq::empty(),
    }
}

pub open spec fn living_pred(live: Set<u128>) -> spec_fn(u128) -> bool {
    |x: u128| live.contains(x)
}

/// An App Object node that referred to objects, none of which is alive.
pub open spec fn is_dead_source(n: GraphNodeView, live: Set<u128>) -> bool {
    n.kind is ObjectFromApp && app_object_ids(n.kind).len() > 0 && app_object_ids(n.kind).filter(
        living_pred(live),
    ).len() == 0
}

/// An App Object node after dropping the ids of deleted objects: it is marked
/// broken when it lost all of them, cleared when some remain.
pub open spec fn pruned_node(n: GraphNodeView, live: Set<u128>) -> GraphNodeView {
    match n.kind {
        NodeKindView::ObjectFromApp { node_ids } => {
            let kept = node_ids.filter(living_pred(live));
            GraphNodeView {
                kind: NodeKindView::ObjectFromApp { node_ids: kept },
                error: if kept.len() == 0 && node_ids.len() > 0 {
                    Some("Source object deleted"@)
                } else if kept.len() > 0 {
                    None
                } else {
                    n.error
                },
                ..n
            }
        },
        _ => n,
    }
}

/// Keys of the App Object nodes whose sources are all gone.
pub open spec fn dead_keys(s: Seq<(u128, GraphNodeView)>, live: Set<u128>) -> Set<u128> {
    Set::new(|k: u128| exists|i: int| 0 <= i < s.len() && (#[trigger] s[i]).0 == k && is_dead_source(s[i].1, live))
}

pub open spec fn not_from_pred(dead: Set<u128>) -> spec_fn(LinkView) -> bool {
    |l: LinkView| !dead.contains(l.0)
}

pub open spec fn pruned_entries(s: Seq<(u128, GraphNodeView)>, live: Set<u128>) -> Seq<(u128, GraphNodeView)> {
    s.map_values(|e: (u128, GraphNodeView)| (e.0, pruned_node(e.1, live)))
}


impl NodeGraph {
    /// Whether some Param node refers to parameter `pid`.
    fn param_used(&self, pid: u128) -> (r: bool)
        ensures
            r == param_in_use(self.entries(), pid),
    {
        let n = nodes_len(&self.nodes);
        let ghost s = self.entries();
        let mut i: usize = 0;
        while i < n
            invariant
                n == s.len(),
                s == self.entries(),
                i <= n,
                forall|j: int| 0 <= j < i ==> param_id_of((#[trigger] s[j]).1@.kind) != Some(pid),
            decreases n - i,
        {
            let (_k, node) = nodes_get_index(&self.nodes, i);
            let hit = match node.kind {
                GraphNodeKind::ParamReal { param_id } => param_id == pid,
                GraphNodeKind::ParamColor { param_id } => param_id == pid,
                GraphNodeKind::ParamPosition { param_id } => param_id == pid,
                _ => false,
            };
            if hit {
                assert(param_id_of(s[i as int].1@.kind) == Some(pid));
                return true;
            }
            i = i + 1;
        }
        false
    }

    /// Keeps `parameters` in sync with the Param nodes: entries whose node
    /// is gone are removed, the others keep their order.
    pub fn sync_parameters_with_nodes(&mut self)
        ensures
            final(self).parameters@ == old(self).parameters@.filter(in_use_pred(old(self).entries())),
            final(self).entries() == old(self).entries(),
            final(self).links == old(self).links,
            final(self).output_node_id == old(self).output_node_id,
            final(self).root_error == old(self).root_error,
            final(self).view == old(self).view,
    {
        let mut rest: Vec<GraphParam> = Vec::new();
        std::mem::swap(&mut rest, &mut self.parameters);
        let ghost orig = rest@;
        let ghost p = in_use_pred(self.entries());
        let ghost mut k: int = 0;
        while rest.len() > 0
            invariant
                self.view == old(self).view,
                p == in_use_pred(old(self).entries()),
                self.entries() == old(self).entries(),
                self.links == old(self).links,
                self.output_node_id == old(self).output_node_id,
                self.root_error == old(self).root_error,
                orig == old(self).parameters@,
                0 <= k <= orig.len(),
                rest@ == orig.skip(k),
                self.parameters@ == orig.take(k).filter(p),
            decreases rest@.len(),
        {
            proof {
                lemma_filter_take_step(orig, p, k);
                assert(orig.skip(k)[0] == orig[k]);
                assert(orig.skip(k).remove(0) =~= orig.skip(k + 1));
            }
            let q = rest.remove(0);
            if self.param_used(q.id) {
                self.parameters.push(q);
            }
            proof {
                k = k + 1;
            }
        }
        proof {
            assert(orig.take(k) =~= orig);
        }
    }

    /// Removes a node with its links; a removed primary sink is replaced by
    /// the first remaining Output Object; orphaned parameters are dropped.
    pub fn remove_node(&mut self, id: u128)
        ensures
            final(self).entries() == (if key_index(old(self).entries(), id) >= 0 {
                old(self).entries().remove(key_index(old(self).entries(), id))
            } else {
                old(self).entries()
            }),
            forall|j: int| 0 <= j < final(self).entries().len() ==> (#[trigger] final(self).entries()[j]).0 != id,
            links_view(final(self).links@) == links_view(old(self).links@).filter(untouched_pred(id)),
            final(self).links@ == old(self).links@.filter(link_untouched(id)),
            final(self).output_node_id == (if old(self).output_node_id == Some(id) {
                first_output_id(final(self).entries())
            } else {
                old(self).output_node_id
            }),
            final(self).parameters@ == old(self).parameters@.filter(in_use_pred(final(self).entries())),
            final(self).root_error == old(self).root_error,
            final(self).view == old(self).view,
    {
        nodes_shift_remove(&mut self.nodes, id);
        let mut rest: Vec<GraphLink> = Vec::new();
        std::mem::swap(&mut rest, &mut self.links);
        let ghost orig = links_view(rest@);
        let ghost origl = rest@;
        let ghost p = untouched_pred(id);
        let ghost lp = link_untouched(id);
        let ghost mid = self.entries();
        let ghost mut k: int = 0;
        while rest.len() > 0
            invariant
                self.view == old(self).view,
                lp == link_untouched(id),
                origl == old(self).links@,
                k <= origl.len(),
                rest@ == origl.skip(k),
                self.links@ == origl.take(k).filter(lp),
                p == untouched_pred(id),
                self.entries() == mid,
                self.output_node_id == old(self).output_node_id,
                self.parameters == old(self).parameters,
                self.root_error == old(self).root_error,
                orig == links_view(old(self).links@),
                0 <= k <= orig.len(),
                links_view(rest@) == orig.skip(k),
                links_view(self.links@) == orig.take(k).filter(p),
            decreases rest@.len(),
        {
            proof {
                lemma_links_view_remove_first(rest@);
                lemma_filter_take_step(orig, p, k);
                lemma_filter_take_step(origl, lp, k);
                assert(orig.skip(k)[0] == orig[k]);
                assert(orig.skip(k).skip(1) =~= orig.skip(k + 1));
                assert(origl.skip(k).remove(0) =~= origl.skip(k + 1));
            }
            let l = rest.remove(0);
            if l.from_node != id && l.to_node != id {
                proof {
                    lemma_links_view_push(self.links@, l);
                }
                self.links.push(l);
            }
            proof {
                k = k + 1;
            }
        }
        proof {
            assert(orig.take(k) =~= orig);
            assert(origl.take(k) =~= origl);
        }
        if self.output_node_id == Some(id) {
            self.output_node_id = self.find_output_node();
        }
        self.sync_parameters_with_nodes();
    }

    /// The ids of `ids` that are still alive, in order.
    fn living_ids(ids: Vec<u128>, living: &std::collections::HashSet<u128>) -> (r: Vec<u128>)
        requires
            vstd::std_specs::hash::obeys_key_model::<u128>(),
        ensures
            r@ == ids@.filter(living_pred(living@)),
    {
        let mut rest = ids;
        let ghost orig = rest@;
        let ghost p = living_pred(living@);
        let mut kept: Vec<u128> = Vec::new();
        let ghost mut k: int = 0;
        while rest.len() > 0
            invariant
                vstd::std_specs::hash::obeys_key_model::<u128>(),
                p == living_pred(living@),
                0 <= k <= orig.len(),
                rest@ == orig.skip(k),
                kept@ == orig.take(k).filter(p),
            decreases rest@.len(),
        {
            proof {
                lemma_filter_take_step(orig, p, k);
                assert(orig.skip(k)[0] == orig[k]);
                assert(orig.skip(k).remove(0) =~= orig.skip(k + 1));
            }
            let x = rest.remove(0);
            if living.contains(&x) {
                kept.push(x);
            }
            proof {
                k = k + 1;
            }
        }
        proof {
            assert(orig.take(k) =~= orig);
        }
        kept
    }
}


pub open spec fn all_errors_clear(s: Seq<(u128, GraphNode)>) -> bool {
    forall|i: int| 0 <= i < s.len() ==> (#[trigger] s[i]).1.error is None
}

pub open spec fn has_dead_source(s: Seq<(u128, GraphNodeView)>, live: Set<u128>) -> bool {
    exists|i: int| 0 <= i < s.len() && is_dead_source((#[trigger] s[i]).1, live)
}

fn vec_has(v: &Vec<u128>, x: u128) -> (r: bool)
    ensures
        r == v@.contains(x),
{
    let mut i: usize = 0;
    while i < v.len()
        invariant
            i <= v@.len(),
            forall|j: int| 0 <= j < i ==> v@[j] != x,
        decreases v@.len() - i,
    {
        if v[i] == x {
            return true;
        }
        i = i + 1;
    }
    false
}

/// An unnamed Output Object with id 0 at the origin and no error, put in a
/// table slot while the node there is edited.
fn placeholder_node() -> (n: GraphNode)
    ensures
        n.id == 0,
        n.name@.len() == 0,
        n.kind == GraphNodeKind::OutputObject,
        n.x_bits == 0,
        n.y_bits == 0,
        n.error is None,
{
    GraphNode {
        id: 0,
        name: String::new(),
        kind: GraphNodeKind::OutputObject,
        x_bits: 0,
        y_bits: 0,
        error: None,
    }
}

impl NodeGraph {
    /// Whether no node carries an error.
    fn no_node_errors(&self) -> (r: bool)
        ensures
            r == all_errors_clear(self.entries()),
    {
        let n = nodes_len(&self.nodes);
        let ghost s = self.entries();
        let mut i: usize = 0;
        while i < n
            invariant
                n == s.len(),
                s == self.entries(),
                i <= n,
                forall|j: int| 0 <= j < i ==> (#[trigger] s[j]).1.error is None,
            decreases n - i,
        {
            let (_k, node) = nodes_get_index(&self.nodes, i);
            if node.error.is_some() {
                return false;
            }
            i = i + 1;
        }
        true
    }

    /// Drops App Object references to deleted objects. A node that loses
    /// all its sources is marked broken, its outgoing links are removed and
    /// the graph records a root error; when nothing is broken and no node
    /// has an error, the root error is cleared.
    pub fn prune_dead_object_links(&mut self, living: &std::collections::HashSet<u128>)
        ensures
            entries_view(final(self).entries()) == pruned_entries(entries_view(old(self).entries()), living@),
            ({
                let ov = entries_view(old(self).entries());
                if has_dead_source(ov, living@) {
                    &&& links_view(final(self).links@) == links_view(old(self).links@).filter(
                        not_from_pred(dead_keys(ov, living@)),
                    )
                    &&& opt_text(final(self).root_error) == Some(
                        "Graph error: missing source object (check Output Object)"@,
                    )
                } else {
                    &&& final(self).links == old(self).links
                    &&& final(self).root_error == (if all_errors_clear(final(self).entries()) {
                        None
                    } else {
                        old(self).root_error
                    })
                }
            }),
            final(self).output_node_id == old(self).output_node_id,
            final(self).parameters == old(self).parameters,
            final(self).view == old(self).view,
    {
        broadcast use vstd::std_specs::hash::group_hash_axioms;
        let n = nodes_len(&self.nodes);
        let ghost ov = entries_view(self.entries());
        let ghost live = living@;
        let mut broken = false;
        let mut dead: Vec<u128> = Vec::new();
        let mut i: usize = 0;
        while i < n
            invariant
                self.view == old(self).view,
                n == ov.len(),
                live == living@,
                vstd::std_specs::hash::obeys_key_model::<u128>(),
                ov == entries_view(old(self).entries()),
                self.links == old(self).links,
                self.root_error == old(self).root_error,
                self.output_node_id == old(self).output_node_id,
                self.parameters == old(self).parameters,
                i <= n,
                self.entries().len() == n,
                forall|j: int| 0 <= j < i ==> #[trigger] entries_view(self.entries())[j] == (ov[j].0, pruned_node(ov[j].1, live)),
                forall|j: int| i <= j < n ==> #[trigger] entries_view(self.entries())[j] == ov[j],
                broken == exists|j: int| 0 <= j < i && is_dead_source((#[trigger] ov[j]).1, live),
                forall|x: u128| dead@.contains(x) <==> exists|j: int| 0 <= j < i && (#[trigger] ov[j]).0 == x && is_dead_source(ov[j].1, live),
            decreases n - i,
        {
            let ghost before = self.entries();
            let node = nodes_replace_at(&mut self.nodes, i, placeholder_node());
            let (key, _unused) = nodes_get_index(&self.nodes, i);
            assert(entries_view(before)[i as int] == ov[i as int]);
            assert(key == ov[i as int].0);
            assert(node@ == ov[i as int].1);
            let GraphNode { id, name, kind, x_bits, y_bits, error } = node;
            let ghost old_node = GraphNode { id, name, kind, x_bits, y_bits, error }@;
            let mut new_error = error;
            let mut is_dead = false;
            let new_kind = match kind {
                GraphNodeKind::ObjectFromApp { node_ids } => {
                    let before_len = node_ids.len();
                    let kept = Self::living_ids(node_ids, living);
                    if kept.len() == 0 && before_len > 0 {
                        new_error = Some(owned("Source object deleted"));
                        is_dead = true;
                    } else if kept.len() > 0 {
                        new_error = None;
                    }
                    GraphNodeKind::ObjectFromApp { node_ids: kept }
                },
                other => other,
            };
            let new_node = GraphNode { id, name, kind: new_kind, x_bits, y_bits, error: new_error };
            assert(new_node@ == pruned_node(old_node, live));
            assert(is_dead == is_dead_source(old_node, live));
            let ghost mid = self.entries();
            nodes_replace_at(&mut self.nodes, i, new_node);
            proof {
                assert forall|j: int| 0 <= j < n && j != i implies #[trigger] entries_view(self.entries())[j] == entries_view(before)[j] by {
                    assert(self.entries()[j] == before[j]);
                }
                assert(entries_view(self.entries())[i as int] == (ov[i as int].0, pruned_node(ov[i as int].1, live)));
            }
            let ghost old_dead = dead@;
            if is_dead {
                broken = true;
                dead.push(key);
            }
            proof {
                assert(is_dead == is_dead_source(ov[i as int].1, live));
                assert forall|x: u128| dead@.contains(x) <==> exists|j: int| 0 <= j < i + 1 && (#[trigger] ov[j]).0 == x && is_dead_source(ov[j].1, live) by {
                    if dead@.contains(x) {
                        if old_dead.contains(x) {
                            let j = choose|j: int| 0 <= j < i && (#[trigger] ov[j]).0 == x && is_dead_source(ov[j].1, live);
                            assert(0 <= j < i + 1 && ov[j].0 == x && is_dead_source(ov[j].1, live));
                        } else {
                            assert(is_dead);
                            assert(dead@.last() == key);
                            assert(x == key) by {
                                let q = choose|q: int| 0 <= q < dead@.len() && dead@[q] == x;
                                if q < old_dead.len() {
                                    assert(old_dead[q] == x);
                                }
                            }
                            assert(ov[i as int].0 == x && is_dead_source(ov[i as int].1, live));
                        }
                    }
                    if exists|j: int| 0 <= j < i + 1 && (#[trigger] ov[j]).0 == x && is_dead_source(ov[j].1, live) {
                        let j = choose|j: int| 0 <= j < i + 1 && (#[trigger] ov[j]).0 == x && is_dead_source(ov[j].1, live);
                        if j < i {
                            assert(old_dead.contains(x));
                            let q = choose|q: int| 0 <= q < old_dead.len() && old_dead[q] == x;
                            assert(dead@[q] == x);
                        } else {
                            assert(dead@[dead@.len() - 1] == x);
                        }
                    }
                }
            }
            i = i + 1;
        }
        proof {
            assert(entries_view(self.entries()) =~= pruned_entries(ov, live));
        }
        if broken {
            let mut rest: Vec<GraphLink> = Vec::new();
            std::mem::swap(&mut rest, &mut self.links);
            let ghost orig = links_view(rest@);
            let ghost dk = dead_keys(ov, live);
            let ghost p = not_from_pred(dk);
            let ghost mut k: int = 0;
            let ghost fin = self.entries();
            while rest.len() > 0
                invariant
                    self.view == old(self).view,
                    p == not_from_pred(dk),
                    dk == dead_keys(ov, live),
                    forall|x: u128| dead@.contains(x) <==> exists|j: int| 0 <= j < ov.len() && (#[trigger] ov[j]).0 == x && is_dead_source(ov[j].1, live),
                    self.entries() == fin,
                    self.output_node_id == old(self).output_node_id,
                    self.parameters == old(self).parameters,
                    orig == links_view(old(self).links@),
                    0 <= k <= orig.len(),
                    links_view(rest@) == orig.skip(k),
                    links_view(self.links@) == orig.take(k).filter(p),
                decreases rest@.len(),
            {
                proof {
                    lemma_links_view_remove_first(rest@);
                    lemma_filter_take_step(orig, p, k);
                    assert(orig.skip(k)[0] == orig[k]);
                    assert(orig.skip(k).skip(1) =~= orig.skip(k + 1));
                }
                let l = rest.remove(0);
                if !vec_has(&dead, l.from_node) {
                    proof {
                        lemma_links_view_push(self.links@, l);
                    }
                    self.links.push(l);
                }
                proof {
                    k = k + 1;
                }
            }
            proof {
                assert(orig.take(k) =~= orig);
            }
            self.root_error = Some(owned("Graph error: missing source object (check Output Object)"));
        } else if self.no_node_errors() {
            self.root_error = None;
        }
    }
}


/// The session path a Septic or Mouse object names, when not blank.
pub open spec fn septic_source_path(k: NodeKindView) -> Option<Seq<char>> {
    match k {
        NodeKindView::ObjectSeptic { path } => if !is_blank(path) {
            Some(path)
        } else {
            None
        },
        NodeKindView::ObjectMouse { path } => if !is_blank(path) {
            Some(path)
        } else {
            None
        },
        _ => None,
    }
}

/// The septic session path reaching input `(node_id, port)`: through Septic
/// Players up to a Septic or Mouse object; an unwired node may itself be the
/// object. The walk gives up after 32 hops.
pub open spec fn spec_septic_path(
    s: Seq<(u128, GraphNode)>,
    links: Seq<LinkView>,
    node_id: u128,
    port: Seq<char>,
    depth: int,
) -> Option<Seq<char>>
    decreases 33 - depth,
{
    if depth > 32 {
        None
    } else {
        let i = first_index(links, into_pred(node_id, port));
        if i < 0 {
            match node_of(s, node_id) {
                Some(n) => septic_source_path(n.kind),
                None => None,
            }
        } else {
            let src = links[i].0;
            match node_of(s, src) {
                Some(n) => if n.kind == NodeKindView::SepticPlayer {
                    spec_septic_path(s, links, src, "septic"@, depth + 1)
                } else {
                    septic_source_path(n.kind)
                },
                None => None,
            }
        }
    }
}

pub open spec fn accept_pred(ty: PortType) -> spec_fn(NodeKindView) -> bool {
    |k: NodeKindView| spec_accepts(k, ty)
}

pub open spec fn produce_pred(ty: PortType) -> spec_fn(NodeKindView) -> bool {
    |k: NodeKindView| spec_produces(k, ty)
}

pub open spec fn kinds_view(s: Seq<GraphNodeKind>) -> Seq<NodeKindView> {
    s.map_values(|k: GraphNodeKind| k@)
}

proof fn lemma_kinds_view_push(s: Seq<GraphNodeKind>, k: GraphNodeKind)
    ensures
        kinds_view(s.push(k)) == kinds_view(s).push(k@),
{
    assert(kinds_view(s.push(k)) =~= kinds_view(s).push(k@));
}

fn septic_object_path(k: &GraphNodeKind) -> (r: Option<String>)
    ensures
        opt_text(r) == septic_source_path(k@),
{
    match k {
        GraphNodeKind::ObjectSeptic { path } => if !str_is_blank(path.as_str()) {
            Some(path.clone())
        } else {
            None
        },
        GraphNodeKind::ObjectMouse { path } => if !str_is_blank(path.as_str()) {
            Some(path.clone())
        } else {
            None
        },
        _ => None,
    }
}

impl NodeGraph {
    /// Path of the septic session feeding `(node_id, port)`.
    pub fn resolve_septic_path(&self, node_id: u128, port: &str, depth: usize) -> (r: Option<String>)
        ensures
            opt_text(r) == spec_septic_path(self.entries(), links_view(self.links@), node_id, port@, depth as int),
        decreases 33 - depth,
    {
        if depth > 32 {
            return None;
        }
        proof {
            lemma_first_index(links_view(self.links@), into_pred(node_id, port@));
        }
        match self.input_source_node(node_id, port) {
            None => match self.get_node(node_id) {
                Some(n) => septic_object_path(&n.kind),
                None => None,
            },
            Some(src) => match self.get_node(src) {
                Some(n) => if matches!(n.kind, GraphNodeKind::SepticPlayer) {
                    self.resolve_septic_path(src, "septic", depth + 1)
                } else {
                    septic_object_path(&n.kind)
                },
                None => None,
            },
        }
    }

    /// Kinds that can accept a wire of type `ty` (for the wire-drop add menu).
    pub fn catalog_kinds_accepting(ty: PortType) -> (r: Vec<GraphNodeKind>)
        ensures
            kinds_view(r@) == accepting_candidates().filter(accept_pred(ty)),
    {
        let ghost c = accepting_candidates();
        let ghost p = accept_pred(ty);
        let mut r: Vec<GraphNodeKind> = Vec::new();
        let mut i: usize = 0;
        while i < 23
            invariant
                c == accepting_candidates(),
                c.len() == 23,
                p == accept_pred(ty),
                i <= 23,
                kinds_view(r@) == c.take(i as int).filter(p),
            decreases 23 - i,
        {
            let k = accepting_candidate(i);
            proof {
                lemma_filter_take_step(c, p, i as int);
            }
            if accepts_input(&k, ty) {
                proof {
                    lemma_kinds_view_push(r@, k);
                }
                r.push(k);
            }
            i = i + 1;
        }
        proof {
            assert(c.take(23) =~= c);
        }
        r
    }

    /// Kinds that produce an output of type `ty`.
    pub fn catalog_kinds_producing(ty: PortType) -> (r: Vec<GraphNodeKind>)
        ensures
            kinds_view(r@) == producing_candidates().filter(produce_pred(ty)),
    {
        let ghost c = producing_candidates();
        let ghost p = produce_pred(ty);
        let mut r: Vec<GraphNodeKind> = Vec::new();
        let mut i: usize = 0;
        while i < 28
            invariant
                c == producing_candidates(),
                c.len() == 28,
                p == produce_pred(ty),
                i <= 28,
                kinds_view(r@) == c.take(i as int).filter(p),
            decreases 28 - i,
        {
            let k = producing_candidate(i);
            proof {
                lemma_filter_take_step(c, p, i as int);
            }
            if produces_output(&k, ty) {
                proof {
                    lemma_kinds_view_push(r@, k);
                }
                r.push(k);
            }
            i = i + 1;
        }
        proof {
            assert(c.take(28) =~= c);
        }
        r
    }

    /// Whether a node kind has image/video input and/or output ports (for preview).
    pub fn image_port_dirs(kind: &GraphNodeKind) -> (r: (bool, bool))
        ensures
            r == spec_image_port_dirs(kind@),
    {
        image_port_dirs_of(kind)
    }
}


/// No input port is fed by two links.
pub open spec fn single_feed(ls: Seq<LinkView>) -> bool {
    forall|i: int, j: int|
        0 <= i < j < ls.len() ==> !((#[trigger] ls[i]).2 == (#[trigger] ls[j]).2 && ls[i].3 == ls[j].3)
}

proof fn lemma_single_feed_filter(s: Seq<LinkView>, p: spec_fn(LinkView) -> bool)
    requires
        single_feed(s),
    ensures
        single_feed(s.filter(p)),
    decreases s.len(),
{
    reveal(Seq::filter);
    if s.len() > 0 {
        let rest = s.drop_last();
        assert(single_feed(rest)) by {
            assert forall|i: int, j: int| 0 <= i < j < rest.len() implies !((#[trigger] rest[i]).2 == (#[trigger] rest[j]).2 && rest[i].3 == rest[j].3) by {
                assert(rest[i] == s[i] && rest[j] == s[j]);
            }
        }
        lemma_single_feed_filter(rest, p);
        let fr = rest.filter(p);
        if p(s.last()) {
            let f = fr.push(s.last());
            assert forall|i: int, j: int| 0 <= i < j < f.len() implies !((#[trigger] f[i]).2 == (#[trigger] f[j]).2 && f[i].3 == f[j].3) by {
                if j == f.len() - 1 {
                    assert(fr.contains(f[i]));
                    rest.lemma_filter_contains_rev(p, f[i]);
                    let q = choose|q: int| 0 <= q < rest.len() && rest[q] == f[i];
                    assert(s[q] == f[i] && q < s.len() - 1);
                } else {
                    assert(f[i] == fr[i] && f[j] == fr[j]);
                }
            }
        }
    }
}

/// One link per input port: when every input is fed by at most one link,
/// it stays so after a successful `try_add_link`, and the input just wired
/// is fed by exactly the new link.
pub proof fn lemma_try_add_link_single_feed(
    old_links: Seq<LinkView>,
    from: u128,
    fp: Seq<char>,
    to: u128,
    tp: Seq<char>,
)
    requires
        single_feed(old_links),
    ensures
        ({
            let new_links = old_links.filter(not_into_pred(to, tp)).push((from, fp, to, tp));
            &&& single_feed(new_links)
            &&& new_links.last() == (from, fp, to, tp)
            &&& forall|j: int| 0 <= j < new_links.len() - 1 ==> !((#[trigger] new_links[j]).2 == to && new_links[j].3 == tp)
        }),
{
    let f = old_links.filter(not_into_pred(to, tp));
    lemma_single_feed_filter(old_links, not_into_pred(to, tp));
    let n = f.push((from, fp, to, tp));
    assert forall|j: int| 0 <= j < n.len() - 1 implies !((#[trigger] n[j]).2 == to && n[j].3 == tp) by {
        old_links.lemma_filter_pred(not_into_pred(to, tp), j);
        assert(n[j] == f[j]);
    }
    assert forall|i: int, j: int| 0 <= i < j < n.len() implies !((#[trigger] n[i]).2 == (#[trigger] n[j]).2 && n[i].3 == n[j].3) by {
        if j < n.len() - 1 {
            assert(n[i] == f[i] && n[j] == f[j]);
        }
    }
}

/// One link per input port, kept by removals: when every input is fed by
/// at most one link, it stays so after `remove_node(id)`.
pub proof fn lemma_remove_node_single_feed(old_links: Seq<LinkView>, id: u128)
    requires
        single_feed(old_links),
    ensures
        single_feed(old_links.filter(untouched_pred(id))),
{
    lemma_single_feed_filter(old_links, untouched_pred(id));
}

/// After `remove_node(id)` no remaining link starts or ends at `id`.
pub proof fn lemma_remove_node_drops_links(old_links: Seq<LinkView>, id: u128)
    ensures
        forall|j: int|
            0 <= j < old_links.filter(untouched_pred(id)).len() ==> (#[trigger] old_links.filter(
                untouched_pred(id),
            )[j]).0 != id && old_links.filter(untouched_pred(id))[j].2 != id,
{
    assert forall|j: int| 0 <= j < old_links.filter(untouched_pred(id)).len() implies (#[trigger] old_links.filter(untouched_pred(id))[j]).0 != id && old_links.filter(untouched_pred(id))[j].2 != id by {
        old_links.lemma_filter_pred(untouched_pred(id), j);
    }
}

/// Every node is stored under its own id.
pub open spec fn ids_match_keys(s: Seq<(u128, GraphNode)>) -> bool {
    forall|i: int| 0 <= i < s.len() ==> (#[trigger] s[i]).1.id == s[i].0
}

/// When nodes are stored under their own ids, the primary sink recorded
/// after `remove_node(id)` is never the removed node.
pub proof fn lemma_remove_node_output_not_removed(
    remaining: Seq<(u128, GraphNode)>,
    old_out: Option<u128>,
    id: u128,
)
    requires
        ids_match_keys(remaining),
        forall|j: int| 0 <= j < remaining.len() ==> (#[trigger] remaining[j]).0 != id,
    ensures
        (if old_out == Some(id) {
            first_output_id(remaining)
        } else {
            old_out
        }) != Some(id),
{
    lemma_first_index(remaining, output_pred());
}

/// After `sync_parameters_with_nodes` every parameter is referred to by a
/// Param node, and a second sync changes nothing.
pub proof fn lemma_sync_parameters_idempotent(params: Seq<GraphParam>, s: Seq<(u128, GraphNode)>)
    ensures
        forall|j: int|
            0 <= j < params.filter(in_use_pred(s)).len() ==> param_in_use(
                s,
                (#[trigger] params.filter(in_use_pred(s))[j]).id,
            ),
        params.filter(in_use_pred(s)).filter(in_use_pred(s)) == params.filter(in_use_pred(s)),
    decreases params.len(),
{
    reveal(Seq::filter);
    assert forall|j: int| 0 <= j < params.filter(in_use_pred(s)).len() implies param_in_use(s, (#[trigger] params.filter(in_use_pred(s))[j]).id) by {
        params.lemma_filter_pred(in_use_pred(s), j);
    }
    if params.len() > 0 {
        lemma_sync_parameters_idempotent(params.drop_last(), s);
        let f = params.drop_last().filter(in_use_pred(s));
        if in_use_pred(s)(params.last()) {
            assert(f.push(params.last()).drop_last() =~= f);
        }
    }
}

/// Every kind the add-node menu offers for a dropped wire of type `ty`
/// really has an input that accepts `ty`, and every offer for a needed
/// output of type `ty` really produces `ty`.
pub proof fn lemma_catalog_offers_fit(ty: PortType)
    ensures
        forall|j: int|
            0 <= j < accepting_candidates().filter(accept_pred(ty)).len() ==> spec_accepts(
                #[trigger] accepting_candidates().filter(accept_pred(ty))[j],
                ty,
            ),
        forall|j: int|
            0 <= j < producing_candidates().filter(produce_pred(ty)).len() ==> spec_produces(
                #[trigger] producing_candidates().filter(produce_pred(ty))[j],
                ty,
            ),
{
    assert forall|j: int| 0 <= j < accepting_candidates().filter(accept_pred(ty)).len() implies spec_accepts(#[trigger] accepting_candidates().filter(accept_pred(ty))[j], ty) by {
        accepting_candidates().lemma_filter_pred(accept_pred(ty), j);
    }
    assert forall|j: int| 0 <= j < producing_candidates().filter(produce_pred(ty)).len() implies spec_produces(#[trigger] producing_candidates().filter(produce_pred(ty))[j], ty) by {
        producing_candidates().lemma_filter_pred(produce_pred(ty), j);
    }
}

/// Track labels and component lookup agree: each label a parameter
/// publishes is read back as the component it addresses.
pub proof fn lemma_track_label_roundtrip(kind: GraphParamKind, id: u128)
    ensures
        kind == GraphParamKind::Real ==> spec_component_from_label(spec_track_labels(kind, id)[0], id)
            == Some(None::<usize>),
        kind != GraphParamKind::Real ==> forall|i: int|
            0 <= i < spec_track_labels(kind, id).len() ==> spec_component_from_label(
                #[trigger] spec_track_labels(kind, id)[i],
                id,
            ) == Some(Some(i as usize)),
{
    reveal_strlit(":");
    reveal_strlit(":0");
    reveal_strlit(":1");
    reveal_strlit(":2");
    reveal_strlit(":3");
    let b = track_base(id);
    if kind != GraphParamKind::Real {
        assert forall|i: int| 0 <= i < spec_track_labels(kind, id).len() implies spec_component_from_label(#[trigger] spec_track_labels(kind, id)[i], id) == Some(Some(i as usize)) by {
            let l = spec_track_labels(kind, id)[i];
            let d = if i == 0 { ":0"@ } else if i == 1 { ":1"@ } else if i == 2 { ":2"@ } else { ":3"@ };
            assert(l == b + d);
            assert(l.len() == b.len() + 2);
            assert(l != b);
            assert(l.take(b.len() + 1 as int) =~= b + ":"@);
            let rest = l.skip(b.len() + 1 as int);
            assert(rest =~= seq![d[1]]);
            assert(crate::text::unsigned_digits(rest) =~= rest);
            assert(rest.drop_last() =~= Seq::<char>::empty());
            assert(rest.last() == d[1]);
            assert(d[1] as u32 == 48 + i);
            assert(crate::text::digits_value(rest.drop_last()) == 0);
            assert(crate::text::digits_value(rest) == i);
        }
    }
}


} // verus!
