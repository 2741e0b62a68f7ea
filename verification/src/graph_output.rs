//! What reaches a graph's sinks: the image and sound chains walked back from
//! an input to their source, with the effect nodes met on the way. The
//! effects' parameters are real values that the caller evaluates and
//! applies; the walk, its depth limit and which port each node is followed
//! through are decided here.

use vstd::prelude::*;
use crate::node_graph::{
    is_output_object, links_view, node_of, into_pred, spec_primary_output, GraphImageSource, GraphNode,
    GraphSoundSource, NodeGraph,
};
use crate::node_map::{nodes_get_index, nodes_len};
use crate::ports::{produces_output, ports_view, spec_ports, spec_produces, GraphNodeKind, NodeKindView, PortDir, PortType, PortView};
use crate::seqs::{first_index, lemma_first_index, lemma_first_index_is, lemma_first_index_none};
use crate::text::{is_blank, owned, str_is_blank};

verus! {

/// Deepest input a chain is followed through.
pub const MAX_CHAIN_DEPTH: usize = 64;

/// Where an image chain ends.
#[derive(Debug, Clone, PartialEq, Eq)]
pub enum ImageEnd {
    /// A document-object or file source, or nothing.
    Source(GraphImageSource),
    /// A Video Player: its frame depends on media timing; its own inputs
    /// are followed from `depth`.
    VideoPlayer { node: u128, depth: usize },
    /// A Septic Player: its frame comes from the recorded session.
    SepticPlayer { node: u128 },
    /// A Geo Add: the first of its inputs `a` and `b` that yields an image,
    /// followed from `depth`.
    Add { node: u128, depth: usize },
}

/// An image chain: the effect nodes met, nearest to the consumer first,
/// and where it ends.
#[derive(Debug, Clone, PartialEq, Eq)]
pub struct ImageTrace {
    pub effects: Vec<u128>,
    pub end: ImageEnd,
}

pub ghost enum ImageEndView {
    AppObjects(Seq<u128>),
    File(Seq<char>),
    Empty,
    VideoPlayer(u128, int),
    SepticPlayer(u128),
    Add(u128, int),
}

pub open spec fn image_end_view(e: ImageEnd) -> ImageEndView {
    match e {
        ImageEnd::Source(GraphImageSource::AppObjects(ids)) => ImageEndView::AppObjects(ids@),
        ImageEnd::Source(GraphImageSource::FilePath(p)) => ImageEndView::File(p@),
        ImageEnd::Source(GraphImageSource::Empty) => ImageEndView::Empty,
        ImageEnd::VideoPlayer { node, depth } => ImageEndView::VideoPlayer(node, depth as int),
        ImageEnd::SepticPlayer { node } => ImageEndView::SepticPlayer(node),
        ImageEnd::Add { node, depth } => ImageEndView::Add(node, depth as int),
    }
}

pub open spec fn image_trace_view(t: ImageTrace) -> (Seq<u128>, ImageEndView) {
    (t.effects@, image_end_view(t.end))
}

/// Effect and geometry nodes that pass their `in` image on, changed.
pub open spec fn is_image_effect(k: NodeKindView) -> bool {
    match k {
        NodeKindView::Brightness | NodeKindView::Zoom | NodeKindView::ColorChanger | NodeKindView::LinearBlur
        | NodeKindView::Speed | NodeKindView::GeoSize | NodeKindView::GeoPlacement | NodeKindView::GeoRotate
        | NodeKindView::GeoTrapezoid | NodeKindView::GeoMirror => true,
        _ => false,
    }
}

/// The port table of `k` opens with an image input named `in`.
pub open spec fn takes_image_in(k: NodeKindView) -> bool {
    &&& spec_ports(k).len() > 0
    &&& spec_ports(k)[0].0 == "in"@
    &&& spec_ports(k)[0].2 == PortType::RawImage
    &&& spec_ports(k)[0].3 == PortDir::Input
}

/// Law: the nodes an image chain passes through (and records) are exactly
/// the kinds whose port table opens with an image input `in`: every image
/// effect and geometry node, and nothing else.
pub proof fn lemma_image_effects_take_image_in(k: NodeKindView)
    ensures
        is_image_effect(k) <==> takes_image_in(k),
{
    reveal_strlit("in");
    reveal_strlit("image");
    reveal_strlit("a");
    assert("image"@.len() != "in"@.len());
    assert("a"@.len() != "in"@.len());
}

/// Law: an image chain reaching a node that takes an image input `in`
/// records that node and goes on through its `in` input.
pub proof fn lemma_trace_passes_image_in(
    s: Seq<(u128, GraphNode)>,
    links: Seq<(u128, Seq<char>, u128, Seq<char>)>,
    to: u128,
    port: Seq<char>,
    depth: int,
)
    requires
        depth <= 64,
        first_index(links, into_pred(to, port)) >= 0,
        node_of(s, links[first_index(links, into_pred(to, port))].0) matches Some(n) && takes_image_in(n.kind),
    ensures
        ({
            let src = links[first_index(links, into_pred(to, port))].0;
            let r = spec_image_trace(s, links, src, "in"@, depth + 1);
            spec_image_trace(s, links, to, port, depth) == (seq![src] + r.0, r.1)
        }),
{
    let src = links[first_index(links, into_pred(to, port))].0;
    let n = node_of(s, src).unwrap();
    lemma_image_effects_take_image_in(n.kind);
}

/// The source a file-backed object names: its path, or nothing when blank.
pub open spec fn file_end(path: Seq<char>) -> ImageEndView {
    if is_blank(path) {
        ImageEndView::Empty
    } else {
        ImageEndView::File(path)
    }
}

/// The image chain reaching input `(to, port)` of the graph with node
/// table `s` and links `links`, followed from `depth`: through the effect
/// nodes (recorded) and Output Objects (followed through their `image`
/// input) to the source; a Video Player, Septic Player or Geo Add ends it
/// for the caller to resolve. Past depth 64, or at a node that makes no
/// image, the chain is empty.
pub open spec fn spec_image_trace(
    s: Seq<(u128, GraphNode)>,
    links: Seq<(u128, Seq<char>, u128, Seq<char>)>,
    to: u128,
    port: Seq<char>,
    depth: int,
) -> (Seq<u128>, ImageEndView)
    decreases 65 - depth,
{
    if depth > 64 {
        (Seq::empty(), ImageEndView::Empty)
    } else {
        let i = first_index(links, into_pred(to, port));
        if i < 0 {
            (Seq::empty(), ImageEndView::Empty)
        } else {
            let src = links[i].0;
            match node_of(s, src) {
                None => (Seq::empty(), ImageEndView::Empty),
                Some(n) => match n.kind {
                    NodeKindView::ObjectFromApp { node_ids } => (Seq::empty(), ImageEndView::AppObjects(node_ids)),
                    NodeKindView::ObjectImage { path } => (Seq::empty(), file_end(path)),
                    NodeKindView::ObjectVideo { path } => (Seq::empty(), file_end(path)),
                    NodeKindView::VideoPlayer => (Seq::empty(), ImageEndView::VideoPlayer(src, depth + 1)),
                    NodeKindView::SepticPlayer => (Seq::empty(), ImageEndView::SepticPlayer(src)),
                    NodeKindView::GeoAdd => (Seq::empty(), ImageEndView::Add(src, depth + 1)),
                    NodeKindView::OutputObject => spec_image_trace(s, links, src, "image"@, depth + 1),
                    k => if is_image_effect(k) {
                        let r = spec_image_trace(s, links, src, "in"@, depth + 1);
                        (seq![src] + r.0, r.1)
                    } else {
                        (Seq::empty(), ImageEndView::Empty)
                    },
                },
            }
        }
    }
}

fn empty_image_trace() -> (t: ImageTrace)
    ensures
        image_trace_view(t) == (Seq::<u128>::empty(), ImageEndView::Empty),
{
    ImageTrace { effects: Vec::new(), end: ImageEnd::Source(GraphImageSource::Empty) }
}

fn file_image_end(path: &String) -> (e: ImageEnd)
    ensures
        image_end_view(e) == file_end(path@),
{
    if str_is_blank(path.as_str()) {
        ImageEnd::Source(GraphImageSource::Empty)
    } else {
        ImageEnd::Source(GraphImageSource::FilePath(path.clone()))
    }
}

fn is_image_effect_kind(k: &GraphNodeKind) -> (r: bool)
    ensures
        r == is_image_effect(k@),
{
    match k {
        GraphNodeKind::Brightness | GraphNodeKind::Zoom | GraphNodeKind::ColorChanger | GraphNodeKind::LinearBlur
        | GraphNodeKind::Speed | GraphNodeKind::GeoSize | GraphNodeKind::GeoPlacement | GraphNodeKind::GeoRotate
        | GraphNodeKind::GeoTrapezoid | GraphNodeKind::GeoMirror => true,
        _ => false,
    }
}

fn clone_ids(v: &Vec<u128>) -> (r: Vec<u128>)
    ensures
        r@ == v@,
{
    let mut r: Vec<u128> = Vec::new();
    let mut i: usize = 0;
    while i < v.len()
        invariant
            i <= v@.len(),
            r@ == v@.take(i as int),
        decreases v@.len() - i,
    {
        r.push(v[i]);
        i = i + 1;
        assert(r@ =~= v@.take(i as int));
    }
    assert(v@.take(v@.len() as int) =~= v@);
    r
}

impl NodeGraph {
    /// The image chain reaching input `(to_node, to_port)`, followed from
    /// `depth`.
    pub fn trace_image_input(&self, to_node: u128, to_port: &str, depth: usize) -> (t: ImageTrace)
        ensures
            image_trace_view(t) == spec_image_trace(self.entries(), links_view(self.links@), to_node, to_port@, depth as int),
        decreases 65 - depth,
    {
        if depth > MAX_CHAIN_DEPTH {
            return empty_image_trace();
        }
        proof {
            lemma_first_index(links_view(self.links@), into_pred(to_node, to_port@));
        }
        let src = match self.input_source_node(to_node, to_port) {
            None => return empty_image_trace(),
            Some(src) => src,
        };
        let node = match self.get_node(src) {
            None => return empty_image_trace(),
            Some(n) => n,
        };
        match &node.kind {
            GraphNodeKind::ObjectFromApp { node_ids } => ImageTrace {
                effects: Vec::new(),
                end: ImageEnd::Source(GraphImageSource::AppObjects(clone_ids(node_ids))),
            },
            GraphNodeKind::ObjectImage { path } => ImageTrace { effects: Vec::new(), end: file_image_end(path) },
            GraphNodeKind::ObjectVideo { path } => ImageTrace { effects: Vec::new(), end: file_image_end(path) },
            GraphNodeKind::VideoPlayer => ImageTrace {
                effects: Vec::new(),
                end: ImageEnd::VideoPlayer { node: src, depth: depth + 1 },
            },
            GraphNodeKind::SepticPlayer => ImageTrace { effects: Vec::new(), end: ImageEnd::SepticPlayer { node: src } },
            GraphNodeKind::GeoAdd => ImageTrace { effects: Vec::new(), end: ImageEnd::Add { node: src, depth: depth + 1 } },
            GraphNodeKind::OutputObject => self.trace_image_input(src, "image", depth + 1),
            k => {
                if is_image_effect_kind(k) {
                    let mut inner = self.trace_image_input(src, "in", depth + 1);
                    let ghost before = inner.effects@;
                    inner.effects.insert(0, src);
                    assert(inner.effects@ =~= seq![src] + before);
                    inner
                } else {
                    empty_image_trace()
                }
            },
        }
    }
}


/// Where a sound chain ends.
#[derive(Debug, Clone, PartialEq, Eq)]
pub enum SoundEnd {
    /// A media file, or nothing.
    Source(GraphSoundSource),
    /// A Video Player: its sound depends on media timing; its inputs are
    /// followed from `depth`.
    VideoPlayer { node: u128, depth: usize },
    /// A Septic Player: its sound is the recorded session's; its session
    /// input is followed from `depth`.
    SepticPlayer { node: u128, depth: usize },
}

/// A sound chain: the Equalizer nodes met, nearest to the consumer first,
/// and where it ends.
#[derive(Debug, Clone, PartialEq, Eq)]
pub struct SoundTrace {
    pub equalizers: Vec<u128>,
    pub end: SoundEnd,
}

pub ghost enum SoundEndView {
    File(Seq<char>),
    Empty,
    VideoPlayer(u128, int),
    SepticPlayer(u128, int),
}

pub open spec fn sound_end_view(e: SoundEnd) -> SoundEndView {
    match e {
        SoundEnd::Source(GraphSoundSource::FilePath(p)) => SoundEndView::File(p@),
        SoundEnd::Source(GraphSoundSource::Empty) => SoundEndView::Empty,
        SoundEnd::VideoPlayer { node, depth } => SoundEndView::VideoPlayer(node, depth as int),
        SoundEnd::SepticPlayer { node, depth } => SoundEndView::SepticPlayer(node, depth as int),
    }
}

pub open spec fn sound_trace_view(t: SoundTrace) -> (Seq<u128>, SoundEndView) {
    (t.equalizers@, sound_end_view(t.end))
}

pub open spec fn sound_file_end(path: Seq<char>) -> SoundEndView {
    if is_blank(path) {
        SoundEndView::Empty
    } else {
        SoundEndView::File(path)
    }
}

/// A sound input port.
pub open spec fn sound_input() -> spec_fn(PortView) -> bool {
    |p: PortView| p.3 == PortDir::Input && p.2 == PortType::RawSound
}

/// The port table of `k` opens with a sound input named `in`.
pub open spec fn takes_sound_in(k: NodeKindView) -> bool {
    &&& spec_ports(k).len() > 0
    &&& spec_ports(k)[0].0 == "in"@
    &&& spec_ports(k)[0].2 == PortType::RawSound
    &&& spec_ports(k)[0].3 == PortDir::Input
}

/// Law: a sound chain reaching a node that takes a sound input `in` (a
/// sound effect) records that node and goes on through its `in` input.
pub proof fn lemma_trace_passes_sound_in(
    s: Seq<(u128, GraphNode)>,
    links: Seq<(u128, Seq<char>, u128, Seq<char>)>,
    to: u128,
    port: Seq<char>,
    depth: int,
)
    requires
        depth <= 64,
        first_index(links, into_pred(to, port)) >= 0,
        node_of(s, links[first_index(links, into_pred(to, port))].0) matches Some(n) && takes_sound_in(n.kind),
    ensures
        ({
            let src = links[first_index(links, into_pred(to, port))].0;
            let r = spec_sound_trace(s, links, src, "in"@, depth + 1);
            spec_sound_trace(s, links, to, port, depth) == (seq![src] + r.0, r.1)
        }),
{
    reveal_strlit("in");
    reveal_strlit("audio");
    assert("audio"@.len() != "in"@.len());
}

/// The sound chain reaching input `(to, port)`, followed from `depth`:
/// through Equalizers (recorded, via `in`) and through any other node with
/// a sound output (via its first sound input) to an audio or video file; a
/// Video or Septic Player ends it for the caller. Past depth 64, or at a
/// node with no sound, the chain is empty.
pub open spec fn spec_sound_trace(
    s: Seq<(u128, GraphNode)>,
    links: Seq<(u128, Seq<char>, u128, Seq<char>)>,
    to: u128,
    port: Seq<char>,
    depth: int,
) -> (Seq<u128>, SoundEndView)
    decreases 65 - depth,
{
    if depth > 64 {
        (Seq::empty(), SoundEndView::Empty)
    } else {
        let i = first_index(links, into_pred(to, port));
        if i < 0 {
            (Seq::empty(), SoundEndView::Empty)
        } else {
            let src = links[i].0;
            match node_of(s, src) {
                None => (Seq::empty(), SoundEndView::Empty),
                Some(n) => match n.kind {
                    NodeKindView::ObjectAudio { path } => (Seq::empty(), sound_file_end(path)),
                    NodeKindView::ObjectVideo { path } => (Seq::empty(), sound_file_end(path)),
                    NodeKindView::VideoPlayer => (Seq::empty(), SoundEndView::VideoPlayer(src, depth + 1)),
                    NodeKindView::SepticPlayer => (Seq::empty(), SoundEndView::SepticPlayer(src, depth + 1)),
                    NodeKindView::Equalizer => {
                        let r = spec_sound_trace(s, links, src, "in"@, depth + 1);
                        (seq![src] + r.0, r.1)
                    },
                    k => {
                        let j = first_index(spec_ports(k), sound_input());
                        if spec_produces(k, PortType::RawSound) && j >= 0 {
                            spec_sound_trace(s, links, src, spec_ports(k)[j].0, depth + 1)
                        } else {
                            (Seq::empty(), SoundEndView::Empty)
                        }
                    },
                },
            }
        }
    }
}

fn empty_sound_trace() -> (t: SoundTrace)
    ensures
        sound_trace_view(t) == (Seq::<u128>::empty(), SoundEndView::Empty),
{
    SoundTrace { equalizers: Vec::new(), end: SoundEnd::Source(GraphSoundSource::Empty) }
}

fn file_sound_end(path: &String) -> (e: SoundEnd)
    ensures
        sound_end_view(e) == sound_file_end(path@),
{
    if str_is_blank(path.as_str()) {
        SoundEnd::Source(GraphSoundSource::Empty)
    } else {
        SoundEnd::Source(GraphSoundSource::FilePath(path.clone()))
    }
}

/// Id of the first sound input port of `k`.
fn first_sound_input(k: &GraphNodeKind) -> (r: Option<String>)
    ensures
        ({
            let j = first_index(spec_ports(k@), sound_input());
            match r {
                Some(id) => j >= 0 && id@ == spec_ports(k@)[j].0,
                None => j < 0,
            }
        }),
{
    let ports = k.ports();
    let ghost pv = ports_view(ports@);
    let ghost p = sound_input();
    let mut i: usize = 0;
    while i < ports.len()
        invariant
            pv == ports_view(ports@),
            pv == spec_ports(k@),
            p == sound_input(),
            i <= ports@.len(),
            forall|j: int| 0 <= j < i ==> !p(#[trigger] pv[j]),
        decreases ports@.len() - i,
    {
        assert(pv[i as int] == ports@[i as int]@);
        if ports[i].dir == PortDir::Input && ports[i].ty == PortType::RawSound {
            proof {
                lemma_first_index_is(pv, p, i as int);
            }
            return Some(ports[i].id.clone());
        }
        i = i + 1;
    }
    proof {
        lemma_first_index_none(pv, p);
    }
    None
}

impl NodeGraph {
    /// The sound chain reaching input `(to_node, to_port)`, followed from
    /// `depth`.
    pub fn trace_sound_input(&self, to_node: u128, to_port: &str, depth: usize) -> (t: SoundTrace)
        ensures
            sound_trace_view(t) == spec_sound_trace(self.entries(), links_view(self.links@), to_node, to_port@, depth as int),
        decreases 65 - depth,
    {
        if depth > MAX_CHAIN_DEPTH {
            return empty_sound_trace();
        }
        proof {
            lemma_first_index(links_view(self.links@), into_pred(to_node, to_port@));
        }
        let src = match self.input_source_node(to_node, to_port) {
            None => return empty_sound_trace(),
            Some(src) => src,
        };
        let node = match self.get_node(src) {
            None => return empty_sound_trace(),
            Some(n) => n,
        };
        match &node.kind {
            GraphNodeKind::ObjectAudio { path } => SoundTrace { equalizers: Vec::new(), end: file_sound_end(path) },
            GraphNodeKind::ObjectVideo { path } => SoundTrace { equalizers: Vec::new(), end: file_sound_end(path) },
            GraphNodeKind::VideoPlayer => SoundTrace {
                equalizers: Vec::new(),
                end: SoundEnd::VideoPlayer { node: src, depth: depth + 1 },
            },
            GraphNodeKind::SepticPlayer => SoundTrace {
                equalizers: Vec::new(),
                end: SoundEnd::SepticPlayer { node: src, depth: depth + 1 },
            },
            GraphNodeKind::Equalizer => {
                let mut inner = self.trace_sound_input(src, "in", depth + 1);
                let ghost before = inner.equalizers@;
                inner.equalizers.insert(0, src);
                assert(inner.equalizers@ =~= seq![src] + before);
                inner
            },
            k => {
                if produces_output(k, PortType::RawSound) {
                    match first_sound_input(k) {
                        Some(inp) => self.trace_sound_input(src, inp.as_str(), depth + 1),
                        None => empty_sound_trace(),
                    }
                } else {
                    empty_sound_trace()
                }
            },
        }
    }
}

/// The image a node itself puts out (for its preview): a source node's
/// source; an Output Object's `image` chain; an effect node applied to its
/// `in` chain; a Geo Add's inputs, from depth 0; nothing for a node with no
/// image output.
pub open spec fn spec_node_image(
    s: Seq<(u128, GraphNode)>,
    links: Seq<(u128, Seq<char>, u128, Seq<char>)>,
    node_id: u128,
) -> (Seq<u128>, ImageEndView) {
    match node_of(s, node_id) {
        None => (Seq::empty(), ImageEndView::Empty),
        Some(n) => match n.kind {
            NodeKindView::ObjectFromApp { node_ids } => (Seq::empty(), ImageEndView::AppObjects(node_ids)),
            NodeKindView::ObjectImage { path } => (Seq::empty(), file_end(path)),
            NodeKindView::ObjectVideo { path } => (Seq::empty(), file_end(path)),
            NodeKindView::VideoPlayer => (Seq::empty(), ImageEndView::VideoPlayer(node_id, 0)),
            NodeKindView::SepticPlayer => (Seq::empty(), ImageEndView::SepticPlayer(node_id)),
            NodeKindView::OutputObject => spec_image_trace(s, links, node_id, "image"@, 0),
            k => if !spec_produces(k, PortType::RawImage) {
                (Seq::empty(), ImageEndView::Empty)
            } else if is_image_effect(k) {
                let r = spec_image_trace(s, links, node_id, "in"@, 0);
                (seq![node_id] + r.0, r.1)
            } else if k == NodeKindView::GeoAdd {
                (Seq::empty(), ImageEndView::Add(node_id, 0))
            } else {
                (Seq::empty(), ImageEndView::Empty)
            },
        },
    }
}

impl NodeGraph {
    /// The image chain that node `node_id` itself puts out.
    pub fn trace_node_image(&self, node_id: u128) -> (t: ImageTrace)
        ensures
            image_trace_view(t) == spec_node_image(self.entries(), links_view(self.links@), node_id),
    {
        let node = match self.get_node(node_id) {
            None => return empty_image_trace(),
            Some(n) => n,
        };
        match &node.kind {
            GraphNodeKind::ObjectFromApp { node_ids } => ImageTrace {
                effects: Vec::new(),
                end: ImageEnd::Source(GraphImageSource::AppObjects(clone_ids(node_ids))),
            },
            GraphNodeKind::ObjectImage { path } => ImageTrace { effects: Vec::new(), end: file_image_end(path) },
            GraphNodeKind::ObjectVideo { path } => ImageTrace { effects: Vec::new(), end: file_image_end(path) },
            GraphNodeKind::VideoPlayer => ImageTrace { effects: Vec::new(), end: ImageEnd::VideoPlayer { node: node_id, depth: 0 } },
            GraphNodeKind::SepticPlayer => ImageTrace { effects: Vec::new(), end: ImageEnd::SepticPlayer { node: node_id } },
            GraphNodeKind::OutputObject => self.trace_image_input(node_id, "image", 0),
            k => {
                if !produces_output(k, PortType::RawImage) {
                    empty_image_trace()
                } else if is_image_effect_kind(k) {
                    let mut inner = self.trace_image_input(node_id, "in", 0);
                    let ghost before = inner.effects@;
                    inner.effects.insert(0, node_id);
                    assert(inner.effects@ =~= seq![node_id] + before);
                    inner
                } else if matches!(k, GraphNodeKind::GeoAdd) {
                    ImageTrace { effects: Vec::new(), end: ImageEnd::Add { node: node_id, depth: 0 } }
                } else {
                    empty_image_trace()
                }
            },
        }
    }
}


/// Ids (as the nodes hold them) of the Output Objects of `s`, in order.
pub open spec fn output_ids(s: Seq<(u128, GraphNode)>) -> Seq<u128>
    decreases s.len(),
{
    if s.len() == 0 {
        Seq::empty()
    } else if is_output_object(s.last().1@) {
        output_ids(s.drop_last()).push(s.last().1.id)
    } else {
        output_ids(s.drop_last())
    }
}

/// `s` with every repeat of an earlier element left out.
pub open spec fn first_occurrences(s: Seq<u128>) -> Seq<u128>
    decreases s.len(),
{
    if s.len() == 0 {
        Seq::empty()
    } else if first_occurrences(s.drop_last()).contains(s.last()) {
        first_occurrences(s.drop_last())
    } else {
        first_occurrences(s.drop_last()).push(s.last())
    }
}

/// The order in which sinks are asked for the output: the primary Output
/// Object, then every Output Object of the table, each once.
pub open spec fn spec_sink_order(s: Seq<(u128, GraphNode)>, out: Option<u128>) -> Seq<u128> {
    let first = match spec_primary_output(s, out) {
        Some(p) => seq![p],
        None => Seq::empty(),
    };
    first_occurrences(first + output_ids(s))
}

fn holds(v: &Vec<u128>, x: u128) -> (r: bool)
    ensures
        r == v@.contains(x),
{
    let mut i: usize = 0;
    while i < v.len()
        invariant
            i <= v@.len(),
            forall|j: int| 0 <= j < i ==> v@[j] != x,
        decreases v@.len() - i,
    {
        if v[i] == x {
            assert(v@[i as int] == x);
            return true;
        }
        i = i + 1;
    }
    false
}

impl NodeGraph {
    /// Output Objects in the order the output image and sound are looked
    /// for: the primary one first, then the others in table order.
    pub fn output_sink_order(&self) -> (r: Vec<u128>)
        ensures
            r@ == spec_sink_order(self.entries(), self.output_node_id),
    {
        let ghost s = self.entries();
        let mut r: Vec<u128> = Vec::new();
        let ghost first: Seq<u128> = match spec_primary_output(s, self.output_node_id) {
            Some(p) => seq![p],
            None => Seq::empty(),
        };
        match self.primary_output_id() {
            Some(p) => {
                r.push(p);
                proof {
                    let e = Seq::<u128>::empty();
                    assert(seq![p].drop_last() =~= e);
                    assert(first_occurrences(e) == e);
                    assert(seq![p].last() == p);
                    assert(!e.contains(p));
                    assert(first_occurrences(seq![p]) == first_occurrences(e).push(p));
                    assert(e.push(p) =~= seq![p]);
                }
            },
            None => {},
        }
        assert(s.take(0) =~= Seq::<(u128, GraphNode)>::empty());
        assert(first + output_ids(s.take(0)) =~= first);
        let n = nodes_len(&self.nodes);
        let mut i: usize = 0;
        while i < n
            invariant
                n == s.len(),
                s == self.entries(),
                i <= n,
                r@ == first_occurrences(first + output_ids(s.take(i as int))),
            decreases n - i,
        {
            let (_k, node) = nodes_get_index(&self.nodes, i);
            proof {
                assert(s.take(i + 1).drop_last() =~= s.take(i as int));
                assert(s.take(i + 1).last() == s[i as int]);
            }
            if matches!(node.kind, GraphNodeKind::OutputObject) {
                let id = node.id;
                let ghost a = first + output_ids(s.take(i as int));
                assert(first + output_ids(s.take(i + 1)) =~= a.push(id));
                assert(a.push(id).drop_last() =~= a);
                if !holds(&r, id) {
                    r.push(id);
                }
            } else {
                assert(first + output_ids(s.take(i + 1)) =~= first + output_ids(s.take(i as int)));
            }
            i = i + 1;
        }
        assert(s.take(n as int) =~= s);
        r
    }
}


/// Law: an image chain records only effect nodes of the graph, at most one
/// per level of depth still allowed.
pub proof fn lemma_image_trace_effects(
    s: Seq<(u128, GraphNode)>,
    links: Seq<(u128, Seq<char>, u128, Seq<char>)>,
    to: u128,
    port: Seq<char>,
    depth: int,
)
    ensures
        spec_image_trace(s, links, to, port, depth).0.len() <= (if depth > 64 { 0 } else { 65 - depth }),
        forall|k: int|
            0 <= k < spec_image_trace(s, links, to, port, depth).0.len() ==> (node_of(
                s,
                #[trigger] spec_image_trace(s, links, to, port, depth).0[k],
            ) matches Some(n) && is_image_effect(n.kind)),
    decreases 65 - depth,
{
    if depth <= 64 {
        let i = first_index(links, into_pred(to, port));
        if i >= 0 {
            let src = links[i].0;
            match node_of(s, src) {
                Some(n) => {
                    if n.kind == NodeKindView::OutputObject {
                        lemma_image_trace_effects(s, links, src, "image"@, depth + 1);
                    } else if is_image_effect(n.kind) {
                        lemma_image_trace_effects(s, links, src, "in"@, depth + 1);
                        let r = spec_image_trace(s, links, src, "in"@, depth + 1);
                        let t = spec_image_trace(s, links, to, port, depth);
                        assert(t.0 == seq![src] + r.0);
                        assert forall|k: int| 0 <= k < t.0.len() implies (node_of(s, #[trigger] t.0[k]) matches Some(m)
                            && is_image_effect(m.kind)) by {
                            if k > 0 {
                                assert(t.0[k] == r.0[k - 1]);
                            }
                        }
                    }
                },
                None => {},
            }
        }
    }
}

/// Law: the sinks are tried each once.
pub proof fn lemma_sink_order_distinct(s: Seq<(u128, GraphNode)>, out: Option<u128>)
    ensures
        spec_sink_order(s, out).no_duplicates(),
{
    let first = match spec_primary_output(s, out) {
        Some(p) => seq![p],
        None => Seq::empty(),
    };
    lemma_first_occurrences(first + output_ids(s));
}

/// Law: the sinks tried are the primary Output Object and every Output
/// Object of the table, and nothing else.
pub proof fn lemma_sink_order_members(s: Seq<(u128, GraphNode)>, out: Option<u128>, x: u128)
    ensures
        spec_sink_order(s, out).contains(x) <==> (spec_primary_output(s, out) == Some(x) || output_ids(s).contains(x)),
{
    let first = match spec_primary_output(s, out) {
        Some(p) => seq![p],
        None => Seq::empty(),
    };
    let all = first + output_ids(s);
    lemma_first_occurrences(all);
    if all.contains(x) {
        let k = choose|k: int| 0 <= k < all.len() && all[k] == x;
        if k < first.len() {
            assert(spec_primary_output(s, out) == Some(x));
        } else {
            assert(output_ids(s)[k - first.len()] == x);
        }
    }
    if spec_primary_output(s, out) == Some(x) {
        assert(all[0] == x);
    }
    if output_ids(s).contains(x) {
        let k = choose|k: int| 0 <= k < output_ids(s).len() && output_ids(s)[k] == x;
        assert(all[first.len() + k] == x);
    }
}

proof fn lemma_first_occurrences(s: Seq<u128>)
    ensures
        first_occurrences(s).no_duplicates(),
        forall|x: u128| first_occurrences(s).contains(x) <==> s.contains(x),
    decreases s.len(),
{
    if s.len() > 0 {
        let d = first_occurrences(s.drop_last());
        lemma_first_occurrences(s.drop_last());
        assert forall|x: u128| s.contains(x) <==> (s.drop_last().contains(x) || x == s.last()) by {
            if s.contains(x) {
                let k = choose|k: int| 0 <= k < s.len() && s[k] == x;
                if k < s.len() - 1 {
                    assert(s.drop_last()[k] == x);
                }
            }
            if s.drop_last().contains(x) {
                let k = choose|k: int| 0 <= k < s.drop_last().len() && s.drop_last()[k] == x;
                assert(s[k] == x);
            }
        }
        if !d.contains(s.last()) {
            let e = d.push(s.last());
            assert forall|x: u128| e.contains(x) <==> (d.contains(x) || x == s.last()) by {
                if e.contains(x) {
                    let k = choose|k: int| 0 <= k < e.len() && e[k] == x;
                    if k < d.len() {
                        assert(d[k] == x);
                    }
                }
                if d.contains(x) {
                    let k = choose|k: int| 0 <= k < d.len() && d[k] == x;
                    assert(e[k] == x);
                }
                if x == s.last() {
                    assert(e[d.len() as int] == x);
                }
            }
            assert forall|i: int, j: int| 0 <= i < e.len() && 0 <= j < e.len() && i != j implies e[i] != e[j] by {
                if i < d.len() && j < d.len() {
                } else if i < d.len() {
                    assert(d.contains(e[i]));
                } else if j < d.len() {
                    assert(d.contains(e[j]));
                }
            }
        }
    }
}

} // verus!
