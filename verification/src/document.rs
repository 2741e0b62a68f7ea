//! The document's layer stack: layer kinds and roles, layer constructors,
//! and the rules by which nodes and layers are added, removed and moved.
//!
//! A layer here holds what these rules read and write. Its transform,
//! colour and media-timing settings (floating point) live beside it in the
//! application.

use vstd::prelude::*;
use crate::ids::fresh_id;
use crate::av_clip::{AvClip, AN_HOUR_BITS};
use crate::music::MusicClip;
use crate::media::{audio_extensions, ascii_lower, lemma_audio_extensions, file_stem_of, path_extension, path_file_stem, is_audio_ext, path_is_audio_only};
use crate::node_graph::NodeGraph;
use crate::ports::NodeKindView;
use crate::seqs::{
    first_index, lemma_filter_take_step, lemma_first_index, lemma_first_index_is,
    lemma_first_index_none,
};
use crate::text::{owned, str_eq};
use crate::node_store::{Node, NodeKind, NodeStore, store_index, node_at, store_put, lemma_store_put};
use crate::float_bits::{spec_widen_f32, spec_max_one_f32, widen_f32_bits, max_one_f32_bits};

verus! {

/// Display unit of the page size fields (stored sizes are always pixels).
#[derive(Debug, Clone, Copy, PartialEq, Eq, Structural)]
pub enum PageUnit {
    Px,
    Mm,
}

impl Default for PageUnit {
    fn default() -> (u: Self)
        ensures
            u == PageUnit::Px,
    {
        PageUnit::Px
    }
}

/// What a layer holds and how it is drawn.
#[derive(Debug, Clone, Copy, PartialEq, Eq, Structural)]
pub enum LayerKind {
    Image,
    /// Audio/video media layer.
    AV,
    /// Post-process shading passes composited over the canvas.
    Shading,
    /// Flowchart of nodes and orthogonal connectors.
    Flowchart,
    /// Node-based processing graph.
    NodeEditor,
    /// Screen or window capture session.
    ScreenRecord,
}

impl Default for LayerKind {
    fn default() -> (k: Self)
        ensures
            k == LayerKind::Image,
    {
        LayerKind::Image
    }
}

/// Media queue an AV layer belongs to.
#[derive(Debug, Clone, Copy, PartialEq, Eq, Structural)]
pub enum AvRole {
    /// Timeline video clips.
    Video,
    /// Timeline audio-only clips.
    Audio,
    /// Piano-roll music clips.
    Daw,
}

impl Default for AvRole {
    fn default() -> (r: Self)
        ensures
            r == AvRole::Video,
    {
        AvRole::Video
    }
}

/// Default of the layer flags that start switched on.
pub fn default_true() -> (b: bool)
    ensures
        b,
{
    true
}

/// Width of an A4 page in pixels (794.0), as `f32` bits: a new layer's width.
pub const A4_WIDTH_BITS: u32 = 0x4446_8000;

/// Height of an A4 page in pixels (1123.0), as `f32` bits: a new layer's height.
pub const A4_HEIGHT_BITS: u32 = 0x448c_6000;

/// Screen-capture frame rate a layer starts with.
pub const DEFAULT_CAPTURE_FPS: u32 = 60;

pub fn default_capture_fps() -> (n: u32)
    ensures
        n == DEFAULT_CAPTURE_FPS,
{
    DEFAULT_CAPTURE_FPS
}

/// Screen-capture bitrate a layer starts with (`0`: chosen from size and rate).
pub fn default_capture_bitrate_kbps() -> (n: u32)
    ensures
        n == 0,
{
    0
}

/// Layers take part in rendering unless the project says otherwise.
pub fn default_is_renderer() -> (b: bool)
    ensures
        b,
{
    true
}

/// A layer of the stack.
#[derive(Debug)]
pub struct Layer {
    pub id: u128,
    pub name: String,
    pub visible: bool,
    pub locked: bool,
    /// Drawable nodes, bottom first.
    pub nodes: Vec<u128>,
    pub kind: LayerKind,
    /// Single-clip media fields of an AV layer (older projects keep their
    /// clip here; the details panel edits them). Times are `f32` bit
    /// patterns.
    pub video_path: String,
    pub video_start_offset_bits: u32,
    pub video_play_length_bits: u32,
    pub video_timeline_start_bits: u32,
    pub media_source_duration_bits: Option<u32>,
    pub is_renderer: bool,
    /// Placement of the layer on the page (`f32` bit patterns).
    pub x_bits: u32,
    pub y_bits: u32,
    pub width_bits: u32,
    pub height_bits: u32,
    /// Media queue, when the layer is an AV layer.
    pub av_role: AvRole,
    /// Media clips on the AV timeline.
    pub av_clips: Vec<AvClip>,
    /// DAW music clips on the AV timeline.
    pub music_clips: Vec<MusicClip>,
    /// Graph of a node-editor layer.
    pub node_graph: Option<NodeGraph>,
    /// Canvas proxy node standing for a node-editor layer's output.
    pub ne_output_proxy: Option<u128>,
    pub septic_path: String,
    pub capture_dir: String,
    pub capture_cursor: bool,
    pub capture_audio: bool,
    pub capture_fps: u32,
    pub capture_bitrate_kbps: u32,
    pub screen_recording: bool,
}

/// A graph as `NodeGraph::new_empty` makes it: one Output Object, which is
/// the primary sink, and nothing else.
pub open spec fn seeded_graph(g: NodeGraph) -> bool {
    &&& g.entries().len() == 1
    &&& g.output_node_id == Some(g.entries()[0].0)
    &&& g.entries()[0].1.id == g.entries()[0].0
    &&& g.entries()[0].1@.kind == NodeKindView::OutputObject
    &&& g.entries()[0].1@.error is None
    &&& g.links@.len() == 0
    &&& g.parameters@.len() == 0
    &&& g.root_error is None
}

/// The settings every new layer starts with, beside its identity and kind.
pub open spec fn starts_plain(l: Layer) -> bool {
    &&& l.av_clips@.len() == 0
    &&& starts_plain_but_clips(l)
}

/// The settings every new layer starts with, apart from its clips.
pub open spec fn starts_plain_but_clips(l: Layer) -> bool {
    &&& l.music_clips@.len() == 0
    &&& l.video_start_offset_bits == 0
    &&& l.video_play_length_bits == AN_HOUR_BITS
    &&& l.video_timeline_start_bits == 0
    &&& l.media_source_duration_bits is None
    &&& l.x_bits == 0
    &&& l.y_bits == 0
    &&& l.width_bits == A4_WIDTH_BITS
    &&& l.height_bits == A4_HEIGHT_BITS
    &&& l.ne_output_proxy is None
    &&& l.septic_path@.len() == 0
    &&& l.capture_dir@.len() == 0
    &&& l.capture_cursor
    &&& l.capture_audio
    &&& l.capture_fps == DEFAULT_CAPTURE_FPS
    &&& l.capture_bitrate_kbps == 0
    &&& !l.screen_recording
}

/// A new, visible, unlocked and empty layer of `kind` named `name`.
pub open spec fn new_layer_of(l: Layer, id: u128, name: Seq<char>, kind: LayerKind) -> bool {
    &&& l.id == id
    &&& l.name@ == name
    &&& l.visible
    &&& !l.locked
    &&& l.nodes@.len() == 0
    &&& l.kind == kind
    &&& starts_plain(l)
}

/// Role of a new AV layer for a media path: audio when the path is an
/// audio-only file, video otherwise (also for no media).
pub open spec fn role_for_media(path: Seq<char>) -> AvRole {
    if path.len() > 0 && match path_extension(path) {
        Some(e) => is_audio_ext(e),
        None => false,
    } {
        AvRole::Audio
    } else {
        AvRole::Video
    }
}

/// Law: a new AV layer for `path` gets the audio role exactly when the
/// path is not empty and its extension, lower-cased, is one of the audio
/// extensions (`m4a`, `FLAC`, … included); otherwise the video role.
pub proof fn lemma_av_role_follows_media(path: Seq<char>)
    ensures
        (role_for_media(path) == AvRole::Audio) <==> (path.len() > 0 && match path_extension(path) {
            Some(e) => audio_extensions().contains(ascii_lower(e)),
            None => false,
        }),
        role_for_media(path) == AvRole::Audio || role_for_media(path) == AvRole::Video,
{
    if let Some(e) = path_extension(path) {
        lemma_audio_extensions(e);
    }
}

/// Name of an AV layer made from file name `name`: its stem, else `name`.
pub open spec fn clean_layer_name(name: Seq<char>) -> Seq<char> {
    match path_file_stem(name) {
        Some(stem) => stem,
        None => name,
    }
}

/// `l` is the AV layer `add_av_layer` makes for `name` and `media`: a new
/// AV layer whose role follows the media, with one clip of the media (from
/// its start, an hour long, at time zero, on the first row, with the
/// layer's identity) when there is media.
pub open spec fn av_layer_added(l: Layer, name: Seq<char>, media: Seq<char>) -> bool {
    &&& l.name@ == clean_layer_name(name)
    &&& l.visible
    &&& !l.locked
    &&& l.nodes@.len() == 0
    &&& l.kind == LayerKind::AV
    &&& starts_plain_but_clips(l)
    &&& l.video_path@ == media
    &&& l.is_renderer
    &&& l.av_role == role_for_media(media)
    &&& l.node_graph is None
    &&& if media.len() == 0 {
        l.av_clips@.len() == 0
    } else {
        &&& l.av_clips@.len() == 1
        &&& l.av_clips@[0].id == l.id
        &&& l.av_clips@[0].name@ == clean_layer_name(name)
        &&& l.av_clips@[0].media_path@ == media
        &&& l.av_clips@[0].video_start_offset_bits == 0
        &&& l.av_clips@[0].video_play_length_bits == crate::av_clip::AN_HOUR_BITS
        &&& l.av_clips@[0].video_timeline_start_bits == 0
        &&& l.av_clips@[0].media_source_duration_bits is None
        &&& l.av_clips@[0].track_row == 0
    }
}

impl Layer {
    fn plain(id: u128, name: String, kind: LayerKind, is_renderer: bool) -> (l: Layer)
        ensures
            new_layer_of(l, id, name@, kind),
            l.video_path@.len() == 0,
            l.is_renderer == is_renderer,
            l.av_role == AvRole::Video,
            l.node_graph is None,
    {
        Layer {
            id,
            name,
            visible: true,
            locked: false,
            nodes: Vec::new(),
            kind,
            video_path: String::new(),
            video_start_offset_bits: 0,
            video_play_length_bits: AN_HOUR_BITS,
            video_timeline_start_bits: 0,
            media_source_duration_bits: None,
            is_renderer,
            x_bits: 0,
            y_bits: 0,
            width_bits: A4_WIDTH_BITS,
            height_bits: A4_HEIGHT_BITS,
            av_role: AvRole::Video,
            av_clips: Vec::new(),
            music_clips: Vec::new(),
            node_graph: None,
            ne_output_proxy: None,
            septic_path: String::new(),
            capture_dir: String::new(),
            capture_cursor: true,
            capture_audio: true,
            capture_fps: DEFAULT_CAPTURE_FPS,
            capture_bitrate_kbps: 0,
            screen_recording: false,
        }
    }

    /// An image (vector drawing) layer holding `nodes`.
    pub fn new_image(id: u128, name: String, visible: bool, locked: bool, nodes: Vec<u128>) -> (l: Layer)
        ensures
            l.id == id,
            l.name@ == name@,
            l.visible == visible,
            l.locked == locked,
            l.nodes@ == nodes@,
            l.kind == LayerKind::Image,
            l.video_path@.len() == 0,
            l.is_renderer,
            l.av_role == AvRole::Video,
            l.node_graph is None,
            starts_plain(l),
    {
        let mut l = Layer::plain(id, name, LayerKind::Image, true);
        l.visible = visible;
        l.locked = locked;
        l.nodes = nodes;
        l
    }

    /// An AV layer for a media file; its role follows the file type.
    pub fn new_av_layer(id: u128, name: String, media_path: String) -> (l: Layer)
        ensures
            new_layer_of(l, id, name@, LayerKind::AV),
            l.video_path@ == media_path@,
            l.is_renderer,
            l.av_role == role_for_media(media_path@),
            l.node_graph is None,
    {
        let audio = media_path.as_str().unicode_len() > 0 && path_is_audio_only(media_path.as_str());
        let mut l = Layer::plain(id, name, LayerKind::AV, true);
        l.av_role = if audio {
            AvRole::Audio
        } else {
            AvRole::Video
        };
        l.video_path = media_path;
        l
    }

    /// An AV layer for a video file (the role still follows the file type).
    pub fn new_video(id: u128, name: String, video_path: String) -> (l: Layer)
        ensures
            new_layer_of(l, id, name@, LayerKind::AV),
            l.video_path@ == video_path@,
            l.is_renderer,
            l.av_role == role_for_media(video_path@),
            l.node_graph is None,
    {
        Self::new_av_layer(id, name, video_path)
    }

    /// An AV layer for an audio file (the role still follows the file type).
    pub fn new_audio(id: u128, name: String, audio_path: String) -> (l: Layer)
        ensures
            new_layer_of(l, id, name@, LayerKind::AV),
            l.video_path@ == audio_path@,
            l.is_renderer,
            l.av_role == role_for_media(audio_path@),
            l.node_graph is None,
    {
        Self::new_av_layer(id, name, audio_path)
    }

    /// An AV layer with no media yet.
    pub fn new_empty_av_layer(id: u128, name: String) -> (l: Layer)
        ensures
            new_layer_of(l, id, name@, LayerKind::AV),
            l.video_path@.len() == 0,
            l.is_renderer,
            l.av_role == AvRole::Video,
            l.node_graph is None,
    {
        Layer::new_av_layer(id, name, String::new())
    }

    /// An AV layer with no media yet, in the queue of `role`.
    pub fn new_empty_av_layer_with_role(id: u128, name: String, role: AvRole) -> (l: Layer)
        ensures
            new_layer_of(l, id, name@, LayerKind::AV),
            l.video_path@.len() == 0,
            l.is_renderer,
            l.av_role == role,
            l.node_graph is None,
    {
        let mut l = Layer::new_empty_av_layer(id, name);
        l.av_role = role;
        l
    }

    pub fn new_shading_layer(id: u128, name: String) -> (l: Layer)
        ensures
            new_layer_of(l, id, name@, LayerKind::Shading),
            l.video_path@.len() == 0,
            l.is_renderer,
            l.av_role == AvRole::Video,
            l.node_graph is None,
    {
        Layer::plain(id, name, LayerKind::Shading, true)
    }

    pub fn new_flowchart_layer(id: u128, name: String) -> (l: Layer)
        ensures
            new_layer_of(l, id, name@, LayerKind::Flowchart),
            l.video_path@.len() == 0,
            l.is_renderer,
            l.av_role == AvRole::Video,
            l.node_graph is None,
    {
        Layer::plain(id, name, LayerKind::Flowchart, true)
    }

    /// A node-editor layer, seeded with a graph holding one Output Object.
    pub fn new_node_editor_layer(id: u128, name: String) -> (l: Layer)
        ensures
            new_layer_of(l, id, name@, LayerKind::NodeEditor),
            l.video_path@.len() == 0,
            l.is_renderer,
            l.av_role == AvRole::Video,
            l.node_graph matches Some(g) && seeded_graph(g),
    {
        let mut l = Layer::plain(id, name, LayerKind::NodeEditor, true);
        l.node_graph = Some(NodeGraph::new_empty());
        l
    }

    /// A screen-record layer; it does not take part in rendering.
    pub fn new_screen_record_layer(id: u128, name: String) -> (l: Layer)
        ensures
            new_layer_of(l, id, name@, LayerKind::ScreenRecord),
            l.video_path@.len() == 0,
            !l.is_renderer,
            l.av_role == AvRole::Video,
            l.node_graph is None,
    {
        Layer::plain(id, name, LayerKind::ScreenRecord, false)
    }
}


impl Layer {
    /// Gives a node-editor layer its graph when it has none.
    pub fn ensure_node_graph(&mut self)
        ensures
            (old(self).kind == LayerKind::NodeEditor && old(self).node_graph is None) ==> (
            final(self).node_graph matches Some(g) && seeded_graph(g)),
            !(old(self).kind == LayerKind::NodeEditor && old(self).node_graph is None)
                ==> final(self).node_graph == old(self).node_graph,
            same_but_graph(*final(self), *old(self)),
    {
        if self.kind == LayerKind::NodeEditor && self.node_graph.is_none() {
            self.node_graph = Some(NodeGraph::new_empty());
        }
    }
}

/// Node `id` is among `ids`.
fn holds_id(ids: &Vec<u128>, id: u128) -> (r: bool)
    ensures
        r == ids@.contains(id),
{
    let n = ids.len();
    let mut k: usize = 0;
    while k < n
        invariant
            n == ids@.len(),
            k <= n,
            forall|w: int| 0 <= w < k ==> ids@[w] != id,
        decreases n - k,
    {
        if ids[k] == id {
            assert(ids@[k as int] == id);
            return true;
        }
        k = k + 1;
    }
    false
}

/// The name the canvas proxy of a node-editor layer carries.
pub open spec fn output_object_name() -> Seq<char> {
    seq!['O', 'u', 't', 'p', 'u', 't', ' ', 'O', 'b', 'j', 'e', 'c', 't']
}

/// `n` is an empty "Output Object" image: the shape of a proxy node.
pub open spec fn is_blank_output(n: Node) -> bool {
    &&& n.name@ == output_object_name()
    &&& n.kind matches NodeKind::Image { bytes, .. } && bytes@.len() == 0
}

/// Node `id` is in the store `s` and is an empty "Output Object" image.
pub open spec fn blank_in(s: Seq<(u128, Node)>) -> spec_fn(u128) -> bool {
    |id: u128| store_index(s, id) >= 0 && is_blank_output(node_at(s, id))
}

/// `n` is the proxy image made for layer `l`: an empty "Output Object"
/// image at the layer's position, as large as the layer (at least 1 × 1).
pub open spec fn is_proxy_image(n: Node, l: Layer) -> bool {
    &&& n.name@ == output_object_name()
    &&& n.kind matches NodeKind::Image { x_bits, y_bits, width_bits, height_bits, bytes }
        && x_bits == spec_widen_f32(l.x_bits) && y_bits == spec_widen_f32(l.y_bits)
        && width_bits == spec_widen_f32(spec_max_one_f32(l.width_bits))
        && height_bits == spec_widen_f32(spec_max_one_f32(l.height_bits))
        && bytes@.len() == 0
}

/// The layer after `ensure_ne_output_proxy` (`m`), the store's entries
/// after it (`t`) and what it returns (`r`), from the layer `l` and store
/// entries `s` before it.
pub open spec fn proxy_ensured(l: Layer, s: Seq<(u128, Node)>, r: Option<u128>, m: Layer, t: Seq<(u128, Node)>) -> bool {
    if l.kind != LayerKind::NodeEditor {
        r is None && m == l && t == s
    } else if l.ne_output_proxy.is_some() && store_index(s, l.ne_output_proxy.unwrap()) >= 0 {
        let id = l.ne_output_proxy.unwrap();
        &&& r == Some(id)
        &&& t == s
        &&& if l.nodes@.contains(id) {
            m == l
        } else {
            &&& m == (Layer { nodes: m.nodes, ..l })
            &&& m.nodes@ == l.nodes@.push(id)
        }
    } else {
        let k = first_index(l.nodes@, blank_in(s));
        if k >= 0 {
            &&& r == Some(l.nodes@[k])
            &&& m == (Layer { ne_output_proxy: Some(l.nodes@[k]), ..l })
            &&& t == s
        } else {
            &&& r is Some
            &&& m == (Layer { nodes: m.nodes, ne_output_proxy: r, ..l })
            &&& m.nodes@ == l.nodes@.push(r.unwrap())
            &&& store_index(t, r.unwrap()) >= 0
            &&& t == store_put(s, r.unwrap(), node_at(t, r.unwrap()))
            &&& node_at(t, r.unwrap()).id == r.unwrap()
            &&& is_proxy_image(node_at(t, r.unwrap()), l)
        }
    }
}

impl Layer {
    /// Keeps a node-editor layer's canvas proxy bound, and returns it (None
    /// for other layers). A proxy still in `nodes` is kept (and put back on
    /// the layer when missing from it); a stale one is dropped; then the
    /// first empty "Output Object" image on the layer is adopted; with none,
    /// a new one is made at the layer's place and size, stored, put on top
    /// of the layer and bound.
    pub fn ensure_ne_output_proxy(&mut self, nodes: &mut NodeStore) -> (r: Option<u128>)
        ensures
            proxy_ensured(*old(self), old(nodes).entries(), r, *final(self), final(nodes).entries()),
            old(self).kind == LayerKind::NodeEditor ==> {
                &&& r is Some
                &&& final(self).ne_output_proxy == r
                &&& final(self).nodes@.contains(r.unwrap())
                &&& final(nodes).holds(r.unwrap())
            },
    {
        if self.kind != LayerKind::NodeEditor {
            return None;
        }
        if let Some(id) = self.ne_output_proxy {
            if nodes.get(id).is_some() {
                if !holds_id(&self.nodes, id) {
                    self.nodes.push(id);
                    assert(self.nodes@.last() == id);
                }
                return Some(id);
            }
            self.ne_output_proxy = None;
        }
        let ghost s = nodes.entries();
        let ghost p = blank_in(s);
        let n = self.nodes.len();
        let mut k: usize = 0;
        while k < n
            invariant
                n == self.nodes@.len(),
                k <= n,
                s == nodes.entries(),
                p == blank_in(s),
                *nodes == *old(nodes),
                old(self).kind == LayerKind::NodeEditor,
                !(old(self).ne_output_proxy.is_some() && store_index(s, old(self).ne_output_proxy.unwrap()) >= 0),
                *self == (Layer { ne_output_proxy: None, ..*old(self) }),
                forall|w: int| 0 <= w < k ==> !p(#[trigger] self.nodes@[w]),
            decreases n - k,
        {
            let nid = self.nodes[k];
            let found = match nodes.get(nid) {
                Some(node) => {
                    proof {
                        reveal_strlit("Output Object");
                        assert("Output Object"@ =~= output_object_name());
                    }
                    let named = str_eq(node.name.as_str(), "Output Object");
                    let empty = match &node.kind {
                        NodeKind::Image { bytes, .. } => bytes.len() == 0,
                        NodeKind::Other => false,
                    };
                    named && empty
                },
                None => false,
            };
            assert(found == p(nid));
            if found {
                proof {
                    crate::seqs::lemma_first_index_is(self.nodes@, p, k as int);
                }
                self.ne_output_proxy = Some(nid);
                return Some(nid);
            }
            k = k + 1;
        }
        proof {
            crate::seqs::lemma_first_index_none(self.nodes@, p);
        }
        let mut node = Node::image(
            widen_f32_bits(self.x_bits),
            widen_f32_bits(self.y_bits),
            widen_f32_bits(max_one_f32_bits(self.width_bits)),
            widen_f32_bits(max_one_f32_bits(self.height_bits)),
            Vec::new(),
        );
        node.name = owned("Output Object");
        proof {
            reveal_strlit("Output Object");
            assert(node.name@ =~= output_object_name());
        }
        let ghost made = node;
        let id = nodes.insert(node);
        proof {
            lemma_store_put(s, id, made);
        }
        self.nodes.push(id);
        assert(self.nodes@.last() == id);
        self.ne_output_proxy = Some(id);
        Some(id)
    }
}

/// The clip the single-clip fields of `l` describe, with the layer's
/// identity and name, on the first row.
pub open spec fn legacy_clip(l: Layer) -> AvClip {
    AvClip {
        id: l.id,
        name: l.name,
        media_path: l.video_path,
        video_start_offset_bits: l.video_start_offset_bits,
        video_play_length_bits: l.video_play_length_bits,
        video_timeline_start_bits: l.video_timeline_start_bits,
        media_source_duration_bits: l.media_source_duration_bits,
        track_row: 0,
    }
}

/// The single-clip timing of `l` is the untouched default, compared as
/// `f32` values: the start is ±0.0 and the length at least 3599.0 (up to
/// +∞; a NaN or negative length is not).
pub open spec fn default_legacy_timing(l: Layer) -> bool {
    &&& (l.video_timeline_start_bits == 0 || l.video_timeline_start_bits == 0x8000_0000u32)
    &&& 0x4560_F000u32 <= l.video_play_length_bits <= 0x7F80_0000u32
}

/// `m` is `l` after `ensure_av_clips`: an AV layer with no clips whose
/// single-clip fields say something (a media path, or timing other than
/// the default) gets that clip; everything else is left as it is.
pub open spec fn av_clips_ensured(l: Layer, m: Layer) -> bool {
    if l.kind != LayerKind::AV || l.av_clips@.len() > 0 || (l.video_path@.len() == 0 && default_legacy_timing(l)) {
        m == l
    } else {
        &&& m == (Layer { av_clips: m.av_clips, ..l })
        &&& m.av_clips@ == seq![legacy_clip(l)]
    }
}

/// The clip with identity `id`.
pub open spec fn clip_with_id(id: u128) -> spec_fn(AvClip) -> bool {
    |c: AvClip| c.id == id
}

/// `m` is `l` with the first clip `id` given the details-panel trim
/// (`offset`, `length`), the layer's media path when the clip has none, and
/// the layer's probed duration when it has one.
pub open spec fn clip_synced_from_legacy(l: Layer, id: u128, offset: u32, length: u32, m: Layer) -> bool {
    let k = first_index(l.av_clips@, clip_with_id(id));
    if k < 0 {
        m == l
    } else {
        let c = l.av_clips@[k];
        &&& m == (Layer { av_clips: m.av_clips, ..l })
        &&& m.av_clips@ == l.av_clips@.update(
            k,
            AvClip {
                media_path: if c.media_path@.len() == 0 && l.video_path@.len() > 0 {
                    l.video_path
                } else {
                    c.media_path
                },
                video_start_offset_bits: offset,
                video_play_length_bits: length,
                media_source_duration_bits: if l.media_source_duration_bits is Some {
                    l.media_source_duration_bits
                } else {
                    c.media_source_duration_bits
                },
                ..c
            },
        )
    }
}

/// `m` is `l` with its single-clip fields copied from clip `c`.
pub open spec fn legacy_from_clip(l: Layer, c: AvClip, m: Layer) -> bool {
    m == (Layer {
        video_path: c.media_path,
        video_start_offset_bits: c.video_start_offset_bits,
        video_play_length_bits: c.video_play_length_bits,
        video_timeline_start_bits: c.video_timeline_start_bits,
        media_source_duration_bits: c.media_source_duration_bits,
        ..l
    })
}

impl Layer {
    /// Moves the single-clip fields of an older AV layer into its clip list
    /// (once: a layer that has clips is left alone, as is one whose fields
    /// hold no media and the default timing).
    pub fn ensure_av_clips(&mut self)
        ensures
            av_clips_ensured(*old(self), *final(self)),
    {
        if self.kind != LayerKind::AV || self.av_clips.len() > 0 {
            return;
        }
        let start = self.video_timeline_start_bits;
        let length = self.video_play_length_bits;
        if self.video_path.as_str().unicode_len() == 0 && (start == 0 || start == 0x8000_0000u32)
            && 0x4560_F000u32 <= length && length <= 0x7F80_0000u32 {
            return;
        }
        let clip = AvClip::from_legacy(
            self.id,
            self.name.clone(),
            self.video_path.clone(),
            self.video_start_offset_bits,
            self.video_play_length_bits,
            self.video_timeline_start_bits,
            self.media_source_duration_bits,
        );
        self.av_clips.push(clip);
        assert(self.av_clips@ =~= seq![legacy_clip(*old(self))]);
    }

    /// Copies clip `clip_id` (the first with that identity) into the
    /// single-clip fields; nothing happens when there is no such clip.
    pub fn sync_legacy_from_clip_id(&mut self, clip_id: u128)
        ensures
            ({
                let k = first_index(old(self).av_clips@, clip_with_id(clip_id));
                if k < 0 {
                    *final(self) == *old(self)
                } else {
                    legacy_from_clip(*old(self), old(self).av_clips@[k], *final(self))
                }
            }),
    {
        let ghost p = clip_with_id(clip_id);
        let n = self.av_clips.len();
        let mut k: usize = 0;
        while k < n
            invariant
                n == self.av_clips@.len(),
                *self == *old(self),
                p == clip_with_id(clip_id),
                k <= n,
                forall|j: int| 0 <= j < k ==> !p(#[trigger] self.av_clips@[j]),
            decreases n - k,
        {
            if self.av_clips[k].id == clip_id {
                proof {
                    crate::seqs::lemma_first_index_is(self.av_clips@, p, k as int);
                }
                let path = self.av_clips[k].media_path.clone();
                let offset = self.av_clips[k].video_start_offset_bits;
                let length = self.av_clips[k].video_play_length_bits;
                let start = self.av_clips[k].video_timeline_start_bits;
                let duration = self.av_clips[k].media_source_duration_bits;
                self.video_path = path;
                self.video_start_offset_bits = offset;
                self.video_play_length_bits = length;
                self.video_timeline_start_bits = start;
                self.media_source_duration_bits = duration;
                return;
            }
            k = k + 1;
        }
        proof {
            crate::seqs::lemma_first_index_none(self.av_clips@, p);
        }
    }

    /// Copies the first clip into the single-clip fields (for the details
    /// panel); nothing happens without clips.
    pub fn sync_legacy_from_primary_clip(&mut self)
        ensures
            old(self).av_clips@.len() == 0 ==> *final(self) == *old(self),
            old(self).av_clips@.len() > 0 ==> legacy_from_clip(*old(self), old(self).av_clips@[0], *final(self)),
    {
        if self.av_clips.len() > 0 {
            let id = self.av_clips[0].id;
            proof {
                crate::seqs::lemma_first_index_is(self.av_clips@, clip_with_id(id), 0);
            }
            self.sync_legacy_from_clip_id(id);
        }
    }

    /// Pushes the details-panel trim onto one clip of an AV layer (after
    /// moving older single-clip fields into a clip): `offset_bits` and
    /// `length_bits` are the panel's start offset and play length as the
    /// caller clamped them (to at least 0 and 0.1 seconds).
    pub fn sync_clip_from_legacy(&mut self, clip_id: u128, offset_bits: u32, length_bits: u32)
        ensures
            old(self).kind != LayerKind::AV ==> *final(self) == *old(self),
            old(self).kind == LayerKind::AV ==> exists|l1: Layer|
                av_clips_ensured(*old(self), l1) && #[trigger] clip_synced_from_legacy(l1, clip_id, offset_bits, length_bits, *final(self)),
    {
        if self.kind != LayerKind::AV {
            return;
        }
        self.ensure_av_clips();
        let ghost l1 = *self;
        let ghost p = clip_with_id(clip_id);
        let n = self.av_clips.len();
        let mut k: usize = 0;
        while k < n
            invariant
                n == self.av_clips@.len(),
                *self == l1,
                old(self).kind == LayerKind::AV,
                av_clips_ensured(*old(self), l1),
                p == clip_with_id(clip_id),
                k <= n,
                forall|j: int| 0 <= j < k ==> !p(#[trigger] self.av_clips@[j]),
            decreases n - k,
        {
            if self.av_clips[k].id == clip_id {
                proof {
                    crate::seqs::lemma_first_index_is(self.av_clips@, p, k as int);
                }
                let take_layer_path = self.av_clips[k].media_path.as_str().unicode_len() == 0
                    && self.video_path.as_str().unicode_len() > 0;
                let layer_path = self.video_path.clone();
                let duration = self.media_source_duration_bits;
                let ghost c = self.av_clips@[k as int];
                if take_layer_path {
                    self.av_clips[k].media_path = layer_path;
                }
                self.av_clips[k].video_start_offset_bits = offset_bits;
                self.av_clips[k].video_play_length_bits = length_bits;
                if duration.is_some() {
                    self.av_clips[k].media_source_duration_bits = duration;
                }
                proof {
                    assert(self.av_clips@[k as int] == (AvClip {
                        media_path: if c.media_path@.len() == 0 && l1.video_path@.len() > 0 {
                            l1.video_path
                        } else {
                            c.media_path
                        },
                        video_start_offset_bits: offset_bits,
                        video_play_length_bits: length_bits,
                        media_source_duration_bits: if l1.media_source_duration_bits is Some {
                            l1.media_source_duration_bits
                        } else {
                            c.media_source_duration_bits
                        },
                        ..c
                    }));
                    assert(self.av_clips@ =~= l1.av_clips@.update(k as int, self.av_clips@[k as int]));
                    assert(clip_synced_from_legacy(l1, clip_id, offset_bits, length_bits, *self));
                }
                return;
            }
            k = k + 1;
        }
        proof {
            crate::seqs::lemma_first_index_none(self.av_clips@, p);
            assert(clip_synced_from_legacy(l1, clip_id, offset_bits, length_bits, *self));
        }
    }

    /// Pushes the details-panel trim onto the first clip (see
    /// `sync_clip_from_legacy`); nothing happens without clips.
    pub fn sync_primary_clip_from_legacy(&mut self, offset_bits: u32, length_bits: u32)
        ensures
            old(self).av_clips@.len() == 0 ==> *final(self) == *old(self),
            old(self).av_clips@.len() > 0 ==> (old(self).kind != LayerKind::AV ==> *final(self) == *old(self)),
            old(self).av_clips@.len() > 0 && old(self).kind == LayerKind::AV ==> clip_synced_from_legacy(
                *old(self),
                old(self).av_clips@[0].id,
                offset_bits,
                length_bits,
                *final(self),
            ),
    {
        if self.av_clips.len() > 0 {
            let id = self.av_clips[0].id;
            self.sync_clip_from_legacy(id, offset_bits, length_bits);
        }
    }

    /// Readies an AV layer for export: older single-clip fields become a
    /// clip, and the details-panel trim goes onto the first clip.
    pub fn prepare_av_for_export(&mut self, offset_bits: u32, length_bits: u32)
        ensures
            old(self).kind != LayerKind::AV ==> *final(self) == *old(self),
            old(self).kind == LayerKind::AV ==> exists|l1: Layer|
                #[trigger] av_clips_ensured(*old(self), l1) && (l1.av_clips@.len() == 0 ==> *final(self) == l1) && (
                l1.av_clips@.len() > 0 ==> clip_synced_from_legacy(l1, l1.av_clips@[0].id, offset_bits, length_bits, *final(self))),
    {
        if self.kind != LayerKind::AV {
            return;
        }
        self.ensure_av_clips();
        let ghost l1 = *self;
        if self.av_clips.len() > 0 {
            self.sync_primary_clip_from_legacy(offset_bits, length_bits);
        }
        assert(av_clips_ensured(*old(self), l1));
    }
}

/// Law: once `ensure_ne_output_proxy` has bound a proxy, asking again
/// returns the same proxy and changes neither the layer nor the store.
pub proof fn lemma_ensure_proxy_idempotent(
    l: Layer,
    s: Seq<(u128, Node)>,
    r: Option<u128>,
    m: Layer,
    t: Seq<(u128, Node)>,
    r2: Option<u128>,
    m2: Layer,
    t2: Seq<(u128, Node)>,
)
    requires
        proxy_ensured(l, s, r, m, t),
        proxy_ensured(m, t, r2, m2, t2),
    ensures
        r2 == r,
        m2 == m,
        t2 == t,
{
    if l.kind == LayerKind::NodeEditor {
        if l.ne_output_proxy.is_some() && store_index(s, l.ne_output_proxy.unwrap()) >= 0 {
            let id = l.ne_output_proxy.unwrap();
            assert(m.nodes@.contains(id)) by {
                if !l.nodes@.contains(id) {
                    assert(m.nodes@[m.nodes@.len() - 1] == id);
                }
            }
        } else {
            let k = first_index(l.nodes@, blank_in(s));
            crate::seqs::lemma_first_index(l.nodes@, blank_in(s));
            if k >= 0 {
                assert(m.nodes@ == l.nodes@);
                assert(m.nodes@[k] == l.nodes@[k]);
            } else {
                let id = r.unwrap();
                assert(m.nodes@[m.nodes@.len() - 1] == id);
            }
        }
    }
}

/// `a` and `b` are the same layer but for their node-editor graphs.
pub open spec fn same_but_graph(a: Layer, b: Layer) -> bool {
    &&& a.id == b.id
    &&& a.name == b.name
    &&& a.visible == b.visible
    &&& a.locked == b.locked
    &&& a.nodes == b.nodes
    &&& a.kind == b.kind
    &&& a.video_path == b.video_path
    &&& a.video_start_offset_bits == b.video_start_offset_bits
    &&& a.video_play_length_bits == b.video_play_length_bits
    &&& a.video_timeline_start_bits == b.video_timeline_start_bits
    &&& a.media_source_duration_bits == b.media_source_duration_bits
    &&& a.is_renderer == b.is_renderer
    &&& a.x_bits == b.x_bits
    &&& a.y_bits == b.y_bits
    &&& a.width_bits == b.width_bits
    &&& a.height_bits == b.height_bits
    &&& a.av_role == b.av_role
    &&& a.av_clips == b.av_clips
    &&& a.music_clips == b.music_clips
    &&& a.ne_output_proxy == b.ne_output_proxy
    &&& a.septic_path == b.septic_path
    &&& a.capture_dir == b.capture_dir
    &&& a.capture_cursor == b.capture_cursor
    &&& a.capture_audio == b.capture_audio
    &&& a.capture_fps == b.capture_fps
    &&& a.capture_bitrate_kbps == b.capture_bitrate_kbps
    &&& a.screen_recording == b.screen_recording
}

/// A document: its title, page unit and layer stack, bottom layer first.
#[derive(Debug)]
pub struct Document {
    pub title: String,
    pub layers: Vec<Layer>,
    /// Layer that receives new nodes.
    pub active_layer_index: usize,
    pub page_unit: PageUnit,
}

/// `a` and `b` are the same layer but for their node lists.
pub open spec fn same_but_nodes(a: Layer, b: Layer) -> bool {
    &&& a.id == b.id
    &&& a.name == b.name
    &&& a.visible == b.visible
    &&& a.locked == b.locked
    &&& a.kind == b.kind
    &&& a.video_path == b.video_path
    &&& a.video_start_offset_bits == b.video_start_offset_bits
    &&& a.video_play_length_bits == b.video_play_length_bits
    &&& a.video_timeline_start_bits == b.video_timeline_start_bits
    &&& a.media_source_duration_bits == b.media_source_duration_bits
    &&& a.is_renderer == b.is_renderer
    &&& a.x_bits == b.x_bits
    &&& a.y_bits == b.y_bits
    &&& a.width_bits == b.width_bits
    &&& a.height_bits == b.height_bits
    &&& a.av_role == b.av_role
    &&& a.av_clips == b.av_clips
    &&& a.music_clips == b.music_clips
    &&& a.node_graph == b.node_graph
    &&& a.ne_output_proxy == b.ne_output_proxy
    &&& a.septic_path == b.septic_path
    &&& a.capture_dir == b.capture_dir
    &&& a.capture_cursor == b.capture_cursor
    &&& a.capture_audio == b.capture_audio
    &&& a.capture_fps == b.capture_fps
    &&& a.capture_bitrate_kbps == b.capture_bitrate_kbps
    &&& a.screen_recording == b.screen_recording
}

/// `new` is `old` with the node list of layer `a` replaced by `nodes`.
pub open spec fn nodes_replaced(old: Seq<Layer>, new: Seq<Layer>, a: int, nodes: Seq<u128>) -> bool {
    &&& new.len() == old.len()
    &&& 0 <= a < old.len()
    &&& forall|i: int| 0 <= i < old.len() && i != a ==> #[trigger] new[i] == old[i]
    &&& same_but_nodes(new[a], old[a])
    &&& new[a].nodes@ == nodes
}

/// Keeps every node id but `id`.
pub open spec fn other_than(id: u128) -> spec_fn(u128) -> bool {
    |n: u128| n != id
}

/// Selects node `id`.
pub open spec fn is_node(id: u128) -> spec_fn(u128) -> bool {
    |n: u128| n == id
}

/// Node ids of the visible layers, bottom layer first, each layer's nodes in order.
pub open spec fn visible_nodes(layers: Seq<Layer>) -> Seq<u128>
    decreases layers.len(),
{
    if layers.len() == 0 {
        Seq::empty()
    } else {
        let l = layers.last();
        visible_nodes(layers.drop_last()) + (if l.visible {
            l.nodes@
        } else {
            Seq::empty()
        })
    }
}

/// Selects an AV layer of the media queue `role`.
pub open spec fn av_role_pred(role: AvRole) -> spec_fn(Layer) -> bool {
    |l: Layer| l.kind == LayerKind::AV && l.av_role == role
}

/// Selects the node-editor layer whose output proxy is `node_id`.
pub open spec fn proxy_pred(node_id: u128) -> spec_fn(Layer) -> bool {
    |l: Layer| l.kind == LayerKind::NodeEditor && l.ne_output_proxy == Some(node_id)
}

/// Layer an AV request for `role` goes to without creating one: the active
/// layer when it is an AV layer of that role, else the first such layer;
/// `-1` when there is none.
pub open spec fn existing_av_role_layer(layers: Seq<Layer>, active: int, role: AvRole) -> int {
    if 0 <= active < layers.len() && av_role_pred(role)(layers[active]) {
        active
    } else {
        first_index(layers, av_role_pred(role))
    }
}

/// Clamped target position of a node moved by `delta` in a list of `len` nodes.
pub open spec fn moved_pos(pos: int, delta: int, len: int) -> int {
    let t = pos + delta;
    if t < 0 {
        0
    } else if t > len - 1 {
        len - 1
    } else {
        t
    }
}

impl Document {
    /// The layer receiving new nodes, when the index names one.
    pub fn active_layer(&self) -> (r: Option<&Layer>)
        ensures
            self.active_layer_index < self.layers@.len() ==> r == Some(&self.layers@[self.active_layer_index as int]),
            self.active_layer_index >= self.layers@.len() ==> r is None,
    {
        if self.active_layer_index < self.layers.len() {
            Some(&self.layers[self.active_layer_index])
        } else {
            None
        }
    }

    /// The layer receiving new nodes, for editing, when the index names one;
    /// what is written through it lands in that layer.
    pub fn active_layer_mut(&mut self) -> (r: Option<&mut Layer>)
        ensures
            (old(self).active_layer_index < old(self).layers@.len()) == (r is Some),
            r is None ==> *final(self) == *old(self),
            r matches Some(l) ==> {
                &&& *l == old(self).layers@[old(self).active_layer_index as int]
                &&& final(self).layers@ == old(self).layers@.update(old(self).active_layer_index as int, *final(l))
                &&& *final(self) == (Document { layers: final(self).layers, ..*old(self) })
            },
    {
        let i = self.active_layer_index;
        if i < self.layers.len() {
            Some(&mut self.layers[i])
        } else {
            None
        }
    }

    /// Puts node `id` on top of the active layer (nothing happens when no
    /// layer is active).
    pub fn append_to_active_layer(&mut self, id: u128)
        ensures
            final(self).title == old(self).title,
            final(self).page_unit == old(self).page_unit,
            final(self).active_layer_index == old(self).active_layer_index,
            old(self).active_layer_index < old(self).layers@.len() ==> nodes_replaced(
                old(self).layers@,
                final(self).layers@,
                old(self).active_layer_index as int,
                old(self).layers@[old(self).active_layer_index as int].nodes@.push(id),
            ),
            old(self).active_layer_index >= old(self).layers@.len() ==> final(self).layers@ == old(
                self,
            ).layers@,
    {
        let a = self.active_layer_index;
        if a < self.layers.len() {
            self.layers[a].nodes.push(id);
        }
    }

    /// Removes node `id` from every layer, keeping the order of the others.
    pub fn remove_from_layers(&mut self, id: u128)
        ensures
            final(self).title == old(self).title,
            final(self).page_unit == old(self).page_unit,
            final(self).active_layer_index == old(self).active_layer_index,
            removed_everywhere(old(self).layers@, id, final(self).layers@),
    {
        let n = self.layers.len();
        let mut i: usize = 0;
        while i < n
            invariant
                n == self.layers@.len(),
                n == old(self).layers@.len(),
                i <= n,
                self.title == old(self).title,
                self.page_unit == old(self).page_unit,
                self.active_layer_index == old(self).active_layer_index,
                forall|j: int|
                    0 <= j < i ==> same_but_nodes(#[trigger] self.layers@[j], old(self).layers@[j])
                        && self.layers@[j].nodes@ == old(self).layers@[j].nodes@.filter(other_than(id)),
                forall|j: int| i <= j < n ==> #[trigger] self.layers@[j] == old(self).layers@[j],
            decreases n - i,
        {
            let kept = without_node(&self.layers[i].nodes, id);
            self.layers[i].nodes = kept;
            i = i + 1;
        }
    }

    /// Node ids of the visible layers, bottom first: the drawing order.
    pub fn ordered_node_ids(&self) -> (r: Vec<u128>)
        ensures
            r@ == visible_nodes(self.layers@),
    {
        let mut r: Vec<u128> = Vec::new();
        let n = self.layers.len();
        let mut i: usize = 0;
        while i < n
            invariant
                n == self.layers@.len(),
                i <= n,
                r@ == visible_nodes(self.layers@.take(i as int)),
            decreases n - i,
        {
            let ghost before = r@;
            assert(self.layers@.take(i + 1).drop_last() =~= self.layers@.take(i as int));
            if self.layers[i].visible {
                let nodes = &self.layers[i].nodes;
                let m = nodes.len();
                let mut k: usize = 0;
                while k < m
                    invariant
                        m == nodes@.len(),
                        k <= m,
                        r@ == before + nodes@.take(k as int),
                    decreases m - k,
                {
                    r.push(nodes[k]);
                    assert(nodes@.take(k + 1) =~= nodes@.take(k as int).push(nodes@[k as int]));
                    assert(before + nodes@.take(k + 1) =~= (before + nodes@.take(k as int)).push(nodes@[k as int]));
                    k = k + 1;
                }
                assert(nodes@.take(m as int) =~= nodes@);
            } else {
                assert(before + Seq::<u128>::empty() =~= before);
            }
            i = i + 1;
        }
        assert(self.layers@.take(n as int) =~= self.layers@);
        r
    }

    fn push_layer(&mut self, layer: Layer) -> (idx: usize)
        ensures
            final(self).layers@ == old(self).layers@.push(layer),
            idx == old(self).layers@.len(),
            final(self).title == old(self).title,
            final(self).page_unit == old(self).page_unit,
            final(self).active_layer_index == old(self).active_layer_index,
    {
        self.layers.push(layer);
        self.layers.len() - 1
    }

    /// A new project's document: titled "Untitled", in pixels, with one
    /// visible, unlocked and empty image layer "Layer 1" (fresh identity)
    /// that is active.
    pub fn new_empty_project() -> (d: Document)
        ensures
            d.title@ == "Untitled"@,
            d.page_unit == PageUnit::Px,
            d.active_layer_index == 0,
            d.layers@.len() == 1,
            new_layer_of(d.layers@[0], d.layers@[0].id, "Layer 1"@, LayerKind::Image),
            d.layers@[0].is_renderer,
            d.layers@[0].node_graph is None,
    {
        let layer = Layer::new_image(fresh_id(), owned("Layer 1"), true, false, Vec::new());
        let mut layers: Vec<Layer> = Vec::new();
        layers.push(layer);
        Document { title: owned("Untitled"), layers, active_layer_index: 0, page_unit: PageUnit::Px }
    }

    /// The document of a new default project: the empty project.
    pub fn new_default_project() -> (d: Document)
        ensures
            d.title@ == "Untitled"@,
            d.page_unit == PageUnit::Px,
            d.active_layer_index == 0,
            d.layers@.len() == 1,
            new_layer_of(d.layers@[0], d.layers@[0].id, "Layer 1"@, LayerKind::Image),
            d.layers@[0].is_renderer,
            d.layers@[0].node_graph is None,
    {
        Self::new_empty_project()
    }

    /// Adds an empty image layer on top; returns its index.
    pub fn add_layer(&mut self, name: &str) -> (idx: usize)
        ensures
            final(self).layers@.len() == old(self).layers@.len() + 1,
            final(self).layers@.take(old(self).layers@.len() as int) == old(self).layers@,
            idx == old(self).layers@.len(),
            new_layer_of(final(self).layers@[idx as int], final(self).layers@[idx as int].id, name@, LayerKind::Image),
            final(self).layers@[idx as int].is_renderer,
            final(self).active_layer_index == old(self).active_layer_index,
            final(self).title == old(self).title,
            final(self).page_unit == old(self).page_unit,
    {
        let layer = Layer::new_image(fresh_id(), owned(name), true, false, Vec::new());
        let idx = self.push_layer(layer);
        assert(self.layers@.take(idx as int) =~= old(self).layers@);
        idx
    }

    /// Adds an AV layer for `media_path` on top, named after the stem of
    /// `name` (the whole name when it has none); with media, the layer gets
    /// one clip of it, sharing the layer's identity. Returns its index.
    pub fn add_av_layer(&mut self, name: &str, media_path: String) -> (idx: usize)
        ensures
            final(self).layers@.len() == old(self).layers@.len() + 1,
            final(self).layers@.take(old(self).layers@.len() as int) == old(self).layers@,
            idx == old(self).layers@.len(),
            av_layer_added(final(self).layers@[idx as int], name@, media_path@),
            final(self).active_layer_index == old(self).active_layer_index,
            final(self).title == old(self).title,
            final(self).page_unit == old(self).page_unit,
    {
        let clean = match file_stem_of(name) {
            Some(stem) => stem,
            None => owned(name),
        };
        let mut layer = Layer::new_av_layer(fresh_id(), clean.clone(), media_path.clone());
        if media_path.as_str().unicode_len() > 0 {
            let mut clip = AvClip::new_from_media(clean, media_path, 0);
            clip.id = layer.id;
            layer.av_clips.push(clip);
        }
        let idx = self.push_layer(layer);
        assert(self.layers@.take(idx as int) =~= old(self).layers@);
        idx
    }

    /// Adds an AV layer for a video file (see `add_av_layer`).
    pub fn add_video_layer(&mut self, name: &str, video_path: String) -> (idx: usize)
        ensures
            final(self).layers@.len() == old(self).layers@.len() + 1,
            final(self).layers@.take(old(self).layers@.len() as int) == old(self).layers@,
            idx == old(self).layers@.len(),
            av_layer_added(final(self).layers@[idx as int], name@, video_path@),
            final(self).active_layer_index == old(self).active_layer_index,
            final(self).title == old(self).title,
            final(self).page_unit == old(self).page_unit,
    {
        self.add_av_layer(name, video_path)
    }

    /// Adds an AV layer for an audio file (see `add_av_layer`).
    pub fn add_audio_layer(&mut self, name: &str, audio_path: String) -> (idx: usize)
        ensures
            final(self).layers@.len() == old(self).layers@.len() + 1,
            final(self).layers@.take(old(self).layers@.len() as int) == old(self).layers@,
            idx == old(self).layers@.len(),
            av_layer_added(final(self).layers@[idx as int], name@, audio_path@),
            final(self).active_layer_index == old(self).active_layer_index,
            final(self).title == old(self).title,
            final(self).page_unit == old(self).page_unit,
    {
        self.add_av_layer(name, audio_path)
    }

    /// Adds an empty AV layer in the video queue on top; returns its index.
    pub fn add_empty_av_layer(&mut self, name: &str) -> (idx: usize)
        ensures
            final(self).layers@.len() == old(self).layers@.len() + 1,
            final(self).layers@.take(old(self).layers@.len() as int) == old(self).layers@,
            idx == old(self).layers@.len(),
            new_layer_of(final(self).layers@[idx as int], final(self).layers@[idx as int].id, name@, LayerKind::AV),
            final(self).layers@[idx as int].av_role == AvRole::Video,
            final(self).active_layer_index == old(self).active_layer_index,
            final(self).title == old(self).title,
            final(self).page_unit == old(self).page_unit,
    {
        self.add_empty_av_layer_with_role(name, AvRole::Video)
    }

    /// Adds an empty AV layer in the queue of `role` on top; returns its index.
    pub fn add_empty_av_layer_with_role(&mut self, name: &str, role: AvRole) -> (idx: usize)
        ensures
            final(self).layers@.len() == old(self).layers@.len() + 1,
            final(self).layers@.take(old(self).layers@.len() as int) == old(self).layers@,
            idx == old(self).layers@.len(),
            new_layer_of(final(self).layers@[idx as int], final(self).layers@[idx as int].id, name@, LayerKind::AV),
            final(self).layers@[idx as int].av_role == role,
            final(self).title == old(self).title,
            final(self).page_unit == old(self).page_unit,
            final(self).active_layer_index == old(self).active_layer_index,
    {
        let layer = Layer::new_empty_av_layer_with_role(fresh_id(), owned(name), role);
        let idx = self.push_layer(layer);
        assert(self.layers@.take(idx as int) =~= old(self).layers@);
        idx
    }

    /// First AV layer of the media queue `role`.
    pub fn find_av_role_layer(&self, role: AvRole) -> (r: Option<usize>)
        ensures
            first_index(self.layers@, av_role_pred(role)) >= 0 ==> r == Some(
                first_index(self.layers@, av_role_pred(role)) as usize,
            ),
            first_index(self.layers@, av_role_pred(role)) < 0 ==> r is None,
    {
        let ghost p = av_role_pred(role);
        let n = self.layers.len();
        let mut i: usize = 0;
        while i < n
            invariant
                n == self.layers@.len(),
                i <= n,
                p == av_role_pred(role),
                forall|j: int| 0 <= j < i ==> !p(#[trigger] self.layers@[j]),
            decreases n - i,
        {
            if self.layers[i].kind == LayerKind::AV && self.layers[i].av_role == role {
                proof {
                    lemma_first_index_is(self.layers@, p, i as int);
                }
                return Some(i);
            }
            i = i + 1;
        }
        proof {
            lemma_first_index_none(self.layers@, p);
        }
        None
    }

    /// Layer for AV media of `role`: the active layer when it is one, else
    /// the first one; when there is none, a new empty one named
    /// `default_name` is added on top and made active.
    pub fn ensure_av_role_layer(&mut self, role: AvRole, default_name: &str) -> (idx: usize)
        ensures
            ensured_av_layer(old(self).layers@, old(self).active_layer_index as int, role, default_name@,
                final(self).layers@, final(self).active_layer_index as int, idx as int),
            idx < final(self).layers@.len(),
            final(self).layers@[idx as int].kind == LayerKind::AV,
            final(self).layers@[idx as int].av_role == role,
            final(self).title == old(self).title,
            final(self).page_unit == old(self).page_unit,
    {
        let a = self.active_layer_index;
        if a < self.layers.len() {
            if self.layers[a].kind == LayerKind::AV && self.layers[a].av_role == role {
                return a;
            }
        }
        match self.find_av_role_layer(role) {
            Some(i) => {
                proof {
                    lemma_first_index(self.layers@, av_role_pred(role));
                }
                i
            },
            None => {
                let idx = self.add_empty_av_layer_with_role(default_name, role);
                self.active_layer_index = idx;
                proof {
                    assert(self.layers@.take(idx as int) =~= old(self).layers@);
                }
                idx
            },
        }
    }

    /// Adds a shading layer at the bottom of the stack and makes it active;
    /// every other layer moves up by one.
    pub fn add_shading_layer(&mut self, name: &str) -> (idx: usize)
        ensures
            idx == 0,
            final(self).layers@.len() == old(self).layers@.len() + 1,
            final(self).layers@.drop_first() == old(self).layers@,
            new_layer_of(final(self).layers@[0], final(self).layers@[0].id, name@, LayerKind::Shading),
            final(self).active_layer_index == 0,
            final(self).title == old(self).title,
            final(self).page_unit == old(self).page_unit,
    {
        let layer = Layer::new_shading_layer(fresh_id(), owned(name));
        self.layers.insert(0, layer);
        self.active_layer_index = 0;
        assert(self.layers@.drop_first() =~= old(self).layers@);
        0
    }

    /// Adds an empty flowchart layer on top; returns its index.
    pub fn add_flowchart_layer(&mut self, name: &str) -> (idx: usize)
        ensures
            final(self).layers@.len() == old(self).layers@.len() + 1,
            final(self).layers@.take(old(self).layers@.len() as int) == old(self).layers@,
            idx == old(self).layers@.len(),
            new_layer_of(final(self).layers@[idx as int], final(self).layers@[idx as int].id, name@, LayerKind::Flowchart),
            final(self).active_layer_index == old(self).active_layer_index,
            final(self).title == old(self).title,
            final(self).page_unit == old(self).page_unit,
    {
        let layer = Layer::new_flowchart_layer(fresh_id(), owned(name));
        let idx = self.push_layer(layer);
        assert(self.layers@.take(idx as int) =~= old(self).layers@);
        idx
    }

    /// Adds a screen-record layer on top; returns its index.
    pub fn add_screen_record_layer(&mut self, name: &str) -> (idx: usize)
        ensures
            final(self).layers@.len() == old(self).layers@.len() + 1,
            final(self).layers@.take(old(self).layers@.len() as int) == old(self).layers@,
            idx == old(self).layers@.len(),
            new_layer_of(final(self).layers@[idx as int], final(self).layers@[idx as int].id, name@, LayerKind::ScreenRecord),
            !final(self).layers@[idx as int].is_renderer,
            final(self).active_layer_index == old(self).active_layer_index,
            final(self).title == old(self).title,
            final(self).page_unit == old(self).page_unit,
    {
        let layer = Layer::new_screen_record_layer(fresh_id(), owned(name));
        let idx = self.push_layer(layer);
        assert(self.layers@.take(idx as int) =~= old(self).layers@);
        idx
    }

    /// Adds a node-editor layer with a fresh graph on top; returns its index.
    pub fn add_node_editor_layer(&mut self, name: &str) -> (idx: usize)
        ensures
            final(self).layers@.len() == old(self).layers@.len() + 1,
            final(self).layers@.take(old(self).layers@.len() as int) == old(self).layers@,
            idx == old(self).layers@.len(),
            new_layer_of(final(self).layers@[idx as int], final(self).layers@[idx as int].id, name@, LayerKind::NodeEditor),
            final(self).layers@[idx as int].node_graph is Some,
            final(self).active_layer_index == old(self).active_layer_index,
            final(self).title == old(self).title,
            final(self).page_unit == old(self).page_unit,
    {
        let layer = Layer::new_node_editor_layer(fresh_id(), owned(name));
        let idx = self.push_layer(layer);
        assert(self.layers@.take(idx as int) =~= old(self).layers@);
        idx
    }

    /// Moves node `id` by `delta` places within the active layer, clamped to
    /// the layer's ends; `true` when it moved.
    pub fn move_node_in_active_layer(&mut self, id: u128, delta: isize) -> (moved: bool)
        ensures
            moved_in_layer(old(self).layers@, old(self).active_layer_index as int, id, delta as int,
                final(self).layers@, moved),
            final(self).title == old(self).title,
            final(self).page_unit == old(self).page_unit,
            final(self).active_layer_index == old(self).active_layer_index,
    {
        let a = self.active_layer_index;
        if a >= self.layers.len() {
            return false;
        }
        let ghost p = is_node(id);
        let n = self.layers[a].nodes.len();
        let mut pos: usize = 0;
        while pos < n && self.layers[a].nodes[pos] != id
            invariant
                a < self.layers@.len(),
                n == self.layers@[a as int].nodes@.len(),
                pos <= n,
                p == is_node(id),
                forall|j: int| 0 <= j < pos ==> !p(#[trigger] self.layers@[a as int].nodes@[j]),
            decreases n - pos,
        {
            pos = pos + 1;
        }
        if pos == n {
            proof {
                lemma_first_index_none(self.layers@[a as int].nodes@, p);
            }
            return false;
        }
        proof {
            lemma_first_index_is(self.layers@[a as int].nodes@, p, pos as int);
        }
        let t: i128 = pos as i128 + delta as i128;
        let last: i128 = n as i128 - 1;
        let q: usize = if t < 0 {
            0
        } else if t > last {
            n - 1
        } else {
            t as usize
        };
        if q == pos {
            return false;
        }
        let node = self.layers[a].nodes.remove(pos);
        self.layers[a].nodes.insert(q, node);
        true
    }

    /// Index of the node-editor layer whose output proxy is `node_id`.
    pub fn ne_output_proxy_layer_index(&self, node_id: u128) -> (r: Option<usize>)
        ensures
            first_index(self.layers@, proxy_pred(node_id)) >= 0 ==> r == Some(
                first_index(self.layers@, proxy_pred(node_id)) as usize,
            ),
            first_index(self.layers@, proxy_pred(node_id)) < 0 ==> r is None,
    {
        let ghost p = proxy_pred(node_id);
        let n = self.layers.len();
        let mut i: usize = 0;
        while i < n
            invariant
                n == self.layers@.len(),
                i <= n,
                p == proxy_pred(node_id),
                forall|j: int| 0 <= j < i ==> !p(#[trigger] self.layers@[j]),
            decreases n - i,
        {
            if self.layers[i].kind == LayerKind::NodeEditor && self.layers[i].ne_output_proxy == Some(node_id) {
                proof {
                    lemma_first_index_is(self.layers@, p, i as int);
                }
                return Some(i);
            }
            i = i + 1;
        }
        proof {
            lemma_first_index_none(self.layers@, p);
        }
        None
    }
}

/// Outcome of moving node `id` by `delta` places inside layer `a`: when the
/// layer exists, holds the node, and the clamped target differs from its
/// first position, the node is taken out there and put back at the target;
/// otherwise nothing changes.
pub open spec fn moved_in_layer(
    layers: Seq<Layer>,
    a: int,
    id: u128,
    delta: int,
    new_layers: Seq<Layer>,
    moved: bool,
) -> bool {
    if 0 <= a < layers.len() && first_index(layers[a].nodes@, is_node(id)) >= 0 {
        let nodes = layers[a].nodes@;
        let p = first_index(nodes, is_node(id));
        let q = moved_pos(p, delta, nodes.len() as int);
        if q == p {
            !moved && new_layers == layers
        } else {
            moved && nodes_replaced(layers, new_layers, a, nodes.remove(p).insert(q, id))
        }
    } else {
        !moved && new_layers == layers
    }
}

/// What removing node `id` from every layer leaves.
pub open spec fn removed_everywhere(layers: Seq<Layer>, id: u128, new_layers: Seq<Layer>) -> bool {
    &&& new_layers.len() == layers.len()
    &&& forall|i: int|
        0 <= i < layers.len() ==> same_but_nodes(#[trigger] new_layers[i], layers[i])
            && new_layers[i].nodes@ == layers[i].nodes@.filter(other_than(id))
}

/// Moving a node within a layer keeps the layer's nodes, only reordered,
/// and puts the node at the clamped target position.
pub proof fn lemma_move_keeps_nodes(
    layers: Seq<Layer>,
    a: int,
    id: u128,
    delta: int,
    new_layers: Seq<Layer>,
    moved: bool,
)
    requires
        moved_in_layer(layers, a, id, delta, new_layers, moved),
    ensures
        new_layers.len() == layers.len(),
        forall|i: int|
            0 <= i < layers.len() ==> (#[trigger] new_layers[i]).nodes@.to_multiset() == layers[i].nodes@.to_multiset(),
        moved ==> new_layers[a].nodes@[moved_pos(
            first_index(layers[a].nodes@, is_node(id)),
            delta,
            layers[a].nodes@.len() as int,
        )] == id,
{
    if moved {
        let nodes = layers[a].nodes@;
        let p = first_index(nodes, is_node(id));
        lemma_first_index(nodes, is_node(id));
        let q = moved_pos(p, delta, nodes.len() as int);
        assert(nodes[p] == id);
        vstd::seq_lib::to_multiset_remove(nodes, p);
        vstd::seq_lib::to_multiset_insert(nodes.remove(p), q, id);
        assert(nodes.to_multiset().remove(id).insert(id) =~= nodes.to_multiset()) by {
            broadcast use vstd::multiset::group_multiset_axioms;
            vstd::seq_lib::to_multiset_contains(nodes, id);
        }
    }
}

/// Removing a node right after appending it to a layer, when no layer held
/// it before, leaves every layer's node list as it was.
pub proof fn lemma_remove_undoes_append(
    layers: Seq<Layer>,
    a: int,
    id: u128,
    appended: Seq<Layer>,
    removed: Seq<Layer>,
)
    requires
        forall|i: int| 0 <= i < layers.len() ==> !(#[trigger] layers[i]).nodes@.contains(id),
        nodes_replaced(layers, appended, a, layers[a].nodes@.push(id)),
        removed_everywhere(appended, id, removed),
    ensures
        removed.len() == layers.len(),
        forall|i: int|
            0 <= i < layers.len() ==> same_but_nodes(#[trigger] removed[i], layers[i]) && removed[i].nodes@
                == layers[i].nodes@,
{
    assert forall|i: int| 0 <= i < layers.len() implies same_but_nodes(#[trigger] removed[i], layers[i])
        && removed[i].nodes@ == layers[i].nodes@ by {
        let s = layers[i].nodes@;
        assert(!s.contains(id));
        lemma_filter_absent(s, id);
        if i == a {
            lemma_filter_absent_push(s, id);
        }
    }
}

proof fn lemma_filter_absent(s: Seq<u128>, id: u128)
    requires
        !s.contains(id),
    ensures
        s.filter(other_than(id)) == s,
    decreases s.len(),
{
    reveal(Seq::filter);
    if s.len() > 0 {
        assert(!s.drop_last().contains(id)) by {
            if s.drop_last().contains(id) {
                let j = choose|j: int| 0 <= j < s.drop_last().len() && s.drop_last()[j] == id;
                assert(s[j] == id);
            }
        }
        lemma_filter_absent(s.drop_last(), id);
        assert(s.last() != id) by {
            assert(s[s.len() - 1] == s.last());
        }
        assert(s.drop_last().push(s.last()) =~= s);
    }
}

proof fn lemma_filter_absent_push(s: Seq<u128>, id: u128)
    requires
        !s.contains(id),
    ensures
        s.push(id).filter(other_than(id)) == s,
{
    reveal(Seq::filter);
    assert(s.push(id).drop_last() =~= s);
    lemma_filter_absent(s, id);
}

/// Asking twice for an AV layer of the same role gives the same layer, and
/// the second request changes nothing.
pub proof fn lemma_ensure_av_role_layer_idempotent(
    layers: Seq<Layer>,
    active: int,
    role: AvRole,
    name: Seq<char>,
    layers1: Seq<Layer>,
    active1: int,
    idx1: int,
    layers2: Seq<Layer>,
    active2: int,
    idx2: int,
)
    requires
        ensured_av_layer(layers, active, role, name, layers1, active1, idx1),
        ensured_av_layer(layers1, active1, role, name, layers2, active2, idx2),
    ensures
        idx2 == idx1,
        layers2 == layers1,
        active2 == active1,
{
    let e = existing_av_role_layer(layers, active, role);
    if e < 0 {
        assert(av_role_pred(role)(layers1[idx1]));
        assert(existing_av_role_layer(layers1, active1, role) == active1);
    }
}

/// The ids of `nodes` other than `id`, in order.
fn without_node(nodes: &Vec<u128>, id: u128) -> (r: Vec<u128>)
    ensures
        r@ == nodes@.filter(other_than(id)),
{
    let ghost p = other_than(id);
    let mut r: Vec<u128> = Vec::new();
    let n = nodes.len();
    let mut i: usize = 0;
    assert(nodes@.take(0).filter(p) =~= Seq::<u128>::empty()) by {
        reveal(Seq::filter);
    }
    while i < n
        invariant
            n == nodes@.len(),
            i <= n,
            p == other_than(id),
            r@ == nodes@.take(i as int).filter(p),
        decreases n - i,
    {
        proof {
            lemma_filter_take_step(nodes@, p, i as int);
        }
        if nodes[i] != id {
            r.push(nodes[i]);
        }
        i = i + 1;
    }
    assert(nodes@.take(n as int) =~= nodes@);
    r
}

/// What asking for an AV layer of `role` leaves: an existing layer's index
/// with the stack unchanged, or a new empty layer on top, made active.
pub open spec fn ensured_av_layer(
    layers: Seq<Layer>,
    active: int,
    role: AvRole,
    default_name: Seq<char>,
    new_layers: Seq<Layer>,
    new_active: int,
    idx: int,
) -> bool {
    let e = existing_av_role_layer(layers, active, role);
    if e >= 0 {
        idx == e && new_layers == layers && new_active == active
    } else {
        &&& idx == layers.len()
        &&& new_layers.len() == layers.len() + 1
        &&& new_layers.take(layers.len() as int) == layers
        &&& new_layer_of(new_layers[idx], new_layers[idx].id, default_name, LayerKind::AV)
        &&& new_layers[idx].av_role == role
        &&& new_active == idx
    }
}

} // verus!
