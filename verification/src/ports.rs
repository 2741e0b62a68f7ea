//! Node-editor catalog: port types, node kinds and their port tables.

use vstd::prelude::*;
use crate::text::owned;

verus! {

/// Port data types for connection validation.
#[derive(Debug, Clone, Copy, PartialEq, Eq, Structural)]
pub enum PortType {
    /// Still / processed image stream.
    RawImage,
    /// Video media (file path / timed frames). Distinct from Image in the UI.
    RawVideo,
    /// Audio or demuxed soundtrack.
    RawSound,
    /// Canonical septic session (screen recording with mouse track).
    Septic,
    /// Mouse track / sample (needs a Mouse Encoder for pos / shake / event).
    Mouse,
    /// Scalar real number.
    Real,
    /// Compound color (3 reals in the UI).
    Color,
    /// Compound position (2 reals).
    Position,
}

/// Display name of each port type.
pub open spec fn spec_port_type_label(t: PortType) -> Seq<char> {
    match t {
        PortType::RawImage => "Image"@,
        PortType::RawVideo => "Video"@,
        PortType::RawSound => "Sound"@,
        PortType::Septic => "Septic"@,
        PortType::Mouse => "Mouse"@,
        PortType::Real => "Real"@,
        PortType::Color => "Color"@,
        PortType::Position => "Position"@,
    }
}

/// Connection rule: equal types connect, and a video stream may feed an
/// image input. Nothing else connects (compound colors and positions do not
/// feed reals as a whole).
pub open spec fn spec_can_connect(from: PortType, to: PortType) -> bool {
    from == to || (from == PortType::RawVideo && to == PortType::RawImage)
}

impl PortType {
    pub fn label(self) -> (s: &'static str)
        ensures
            s@ == spec_port_type_label(self),
    {
        match self {
            PortType::RawImage => "Image",
            PortType::RawVideo => "Video",
            PortType::RawSound => "Sound",
            PortType::Septic => "Septic",
            PortType::Mouse => "Mouse",
            PortType::Real => "Real",
            PortType::Color => "Color",
            PortType::Position => "Position",
        }
    }

    /// Whether `from` may connect into a port of type `to`.
    pub fn can_connect(from: PortType, to: PortType) -> (r: bool)
        ensures
            r == spec_can_connect(from, to),
    {
        if from == to {
            true
        } else {
            match (from, to) {
                (PortType::RawVideo, PortType::RawImage) => true,
                _ => false,
            }
        }
    }
}

/// A port type always connects to itself, and the relation is not symmetric:
/// video feeds image, image does not feed video.
pub proof fn lemma_can_connect_reflexive_not_symmetric(t: PortType)
    ensures
        spec_can_connect(t, t),
        spec_can_connect(PortType::RawVideo, PortType::RawImage),
        !spec_can_connect(PortType::RawImage, PortType::RawVideo),
{
}

#[derive(Debug, Clone, Copy, PartialEq, Eq, Structural)]
pub enum PortDir {
    Input,
    Output,
}

/// A port as the contracts see it: id, display name, type, direction.
pub type PortView = (Seq<char>, Seq<char>, PortType, PortDir);

#[derive(Debug, Clone, PartialEq, Eq)]
pub struct PortDef {
    pub id: String,
    pub name: String,
    pub ty: PortType,
    pub dir: PortDir,
}

impl View for PortDef {
    type V = PortView;

    open spec fn view(&self) -> PortView {
        (self.id@, self.name@, self.ty, self.dir)
    }
}

pub open spec fn ports_view(s: Seq<PortDef>) -> Seq<PortView> {
    s.map_values(|p: PortDef| p@)
}

/// Table entry of a port.
pub open spec fn pv(id: &str, name: &str, ty: PortType, dir: PortDir) -> PortView {
    (id@, name@, ty, dir)
}

fn port(id: &str, name: &str, ty: PortType, dir: PortDir) -> (p: PortDef)
    ensures
        p@ == pv(id, name, ty, dir),
{
    PortDef { id: owned(id), name: owned(name), ty, dir }
}

/// Formula of a new Expr X node.
pub fn default_expr_x() -> (s: String)
    ensures
        s@ == "x"@,
{
    owned("x")
}

/// Formula of a new Expr XY node.
pub fn default_expr_xy() -> (s: String)
    ensures
        s@ == "x+y"@,
{
    owned("x+y")
}

/// Formula of a new Expr XYZ node.
pub fn default_expr_xyz() -> (s: String)
    ensures
        s@ == "x+y+z"@,
{
    owned("x+y+z")
}

/// Kind of graph node (catalog entry). Numeric settings are held as the bit
/// patterns of their IEEE-754 values; this module carries them unchanged.
#[derive(Debug, Clone, PartialEq, Eq)]
pub enum GraphNodeKind {
    ObjectImage { path: String },
    ObjectVideo { path: String },
    ObjectAudio { path: String },
    ObjectFromApp { node_ids: Vec<u128> },
    OutputObject,
    VideoPlayer,
    ObjectSeptic { path: String },
    ObjectMouse { path: String },
    SepticPlayer,
    MouseEncoder { time_threshold_bits: u64, gain_bits: u64 },
    Value { value_bits: u64 },
    ExprX { expr: String },
    ExprXy { expr: String },
    ExprXyz { expr: String },
    Frame,
    Time,
    Brightness,
    ColorChanger,
    LinearBlur,
    Zoom,
    Equalizer,
    Speed,
    Visualizer { gain_bits: u64 },
    GeoSize,
    GeoPlacement,
    GeoRotate,
    GeoTrapezoid,
    GeoMirror,
    GeoAdd,
    ParamReal { param_id: u128 },
    ParamColor { param_id: u128 },
    ParamPosition { param_id: u128 },
}

/// Mathematical model of a [`GraphNodeKind`]: texts as character sequences.
pub ghost enum NodeKindView {
    ObjectImage { path: Seq<char> },
    ObjectVideo { path: Seq<char> },
    ObjectAudio { path: Seq<char> },
    ObjectFromApp { node_ids: Seq<u128> },
    OutputObject,
    VideoPlayer,
    ObjectSeptic { path: Seq<char> },
    ObjectMouse { path: Seq<char> },
    SepticPlayer,
    MouseEncoder { time_threshold_bits: u64, gain_bits: u64 },
    Value { value_bits: u64 },
    ExprX { expr: Seq<char> },
    ExprXy { expr: Seq<char> },
    ExprXyz { expr: Seq<char> },
    Frame,
    Time,
    Brightness,
    ColorChanger,
    LinearBlur,
    Zoom,
    Equalizer,
    Speed,
    Visualizer { gain_bits: u64 },
    GeoSize,
    GeoPlacement,
    GeoRotate,
    GeoTrapezoid,
    GeoMirror,
    GeoAdd,
    ParamReal { param_id: u128 },
    ParamColor { param_id: u128 },
    ParamPosition { param_id: u128 },
}

impl View for GraphNodeKind {
    type V = NodeKindView;

    open spec fn view(&self) -> NodeKindView {
        match self {
            GraphNodeKind::ObjectImage { path } => NodeKindView::ObjectImage { path: path@ },
            GraphNodeKind::ObjectVideo { path } => NodeKindView::ObjectVideo { path: path@ },
            GraphNodeKind::ObjectAudio { path } => NodeKindView::ObjectAudio { path: path@ },
            GraphNodeKind::ObjectFromApp { node_ids } => NodeKindView::ObjectFromApp { node_ids: node_ids@ },
            GraphNodeKind::OutputObject => NodeKindView::OutputObject,
            GraphNodeKind::VideoPlayer => NodeKindView::VideoPlayer,
            GraphNodeKind::ObjectSeptic { path } => NodeKindView::ObjectSeptic { path: path@ },
            GraphNodeKind::ObjectMouse { path } => NodeKindView::ObjectMouse { path: path@ },
            GraphNodeKind::SepticPlayer => NodeKindView::SepticPlayer,
            GraphNodeKind::MouseEncoder { time_threshold_bits, gain_bits } => NodeKindView::MouseEncoder { time_threshold_bits: *time_threshold_bits, gain_bits: *gain_bits },
            GraphNodeKind::Value { value_bits } => NodeKindView::Value { value_bits: *value_bits },
            GraphNodeKind::ExprX { expr } => NodeKindView::ExprX { expr: expr@ },
            GraphNodeKind::ExprXy { expr } => NodeKindView::ExprXy { expr: expr@ },
            GraphNodeKind::ExprXyz { expr } => NodeKindView::ExprXyz { expr: expr@ },
            GraphNodeKind::Frame => NodeKindView::Frame,
            GraphNodeKind::Time => NodeKindView::Time,
            GraphNodeKind::Brightness => NodeKindView::Brightness,
            GraphNodeKind::ColorChanger => NodeKindView::ColorChanger,
            GraphNodeKind::LinearBlur => NodeKindView::LinearBlur,
            GraphNodeKind::Zoom => NodeKindView::Zoom,
            GraphNodeKind::Equalizer => NodeKindView::Equalizer,
            GraphNodeKind::Speed => NodeKindView::Speed,
            GraphNodeKind::Visualizer { gain_bits } => NodeKindView::Visualizer { gain_bits: *gain_bits },
            GraphNodeKind::GeoSize => NodeKindView::GeoSize,
            GraphNodeKind::GeoPlacement => NodeKindView::GeoPlacement,
            GraphNodeKind::GeoRotate => NodeKindView::GeoRotate,
            GraphNodeKind::GeoTrapezoid => NodeKindView::GeoTrapezoid,
            GraphNodeKind::GeoMirror => NodeKindView::GeoMirror,
            GraphNodeKind::GeoAdd => NodeKindView::GeoAdd,
            GraphNodeKind::ParamReal { param_id } => NodeKindView::ParamReal { param_id: *param_id },
            GraphNodeKind::ParamColor { param_id } => NodeKindView::ParamColor { param_id: *param_id },
            GraphNodeKind::ParamPosition { param_id } => NodeKindView::ParamPosition { param_id: *param_id },
        }
    }
}

/// Catalog category shown in the add-node menu.
pub open spec fn spec_category(k: NodeKindView) -> Seq<char> {
    match k {
        NodeKindView::ObjectImage { .. }
        | NodeKindView::ObjectVideo { .. }
        | NodeKindView::ObjectAudio { .. }
        | NodeKindView::ObjectFromApp { .. }
        | NodeKindView::OutputObject
        | NodeKindView::ObjectSeptic { .. }
        | NodeKindView::ObjectMouse { .. } => "Object"@,
        NodeKindView::VideoPlayer
        | NodeKindView::SepticPlayer
        | NodeKindView::MouseEncoder { .. } => "Player"@,
        NodeKindView::Value { .. }
        | NodeKindView::ExprX { .. }
        | NodeKindView::ExprXy { .. }
        | NodeKindView::ExprXyz { .. }
        | NodeKindView::Frame
        | NodeKindView::Time => "Algebra"@,
        NodeKindView::Brightness
        | NodeKindView::ColorChanger
        | NodeKindView::LinearBlur
        | NodeKindView::Zoom
        | NodeKindView::Equalizer
        | NodeKindView::Speed
        | NodeKindView::Visualizer { .. } => "Effect"@,
        NodeKindView::GeoSize
        | NodeKindView::GeoPlacement
        | NodeKindView::GeoRotate
        | NodeKindView::GeoTrapezoid
        | NodeKindView::GeoMirror
        | NodeKindView::GeoAdd => "Geometry"@,
        NodeKindView::ParamReal { .. }
        | NodeKindView::ParamColor { .. }
        | NodeKindView::ParamPosition { .. } => "Parameter"@,
    }
}

/// Default node title.
pub open spec fn spec_title(k: NodeKindView) -> Seq<char> {
    match k {
        NodeKindView::ObjectImage { .. } => "Image"@,
        NodeKindView::ObjectVideo { .. } => "Video"@,
        NodeKindView::ObjectAudio { .. } => "Audio"@,
        NodeKindView::ObjectFromApp { .. } => "App Object"@,
        NodeKindView::OutputObject => "Output Object"@,
        NodeKindView::VideoPlayer => "Video Player"@,
        NodeKindView::ObjectSeptic { .. } => "Septic"@,
        NodeKindView::ObjectMouse { .. } => "Mouse"@,
        NodeKindView::SepticPlayer => "Septic Player"@,
        NodeKindView::MouseEncoder { .. } => "Mouse Player"@,
        NodeKindView::Value { .. } => "Value"@,
        NodeKindView::ExprX { .. } => "Expr X"@,
        NodeKindView::ExprXy { .. } => "Expr XY"@,
        NodeKindView::ExprXyz { .. } => "Expr XYZ"@,
        NodeKindView::Frame => "Frame"@,
        NodeKindView::Time => "Time"@,
        NodeKindView::Brightness => "Brightness"@,
        NodeKindView::ColorChanger => "Color Changer"@,
        NodeKindView::LinearBlur => "Linear Blur"@,
        NodeKindView::Zoom => "Zoom"@,
        NodeKindView::Equalizer => "Equalizer"@,
        NodeKindView::Speed => "Speed"@,
        NodeKindView::Visualizer { .. } => "Visualizer"@,
        NodeKindView::GeoSize => "Size"@,
        NodeKindView::GeoPlacement => "Placement"@,
        NodeKindView::GeoRotate => "Rotate"@,
        NodeKindView::GeoTrapezoid => "Trapezoid"@,
        NodeKindView::GeoMirror => "Mirror"@,
        NodeKindView::GeoAdd => "Add"@,
        NodeKindView::ParamReal { .. } => "Param Real"@,
        NodeKindView::ParamColor { .. } => "Param Color"@,
        NodeKindView::ParamPosition { .. } => "Param Position"@,
    }
}

/// The ports of each node kind, in display order.
pub open spec fn spec_ports(k: NodeKindView) -> Seq<PortView> {
    match k {
        NodeKindView::ObjectImage { .. }
        | NodeKindView::ObjectFromApp { .. } => seq![
            pv("out", "Image", PortType::RawImage, PortDir::Output),
        ],
        NodeKindView::ObjectVideo { .. } => seq![
            pv("out", "Video", PortType::RawVideo, PortDir::Output),
            pv("sound", "Sound", PortType::RawSound, PortDir::Output),
        ],
        NodeKindView::ObjectAudio { .. } => seq![
            pv("out", "Sound", PortType::RawSound, PortDir::Output),
        ],
        NodeKindView::VideoPlayer => seq![
            pv("video", "Video", PortType::RawVideo, PortDir::Input),
            pv("time", "Time", PortType::Real, PortDir::Input),
            pv("start", "Start", PortType::Real, PortDir::Input),
            pv("duration", "Clip", PortType::Real, PortDir::Input),
            pv("audio", "Audio", PortType::RawSound, PortDir::Input),
            pv("out", "Image", PortType::RawImage, PortDir::Output),
            pv("sound", "Sound", PortType::RawSound, PortDir::Output),
            pv("total_duration", "Duration", PortType::Real, PortDir::Output),
            pv("width", "Width", PortType::Real, PortDir::Output),
            pv("height", "Height", PortType::Real, PortDir::Output),
        ],
        NodeKindView::ObjectSeptic { .. } => seq![
            pv("out", "Septic", PortType::Septic, PortDir::Output),
        ],
        NodeKindView::ObjectMouse { .. } => seq![
            pv("out", "Mouse", PortType::Mouse, PortDir::Output),
        ],
        NodeKindView::SepticPlayer => seq![
            pv("septic", "Septic", PortType::Septic, PortDir::Input),
            pv("time", "Time", PortType::Real, PortDir::Input),
            pv("video", "Video", PortType::RawVideo, PortDir::Output),
            pv("mouse", "Mouse", PortType::Mouse, PortDir::Output),
            pv("sound", "Sound", PortType::RawSound, PortDir::Output),
            pv("time_out", "Time", PortType::Real, PortDir::Output),
        ],
        NodeKindView::MouseEncoder { .. } => seq![
            pv("mouse", "Mouse", PortType::Mouse, PortDir::Input),
            pv("time", "Time", PortType::Real, PortDir::Input),
            pv("threshold", "Threshold", PortType::Real, PortDir::Input),
            pv("gain", "Gain", PortType::Real, PortDir::Input),
            pv("pos", "Pos", PortType::Position, PortDir::Output),
            pv("x", "X", PortType::Real, PortDir::Output),
            pv("y", "Y", PortType::Real, PortDir::Output),
            pv("shakiness", "Shake", PortType::Real, PortDir::Output),
            pv("event", "Event", PortType::Real, PortDir::Output),
        ],
        NodeKindView::OutputObject => seq![
            pv("image", "Image", PortType::RawImage, PortDir::Input),
            pv("sound", "Sound", PortType::RawSound, PortDir::Input),
            pv("run_till", "Run Till", PortType::Real, PortDir::Input),
        ],
        NodeKindView::Value { .. }
        | NodeKindView::Frame
        | NodeKindView::Time
        | NodeKindView::ParamReal { .. } => seq![
            pv("out", "Value", PortType::Real, PortDir::Output),
        ],
        NodeKindView::ExprX { .. } => seq![
            pv("x", "x", PortType::Real, PortDir::Input),
            pv("out", "Result", PortType::Real, PortDir::Output),
        ],
        NodeKindView::ExprXy { .. } => seq![
            pv("x", "x", PortType::Real, PortDir::Input),
            pv("y", "y", PortType::Real, PortDir::Input),
            pv("out", "Result", PortType::Real, PortDir::Output),
        ],
        NodeKindView::ExprXyz { .. } => seq![
            pv("x", "x", PortType::Real, PortDir::Input),
            pv("y", "y", PortType::Real, PortDir::Input),
            pv("z", "z", PortType::Real, PortDir::Input),
            pv("out", "Result", PortType::Real, PortDir::Output),
        ],
        NodeKindView::Brightness => seq![
            pv("in", "Image", PortType::RawImage, PortDir::Input),
            pv("amount", "Amount", PortType::Real, PortDir::Input),
            pv("out", "Image", PortType::RawImage, PortDir::Output),
        ],
        NodeKindView::Visualizer { .. } => seq![
            pv("audio", "Audio", PortType::RawSound, PortDir::Input),
            pv("frequency", "Freq", PortType::Real, PortDir::Input),
            pv("gain", "Gain", PortType::Real, PortDir::Input),
            pv("out", "Level", PortType::Real, PortDir::Output),
        ],
        NodeKindView::ColorChanger => seq![
            pv("in", "Image", PortType::RawImage, PortDir::Input),
            pv("hue", "Hue", PortType::Real, PortDir::Input),
            pv("sat", "Sat", PortType::Real, PortDir::Input),
            pv("out", "Image", PortType::RawImage, PortDir::Output),
        ],
        NodeKindView::LinearBlur => seq![
            pv("in", "Image", PortType::RawImage, PortDir::Input),
            pv("amount", "Radius", PortType::Real, PortDir::Input),
            pv("out", "Image", PortType::RawImage, PortDir::Output),
        ],
        NodeKindView::Zoom => seq![
            pv("in", "Image", PortType::RawImage, PortDir::Input),
            pv("pos", "Pos", PortType::Position, PortDir::Input),
            pv("zoom", "Zoom", PortType::Real, PortDir::Input),
            pv("out", "Image", PortType::RawImage, PortDir::Output),
        ],
        NodeKindView::Equalizer => seq![
            pv("in", "Sound", PortType::RawSound, PortDir::Input),
            pv("bass", "Bass", PortType::Real, PortDir::Input),
            pv("mid", "Mid", PortType::Real, PortDir::Input),
            pv("treble", "Treble", PortType::Real, PortDir::Input),
            pv("volume", "Volume", PortType::Real, PortDir::Input),
            pv("out", "Sound", PortType::RawSound, PortDir::Output),
        ],
        NodeKindView::Speed => seq![
            pv("in", "Image", PortType::RawImage, PortDir::Input),
            pv("factor", "Factor", PortType::Real, PortDir::Input),
            pv("out", "Image", PortType::RawImage, PortDir::Output),
        ],
        NodeKindView::GeoSize => seq![
            pv("in", "Image", PortType::RawImage, PortDir::Input),
            pv("w", "Width", PortType::Real, PortDir::Input),
            pv("h", "Height", PortType::Real, PortDir::Input),
            pv("out", "Image", PortType::RawImage, PortDir::Output),
        ],
        NodeKindView::GeoPlacement => seq![
            pv("in", "Image", PortType::RawImage, PortDir::Input),
            pv("x", "X", PortType::Real, PortDir::Input),
            pv("y", "Y", PortType::Real, PortDir::Input),
            pv("out", "Image", PortType::RawImage, PortDir::Output),
        ],
        NodeKindView::GeoRotate => seq![
            pv("in", "Image", PortType::RawImage, PortDir::Input),
            pv("angle", "Angle", PortType::Real, PortDir::Input),
            pv("out", "Image", PortType::RawImage, PortDir::Output),
        ],
        NodeKindView::GeoTrapezoid => seq![
            pv("in", "Image", PortType::RawImage, PortDir::Input),
            pv("top", "Top", PortType::Real, PortDir::Input),
            pv("bottom", "Bottom", PortType::Real, PortDir::Input),
            pv("out", "Image", PortType::RawImage, PortDir::Output),
        ],
        NodeKindView::GeoMirror => seq![
            pv("in", "Image", PortType::RawImage, PortDir::Input),
            pv("axis", "Axis", PortType::Real, PortDir::Input),
            pv("out", "Image", PortType::RawImage, PortDir::Output),
        ],
        NodeKindView::GeoAdd => seq![
            pv("a", "Image A", PortType::RawImage, PortDir::Input),
            pv("b", "Image B", PortType::RawImage, PortDir::Input),
            pv("out", "Image", PortType::RawImage, PortDir::Output),
        ],
        NodeKindView::ParamColor { .. } => seq![
            pv("out", "Color", PortType::Color, PortDir::Output),
        ],
        NodeKindView::ParamPosition { .. } => seq![
            pv("out", "Pos", PortType::Position, PortDir::Output),
        ],
    }
}

impl GraphNodeKind {
    pub fn category_label(&self) -> (s: &'static str)
        ensures
            s@ == spec_category(self@),
    {
        match self {
            GraphNodeKind::ObjectImage { .. }
            | GraphNodeKind::ObjectVideo { .. }
            | GraphNodeKind::ObjectAudio { .. }
            | GraphNodeKind::ObjectFromApp { .. }
            | GraphNodeKind::OutputObject
            | GraphNodeKind::ObjectSeptic { .. }
            | GraphNodeKind::ObjectMouse { .. } => "Object",
            GraphNodeKind::VideoPlayer
            | GraphNodeKind::SepticPlayer
            | GraphNodeKind::MouseEncoder { .. } => "Player",
            GraphNodeKind::Value { .. }
            | GraphNodeKind::ExprX { .. }
            | GraphNodeKind::ExprXy { .. }
            | GraphNodeKind::ExprXyz { .. }
            | GraphNodeKind::Frame
            | GraphNodeKind::Time => "Algebra",
            GraphNodeKind::Brightness
            | GraphNodeKind::ColorChanger
            | GraphNodeKind::LinearBlur
            | GraphNodeKind::Zoom
            | GraphNodeKind::Equalizer
            | GraphNodeKind::Speed
            | GraphNodeKind::Visualizer { .. } => "Effect",
            GraphNodeKind::GeoSize
            | GraphNodeKind::GeoPlacement
            | GraphNodeKind::GeoRotate
            | GraphNodeKind::GeoTrapezoid
            | GraphNodeKind::GeoMirror
            | GraphNodeKind::GeoAdd => "Geometry",
            GraphNodeKind::ParamReal { .. }
            | GraphNodeKind::ParamColor { .. }
            | GraphNodeKind::ParamPosition { .. } => "Parameter",
        }
    }

    pub fn default_title(&self) -> (s: &'static str)
        ensures
            s@ == spec_title(self@),
    {
        match self {
            GraphNodeKind::ObjectImage { .. } => "Image",
            GraphNodeKind::ObjectVideo { .. } => "Video",
            GraphNodeKind::ObjectAudio { .. } => "Audio",
            GraphNodeKind::ObjectFromApp { .. } => "App Object",
            GraphNodeKind::OutputObject => "Output Object",
            GraphNodeKind::VideoPlayer => "Video Player",
            GraphNodeKind::ObjectSeptic { .. } => "Septic",
            GraphNodeKind::ObjectMouse { .. } => "Mouse",
            GraphNodeKind::SepticPlayer => "Septic Player",
            GraphNodeKind::MouseEncoder { .. } => "Mouse Player",
            GraphNodeKind::Value { .. } => "Value",
            GraphNodeKind::ExprX { .. } => "Expr X",
            GraphNodeKind::ExprXy { .. } => "Expr XY",
            GraphNodeKind::ExprXyz { .. } => "Expr XYZ",
            GraphNodeKind::Frame => "Frame",
            GraphNodeKind::Time => "Time",
            GraphNodeKind::Brightness => "Brightness",
            GraphNodeKind::ColorChanger => "Color Changer",
            GraphNodeKind::LinearBlur => "Linear Blur",
            GraphNodeKind::Zoom => "Zoom",
            GraphNodeKind::Equalizer => "Equalizer",
            GraphNodeKind::Speed => "Speed",
            GraphNodeKind::Visualizer { .. } => "Visualizer",
            GraphNodeKind::GeoSize => "Size",
            GraphNodeKind::GeoPlacement => "Placement",
            GraphNodeKind::GeoRotate => "Rotate",
            GraphNodeKind::GeoTrapezoid => "Trapezoid",
            GraphNodeKind::GeoMirror => "Mirror",
            GraphNodeKind::GeoAdd => "Add",
            GraphNodeKind::ParamReal { .. } => "Param Real",
            GraphNodeKind::ParamColor { .. } => "Param Color",
            GraphNodeKind::ParamPosition { .. } => "Param Position",
        }
    }

    /// Port table of this kind (ids are unique within a kind).
    pub fn ports(&self) -> (r: Vec<PortDef>)
        ensures
            ports_view(r@) == spec_ports(self@),
    {
        let r = match self {
            GraphNodeKind::ObjectImage { .. }
            | GraphNodeKind::ObjectFromApp { .. } => vec![
                port("out", "Image", PortType::RawImage, PortDir::Output),
            ],
            GraphNodeKind::ObjectVideo { .. } => vec![
                port("out", "Video", PortType::RawVideo, PortDir::Output),
                port("sound", "Sound", PortType::RawSound, PortDir::Output),
            ],
            GraphNodeKind::ObjectAudio { .. } => vec![
                port("out", "Sound", PortType::RawSound, PortDir::Output),
            ],
            GraphNodeKind::VideoPlayer => vec![
                port("video", "Video", PortType::RawVideo, PortDir::Input),
                port("time", "Time", PortType::Real, PortDir::Input),
                port("start", "Start", PortType::Real, PortDir::Input),
                port("duration", "Clip", PortType::Real, PortDir::Input),
                port("audio", "Audio", PortType::RawSound, PortDir::Input),
                port("out", "Image", PortType::RawImage, PortDir::Output),
                port("sound", "Sound", PortType::RawSound, PortDir::Output),
                port("total_duration", "Duration", PortType::Real, PortDir::Output),
                port("width", "Width", PortType::Real, PortDir::Output),
                port("height", "Height", PortType::Real, PortDir::Output),
            ],
            GraphNodeKind::ObjectSeptic { .. } => vec![
                port("out", "Septic", PortType::Septic, PortDir::Output),
            ],
            GraphNodeKind::ObjectMouse { .. } => vec![
                port("out", "Mouse", PortType::Mouse, PortDir::Output),
            ],
            GraphNodeKind::SepticPlayer => vec![
                port("septic", "Septic", PortType::Septic, PortDir::Input),
                port("time", "Time", PortType::Real, PortDir::Input),
                port("video", "Video", PortType::RawVideo, PortDir::Output),
                port("mouse", "Mouse", PortType::Mouse, PortDir::Output),
                port("sound", "Sound", PortType::RawSound, PortDir::Output),
                port("time_out", "Time", PortType::Real, PortDir::Output),
            ],
            GraphNodeKind::MouseEncoder { .. } => vec![
                port("mouse", "Mouse", PortType::Mouse, PortDir::Input),
                port("time", "Time", PortType::Real, PortDir::Input),
                port("threshold", "Threshold", PortType::Real, PortDir::Input),
                port("gain", "Gain", PortType::Real, PortDir::Input),
                port("pos", "Pos", PortType::Position, PortDir::Output),
                port("x", "X", PortType::Real, PortDir::Output),
                port("y", "Y", PortType::Real, PortDir::Output),
                port("shakiness", "Shake", PortType::Real, PortDir::Output),
                port("event", "Event", PortType::Real, PortDir::Output),
            ],
            GraphNodeKind::OutputObject => vec![
                port("image", "Image", PortType::RawImage, PortDir::Input),
                port("sound", "Sound", PortType::RawSound, PortDir::Input),
                port("run_till", "Run Till", PortType::Real, PortDir::Input),
            ],
            GraphNodeKind::Value { .. }
            | GraphNodeKind::Frame
            | GraphNodeKind::Time
            | GraphNodeKind::ParamReal { .. } => vec![
                port("out", "Value", PortType::Real, PortDir::Output),
            ],
            GraphNodeKind::ExprX { .. } => vec![
                port("x", "x", PortType::Real, PortDir::Input),
                port("out", "Result", PortType::Real, PortDir::Output),
            ],
            GraphNodeKind::ExprXy { .. } => vec![
                port("x", "x", PortType::Real, PortDir::Input),
                port("y", "y", PortType::Real, PortDir::Input),
                port("out", "Result", PortType::Real, PortDir::Output),
            ],
            GraphNodeKind::ExprXyz { .. } => vec![
                port("x", "x", PortType::Real, PortDir::Input),
                port("y", "y", PortType::Real, PortDir::Input),
                port("z", "z", PortType::Real, PortDir::Input),
                port("out", "Result", PortType::Real, PortDir::Output),
            ],
            GraphNodeKind::Brightness => vec![
                port("in", "Image", PortType::RawImage, PortDir::Input),
                port("amount", "Amount", PortType::Real, PortDir::Input),
                port("out", "Image", PortType::RawImage, PortDir::Output),
            ],
            GraphNodeKind::Visualizer { .. } => vec![
                port("audio", "Audio", PortType::RawSound, PortDir::Input),
                port("frequency", "Freq", PortType::Real, PortDir::Input),
                port("gain", "Gain", PortType::Real, PortDir::Input),
                port("out", "Level", PortType::Real, PortDir::Output),
            ],
            GraphNodeKind::ColorChanger => vec![
                port("in", "Image", PortType::RawImage, PortDir::Input),
                port("hue", "Hue", PortType::Real, PortDir::Input),
                port("sat", "Sat", PortType::Real, PortDir::Input),
                port("out", "Image", PortType::RawImage, PortDir::Output),
            ],
            GraphNodeKind::LinearBlur => vec![
                port("in", "Image", PortType::RawImage, PortDir::Input),
                port("amount", "Radius", PortType::Real, PortDir::Input),
                port("out", "Image", PortType::RawImage, PortDir::Output),
            ],
            GraphNodeKind::Zoom => vec![
                port("in", "Image", PortType::RawImage, PortDir::Input),
                port("pos", "Pos", PortType::Position, PortDir::Input),
                port("zoom", "Zoom", PortType::Real, PortDir::Input),
                port("out", "Image", PortType::RawImage, PortDir::Output),
            ],
            GraphNodeKind::Equalizer => vec![
                port("in", "Sound", PortType::RawSound, PortDir::Input),
                port("bass", "Bass", PortType::Real, PortDir::Input),
                port("mid", "Mid", PortType::Real, PortDir::Input),
                port("treble", "Treble", PortType::Real, PortDir::Input),
                port("volume", "Volume", PortType::Real, PortDir::Input),
                port("out", "Sound", PortType::RawSound, PortDir::Output),
            ],
            GraphNodeKind::Speed => vec![
                port("in", "Image", PortType::RawImage, PortDir::Input),
                port("factor", "Factor", PortType::Real, PortDir::Input),
                port("out", "Image", PortType::RawImage, PortDir::Output),
            ],
            GraphNodeKind::GeoSize => vec![
                port("in", "Image", PortType::RawImage, PortDir::Input),
                port("w", "Width", PortType::Real, PortDir::Input),
                port("h", "Height", PortType::Real, PortDir::Input),
                port("out", "Image", PortType::RawImage, PortDir::Output),
            ],
            GraphNodeKind::GeoPlacement => vec![
                port("in", "Image", PortType::RawImage, PortDir::Input),
                port("x", "X", PortType::Real, PortDir::Input),
                port("y", "Y", PortType::Real, PortDir::Input),
                port("out", "Image", PortType::RawImage, PortDir::Output),
            ],
            GraphNodeKind::GeoRotate => vec![
                port("in", "Image", PortType::RawImage, PortDir::Input),
                port("angle", "Angle", PortType::Real, PortDir::Input),
                port("out", "Image", PortType::RawImage, PortDir::Output),
            ],
            GraphNodeKind::GeoTrapezoid => vec![
                port("in", "Image", PortType::RawImage, PortDir::Input),
                port("top", "Top", PortType::Real, PortDir::Input),
                port("bottom", "Bottom", PortType::Real, PortDir::Input),
                port("out", "Image", PortType::RawImage, PortDir::Output),
            ],
            GraphNodeKind::GeoMirror => vec![
                port("in", "Image", PortType::RawImage, PortDir::Input),
                port("axis", "Axis", PortType::Real, PortDir::Input),
                port("out", "Image", PortType::RawImage, PortDir::Output),
            ],
            GraphNodeKind::GeoAdd => vec![
                port("a", "Image A", PortType::RawImage, PortDir::Input),
                port("b", "Image B", PortType::RawImage, PortDir::Input),
                port("out", "Image", PortType::RawImage, PortDir::Output),
            ],
            GraphNodeKind::ParamColor { .. } => vec![
                port("out", "Color", PortType::Color, PortDir::Output),
            ],
            GraphNodeKind::ParamPosition { .. } => vec![
                port("out", "Pos", PortType::Position, PortDir::Output),
            ],
        };
        assert(ports_view(r@) =~= spec_ports(self@));
        r
    }
}
/// Bit pattern of `1.0_f64`.
pub const BITS_ONE: u64 = 0x3ff0_0000_0000_0000;
/// Bit pattern of `0.12_f64`, the time window of a Mouse Encoder added from the menu.
pub const BITS_CATALOG_THRESHOLD: u64 = 0x3fbe_b851_eb85_1eb8;
/// Bit pattern of `8.0_f64`, the gain of a Mouse Encoder added from the menu.
pub const BITS_CATALOG_GAIN: u64 = 0x4020_0000_0000_0000;

/// Some input port of `k` accepts a wire of type `ty`.
pub open spec fn spec_accepts(k: NodeKindView, ty: PortType) -> bool {
    exists|j: int|
        0 <= j < spec_ports(k).len() && (#[trigger] spec_ports(k)[j]).3 == PortDir::Input
            && spec_can_connect(ty, spec_ports(k)[j].2)
}

/// Some output port of `k` has type `ty`.
pub open spec fn spec_produces(k: NodeKindView, ty: PortType) -> bool {
    exists|j: int|
        0 <= j < spec_ports(k).len() && (#[trigger] spec_ports(k)[j]).3 == PortDir::Output
            && spec_ports(k)[j].2 == ty
}

/// Whether some input port of `k` accepts `ty`.
pub fn accepts_input(k: &GraphNodeKind, ty: PortType) -> (r: bool)
    ensures
        r == spec_accepts(k@, ty),
{
    let ports = k.ports();
    let mut i: usize = 0;
    while i < ports.len()
        invariant
            ports_view(ports@) == spec_ports(k@),
            i <= ports@.len(),
            forall|j: int|
                0 <= j < i ==> !((#[trigger] spec_ports(k@)[j]).3 == PortDir::Input
                    && spec_can_connect(ty, spec_ports(k@)[j].2)),
        decreases ports@.len() - i,
    {
        assert(ports_view(ports@)[i as int] == ports@[i as int]@);
        if ports[i].dir == PortDir::Input && PortType::can_connect(ty, ports[i].ty) {
            return true;
        }
        i = i + 1;
    }
    false
}

/// Whether some output port of `k` has type `ty`.
pub fn produces_output(k: &GraphNodeKind, ty: PortType) -> (r: bool)
    ensures
        r == spec_produces(k@, ty),
{
    let ports = k.ports();
    let mut i: usize = 0;
    while i < ports.len()
        invariant
            ports_view(ports@) == spec_ports(k@),
            i <= ports@.len(),
            forall|j: int|
                0 <= j < i ==> !((#[trigger] spec_ports(k@)[j]).3 == PortDir::Output
                    && spec_ports(k@)[j].2 == ty),
        decreases ports@.len() - i,
    {
        assert(ports_view(ports@)[i as int] == ports@[i as int]@);
        if ports[i].dir == PortDir::Output && ports[i].ty == ty {
            return true;
        }
        i = i + 1;
    }
    false
}

/// The first port in `s` whose id is `id`.
pub open spec fn find_port(s: Seq<PortView>, id: Seq<char>) -> Option<PortView>
    decreases s.len(),
{
    if s.len() == 0 {
        None
    } else if s[0].0 == id {
        Some(s[0])
    } else {
        find_port(s.drop_first(), id)
    }
}

/// Looks up the port of `k` named `id`.
pub fn kind_port(k: &GraphNodeKind, id: &str) -> (r: Option<(PortType, PortDir)>)
    ensures
        r == (match find_port(spec_ports(k@), id@) {
            Some(p) => Some((p.2, p.3)),
            None => None,
        }),
{
    let ports = k.ports();
    let ghost full = spec_ports(k@);
    let mut i: usize = 0;
    assert(full.subrange(0, full.len() as int) =~= full);
    while i < ports.len()
        invariant
            ports_view(ports@) == full,
            full == spec_ports(k@),
            i <= ports@.len(),
            find_port(full, id@) == find_port(full.subrange(i as int, full.len() as int), id@),
        decreases ports@.len() - i,
    {
        let ghost rest = full.subrange(i as int, full.len() as int);
        assert(rest[0] == ports@[i as int]@);
        assert(rest.drop_first() =~= full.subrange(i + 1, full.len() as int));
        assert(ports_view(ports@)[i as int] == ports@[i as int]@);
        if crate::text::str_eq(ports[i].id.as_str(), id) {
            assert(find_port(rest, id@) == Some(rest[0]));
            return Some((ports[i].ty, ports[i].dir));
        }
        i = i + 1;
    }
    assert(full.subrange(i as int, full.len() as int) =~= Seq::<PortView>::empty());
    None
}

/// Whether a kind has an image/video input and/or output port (for previews).
pub open spec fn spec_image_port_dirs(k: NodeKindView) -> (bool, bool) {
    let vis = |t: PortType| t == PortType::RawImage || t == PortType::RawVideo;
    (
        exists|j: int|
            0 <= j < spec_ports(k).len() && (#[trigger] spec_ports(k)[j]).3 == PortDir::Input
                && vis(spec_ports(k)[j].2),
        exists|j: int|
            0 <= j < spec_ports(k).len() && (#[trigger] spec_ports(k)[j]).3 == PortDir::Output
                && vis(spec_ports(k)[j].2),
    )
}

pub fn image_port_dirs_of(k: &GraphNodeKind) -> (r: (bool, bool))
    ensures
        r == spec_image_port_dirs(k@),
{
    let ports = k.ports();
    let mut has_in = false;
    let mut has_out = false;
    let mut i: usize = 0;
    while i < ports.len()
        invariant
            ports_view(ports@) == spec_ports(k@),
            i <= ports@.len(),
            has_in == exists|j: int|
                0 <= j < i && (#[trigger] spec_ports(k@)[j]).3 == PortDir::Input
                    && (spec_ports(k@)[j].2 == PortType::RawImage || spec_ports(k@)[j].2
                    == PortType::RawVideo),
            has_out == exists|j: int|
                0 <= j < i && (#[trigger] spec_ports(k@)[j]).3 == PortDir::Output
                    && (spec_ports(k@)[j].2 == PortType::RawImage || spec_ports(k@)[j].2
                    == PortType::RawVideo),
        decreases ports@.len() - i,
    {
        assert(ports_view(ports@)[i as int] == ports@[i as int]@);
        let vis = ports[i].ty == PortType::RawImage || ports[i].ty == PortType::RawVideo;
        if ports[i].dir == PortDir::Input && vis {
            has_in = true;
        }
        if ports[i].dir == PortDir::Output && vis {
            has_out = true;
        }
        i = i + 1;
    }
    (has_in, has_out)
}

/// Kinds offered by the add-node menu when the user drops a wire that needs a node to accept an input, in menu order.
pub open spec fn accepting_candidates() -> Seq<NodeKindView> {
    seq![
        NodeKindView::Value { value_bits: 0 },
        NodeKindView::ExprX { expr: "x"@ },
        NodeKindView::ExprXy { expr: "x+y"@ },
        NodeKindView::ExprXyz { expr: "x+y+z"@ },
        NodeKindView::Frame,
        NodeKindView::Time,
        NodeKindView::Brightness,
        NodeKindView::ColorChanger,
        NodeKindView::LinearBlur,
        NodeKindView::Zoom,
        NodeKindView::Equalizer,
        NodeKindView::Speed,
        NodeKindView::Visualizer { gain_bits: BITS_ONE },
        NodeKindView::VideoPlayer,
        NodeKindView::SepticPlayer,
        NodeKindView::MouseEncoder { time_threshold_bits: BITS_CATALOG_THRESHOLD, gain_bits: BITS_CATALOG_GAIN },
        NodeKindView::GeoSize,
        NodeKindView::GeoPlacement,
        NodeKindView::GeoRotate,
        NodeKindView::GeoTrapezoid,
        NodeKindView::GeoMirror,
        NodeKindView::GeoAdd,
        NodeKindView::OutputObject,
    ]
}

pub fn accepting_candidate(i: usize) -> (k: GraphNodeKind)
    requires
        i < 23,
    ensures
        k@ == accepting_candidates()[i as int],
{
    match i {
        0 => GraphNodeKind::Value { value_bits: 0 },
        1 => GraphNodeKind::ExprX { expr: owned("x") },
        2 => GraphNodeKind::ExprXy { expr: owned("x+y") },
        3 => GraphNodeKind::ExprXyz { expr: owned("x+y+z") },
        4 => GraphNodeKind::Frame,
        5 => GraphNodeKind::Time,
        6 => GraphNodeKind::Brightness,
        7 => GraphNodeKind::ColorChanger,
        8 => GraphNodeKind::LinearBlur,
        9 => GraphNodeKind::Zoom,
        10 => GraphNodeKind::Equalizer,
        11 => GraphNodeKind::Speed,
        12 => GraphNodeKind::Visualizer { gain_bits: BITS_ONE },
        13 => GraphNodeKind::VideoPlayer,
        14 => GraphNodeKind::SepticPlayer,
        15 => GraphNodeKind::MouseEncoder { time_threshold_bits: BITS_CATALOG_THRESHOLD, gain_bits: BITS_CATALOG_GAIN },
        16 => GraphNodeKind::GeoSize,
        17 => GraphNodeKind::GeoPlacement,
        18 => GraphNodeKind::GeoRotate,
        19 => GraphNodeKind::GeoTrapezoid,
        20 => GraphNodeKind::GeoMirror,
        21 => GraphNodeKind::GeoAdd,
        _ => GraphNodeKind::OutputObject,
    }
}

/// Kinds offered by the add-node menu when the user drops a wire that needs a node to produce an output, in menu order.
pub open spec fn producing_candidates() -> Seq<NodeKindView> {
    seq![
        NodeKindView::Value { value_bits: 0 },
        NodeKindView::ExprX { expr: "x"@ },
        NodeKindView::ExprXy { expr: "x+y"@ },
        NodeKindView::ExprXyz { expr: "x+y+z"@ },
        NodeKindView::Frame,
        NodeKindView::Time,
        NodeKindView::ObjectImage { path: ""@ },
        NodeKindView::ObjectVideo { path: ""@ },
        NodeKindView::ObjectAudio { path: ""@ },
        NodeKindView::ObjectFromApp { node_ids: Seq::empty() },
        NodeKindView::ObjectSeptic { path: ""@ },
        NodeKindView::ObjectMouse { path: ""@ },
        NodeKindView::VideoPlayer,
        NodeKindView::SepticPlayer,
        NodeKindView::MouseEncoder { time_threshold_bits: BITS_CATALOG_THRESHOLD, gain_bits: BITS_CATALOG_GAIN },
        NodeKindView::Brightness,
        NodeKindView::ColorChanger,
        NodeKindView::LinearBlur,
        NodeKindView::Zoom,
        NodeKindView::Equalizer,
        NodeKindView::Speed,
        NodeKindView::Visualizer { gain_bits: BITS_ONE },
        NodeKindView::GeoSize,
        NodeKindView::GeoPlacement,
        NodeKindView::GeoRotate,
        NodeKindView::GeoTrapezoid,
        NodeKindView::GeoMirror,
        NodeKindView::GeoAdd,
    ]
}

pub fn producing_candidate(i: usize) -> (k: GraphNodeKind)
    requires
        i < 28,
    ensures
        k@ == producing_candidates()[i as int],
{
    match i {
        0 => GraphNodeKind::Value { value_bits: 0 },
        1 => GraphNodeKind::ExprX { expr: owned("x") },
        2 => GraphNodeKind::ExprXy { expr: owned("x+y") },
        3 => GraphNodeKind::ExprXyz { expr: owned("x+y+z") },
        4 => GraphNodeKind::Frame,
        5 => GraphNodeKind::Time,
        6 => GraphNodeKind::ObjectImage { path: owned("") },
        7 => GraphNodeKind::ObjectVideo { path: owned("") },
        8 => GraphNodeKind::ObjectAudio { path: owned("") },
        9 => GraphNodeKind::ObjectFromApp { node_ids: Vec::new() },
        10 => GraphNodeKind::ObjectSeptic { path: owned("") },
        11 => GraphNodeKind::ObjectMouse { path: owned("") },
        12 => GraphNodeKind::VideoPlayer,
        13 => GraphNodeKind::SepticPlayer,
        14 => GraphNodeKind::MouseEncoder { time_threshold_bits: BITS_CATALOG_THRESHOLD, gain_bits: BITS_CATALOG_GAIN },
        15 => GraphNodeKind::Brightness,
        16 => GraphNodeKind::ColorChanger,
        17 => GraphNodeKind::LinearBlur,
        18 => GraphNodeKind::Zoom,
        19 => GraphNodeKind::Equalizer,
        20 => GraphNodeKind::Speed,
        21 => GraphNodeKind::Visualizer { gain_bits: BITS_ONE },
        22 => GraphNodeKind::GeoSize,
        23 => GraphNodeKind::GeoPlacement,
        24 => GraphNodeKind::GeoRotate,
        25 => GraphNodeKind::GeoTrapezoid,
        26 => GraphNodeKind::GeoMirror,
        _ => GraphNodeKind::GeoAdd,
    }
}

/// No port among the first `n` of `s` has id `x`.
pub open spec fn id_absent(s: Seq<PortView>, x: Seq<char>, n: int) -> bool
    decreases n,
{
    if n <= 0 {
        true
    } else {
        s[n - 1].0 != x && id_absent(s, x, n - 1)
    }
}

/// No two of the first `n` ports of `s` share an id.
pub open spec fn ids_unique(s: Seq<PortView>, n: int) -> bool
    decreases n,
{
    if n <= 0 {
        true
    } else {
        id_absent(s, s[n - 1].0, n - 1) && ids_unique(s, n - 1)
    }
}

/// Number of output ports among the first `n` of `s`.
pub open spec fn count_outputs(s: Seq<PortView>, n: int) -> nat
    decreases n,
{
    if n <= 0 {
        0
    } else {
        count_outputs(s, n - 1) + if s[n - 1].3 == PortDir::Output {
            1nat
        } else {
            0nat
        }
    }
}

proof fn lemma_id_absent(s: Seq<PortView>, x: Seq<char>, n: int)
    requires
        id_absent(s, x, n),
    ensures
        forall|i: int| 0 <= i < n ==> (#[trigger] s[i]).0 != x,
    decreases n,
{
    if n > 0 {
        lemma_id_absent(s, x, n - 1);
    }
}

proof fn lemma_ids_unique(s: Seq<PortView>, n: int)
    requires
        ids_unique(s, n),
    ensures
        forall|i: int, j: int| 0 <= i < j < n ==> (#[trigger] s[i]).0 != (#[trigger] s[j]).0,
    decreases n,
{
    if n > 0 {
        lemma_ids_unique(s, n - 1);
        lemma_id_absent(s, s[n - 1].0, n - 1);
    }
}

proof fn lemma_count_outputs(s: Seq<PortView>, n: int)
    ensures
        (count_outputs(s, n) == 0) <==> (forall|i: int| 0 <= i < n ==> (#[trigger] s[i]).3 == PortDir::Input),
    decreases n,
{
    if n > 0 {
        lemma_count_outputs(s, n - 1);
        if count_outputs(s, n - 1) > 0 {
            let i = choose|i: int| 0 <= i < n - 1 && s[i].3 != PortDir::Input;
            assert(s[i].3 != PortDir::Input);
        }
    }
}

/// Law: every port table is non-empty, names each port id once (so a
/// lookup by id is unambiguous), and lists only inputs exactly for the
/// Output Object; every other kind has an output.
pub proof fn lemma_port_tables(k: NodeKindView)
    ensures
        spec_ports(k).len() >= 1,
        forall|i: int, j: int| 0 <= i < j < spec_ports(k).len() ==> (#[trigger] spec_ports(k)[i]).0 != (#[trigger] spec_ports(k)[j]).0,
        (k is OutputObject) <==> (forall|i: int| 0 <= i < spec_ports(k).len() ==> (#[trigger] spec_ports(k)[i]).3 == PortDir::Input),
{
    match k {
        NodeKindView::ObjectImage { .. } => {
            let ps = spec_ports(k);
            assert(ps.len() == 1 && ids_unique(ps, 1) && count_outputs(ps, 1) >= 1) by {
                reveal_strlit("out");
                assert(ps[0].0 == "out"@);
                reveal_with_fuel(id_absent, 2);
                reveal_with_fuel(ids_unique, 2);
                reveal_with_fuel(count_outputs, 2);
            }
        },
        NodeKindView::ObjectVideo { .. } => {
            let ps = spec_ports(k);
            assert(ps.len() == 2 && ids_unique(ps, 2) && count_outputs(ps, 2) >= 1) by {
                reveal_strlit("out");
                reveal_strlit("sound");
                assert(ps[0].0 == "out"@ && ps[1].0 == "sound"@);
                assert(ps[1].0.len() != ps[0].0.len());
                assert(ps[1].0 != ps[0].0);
                reveal_with_fuel(id_absent, 3);
                reveal_with_fuel(ids_unique, 3);
                reveal_with_fuel(count_outputs, 3);
                assert(id_absent(ps, ps[1].0, 1));
            }
        },
        NodeKindView::ObjectAudio { .. } => {
            let ps = spec_ports(k);
            assert(ps.len() == 1 && ids_unique(ps, 1) && count_outputs(ps, 1) >= 1) by {
                reveal_strlit("out");
                assert(ps[0].0 == "out"@);
                reveal_with_fuel(id_absent, 2);
                reveal_with_fuel(ids_unique, 2);
                reveal_with_fuel(count_outputs, 2);
            }
        },
        NodeKindView::ObjectFromApp { .. } => {
            let ps = spec_ports(k);
            assert(ps.len() == 1 && ids_unique(ps, 1) && count_outputs(ps, 1) >= 1) by {
                reveal_strlit("out");
                assert(ps[0].0 == "out"@);
                reveal_with_fuel(id_absent, 2);
                reveal_with_fuel(ids_unique, 2);
                reveal_with_fuel(count_outputs, 2);
            }
        },
        NodeKindView::OutputObject => {
            let ps = spec_ports(k);
            assert(ps.len() == 3 && ids_unique(ps, 3) && count_outputs(ps, 3) == 0) by {
                reveal_strlit("image");
                reveal_strlit("run_till");
                reveal_strlit("sound");
                assert(ps[0].0 == "image"@ && ps[1].0 == "sound"@ && ps[2].0 == "run_till"@);
                assert(ps[1].0[0] != ps[0].0[0]);
                assert(ps[1].0 != ps[0].0);
                assert(ps[2].0.len() != ps[0].0.len());
                assert(ps[2].0 != ps[0].0);
                assert(ps[2].0.len() != ps[1].0.len());
                assert(ps[2].0 != ps[1].0);
                reveal_with_fuel(id_absent, 4);
                reveal_with_fuel(ids_unique, 4);
                reveal_with_fuel(count_outputs, 4);
                assert(id_absent(ps, ps[1].0, 1));
                assert(id_absent(ps, ps[2].0, 2));
            }
        },
        NodeKindView::VideoPlayer => {
            let ps = spec_ports(k);
            assert(ps.len() == 10 && ids_unique(ps, 10) && count_outputs(ps, 10) >= 1) by {
                reveal_strlit("audio");
                reveal_strlit("duration");
                reveal_strlit("height");
                reveal_strlit("out");
                reveal_strlit("sound");
                reveal_strlit("start");
                reveal_strlit("time");
                reveal_strlit("total_duration");
                reveal_strlit("video");
                reveal_strlit("width");
                assert(ps[0].0 == "video"@ && ps[1].0 == "time"@ && ps[2].0 == "start"@ && ps[3].0 == "duration"@ && ps[4].0 == "audio"@ && ps[5].0 == "out"@ && ps[6].0 == "sound"@ && ps[7].0 == "total_duration"@ && ps[8].0 == "width"@ && ps[9].0 == "height"@);
                assert(ps[1].0.len() != ps[0].0.len());
                assert(ps[1].0 != ps[0].0);
                assert(ps[2].0[0] != ps[0].0[0]);
                assert(ps[2].0 != ps[0].0);
                assert(ps[2].0.len() != ps[1].0.len());
                assert(ps[2].0 != ps[1].0);
                assert(ps[3].0.len() != ps[0].0.len());
                assert(ps[3].0 != ps[0].0);
                assert(ps[3].0.len() != ps[1].0.len());
                assert(ps[3].0 != ps[1].0);
                assert(ps[3].0.len() != ps[2].0.len());
                assert(ps[3].0 != ps[2].0);
                assert(ps[4].0[0] != ps[0].0[0]);
                assert(ps[4].0 != ps[0].0);
                assert(ps[4].0.len() != ps[1].0.len());
                assert(ps[4].0 != ps[1].0);
                assert(ps[4].0[0] != ps[2].0[0]);
                assert(ps[4].0 != ps[2].0);
                assert(ps[4].0.len() != ps[3].0.len());
                assert(ps[4].0 != ps[3].0);
                assert(ps[5].0.len() != ps[0].0.len());
                assert(ps[5].0 != ps[0].0);
                assert(ps[5].0.len() != ps[1].0.len());
                assert(ps[5].0 != ps[1].0);
                assert(ps[5].0.len() != ps[2].0.len());
                assert(ps[5].0 != ps[2].0);
                assert(ps[5].0.len() != ps[3].0.len());
                assert(ps[5].0 != ps[3].0);
                assert(ps[5].0.len() != ps[4].0.len());
                assert(ps[5].0 != ps[4].0);
                assert(ps[6].0[0] != ps[0].0[0]);
                assert(ps[6].0 != ps[0].0);
                assert(ps[6].0.len() != ps[1].0.len());
                assert(ps[6].0 != ps[1].0);
                assert(ps[6].0[1] != ps[2].0[1]);
                assert(ps[6].0 != ps[2].0);
                assert(ps[6].0.len() != ps[3].0.len());
                assert(ps[6].0 != ps[3].0);
                assert(ps[6].0[0] != ps[4].0[0]);
                assert(ps[6].0 != ps[4].0);
                assert(ps[6].0.len() != ps[5].0.len());
                assert(ps[6].0 != ps[5].0);
                assert(ps[7].0.len() != ps[0].0.len());
                assert(ps[7].0 != ps[0].0);
                assert(ps[7].0.len() != ps[1].0.len());
                assert(ps[7].0 != ps[1].0);
                assert(ps[7].0.len() != ps[2].0.len());
                assert(ps[7].0 != ps[2].0);
                assert(ps[7].0.len() != ps[3].0.len());
                assert(ps[7].0 != ps[3].0);
                assert(ps[7].0.len() != ps[4].0.len());
                assert(ps[7].0 != ps[4].0);
                assert(ps[7].0.len() != ps[5].0.len());
                assert(ps[7].0 != ps[5].0);
                assert(ps[7].0.len() != ps[6].0.len());
                assert(ps[7].0 != ps[6].0);
                assert(ps[8].0[0] != ps[0].0[0]);
                assert(ps[8].0 != ps[0].0);
                assert(ps[8].0.len() != ps[1].0.len());
                assert(ps[8].0 != ps[1].0);
                assert(ps[8].0[0] != ps[2].0[0]);
                assert(ps[8].0 != ps[2].0);
                assert(ps[8].0.len() != ps[3].0.len());
                assert(ps[8].0 != ps[3].0);
                assert(ps[8].0[0] != ps[4].0[0]);
                assert(ps[8].0 != ps[4].0);
                assert(ps[8].0.len() != ps[5].0.len());
                assert(ps[8].0 != ps[5].0);
                assert(ps[8].0[0] != ps[6].0[0]);
                assert(ps[8].0 != ps[6].0);
                assert(ps[8].0.len() != ps[7].0.len());
                assert(ps[8].0 != ps[7].0);
                assert(ps[9].0.len() != ps[0].0.len());
                assert(ps[9].0 != ps[0].0);
                assert(ps[9].0.len() != ps[1].0.len());
                assert(ps[9].0 != ps[1].0);
                assert(ps[9].0.len() != ps[2].0.len());
                assert(ps[9].0 != ps[2].0);
                assert(ps[9].0.len() != ps[3].0.len());
                assert(ps[9].0 != ps[3].0);
                assert(ps[9].0.len() != ps[4].0.len());
                assert(ps[9].0 != ps[4].0);
                assert(ps[9].0.len() != ps[5].0.len());
                assert(ps[9].0 != ps[5].0);
                assert(ps[9].0.len() != ps[6].0.len());
                assert(ps[9].0 != ps[6].0);
                assert(ps[9].0.len() != ps[7].0.len());
                assert(ps[9].0 != ps[7].0);
                assert(ps[9].0.len() != ps[8].0.len());
                assert(ps[9].0 != ps[8].0);
                reveal_with_fuel(id_absent, 11);
                reveal_with_fuel(ids_unique, 11);
                reveal_with_fuel(count_outputs, 11);
                assert(id_absent(ps, ps[1].0, 1));
                assert(id_absent(ps, ps[2].0, 2));
                assert(id_absent(ps, ps[3].0, 3));
                assert(id_absent(ps, ps[4].0, 4));
                assert(id_absent(ps, ps[5].0, 5));
                assert(id_absent(ps, ps[6].0, 6));
                assert(id_absent(ps, ps[7].0, 7));
                assert(id_absent(ps, ps[8].0, 8));
                assert(id_absent(ps, ps[9].0, 9));
            }
        },
        NodeKindView::ObjectSeptic { .. } => {
            let ps = spec_ports(k);
            assert(ps.len() == 1 && ids_unique(ps, 1) && count_outputs(ps, 1) >= 1) by {
                reveal_strlit("out");
                assert(ps[0].0 == "out"@);
                reveal_with_fuel(id_absent, 2);
                reveal_with_fuel(ids_unique, 2);
                reveal_with_fuel(count_outputs, 2);
            }
        },
        NodeKindView::ObjectMouse { .. } => {
            let ps = spec_ports(k);
            assert(ps.len() == 1 && ids_unique(ps, 1) && count_outputs(ps, 1) >= 1) by {
                reveal_strlit("out");
                assert(ps[0].0 == "out"@);
                reveal_with_fuel(id_absent, 2);
                reveal_with_fuel(ids_unique, 2);
                reveal_with_fuel(count_outputs, 2);
            }
        },
        NodeKindView::SepticPlayer => {
            let ps = spec_ports(k);
            assert(ps.len() == 6 && ids_unique(ps, 6) && count_outputs(ps, 6) >= 1) by {
                reveal_strlit("mouse");
                reveal_strlit("septic");
                reveal_strlit("sound");
                reveal_strlit("time");
                reveal_strlit("time_out");
                reveal_strlit("video");
                assert(ps[0].0 == "septic"@ && ps[1].0 == "time"@ && ps[2].0 == "video"@ && ps[3].0 == "mouse"@ && ps[4].0 == "sound"@ && ps[5].0 == "time_out"@);
                assert(ps[1].0.len() != ps[0].0.len());
                assert(ps[1].0 != ps[0].0);
                assert(ps[2].0.len() != ps[0].0.len());
                assert(ps[2].0 != ps[0].0);
                assert(ps[2].0.len() != ps[1].0.len());
                assert(ps[2].0 != ps[1].0);
                assert(ps[3].0.len() != ps[0].0.len());
                assert(ps[3].0 != ps[0].0);
                assert(ps[3].0.len() != ps[1].0.len());
                assert(ps[3].0 != ps[1].0);
                assert(ps[3].0[0] != ps[2].0[0]);
                assert(ps[3].0 != ps[2].0);
                assert(ps[4].0.len() != ps[0].0.len());
                assert(ps[4].0 != ps[0].0);
                assert(ps[4].0.len() != ps[1].0.len());
                assert(ps[4].0 != ps[1].0);
                assert(ps[4].0[0] != ps[2].0[0]);
                assert(ps[4].0 != ps[2].0);
                assert(ps[4].0[0] != ps[3].0[0]);
                assert(ps[4].0 != ps[3].0);
                assert(ps[5].0.len() != ps[0].0.len());
                assert(ps[5].0 != ps[0].0);
                assert(ps[5].0.len() != ps[1].0.len());
                assert(ps[5].0 != ps[1].0);
                assert(ps[5].0.len() != ps[2].0.len());
                assert(ps[5].0 != ps[2].0);
                assert(ps[5].0.len() != ps[3].0.len());
                assert(ps[5].0 != ps[3].0);
                assert(ps[5].0.len() != ps[4].0.len());
                assert(ps[5].0 != ps[4].0);
                reveal_with_fuel(id_absent, 7);
                reveal_with_fuel(ids_unique, 7);
                reveal_with_fuel(count_outputs, 7);
                assert(id_absent(ps, ps[1].0, 1));
                assert(id_absent(ps, ps[2].0, 2));
                assert(id_absent(ps, ps[3].0, 3));
                assert(id_absent(ps, ps[4].0, 4));
                assert(id_absent(ps, ps[5].0, 5));
            }
        },
        NodeKindView::MouseEncoder { .. } => {
            let ps = spec_ports(k);
            assert(ps.len() == 9 && ids_unique(ps, 9) && count_outputs(ps, 9) >= 1) by {
                reveal_strlit("event");
                reveal_strlit("gain");
                reveal_strlit("mouse");
                reveal_strlit("pos");
                reveal_strlit("shakiness");
                reveal_strlit("threshold");
                reveal_strlit("time");
                reveal_strlit("x");
                reveal_strlit("y");
                assert(ps[0].0 == "mouse"@ && ps[1].0 == "time"@ && ps[2].0 == "threshold"@ && ps[3].0 == "gain"@ && ps[4].0 == "pos"@ && ps[5].0 == "x"@ && ps[6].0 == "y"@ && ps[7].0 == "shakiness"@ && ps[8].0 == "event"@);
                assert(ps[1].0.len() != ps[0].0.len());
                assert(ps[1].0 != ps[0].0);
                assert(ps[2].0.len() != ps[0].0.len());
                assert(ps[2].0 != ps[0].0);
                assert(ps[2].0.len() != ps[1].0.len());
                assert(ps[2].0 != ps[1].0);
                assert(ps[3].0.len() != ps[0].0.len());
                assert(ps[3].0 != ps[0].0);
                assert(ps[3].0[0] != ps[1].0[0]);
                assert(ps[3].0 != ps[1].0);
                assert(ps[3].0.len() != ps[2].0.len());
                assert(ps[3].0 != ps[2].0);
                assert(ps[4].0.len() != ps[0].0.len());
                assert(ps[4].0 != ps[0].0);
                assert(ps[4].0.len() != ps[1].0.len());
                assert(ps[4].0 != ps[1].0);
                assert(ps[4].0.len() != ps[2].0.len());
                assert(ps[4].0 != ps[2].0);
                assert(ps[4].0.len() != ps[3].0.len());
                assert(ps[4].0 != ps[3].0);
                assert(ps[5].0.len() != ps[0].0.len());
                assert(ps[5].0 != ps[0].0);
                assert(ps[5].0.len() != ps[1].0.len());
                assert(ps[5].0 != ps[1].0);
                assert(ps[5].0.len() != ps[2].0.len());
                assert(ps[5].0 != ps[2].0);
                assert(ps[5].0.len() != ps[3].0.len());
                assert(ps[5].0 != ps[3].0);
                assert(ps[5].0.len() != ps[4].0.len());
                assert(ps[5].0 != ps[4].0);
                assert(ps[6].0.len() != ps[0].0.len());
                assert(ps[6].0 != ps[0].0);
                assert(ps[6].0.len() != ps[1].0.len());
                assert(ps[6].0 != ps[1].0);
                assert(ps[6].0.len() != ps[2].0.len());
                assert(ps[6].0 != ps[2].0);
                assert(ps[6].0.len() != ps[3].0.len());
                assert(ps[6].0 != ps[3].0);
                assert(ps[6].0.len() != ps[4].0.len());
                assert(ps[6].0 != ps[4].0);
                assert(ps[6].0[0] != ps[5].0[0]);
                assert(ps[6].0 != ps[5].0);
                assert(ps[7].0.len() != ps[0].0.len());
                assert(ps[7].0 != ps[0].0);
                assert(ps[7].0.len() != ps[1].0.len());
                assert(ps[7].0 != ps[1].0);
                assert(ps[7].0[0] != ps[2].0[0]);
                assert(ps[7].0 != ps[2].0);
                assert(ps[7].0.len() != ps[3].0.len());
                assert(ps[7].0 != ps[3].0);
                assert(ps[7].0.len() != ps[4].0.len());
                assert(ps[7].0 != ps[4].0);
                assert(ps[7].0.len() != ps[5].0.len());
                assert(ps[7].0 != ps[5].0);
                assert(ps[7].0.len() != ps[6].0.len());
                assert(ps[7].0 != ps[6].0);
                assert(ps[8].0[0] != ps[0].0[0]);
                assert(ps[8].0 != ps[0].0);
                assert(ps[8].0.len() != ps[1].0.len());
                assert(ps[8].0 != ps[1].0);
                assert(ps[8].0.len() != ps[2].0.len());
                assert(ps[8].0 != ps[2].0);
                assert(ps[8].0.len() != ps[3].0.len());
                assert(ps[8].0 != ps[3].0);
                assert(ps[8].0.len() != ps[4].0.len());
                assert(ps[8].0 != ps[4].0);
                assert(ps[8].0.len() != ps[5].0.len());
                assert(ps[8].0 != ps[5].0);
                assert(ps[8].0.len() != ps[6].0.len());
                assert(ps[8].0 != ps[6].0);
                assert(ps[8].0.len() != ps[7].0.len());
                assert(ps[8].0 != ps[7].0);
                reveal_with_fuel(id_absent, 10);
                reveal_with_fuel(ids_unique, 10);
                reveal_with_fuel(count_outputs, 10);
                assert(id_absent(ps, ps[1].0, 1));
                assert(id_absent(ps, ps[2].0, 2));
                assert(id_absent(ps, ps[3].0, 3));
                assert(id_absent(ps, ps[4].0, 4));
                assert(id_absent(ps, ps[5].0, 5));
                assert(id_absent(ps, ps[6].0, 6));
                assert(id_absent(ps, ps[7].0, 7));
                assert(id_absent(ps, ps[8].0, 8));
            }
        },
        NodeKindView::Value { .. } => {
            let ps = spec_ports(k);
            assert(ps.len() == 1 && ids_unique(ps, 1) && count_outputs(ps, 1) >= 1) by {
                reveal_strlit("out");
                assert(ps[0].0 == "out"@);
                reveal_with_fuel(id_absent, 2);
                reveal_with_fuel(ids_unique, 2);
                reveal_with_fuel(count_outputs, 2);
            }
        },
        NodeKindView::ExprX { .. } => {
            let ps = spec_ports(k);
            assert(ps.len() == 2 && ids_unique(ps, 2) && count_outputs(ps, 2) >= 1) by {
                reveal_strlit("out");
                reveal_strlit("x");
                assert(ps[0].0 == "x"@ && ps[1].0 == "out"@);
                assert(ps[1].0.len() != ps[0].0.len());
                assert(ps[1].0 != ps[0].0);
                reveal_with_fuel(id_absent, 3);
                reveal_with_fuel(ids_unique, 3);
                reveal_with_fuel(count_outputs, 3);
                assert(id_absent(ps, ps[1].0, 1));
            }
        },
        NodeKindView::ExprXy { .. } => {
            let ps = spec_ports(k);
            assert(ps.len() == 3 && ids_unique(ps, 3) && count_outputs(ps, 3) >= 1) by {
                reveal_strlit("out");
                reveal_strlit("x");
                reveal_strlit("y");
                assert(ps[0].0 == "x"@ && ps[1].0 == "y"@ && ps[2].0 == "out"@);
                assert(ps[1].0[0] != ps[0].0[0]);
                assert(ps[1].0 != ps[0].0);
                assert(ps[2].0.len() != ps[0].0.len());
                assert(ps[2].0 != ps[0].0);
                assert(ps[2].0.len() != ps[1].0.len());
                assert(ps[2].0 != ps[1].0);
                reveal_with_fuel(id_absent, 4);
                reveal_with_fuel(ids_unique, 4);
                reveal_with_fuel(count_outputs, 4);
                assert(id_absent(ps, ps[1].0, 1));
                assert(id_absent(ps, ps[2].0, 2));
            }
        },
        NodeKindView::ExprXyz { .. } => {
            let ps = spec_ports(k);
            assert(ps.len() == 4 && ids_unique(ps, 4) && count_outputs(ps, 4) >= 1) by {
                reveal_strlit("out");
                reveal_strlit("x");
                reveal_strlit("y");
                reveal_strlit("z");
                assert(ps[0].0 == "x"@ && ps[1].0 == "y"@ && ps[2].0 == "z"@ && ps[3].0 == "out"@);
                assert(ps[1].0[0] != ps[0].0[0]);
                assert(ps[1].0 != ps[0].0);
                assert(ps[2].0[0] != ps[0].0[0]);
                assert(ps[2].0 != ps[0].0);
                assert(ps[2].0[0] != ps[1].0[0]);
                assert(ps[2].0 != ps[1].0);
                assert(ps[3].0.len() != ps[0].0.len());
                assert(ps[3].0 != ps[0].0);
                assert(ps[3].0.len() != ps[1].0.len());
                assert(ps[3].0 != ps[1].0);
                assert(ps[3].0.len() != ps[2].0.len());
                assert(ps[3].0 != ps[2].0);
                reveal_with_fuel(id_absent, 5);
                reveal_with_fuel(ids_unique, 5);
                reveal_with_fuel(count_outputs, 5);
                assert(id_absent(ps, ps[1].0, 1));
                assert(id_absent(ps, ps[2].0, 2));
                assert(id_absent(ps, ps[3].0, 3));
            }
        },
        NodeKindView::Frame => {
            let ps = spec_ports(k);
            assert(ps.len() == 1 && ids_unique(ps, 1) && count_outputs(ps, 1) >= 1) by {
                reveal_strlit("out");
                assert(ps[0].0 == "out"@);
                reveal_with_fuel(id_absent, 2);
                reveal_with_fuel(ids_unique, 2);
                reveal_with_fuel(count_outputs, 2);
            }
        },
        NodeKindView::Time => {
            let ps = spec_ports(k);
            assert(ps.len() == 1 && ids_unique(ps, 1) && count_outputs(ps, 1) >= 1) by {
                reveal_strlit("out");
                assert(ps[0].0 == "out"@);
                reveal_with_fuel(id_absent, 2);
                reveal_with_fuel(ids_unique, 2);
                reveal_with_fuel(count_outputs, 2);
            }
        },
        NodeKindView::Brightness => {
            let ps = spec_ports(k);
            assert(ps.len() == 3 && ids_unique(ps, 3) && count_outputs(ps, 3) >= 1) by {
                reveal_strlit("amount");
                reveal_strlit("in");
                reveal_strlit("out");
                assert(ps[0].0 == "in"@ && ps[1].0 == "amount"@ && ps[2].0 == "out"@);
                assert(ps[1].0.len() != ps[0].0.len());
                assert(ps[1].0 != ps[0].0);
                assert(ps[2].0.len() != ps[0].0.len());
                assert(ps[2].0 != ps[0].0);
                assert(ps[2].0.len() != ps[1].0.len());
                assert(ps[2].0 != ps[1].0);
                reveal_with_fuel(id_absent, 4);
                reveal_with_fuel(ids_unique, 4);
                reveal_with_fuel(count_outputs, 4);
                assert(id_absent(ps, ps[1].0, 1));
                assert(id_absent(ps, ps[2].0, 2));
            }
        },
        NodeKindView::ColorChanger => {
            let ps = spec_ports(k);
            assert(ps.len() == 4 && ids_unique(ps, 4) && count_outputs(ps, 4) >= 1) by {
                reveal_strlit("hue");
                reveal_strlit("in");
                reveal_strlit("out");
                reveal_strlit("sat");
                assert(ps[0].0 == "in"@ && ps[1].0 == "hue"@ && ps[2].0 == "sat"@ && ps[3].0 == "out"@);
                assert(ps[1].0.len() != ps[0].0.len());
                assert(ps[1].0 != ps[0].0);
                assert(ps[2].0.len() != ps[0].0.len());
                assert(ps[2].0 != ps[0].0);
                assert(ps[2].0[0] != ps[1].0[0]);
                assert(ps[2].0 != ps[1].0);
                assert(ps[3].0.len() != ps[0].0.len());
                assert(ps[3].0 != ps[0].0);
                assert(ps[3].0[0] != ps[1].0[0]);
                assert(ps[3].0 != ps[1].0);
                assert(ps[3].0[0] != ps[2].0[0]);
                assert(ps[3].0 != ps[2].0);
                reveal_with_fuel(id_absent, 5);
                reveal_with_fuel(ids_unique, 5);
                reveal_with_fuel(count_outputs, 5);
                assert(id_absent(ps, ps[1].0, 1));
                assert(id_absent(ps, ps[2].0, 2));
                assert(id_absent(ps, ps[3].0, 3));
            }
        },
        NodeKindView::LinearBlur => {
            let ps = spec_ports(k);
            assert(ps.len() == 3 && ids_unique(ps, 3) && count_outputs(ps, 3) >= 1) by {
                reveal_strlit("amount");
                reveal_strlit("in");
                reveal_strlit("out");
                assert(ps[0].0 == "in"@ && ps[1].0 == "amount"@ && ps[2].0 == "out"@);
                assert(ps[1].0.len() != ps[0].0.len());
                assert(ps[1].0 != ps[0].0);
                assert(ps[2].0.len() != ps[0].0.len());
                assert(ps[2].0 != ps[0].0);
                assert(ps[2].0.len() != ps[1].0.len());
                assert(ps[2].0 != ps[1].0);
                reveal_with_fuel(id_absent, 4);
                reveal_with_fuel(ids_unique, 4);
                reveal_with_fuel(count_outputs, 4);
                assert(id_absent(ps, ps[1].0, 1));
                assert(id_absent(ps, ps[2].0, 2));
            }
        },
        NodeKindView::Zoom => {
            let ps = spec_ports(k);
            assert(ps.len() == 4 && ids_unique(ps, 4) && count_outputs(ps, 4) >= 1) by {
                reveal_strlit("in");
                reveal_strlit("out");
                reveal_strlit("pos");
                reveal_strlit("zoom");
                assert(ps[0].0 == "in"@ && ps[1].0 == "pos"@ && ps[2].0 == "zoom"@ && ps[3].0 == "out"@);
                assert(ps[1].0.len() != ps[0].0.len());
                assert(ps[1].0 != ps[0].0);
                assert(ps[2].0.len() != ps[0].0.len());
                assert(ps[2].0 != ps[0].0);
                assert(ps[2].0.len() != ps[1].0.len());
                assert(ps[2].0 != ps[1].0);
                assert(ps[3].0.len() != ps[0].0.len());
                assert(ps[3].0 != ps[0].0);
                assert(ps[3].0[0] != ps[1].0[0]);
                assert(ps[3].0 != ps[1].0);
                assert(ps[3].0.len() != ps[2].0.len());
                assert(ps[3].0 != ps[2].0);
                reveal_with_fuel(id_absent, 5);
                reveal_with_fuel(ids_unique, 5);
                reveal_with_fuel(count_outputs, 5);
                assert(id_absent(ps, ps[1].0, 1));
                assert(id_absent(ps, ps[2].0, 2));
                assert(id_absent(ps, ps[3].0, 3));
            }
        },
        NodeKindView::Equalizer => {
            let ps = spec_ports(k);
            assert(ps.len() == 6 && ids_unique(ps, 6) && count_outputs(ps, 6) >= 1) by {
                reveal_strlit("bass");
                reveal_strlit("in");
                reveal_strlit("mid");
                reveal_strlit("out");
                reveal_strlit("treble");
                reveal_strlit("volume");
                assert(ps[0].0 == "in"@ && ps[1].0 == "bass"@ && ps[2].0 == "mid"@ && ps[3].0 == "treble"@ && ps[4].0 == "volume"@ && ps[5].0 == "out"@);
                assert(ps[1].0.len() != ps[0].0.len());
                assert(ps[1].0 != ps[0].0);
                assert(ps[2].0.len() != ps[0].0.len());
                assert(ps[2].0 != ps[0].0);
                assert(ps[2].0.len() != ps[1].0.len());
                assert(ps[2].0 != ps[1].0);
                assert(ps[3].0.len() != ps[0].0.len());
                assert(ps[3].0 != ps[0].0);
                assert(ps[3].0.len() != ps[1].0.len());
                assert(ps[3].0 != ps[1].0);
                assert(ps[3].0.len() != ps[2].0.len());
                assert(ps[3].0 != ps[2].0);
                assert(ps[4].0.len() != ps[0].0.len());
                assert(ps[4].0 != ps[0].0);
                assert(ps[4].0.len() != ps[1].0.len());
                assert(ps[4].0 != ps[1].0);
                assert(ps[4].0.len() != ps[2].0.len());
                assert(ps[4].0 != ps[2].0);
                assert(ps[4].0[0] != ps[3].0[0]);
                assert(ps[4].0 != ps[3].0);
                assert(ps[5].0.len() != ps[0].0.len());
                assert(ps[5].0 != ps[0].0);
                assert(ps[5].0.len() != ps[1].0.len());
                assert(ps[5].0 != ps[1].0);
                assert(ps[5].0[0] != ps[2].0[0]);
                assert(ps[5].0 != ps[2].0);
                assert(ps[5].0.len() != ps[3].0.len());
                assert(ps[5].0 != ps[3].0);
                assert(ps[5].0.len() != ps[4].0.len());
                assert(ps[5].0 != ps[4].0);
                reveal_with_fuel(id_absent, 7);
                reveal_with_fuel(ids_unique, 7);
                reveal_with_fuel(count_outputs, 7);
                assert(id_absent(ps, ps[1].0, 1));
                assert(id_absent(ps, ps[2].0, 2));
                assert(id_absent(ps, ps[3].0, 3));
                assert(id_absent(ps, ps[4].0, 4));
                assert(id_absent(ps, ps[5].0, 5));
            }
        },
        NodeKindView::Speed => {
            let ps = spec_ports(k);
            assert(ps.len() == 3 && ids_unique(ps, 3) && count_outputs(ps, 3) >= 1) by {
                reveal_strlit("factor");
                reveal_strlit("in");
                reveal_strlit("out");
                assert(ps[0].0 == "in"@ && ps[1].0 == "factor"@ && ps[2].0 == "out"@);
                assert(ps[1].0.len() != ps[0].0.len());
                assert(ps[1].0 != ps[0].0);
                assert(ps[2].0.len() != ps[0].0.len());
                assert(ps[2].0 != ps[0].0);
                assert(ps[2].0.len() != ps[1].0.len());
                assert(ps[2].0 != ps[1].0);
                reveal_with_fuel(id_absent, 4);
                reveal_with_fuel(ids_unique, 4);
                reveal_with_fuel(count_outputs, 4);
                assert(id_absent(ps, ps[1].0, 1));
                assert(id_absent(ps, ps[2].0, 2));
            }
        },
        NodeKindView::Visualizer { .. } => {
            let ps = spec_ports(k);
            assert(ps.len() == 4 && ids_unique(ps, 4) && count_outputs(ps, 4) >= 1) by {
                reveal_strlit("audio");
                reveal_strlit("frequency");
                reveal_strlit("gain");
                reveal_strlit("out");
                assert(ps[0].0 == "audio"@ && ps[1].0 == "frequency"@ && ps[2].0 == "gain"@ && ps[3].0 == "out"@);
                assert(ps[1].0.len() != ps[0].0.len());
                assert(ps[1].0 != ps[0].0);
                assert(ps[2].0.len() != ps[0].0.len());
                assert(ps[2].0 != ps[0].0);
                assert(ps[2].0.len() != ps[1].0.len());
                assert(ps[2].0 != ps[1].0);
                assert(ps[3].0.len() != ps[0].0.len());
                assert(ps[3].0 != ps[0].0);
                assert(ps[3].0.len() != ps[1].0.len());
                assert(ps[3].0 != ps[1].0);
                assert(ps[3].0.len() != ps[2].0.len());
                assert(ps[3].0 != ps[2].0);
                reveal_with_fuel(id_absent, 5);
                reveal_with_fuel(ids_unique, 5);
                reveal_with_fuel(count_outputs, 5);
                assert(id_absent(ps, ps[1].0, 1));
                assert(id_absent(ps, ps[2].0, 2));
                assert(id_absent(ps, ps[3].0, 3));
            }
        },
        NodeKindView::GeoSize => {
            let ps = spec_ports(k);
            assert(ps.len() == 4 && ids_unique(ps, 4) && count_outputs(ps, 4) >= 1) by {
                reveal_strlit("h");
                reveal_strlit("in");
                reveal_strlit("out");
                reveal_strlit("w");
                assert(ps[0].0 == "in"@ && ps[1].0 == "w"@ && ps[2].0 == "h"@ && ps[3].0 == "out"@);
                assert(ps[1].0.len() != ps[0].0.len());
                assert(ps[1].0 != ps[0].0);
                assert(ps[2].0.len() != ps[0].0.len());
                assert(ps[2].0 != ps[0].0);
                assert(ps[2].0[0] != ps[1].0[0]);
                assert(ps[2].0 != ps[1].0);
                assert(ps[3].0.len() != ps[0].0.len());
                assert(ps[3].0 != ps[0].0);
                assert(ps[3].0.len() != ps[1].0.len());
                assert(ps[3].0 != ps[1].0);
                assert(ps[3].0.len() != ps[2].0.len());
                assert(ps[3].0 != ps[2].0);
                reveal_with_fuel(id_absent, 5);
                reveal_with_fuel(ids_unique, 5);
                reveal_with_fuel(count_outputs, 5);
                assert(id_absent(ps, ps[1].0, 1));
                assert(id_absent(ps, ps[2].0, 2));
                assert(id_absent(ps, ps[3].0, 3));
            }
        },
        NodeKindView::GeoPlacement => {
            let ps = spec_ports(k);
            assert(ps.len() == 4 && ids_unique(ps, 4) && count_outputs(ps, 4) >= 1) by {
                reveal_strlit("in");
                reveal_strlit("out");
                reveal_strlit("x");
                reveal_strlit("y");
                assert(ps[0].0 == "in"@ && ps[1].0 == "x"@ && ps[2].0 == "y"@ && ps[3].0 == "out"@);
                assert(ps[1].0.len() != ps[0].0.len());
                assert(ps[1].0 != ps[0].0);
                assert(ps[2].0.len() != ps[0].0.len());
                assert(ps[2].0 != ps[0].0);
                assert(ps[2].0[0] != ps[1].0[0]);
                assert(ps[2].0 != ps[1].0);
                assert(ps[3].0.len() != ps[0].0.len());
                assert(ps[3].0 != ps[0].0);
                assert(ps[3].0.len() != ps[1].0.len());
                assert(ps[3].0 != ps[1].0);
                assert(ps[3].0.len() != ps[2].0.len());
                assert(ps[3].0 != ps[2].0);
                reveal_with_fuel(id_absent, 5);
                reveal_with_fuel(ids_unique, 5);
                reveal_with_fuel(count_outputs, 5);
                assert(id_absent(ps, ps[1].0, 1));
                assert(id_absent(ps, ps[2].0, 2));
                assert(id_absent(ps, ps[3].0, 3));
            }
        },
        NodeKindView::GeoRotate => {
            let ps = spec_ports(k);
            assert(ps.len() == 3 && ids_unique(ps, 3) && count_outputs(ps, 3) >= 1) by {
                reveal_strlit("angle");
                reveal_strlit("in");
                reveal_strlit("out");
                assert(ps[0].0 == "in"@ && ps[1].0 == "angle"@ && ps[2].0 == "out"@);
                assert(ps[1].0.len() != ps[0].0.len());
                assert(ps[1].0 != ps[0].0);
                assert(ps[2].0.len() != ps[0].0.len());
                assert(ps[2].0 != ps[0].0);
                assert(ps[2].0.len() != ps[1].0.len());
                assert(ps[2].0 != ps[1].0);
                reveal_with_fuel(id_absent, 4);
                reveal_with_fuel(ids_unique, 4);
                reveal_with_fuel(count_outputs, 4);
                assert(id_absent(ps, ps[1].0, 1));
                assert(id_absent(ps, ps[2].0, 2));
            }
        },
        NodeKindView::GeoTrapezoid => {
            let ps = spec_ports(k);
            assert(ps.len() == 4 && ids_unique(ps, 4) && count_outputs(ps, 4) >= 1) by {
                reveal_strlit("bottom");
                reveal_strlit("in");
                reveal_strlit("out");
                reveal_strlit("top");
                assert(ps[0].0 == "in"@ && ps[1].0 == "top"@ && ps[2].0 == "bottom"@ && ps[3].0 == "out"@);
                assert(ps[1].0.len() != ps[0].0.len());
                assert(ps[1].0 != ps[0].0);
                assert(ps[2].0.len() != ps[0].0.len());
                assert(ps[2].0 != ps[0].0);
                assert(ps[2].0.len() != ps[1].0.len());
                assert(ps[2].0 != ps[1].0);
                assert(ps[3].0.len() != ps[0].0.len());
                assert(ps[3].0 != ps[0].0);
                assert(ps[3].0[0] != ps[1].0[0]);
                assert(ps[3].0 != ps[1].0);
                assert(ps[3].0.len() != ps[2].0.len());
                assert(ps[3].0 != ps[2].0);
                reveal_with_fuel(id_absent, 5);
                reveal_with_fuel(ids_unique, 5);
                reveal_with_fuel(count_outputs, 5);
                assert(id_absent(ps, ps[1].0, 1));
                assert(id_absent(ps, ps[2].0, 2));
                assert(id_absent(ps, ps[3].0, 3));
            }
        },
        NodeKindView::GeoMirror => {
            let ps = spec_ports(k);
            assert(ps.len() == 3 && ids_unique(ps, 3) && count_outputs(ps, 3) >= 1) by {
                reveal_strlit("axis");
                reveal_strlit("in");
                reveal_strlit("out");
                assert(ps[0].0 == "in"@ && ps[1].0 == "axis"@ && ps[2].0 == "out"@);
                assert(ps[1].0.len() != ps[0].0.len());
                assert(ps[1].0 != ps[0].0);
                assert(ps[2].0.len() != ps[0].0.len());
                assert(ps[2].0 != ps[0].0);
                assert(ps[2].0.len() != ps[1].0.len());
                assert(ps[2].0 != ps[1].0);
                reveal_with_fuel(id_absent, 4);
                reveal_with_fuel(ids_unique, 4);
                reveal_with_fuel(count_outputs, 4);
                assert(id_absent(ps, ps[1].0, 1));
                assert(id_absent(ps, ps[2].0, 2));
            }
        },
        NodeKindView::GeoAdd => {
            let ps = spec_ports(k);
            assert(ps.len() == 3 && ids_unique(ps, 3) && count_outputs(ps, 3) >= 1) by {
                reveal_strlit("a");
                reveal_strlit("b");
                reveal_strlit("out");
                assert(ps[0].0 == "a"@ && ps[1].0 == "b"@ && ps[2].0 == "out"@);
                assert(ps[1].0[0] != ps[0].0[0]);
                assert(ps[1].0 != ps[0].0);
                assert(ps[2].0.len() != ps[0].0.len());
                assert(ps[2].0 != ps[0].0);
                assert(ps[2].0.len() != ps[1].0.len());
                assert(ps[2].0 != ps[1].0);
                reveal_with_fuel(id_absent, 4);
                reveal_with_fuel(ids_unique, 4);
                reveal_with_fuel(count_outputs, 4);
                assert(id_absent(ps, ps[1].0, 1));
                assert(id_absent(ps, ps[2].0, 2));
            }
        },
        NodeKindView::ParamReal { .. } => {
            let ps = spec_ports(k);
            assert(ps.len() == 1 && ids_unique(ps, 1) && count_outputs(ps, 1) >= 1) by {
                reveal_strlit("out");
                assert(ps[0].0 == "out"@);
                reveal_with_fuel(id_absent, 2);
                reveal_with_fuel(ids_unique, 2);
                reveal_with_fuel(count_outputs, 2);
            }
        },
        NodeKindView::ParamColor { .. } => {
            let ps = spec_ports(k);
            assert(ps.len() == 1 && ids_unique(ps, 1) && count_outputs(ps, 1) >= 1) by {
                reveal_strlit("out");
                assert(ps[0].0 == "out"@);
                reveal_with_fuel(id_absent, 2);
                reveal_with_fuel(ids_unique, 2);
                reveal_with_fuel(count_outputs, 2);
            }
        },
        NodeKindView::ParamPosition { .. } => {
            let ps = spec_ports(k);
            assert(ps.len() == 1 && ids_unique(ps, 1) && count_outputs(ps, 1) >= 1) by {
                reveal_strlit("out");
                assert(ps[0].0 == "out"@);
                reveal_with_fuel(id_absent, 2);
                reveal_with_fuel(ids_unique, 2);
                reveal_with_fuel(count_outputs, 2);
            }
        },
    }
    lemma_ids_unique(spec_ports(k), spec_ports(k).len() as int);
    lemma_count_outputs(spec_ports(k), spec_ports(k).len() as int);
}

} // verus!
