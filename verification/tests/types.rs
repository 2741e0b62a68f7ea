use vadadee_doc::animation::{default_handle_mode, InterpolationMode};
use vadadee_doc::export_types::{ExportFxQuality, ExportPowerLevel, VideoBackend, VideoFormat};
use vadadee_doc::music::{default_velocity, MusicNote};
use vadadee_doc::node::{default_font_family, text_display_name, ArcJoin, BezierHandleMode, PathEditTarget};
use vadadee_doc::path_effects::{BooleanOpKind, CircularRotateMode, OnPathMode};
use vadadee_doc::shading::{default_enabled, default_hot_reload, ShadingStack};
use vadadee_doc::style::{FillKind, LineCap, LineJoin};

#[test]
fn enum_defaults() {
    assert_eq!(InterpolationMode::default(), InterpolationMode::Linear);
    assert_eq!(default_handle_mode(), BezierHandleMode::Both);
    assert_eq!(BezierHandleMode::default(), BezierHandleMode::Symmetric);
    assert_eq!(ArcJoin::default(), ArcJoin::NoJoin);
    assert_eq!(OnPathMode::default(), OnPathMode::GapDuplicate);
    assert_eq!(CircularRotateMode::default(), CircularRotateMode::ReferenceOrigin);
    assert_eq!(BooleanOpKind::default(), BooleanOpKind::Union);
    assert_eq!(ShadingStack::default(), ShadingStack::Behind);
    assert_eq!(FillKind::default(), FillKind::Solid);
    assert_eq!(LineJoin::default(), LineJoin::Miter);
    assert_eq!(LineCap::default(), LineCap::Butt);
    assert_eq!(VideoBackend::default(), VideoBackend::Ffmpeg);
    assert_eq!(ExportPowerLevel::default(), ExportPowerLevel::PowerSaving);
    assert!(default_enabled());
    assert!(default_hot_reload());
    assert_eq!(default_font_family(), "Noto Sans");
}

#[test]
fn labels() {
    assert_eq!(BezierHandleMode::EqualLength.label(), "Equal Length");
    assert_eq!(BezierHandleMode::LeftOnly.label(), "Left Only");
    assert_eq!(BezierHandleMode::RightOnly.label(), "Right Only");
    assert_eq!(BezierHandleMode::Both.label(), "Both");
    assert_eq!(CircularRotateMode::Static.label(), "Static");
    assert_eq!(CircularRotateMode::ReferenceOrigin.label(), "Origin");
    assert_eq!(BooleanOpKind::Exclude.label(), "Exclude");
    assert_eq!(BooleanOpKind::Difference.label(), "Difference");
    assert_eq!(VideoBackend::Gstreamer.label(), "GStreamer");
    assert_eq!(ExportPowerLevel::FullPower.label(), "Full power");
}

#[test]
fn boolean_ops_that_fold() {
    assert!(BooleanOpKind::Union.supports_multi());
    assert!(BooleanOpKind::Intersection.supports_multi());
    assert!(!BooleanOpKind::Difference.supports_multi());
    assert!(!BooleanOpKind::Exclude.supports_multi());
}

#[test]
fn path_edit_target_anchor() {
    assert_eq!(PathEditTarget::Anchor(3).anchor_index(), 3);
    assert_eq!(PathEditTarget::HandleOut(4).anchor_index(), 4);
    assert_eq!(PathEditTarget::HandleIn(5).anchor_index(), 5);
}

#[test]
fn music_note_defaults() {
    let n = MusicNote::new(60, 480, 240);
    assert_eq!((n.pitch, n.start_tick, n.duration_ticks, n.velocity), (60, 480, 240, 100));
    assert_eq!(default_velocity(), 100);
}

#[test]
fn fx_quality_sides_grow() {
    let d = ExportFxQuality::Draft.max_side();
    let n = ExportFxQuality::Normal.max_side();
    let h = ExportFxQuality::High.max_side();
    assert!(d <= n && n <= h);
    assert_eq!((d, n, h), (720, 1080, 1440));
    assert_eq!(ExportFxQuality::default(), ExportFxQuality::Normal);
    assert_eq!(VideoFormat::Mp4.extension(), "mp4");
}

#[test]
fn text_display_names() {
    assert_eq!(text_display_name(""), "Text");
    assert_eq!(text_display_name("   \n second"), "Text");
    assert_eq!(text_display_name("  Hello world  \nsecond line"), "Hello world");
    assert_eq!(text_display_name("line\r\nnext"), "line");
    let long = "abcdefghij".repeat(5);
    assert_eq!(text_display_name(&long), format!("{}…", &long[..40]));
    let exact = "x".repeat(40);
    assert_eq!(text_display_name(&exact), exact);
    let wide = "é".repeat(41);
    assert_eq!(text_display_name(&wide), format!("{}…", "é".repeat(40)));
}

#[test]
fn expr_node_default_formulas() {
    assert_eq!(vadadee_doc::ports::default_expr_x(), "x");
    assert_eq!(vadadee_doc::ports::default_expr_xy(), "x+y");
    assert_eq!(vadadee_doc::ports::default_expr_xyz(), "x+y+z");
}

#[test]
fn empty_music_clip() {
    let c = vadadee_doc::music::MusicClip::new_empty("Beat".to_string(), 1.5f32.to_bits(), 4.0f32.to_bits());
    assert_eq!(c.name, "Beat");
    assert_eq!(f32::from_bits(c.timeline_start_sec_bits), 1.5);
    assert_eq!(f32::from_bits(c.duration_sec_bits), 4.0);
    assert_eq!(c.track_row, 0);
    assert!(c.notes.is_empty());
}
