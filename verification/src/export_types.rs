//! Export and media configuration enums.

use vstd::prelude::*;

verus! {

/// Which backend to use for video encoding.
#[derive(Debug, Clone, Copy, PartialEq, Eq, Structural)]
pub enum VideoBackend {
    Ffmpeg,
    Gstreamer,
}

impl Default for VideoBackend {
    fn default() -> (r: Self)
        ensures
            r == VideoBackend::Ffmpeg,
    {
        VideoBackend::Ffmpeg
    }
}

impl VideoBackend {
    /// Human readable name shown in the export dialog.
    pub fn label(self) -> (s: &'static str)
        ensures
            s@ == (match self {
                VideoBackend::Ffmpeg => "FFmpeg"@,
                VideoBackend::Gstreamer => "GStreamer"@,
            }),
    {
        match self {
            VideoBackend::Ffmpeg => "FFmpeg",
            VideoBackend::Gstreamer => "GStreamer",
        }
    }
}

/// CPU usage profile while encoding video (encoder thread count / preset).
#[derive(Debug, Clone, Copy, PartialEq, Eq, Structural)]
pub enum ExportPowerLevel {
    PowerSaving,
    FullPower,
}

impl Default for ExportPowerLevel {
    fn default() -> (r: Self)
        ensures
            r == ExportPowerLevel::PowerSaving,
    {
        ExportPowerLevel::PowerSaving
    }
}

impl ExportPowerLevel {
    pub fn label(self) -> (s: &'static str)
        ensures
            s@ == (match self {
                ExportPowerLevel::PowerSaving => "Power saving"@,
                ExportPowerLevel::FullPower => "Full power"@,
            }),
    {
        match self {
            ExportPowerLevel::PowerSaving => "Power saving",
            ExportPowerLevel::FullPower => "Full power",
        }
    }
}

/// Node-editor / FX bake quality for export (longest side of the bake).
///
/// Long-side caps stay in the HD range so that 1080p exports keep their
/// detail after upscale.
#[derive(Debug, Clone, Copy, PartialEq, Eq, Structural)]
pub enum ExportFxQuality {
    /// Fast draft: 720p-class bake.
    Draft,
    /// Default: full HD long side.
    Normal,
    /// Best: 1440p-class bake (still capped by the page size).
    High,
}

impl Default for ExportFxQuality {
    fn default() -> (r: Self)
        ensures
            r == ExportFxQuality::Normal,
    {
        ExportFxQuality::Normal
    }
}

/// Longest bake side in pixels for each quality level.
pub open spec fn spec_max_side(q: ExportFxQuality) -> u32 {
    match q {
        ExportFxQuality::Draft => 720,
        ExportFxQuality::Normal => 1080,
        ExportFxQuality::High => 1440,
    }
}

impl ExportFxQuality {
    pub fn label(self) -> (s: &'static str)
        ensures
            s@ == (match self {
                ExportFxQuality::Draft => "Draft (fast)"@,
                ExportFxQuality::Normal => "Normal"@,
                ExportFxQuality::High => "High"@,
            }),
    {
        match self {
            ExportFxQuality::Draft => "Draft (fast)",
            ExportFxQuality::Normal => "Normal",
            ExportFxQuality::High => "High",
        }
    }

    /// Longest side of a file-path bake (pixels).
    pub fn max_side(self) -> (n: u32)
        ensures
            n == spec_max_side(self),
    {
        match self {
            ExportFxQuality::Draft => 720,
            ExportFxQuality::Normal => 1080,
            ExportFxQuality::High => 1440,
        }
    }
}

/// Higher quality never bakes at a smaller size: the longest side grows
/// strictly from Draft to Normal to High.
pub proof fn lemma_max_side_monotonic()
    ensures
        spec_max_side(ExportFxQuality::Draft) < spec_max_side(ExportFxQuality::Normal),
        spec_max_side(ExportFxQuality::Normal) < spec_max_side(ExportFxQuality::High),
{
}

/// Container format for video export.
#[derive(Debug, Clone, Copy, PartialEq, Eq, Structural)]
pub enum VideoFormat {
    Mp4,
    Mkv,
    Webm,
    Mov,
}

impl Default for VideoFormat {
    fn default() -> (r: Self)
        ensures
            r == VideoFormat::Mp4,
    {
        VideoFormat::Mp4
    }
}

impl VideoFormat {
    pub fn label(self) -> (s: &'static str)
        ensures
            s@ == (match self {
                VideoFormat::Mp4 => "MP4 (H.264)"@,
                VideoFormat::Mkv => "MKV (H.264)"@,
                VideoFormat::Webm => "WebM (VP9)"@,
                VideoFormat::Mov => "MOV (ProRes)"@,
            }),
    {
        match self {
            VideoFormat::Mp4 => "MP4 (H.264)",
            VideoFormat::Mkv => "MKV (H.264)",
            VideoFormat::Webm => "WebM (VP9)",
            VideoFormat::Mov => "MOV (ProRes)",
        }
    }

    /// File extension (without the dot) for the container.
    pub fn extension(self) -> (s: &'static str)
        ensures
            s@ == (match self {
                VideoFormat::Mp4 => "mp4"@,
                VideoFormat::Mkv => "mkv"@,
                VideoFormat::Webm => "webm"@,
                VideoFormat::Mov => "mov"@,
            }),
    {
        match self {
            VideoFormat::Mp4 => "mp4",
            VideoFormat::Mkv => "mkv",
            VideoFormat::Webm => "webm",
            VideoFormat::Mov => "mov",
        }
    }
}

/// Fill for areas of an exported image that the document does not paint.
#[derive(Debug, Clone, Copy, PartialEq, Eq, Structural)]
pub enum ExportBackground {
    /// Full-document export: the page colour.
    Page,
    /// Selection export: transparent.
    Transparent,
}

} // verus!
