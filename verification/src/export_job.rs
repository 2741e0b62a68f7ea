//! Video export jobs: the job settings, the progress events the export
//! worker sends, and the worker's decisions that do not depend on pixels.

use vstd::prelude::*;
use std::sync::atomic::AtomicBool;
use std::sync::atomic::Ordering;
use crate::export_types::{ExportPowerLevel, VideoFormat};
use crate::text::{concat2, owned};

verus! {

/// Settings of one video export. Paths are kept as the text the user chose.
#[derive(Debug, Clone)]
pub struct ExportJobConfig {
    pub output_path: String,
    pub work_dir: String,
    pub fps: u32,
    pub resolution_pct: u32,
    pub bitrate_kbps: u32,
    pub format: VideoFormat,
    pub power: ExportPowerLevel,
    pub total_frames: usize,
    pub anim_fps: u32,
    pub max_anim_frame: usize,
    /// Frames in one animation cycle (for looping export).
    pub cycle_frame_count: usize,
    /// How many times the cycle is repeated in `total_frames`.
    pub export_cycles: u32,
}

/// Readiness phases: the worker only advances when the previous step is complete.
#[derive(Debug, Clone, Copy, PartialEq, Eq, Structural)]
pub enum ExportPhase {
    Preparing,
    Encoding,
    Finalizing,
}

/// What the export worker reports to the UI.
#[derive(Debug, Clone)]
pub enum ExportWorkerEvent {
    Phase(ExportPhase),
    Progress { phase: ExportPhase, frame_done: usize, total: usize, message: String },
    Finished { success: bool, message: String },
}

/// Whether the user asked to stop the export. The flag is set by another
/// thread, so nothing is known of the answer beyond its being a snapshot.
pub fn export_cancelled(cancel: &AtomicBool) -> bool {
    cancel.load(Ordering::Relaxed)
}

/// Error text of a cancelled export; the worker tells it apart from failures.
pub open spec fn cancelled_text() -> Seq<char> {
    "Cancelled."@
}

/// Outcome of a cancellation check: `Err("Cancelled.")` exactly when cancelled.
pub fn cancel_check(cancelled: bool) -> (r: Result<(), String>)
    ensures
        cancelled <==> r is Err,
        r matches Err(e) ==> e@ == cancelled_text(),
{
    if cancelled {
        Err(owned("Cancelled."))
    } else {
        Ok(())
    }
}

/// Event to send when the worker moves to phase `next`: none when it is
/// already there.
pub fn phase_change_event(current: ExportPhase, next: ExportPhase) -> (r: Option<ExportWorkerEvent>)
    ensures
        current == next ==> r is None,
        current != next ==> (r matches Some(ExportWorkerEvent::Phase(p)) && p == next),
{
    if current == next {
        None
    } else {
        Some(ExportWorkerEvent::Phase(next))
    }
}

/// Encoder thread count for a power level: one thread when saving power,
/// `0` (let the encoder choose) at full power.
pub fn encoder_threads(power: ExportPowerLevel) -> (n: u32)
    ensures
        n == (match power {
            ExportPowerLevel::PowerSaving => 1u32,
            ExportPowerLevel::FullPower => 0u32,
        }),
{
    match power {
        ExportPowerLevel::PowerSaving => 1,
        ExportPowerLevel::FullPower => 0,
    }
}

/// Smallest and largest longest side of a node-editor bake during export.
pub const NE_BAKE_MIN_SIDE: u32 = 256;
pub const NE_BAKE_MAX_SIDE: u32 = 512;

pub open spec fn spec_ne_bake_max_side(pixel_w: u32, pixel_h: u32) -> u32 {
    let m = if pixel_w >= pixel_h { pixel_w } else { pixel_h };
    let m = if m >= NE_BAKE_MIN_SIDE { m } else { NE_BAKE_MIN_SIDE };
    if m <= NE_BAKE_MAX_SIDE { m } else { NE_BAKE_MAX_SIDE }
}

/// Longest side of a node-editor file bake for an export frame: the frame's
/// longest side, at least 256 and at most 512 (upscaled onto the page).
pub fn ne_bake_max_side(pixel_w: u32, pixel_h: u32) -> (m: u32)
    ensures
        m == spec_ne_bake_max_side(pixel_w, pixel_h),
        NE_BAKE_MIN_SIDE <= m <= NE_BAKE_MAX_SIDE,
{
    let m = if pixel_w >= pixel_h { pixel_w } else { pixel_h };
    let m = if m >= NE_BAKE_MIN_SIDE { m } else { NE_BAKE_MIN_SIDE };
    if m <= NE_BAKE_MAX_SIDE { m } else { NE_BAKE_MAX_SIDE }
}

/// Position of export frame `f` inside the animation cycle (a cycle of no
/// frames counts as one frame).
pub fn frame_in_cycle(f: usize, cycle_frame_count: usize) -> (r: usize)
    ensures
        cycle_frame_count == 0 ==> r == 0,
        cycle_frame_count > 0 ==> r == f % cycle_frame_count,
        r < (if cycle_frame_count == 0 { 1 } else { cycle_frame_count }),
{
    let cycle_len = if cycle_frame_count >= 1 { cycle_frame_count } else { 1 };
    f % cycle_len
}

/// Encoded frame size for a raster size: odd sides lose one pixel (the
/// encoder needs even sides); a zero side is an error.
pub fn even_frame_size(pixel_w: u32, pixel_h: u32) -> (r: Result<(u32, u32), String>)
    ensures
        r matches Ok((w, h)) ==> w == pixel_w - pixel_w % 2 && h == pixel_h - pixel_h % 2,
        r is Ok <==> (pixel_w - pixel_w % 2 != 0 && pixel_h - pixel_h % 2 != 0),
        r matches Err(e) ==> e@ == "Zero width or height for export"@,
{
    let w = if pixel_w % 2 != 0 { pixel_w - 1 } else { pixel_w };
    let h = if pixel_h % 2 != 0 { pixel_h - 1 } else { pixel_h };
    if w == 0 || h == 0 {
        Err(owned("Zero width or height for export"))
    } else {
        Ok((w, h))
    }
}

/// Whether frame `f` (counted from 0) gets a detailed timing report instead
/// of a plain progress event: the first three frames and every 30th.
pub fn wants_timing_report(f: usize) -> (r: bool)
    ensures
        r == (f < 3 || f % 30 == 0),
{
    f < 3 || f % 30 == 0
}

/// Final event of an export that ran to the end.
pub fn finished_event(success: bool, output_path: &str) -> (r: ExportWorkerEvent)
    ensures
        r matches ExportWorkerEvent::Finished { success: s, message } && s == success && message@
            == (if success {
            "Saved "@ + output_path@
        } else {
            "Export failed while writing output file."@
        }),
{
    if success {
        ExportWorkerEvent::Finished { success, message: concat2("Saved ", output_path) }
    } else {
        ExportWorkerEvent::Finished {
            success,
            message: owned("Export failed while writing output file."),
        }
    }
}

/// Final event of an export the user cancelled.
pub fn cancelled_event() -> (r: ExportWorkerEvent)
    ensures
        r matches ExportWorkerEvent::Finished { success, message } && !success && message@
            == cancelled_text(),
{
    ExportWorkerEvent::Finished { success: false, message: owned("Cancelled.") }
}

} // verus!
