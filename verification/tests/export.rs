use std::sync::atomic::{AtomicBool, Ordering};
use vadadee_doc::export_job::{
    cancel_check, cancelled_event, encoder_threads, even_frame_size, export_cancelled, finished_event,
    frame_in_cycle, ne_bake_max_side, phase_change_event, wants_timing_report, ExportJobConfig,
    ExportPhase, ExportWorkerEvent,
};
use vadadee_doc::export_types::{ExportBackground, ExportPowerLevel, VideoFormat};

#[test]
fn cancellation() {
    let flag = AtomicBool::new(false);
    assert!(!export_cancelled(&flag));
    flag.store(true, Ordering::Relaxed);
    assert!(export_cancelled(&flag));
    assert_eq!(cancel_check(false), Ok(()));
    assert_eq!(cancel_check(true), Err("Cancelled.".to_string()));
    match cancelled_event() {
        ExportWorkerEvent::Finished { success, message } => {
            assert!(!success);
            assert_eq!(message, "Cancelled.");
        }
        other => panic!("unexpected {other:?}"),
    }
}

#[test]
fn phase_events() {
    assert!(phase_change_event(ExportPhase::Encoding, ExportPhase::Encoding).is_none());
    match phase_change_event(ExportPhase::Preparing, ExportPhase::Encoding) {
        Some(ExportWorkerEvent::Phase(p)) => assert_eq!(p, ExportPhase::Encoding),
        other => panic!("unexpected {other:?}"),
    }
}

#[test]
fn worker_numbers() {
    assert_eq!(encoder_threads(ExportPowerLevel::PowerSaving), 1);
    assert_eq!(encoder_threads(ExportPowerLevel::FullPower), 0);
    assert_eq!(ne_bake_max_side(100, 50), 256);
    assert_eq!(ne_bake_max_side(300, 400), 400);
    assert_eq!(ne_bake_max_side(1920, 1080), 512);
    assert_eq!(frame_in_cycle(7, 3), 1);
    assert_eq!(frame_in_cycle(7, 0), 0);
    assert_eq!(frame_in_cycle(2, 10), 2);
    assert_eq!(even_frame_size(1921, 1080), Ok((1920, 1080)));
    assert_eq!(even_frame_size(1, 1080), Err("Zero width or height for export".to_string()));
    assert_eq!(even_frame_size(0, 0), Err("Zero width or height for export".to_string()));
    assert!(wants_timing_report(0) && wants_timing_report(2) && wants_timing_report(60));
    assert!(!wants_timing_report(3) && !wants_timing_report(31));
}

#[test]
fn finished_messages() {
    match finished_event(true, "/tmp/out.mp4") {
        ExportWorkerEvent::Finished { success, message } => {
            assert!(success);
            assert_eq!(message, "Saved /tmp/out.mp4");
        }
        other => panic!("unexpected {other:?}"),
    }
    match finished_event(false, "/tmp/out.mp4") {
        ExportWorkerEvent::Finished { success, message } => {
            assert!(!success);
            assert_eq!(message, "Export failed while writing output file.");
        }
        other => panic!("unexpected {other:?}"),
    }
}

#[test]
fn job_config_holds_settings() {
    let c = ExportJobConfig {
        output_path: "/tmp/o.mp4".to_string(),
        work_dir: "/tmp/w".to_string(),
        fps: 30,
        resolution_pct: 100,
        bitrate_kbps: 8000,
        format: VideoFormat::Mp4,
        power: ExportPowerLevel::FullPower,
        total_frames: 90,
        anim_fps: 24,
        max_anim_frame: 72,
        cycle_frame_count: 90,
        export_cycles: 1,
    };
    let d = c.clone();
    assert_eq!(d.output_path, "/tmp/o.mp4");
    assert_eq!(d.total_frames, 90);
    assert_ne!(ExportBackground::Page, ExportBackground::Transparent);
}
