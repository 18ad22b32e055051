use long_shot_rs::capture::{
    check_globals, flip_rows, selected_by_slurp, wanted_global, BufferFormat, BufferRequest,
    CaptureError, CaptureStep, CopyRequest, FrameCapture, FrameEvent, FrameState, Global,
    SelectError, CAPTURE_TIMEOUT,
};
use long_shot_rs::types::CaptureRegion;

const REGION: CaptureRegion = CaptureRegion { x: -3, y: 4, width: 50, height: 60 };

fn asked() -> FrameCapture {
    let mut capture = FrameCapture::new();
    assert!(capture.begin(&REGION, true, true).is_ok());
    capture
}

#[test]
fn globals_are_bound_by_interface() {
    assert_eq!(wanted_global("wl_shm", 7), Some((Global::Shm, 7)));
    assert_eq!(wanted_global("wl_output", 3), Some((Global::Output, 3)));
    assert_eq!(wanted_global("wl_output", 5), Some((Global::Output, 4)));
    assert_eq!(
        wanted_global("zwlr_screencopy_manager_v1", 9),
        Some((Global::ScreencopyManager, 3)),
    );
    assert_eq!(wanted_global("wl_seat", 1), None);
}

#[test]
fn missing_globals_are_reported_in_order() {
    assert_eq!(check_globals(false, false, 0), Err(CaptureError::NoShm));
    assert_eq!(check_globals(true, false, 0), Err(CaptureError::NoScreencopy));
    assert_eq!(check_globals(true, true, 0), Err(CaptureError::NoOutputs));
    assert_eq!(check_globals(true, true, 2), Ok(()));
    assert_eq!(CaptureError::NoShm.message(), "Compositor does not support wl_shm");
    assert_eq!(
        CaptureError::NoScreencopy.message(),
        "Compositor does not support wlr-screencopy-unstable-v1.\nThis protocol is typically \
         supported by wlroots-based compositors \n(Sway, Hyprland, etc.)",
    );
    assert_eq!(CaptureError::NoOutputs.message(), "No outputs found");
}

#[test]
fn capture_begins_with_a_clean_state() {
    let mut capture = FrameCapture {
        format: BufferFormat { format: 1, width: 2, height: 3, stride: 8 },
        state: FrameState::Failed,
        flags: 1,
    };
    let request = capture.begin(&REGION, true, true);
    assert_eq!(request, Ok(CopyRequest { cursor: 0, x: -3, y: 4, width: 50, height: 60 }));
    assert_eq!(capture.state, FrameState::Pending);
    assert_eq!(capture.format, BufferFormat::default());
    assert_eq!(capture.flags, 1);
    assert_eq!(capture.begin(&REGION, false, true), Err(CaptureError::NoOutput));
    assert_eq!(capture.begin(&REGION, true, false), Err(CaptureError::NoManager));
    assert_eq!(CaptureError::NoOutput.message(), "No output available");
    assert_eq!(CaptureError::NoManager.message(), "Screencopy manager not available");
}

#[test]
fn buffer_is_wanted_once_its_format_is_known() {
    let mut capture = asked();
    assert_eq!(capture.on_event(FrameEvent::BufferDone), None);
    assert_eq!(capture.state, FrameState::BufferDone);
    let mut capture = asked();
    let buffer = FrameEvent::Buffer { format: Some(1), width: 5, height: 6, stride: 20 };
    assert_eq!(capture.on_event(buffer), None);
    assert_eq!(
        capture.on_event(FrameEvent::BufferDone),
        Some(BufferRequest { size: 120, width: 5, height: 6, stride: 20, alpha: false }),
    );
}

#[test]
fn unknown_formats_are_ignored() {
    let mut capture = asked();
    for format in [Some(2), Some(0x34324241), None] {
        capture.on_event(FrameEvent::Buffer { format, width: 5, height: 6, stride: 20 });
        assert_eq!(capture.format, BufferFormat::default());
    }
    capture.on_event(FrameEvent::Buffer { format: Some(0), width: 5, height: 6, stride: 20 });
    let large = FrameEvent::Buffer { format: Some(0), width: 1, height: u32::MAX, stride: u32::MAX };
    assert_eq!(
        capture.on_event(FrameEvent::BufferDone),
        Some(BufferRequest { size: 120, width: 5, height: 6, stride: 20, alpha: true }),
    );
    capture.on_event(large);
    let request = capture.on_event(FrameEvent::BufferDone).unwrap();
    assert_eq!(request.size, u32::MAX as u64 * u32::MAX as u64);
}

#[test]
fn capture_ends_with_a_frame_or_an_error() {
    let mut capture = asked();
    assert_eq!(capture.next_step(0), CaptureStep::Wait);
    assert_eq!(capture.next_step(CAPTURE_TIMEOUT), CaptureStep::Wait);
    assert_eq!(
        capture.next_step(CAPTURE_TIMEOUT + 1),
        CaptureStep::Fail(CaptureError::TimedOut),
    );
    capture.on_event(FrameEvent::Ready);
    assert_eq!(capture.next_step(u64::MAX), CaptureStep::Extract);
    capture.on_event(FrameEvent::Failed);
    assert_eq!(capture.next_step(0), CaptureStep::Fail(CaptureError::Failed));
    let mut capture = asked();
    capture.buffer_failed();
    assert_eq!(capture.next_step(0), CaptureStep::Fail(CaptureError::Failed));
    assert_eq!(CaptureError::TimedOut.message(), "Frame capture timed out");
    assert_eq!(CaptureError::Failed.message(), "Frame capture failed");
}

#[test]
fn frame_is_taken_out_the_right_way_up() {
    let mut capture = asked();
    capture.on_event(FrameEvent::Buffer { format: Some(0), width: 1, height: 2, stride: 4 });
    let frame = capture.extract(Some(vec![1, 2, 3, 4, 5, 6, 7, 8])).unwrap();
    assert_eq!(frame.data, vec![1, 2, 3, 4, 5, 6, 7, 8]);
    assert_eq!((frame.width, frame.height, frame.stride), (1, 2, 4));
    capture.on_event(FrameEvent::Flags(None));
    capture.on_event(FrameEvent::Other);
    assert_eq!(capture.flags, 0);
    capture.on_event(FrameEvent::Flags(Some(3)));
    let frame = capture.extract(Some(vec![1, 2, 3, 4, 5, 6, 7, 8, 9])).unwrap();
    assert_eq!(frame.data, vec![5, 6, 7, 8, 1, 2, 3, 4, 0]);
    assert_eq!(capture.extract(None), Err(CaptureError::NoBuffer));
    assert_eq!(CaptureError::NoBuffer.message(), "No buffer data available");
}

#[test]
fn flipping_twice_changes_nothing() {
    let data: Vec<u8> = (0..60).collect();
    let once = flip_rows(&data, 12, 5);
    assert_eq!(&once[0..12], &data[48..60]);
    assert_eq!(&once[48..60], &data[0..12]);
    assert_eq!(flip_rows(&once, 12, 5), data);
}

#[test]
fn slurp_run_gives_a_region_or_an_error() {
    let region = selected_by_slurp(true, "1,2 3x4\n", "").unwrap();
    assert_eq!(region, CaptureRegion { x: 1, y: 2, width: 3, height: 4 });
    let error = selected_by_slurp(false, "1,2 3x4", "selection cancelled\n").unwrap_err();
    assert!(matches!(error, SelectError::Tool(_)));
    assert_eq!(error.message(), "slurp failed: selection cancelled\n");
    let error = selected_by_slurp(true, "nothing", "").unwrap_err();
    assert!(matches!(error, SelectError::Output(_)));
    assert_eq!(error.message(), "Invalid slurp output format: nothing");
}
