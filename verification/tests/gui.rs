use long_shot_rs::gui::{Failure, LongShotApp};
use long_shot_rs::types::WorkerEvent;

fn updated(bytes: usize, width: u32, height: u32) -> WorkerEvent {
    WorkerEvent::ImageUpdated { data: vec![3; bytes], width, height }
}

#[test]
fn application_starts_ready() {
    let app = LongShotApp::new();
    assert_eq!(app.status, "Ready - Scroll to capture");
    assert!(app.is_capturing);
    assert!(!app.can_export());
    assert_eq!(app.activity_label(), "● Capturing");
    assert_eq!(app.size_label(), None);
    assert_eq!(app.saved_label(), None);
}

#[test]
fn application_follows_the_worker() {
    let mut app = LongShotApp::new();
    assert!(app.process_event(updated(24, 2, 3)));
    assert_eq!(app.status, "Frames: 1 | Height: 3px");
    assert_eq!(app.size_label(), Some("Size: 2×3".to_string()));
    assert!(app.can_export());
    assert!(!app.process_event(WorkerEvent::Status("busy".to_string())));
    assert_eq!(app.status, "busy");
    assert!(!app.process_event(WorkerEvent::Error("oops".to_string())));
    assert_eq!(app.error_msg, Some("oops".to_string()));
    assert_eq!(app.status, "busy");
    app.dismiss_error();
    assert_eq!(app.error_msg, None);
    assert!(!app.process_event(WorkerEvent::CaptureComplete));
    assert_eq!(app.status, "Capture complete - 1 frames, 3px height");
    assert_eq!(app.activity_label(), "○ Idle");
    app.process_event(updated(0, 0, u32::MAX));
    assert_eq!(app.total_height, -1);
    assert_eq!(app.status, "Frames: 2 | Height: -1px");
}

#[test]
fn application_saves_its_image() {
    let mut app = LongShotApp::new();
    assert_eq!(app.image_to_save(), None);
    assert_eq!(app.error_msg, Some("No image to save".to_string()));
    app.dismiss_error();
    app.process_event(updated(24, 2, 3));
    assert_eq!(app.image_to_save(), Some((vec![3; 24], 2, 3)));
    assert_eq!(app.error_msg, None);
    app.saved("/tmp/a.png");
    assert_eq!(app.status, "Saved to: /tmp/a.png");
    assert_eq!(app.saved_label(), Some("Last saved: /tmp/a.png".to_string()));
    app.process_event(updated(23, 2, 3));
    assert_eq!(app.image_to_save(), None);
    assert_eq!(app.error_msg, Some("Failed to create image buffer".to_string()));
    app.failed(Failure::Save, "disk full");
    assert_eq!(app.error_msg, Some("Save failed: disk full".to_string()));
}

#[test]
fn application_copies_its_image() {
    let mut app = LongShotApp::new();
    assert!(!app.may_copy());
    assert_eq!(app.error_msg, Some("No image to copy".to_string()));
    app.process_event(updated(4, 1, 1));
    app.dismiss_error();
    assert!(app.may_copy());
    assert_eq!(app.error_msg, None);
    app.copied();
    assert_eq!(app.status, "Image copied to clipboard!");
    app.failed(Failure::Copy, "x");
    assert_eq!(app.error_msg, Some("Clipboard error: x".to_string()));
    app.failed(Failure::Clipboard, "y");
    assert_eq!(app.error_msg, Some("Cannot access clipboard: y".to_string()));
}
