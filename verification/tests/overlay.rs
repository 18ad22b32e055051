use long_shot_rs::export::ExportError;
use long_shot_rs::overlay::{
    pool_size, whole_pixels, window_margin, OverlayAction, OverlayState, PointerInput, BUTTON_LEFT,
    BUTTON_RIGHT, COPY_COLOR, SAVE_COLOR,
};
use long_shot_rs::preview::{PreviewScale, Span};
use long_shot_rs::types::{CaptureRegion, WorkerEvent};

fn motion(x: i32, y: i32) -> PointerInput {
    PointerInput::Motion { x: 256 * x, y: 256 * y }
}

const PRESS: PointerInput = PointerInput::Press { button: BUTTON_LEFT };
const RELEASE: PointerInput = PointerInput::Release { button: BUTTON_LEFT };

#[test]
fn window_starts_waiting() {
    let s = OverlayState::new();
    assert_eq!((s.width, s.height), (200, 800));
    assert_eq!(s.status, "等待滚动...");
    assert!(s.running && !s.configured && s.image_data.is_none());
}

#[test]
fn worker_messages_change_the_status() {
    let mut s = OverlayState::new();
    s.process_worker_event(WorkerEvent::ImageUpdated { data: vec![1; 24], width: 2, height: 3 });
    assert_eq!(s.status, "帧数: 1 | 高度: 3px");
    assert_eq!((s.image_width, s.image_height, s.total_height), (2, 3, 3));
    s.process_worker_event(WorkerEvent::Status("working".to_string()));
    assert_eq!(s.status, "working");
    s.process_worker_event(WorkerEvent::Error("broken".to_string()));
    assert_eq!(s.status, "错误: broken");
    s.process_worker_event(WorkerEvent::ImageUpdated { data: vec![2; 32], width: 2, height: 4 });
    s.process_worker_event(WorkerEvent::CaptureComplete);
    assert_eq!(s.status, "捕获完成 - 2 帧, 4px");
    assert_eq!(s.image_data, Some(vec![2; 32]));
    assert!(s.running);
    s.close();
    assert!(!s.running);
}

#[test]
fn compositor_sets_the_size() {
    let mut s = OverlayState::new();
    s.configure(0, 1080);
    assert_eq!((s.width, s.height, s.configured), (200, 1080, true));
    s.configure(300, 0);
    assert_eq!((s.width, s.height), (300, 1080));
}

#[test]
fn buttons_ask_for_their_actions() {
    for (x, y, action) in [
        (10, 10, Some(OverlayAction::Save)),
        (53, 53, Some(OverlayAction::Save)),
        (54, 53, None),
        (64, 10, Some(OverlayAction::Copy)),
        (107, 53, Some(OverlayAction::Copy)),
        (118, 30, Some(OverlayAction::Cancel)),
        (161, 30, Some(OverlayAction::Cancel)),
        (162, 30, None),
        (30, 54, None),
    ] {
        let mut s = OverlayState::new();
        assert_eq!(s.pointer_input(motion(x, y)), None);
        assert_eq!(s.pointer_input(PRESS), action, "{} {}", x, y);
        assert_eq!(s.running, action.is_none());
    }
}

#[test]
fn other_buttons_of_the_mouse_do_nothing() {
    let mut s = OverlayState::new();
    s.pointer_input(motion(20, 20));
    assert_eq!(s.pointer_input(PointerInput::Press { button: BUTTON_RIGHT }), None);
    assert_eq!(s.pointer_input(PointerInput::Release { button: BUTTON_RIGHT }), None);
    assert_eq!(s.pointer_input(PointerInput::Other), None);
    assert!(s.running);
    assert_eq!(s.pointer_input(RELEASE), Some(OverlayAction::Save));
}

#[test]
fn dragging_scrolls_the_preview() {
    let mut s = OverlayState::new();
    s.pointer_input(motion(50, 100));
    assert_eq!(s.pointer_input(PRESS), None);
    assert!(s.pointer.is_dragging);
    s.pointer_input(motion(50, 140));
    assert_eq!(s.pointer.scroll_offset, 40);
    s.pointer_input(PointerInput::Motion { x: 0, y: 256 * 70 + 200 });
    assert_eq!(s.pointer.scroll_offset, 0);
    s.pointer_input(PointerInput::Motion { x: 0, y: 256 * 130 + 200 });
    assert_eq!(s.pointer.scroll_offset, 30);
    assert_eq!(s.pointer_input(RELEASE), None);
    assert!(!s.pointer.is_dragging);
    s.pointer_input(motion(50, 100));
    assert_eq!(s.pointer.scroll_offset, 30);
    s.pointer_input(PRESS);
    s.pointer_input(motion(50, 105));
    assert_eq!(s.pointer.scroll_offset, 35);
}

#[test]
fn releasing_a_drag_on_a_button_is_no_click() {
    let mut s = OverlayState::new();
    s.pointer_input(motion(20, 61));
    s.pointer_input(PRESS);
    s.pointer_input(motion(20, 50));
    assert_eq!(s.pointer_input(RELEASE), None);
    assert!(s.running);
    // Without a movement of five pixels it is one.
    s.pointer.is_dragging = true;
    s.pointer.drag_start_y = 256 * 50;
    s.pointer_input(PointerInput::Motion { x: 256 * 20, y: 256 * 45 + 1 });
    assert_eq!(s.pointer_input(RELEASE), Some(OverlayAction::Save));
}

#[test]
fn pointer_coordinates_are_cut_towards_zero() {
    assert_eq!(whole_pixels(255), 0);
    assert_eq!(whole_pixels(256), 1);
    assert_eq!(whole_pixels(-255), 0);
    assert_eq!(whole_pixels(-257), -1);
    assert_eq!(whole_pixels(i64::MIN), i64::MIN / 256);
    for fixed in [-70000i64, -1, 0, 3, 70000] {
        assert_eq!(whole_pixels(fixed), (fixed as f64 / 256.0) as i64);
    }
}

#[test]
fn window_is_drawn() {
    let mut s = OverlayState::new();
    s.configure(200, 80);
    let scale = PreviewScale {
        scaled_height: 2,
        columns: (0..190).map(|i| Span { start: i / 95, end: i / 95 + 1 }).collect(),
        rows: vec![Span { start: 0, end: 1 }, Span { start: 1, end: 2 }],
    };
    let mut canvas = vec![9u8; 4 * 200 * 80];
    s.draw(&mut canvas, &scale);
    let at = |c: &[u8], x: usize, y: usize| c[4 * (200 * y + x)..4 * (200 * y + x) + 4].to_vec();
    assert_eq!(at(&canvas, 0, 0), vec![0, 0, 0, 0]);
    assert_eq!(at(&canvas, 30, 10), SAVE_COLOR.to_vec());
    assert_eq!(at(&canvas, 90, 12), COPY_COLOR.to_vec());
    assert_eq!(at(&canvas, 30, 16), vec![45, 45, 45, 220]);
    assert_eq!(at(&canvas, 24, 25), vec![255, 255, 255, 255]);
    assert_eq!(at(&canvas, 100, 61), vec![0, 0, 0, 0]);
    s.process_worker_event(WorkerEvent::ImageUpdated { data: vec![8; 16], width: 2, height: 2 });
    s.draw(&mut canvas, &scale);
    assert_eq!(at(&canvas, 100, 61), vec![0, 0, 255, 255]);
}

#[test]
fn window_stands_beside_the_region() {
    let region = CaptureRegion { x: 100, y: 0, width: 300, height: 5 };
    assert_eq!(window_margin(&region), Some(410));
    let far = CaptureRegion { x: 100, y: 0, width: u32::MAX, height: 5 };
    assert_eq!(window_margin(&far), None);
    assert_eq!(pool_size(200, 800), Some(1_280_000));
    assert_eq!(pool_size(u32::MAX, u32::MAX), None);
}

#[test]
fn window_gives_its_image_for_saving() {
    let mut s = OverlayState::new();
    assert_eq!(s.image_to_save(), Err(ExportError::NoImage));
    s.process_worker_event(WorkerEvent::ImageUpdated { data: vec![7; 24], width: 2, height: 3 });
    assert_eq!(s.image_to_save(), Ok(vec![7; 24]));
    s.process_worker_event(WorkerEvent::ImageUpdated { data: vec![7; 23], width: 2, height: 3 });
    assert_eq!(s.image_to_save(), Err(ExportError::Buffer));
}
