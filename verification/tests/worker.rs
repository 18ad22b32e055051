use long_shot_rs::stitch::{BestMatch, GrayImage, MatchPlan, StitchError};
use long_shot_rs::types::{CaptureRegion, GuiCommand, InputEvent, RawFrame, WorkerEvent};
use long_shot_rs::worker::{Phase, Tick, Worker};

const MS: u64 = 1_000_000;
const REGION: CaptureRegion = CaptureRegion { x: 1, y: 2, width: 2, height: 100 };

fn frame(from: u32) -> RawFrame {
    let data = (0..800u32).map(|i| if i % 4 == 0 { (from + i / 8) as u8 } else { 9 }).collect();
    RawFrame { data, width: 2, height: 100, stride: 8 }
}

fn gradient(from: u32) -> Option<GrayImage> {
    let data = (0..200u32).map(|i| (from + i / 2) as u8).collect();
    Some(GrayImage { data, width: 2, height: 100 })
}

fn scroll() -> Option<InputEvent> {
    Some(InputEvent::ScrollDetected { direction: 1 })
}

fn started() -> Worker {
    let mut worker = Worker::new(REGION);
    worker.init_done();
    worker.initial_frame(&frame(0), gradient(0)).unwrap();
    worker.begin(0);
    assert_eq!(worker.phase(), Phase::Running);
    worker
}

#[test]
fn first_frame_is_shown() {
    let mut worker = Worker::new(REGION);
    assert_eq!(worker.region(), REGION);
    assert!(worker.preview().is_none());
    worker.init_done();
    let event = worker.initial_frame(&frame(0), gradient(0)).unwrap();
    assert_eq!(
        event,
        Some(WorkerEvent::ImageUpdated { data: frame(0).to_rgba(), width: 2, height: 100 }),
    );
    let mut worker = Worker::new(REGION);
    worker.init_done();
    assert_eq!(worker.initial_frame(&frame(0), None), Err(StitchError::Gradient));
    assert_eq!(worker.phase(), Phase::Ready);
}

#[test]
fn failed_start_is_the_only_report() {
    let mut worker = Worker::new(REGION);
    assert_eq!(
        worker.init_failed("no display"),
        Some(WorkerEvent::Error("Capture init failed: no display".to_string())),
    );
    assert_eq!(worker.phase(), Phase::Over);
    assert_eq!(worker.init_failed("again"), None);
    assert_eq!(worker.initial_capture_failed("late"), None);
    assert_eq!(worker.initial_frame(&frame(0), gradient(0)), Ok(None));
    worker.init_done();
    worker.begin(0);
    assert_eq!(worker.tick(false, 0), Tick::Stop);
    assert_eq!(worker.finish(), None);
    assert_eq!(worker.phase(), Phase::Over);
}

#[test]
fn completion_is_reported_once_and_last() {
    let mut worker = Worker::new(REGION);
    assert_eq!(worker.finish(), None);
    worker.init_done();
    assert_eq!(worker.phase(), Phase::First);
    assert_eq!(
        worker.initial_capture_failed("timeout"),
        Some(WorkerEvent::Error("Initial capture failed: timeout".to_string())),
    );
    worker.begin(0);
    assert_eq!(worker.finish(), None);
    // The next frame that comes is the first one of the image.
    let event = worker.frame_captured(&frame(0), gradient(0), None, 1).unwrap();
    assert!(event.is_some());
    assert_eq!(worker.tick(true, 2), Tick::Stop);
    assert_eq!(worker.phase(), Phase::Stopping);
    assert_eq!(worker.frame_captured(&frame(10), gradient(10), None, 3), Ok(None));
    assert_eq!(worker.finish(), Some(WorkerEvent::CaptureComplete));
    assert_eq!(worker.finish(), None);
    assert_eq!(worker.phase(), Phase::Over);
}

#[test]
fn scroll_leads_to_one_capture_after_settling() {
    let mut worker = started();
    assert_eq!(worker.tick(false, 1000 * MS), Tick::Idle);
    assert_eq!(worker.wait_millis(), 100);
    assert!(worker.on_input(scroll(), 1000 * MS));
    assert_eq!(worker.wait_millis(), 10);
    assert_eq!(worker.tick(false, 1080 * MS - 1), Tick::Idle);
    assert!(worker.on_input(scroll(), 1050 * MS));
    assert_eq!(worker.tick(false, 1080 * MS), Tick::Idle);
    assert_eq!(worker.tick(false, 1130 * MS), Tick::Capture);
    assert_eq!(worker.wait_millis(), 100);
    worker.capture_failed(1135 * MS);
    assert_eq!(worker.tick(false, 5000 * MS), Tick::Idle);
}

#[test]
fn captures_keep_their_interval() {
    let mut worker = started();
    worker.on_input(scroll(), 200 * MS);
    assert_eq!(worker.tick(false, 300 * MS), Tick::Capture);
    worker.capture_failed(310 * MS);
    worker.on_input(scroll(), 311 * MS);
    assert_eq!(worker.tick(false, 400 * MS), Tick::Idle);
    assert_eq!(worker.tick(false, 410 * MS), Tick::Capture);
}

#[test]
fn captures_come_no_faster_than_scrolls() {
    let mut worker = started();
    let mut captures: Vec<u64> = vec![];
    let mut scrolls = 0;
    for step in 0..400u64 {
        let now = 10 * step * MS;
        if step % 17 == 0 || step % 23 == 1 {
            worker.on_input(scroll(), now);
            scrolls += 1;
        }
        if worker.tick(false, now) == Tick::Capture {
            captures.push(now);
            worker.capture_failed(now);
        }
    }
    assert!(captures.len() > 10 && captures.len() <= scrolls);
    for pair in captures.windows(2) {
        assert!(pair[1] - pair[0] >= 100 * MS);
    }
}

#[test]
fn stitched_frames_are_shown() {
    let mut worker = started();
    let plan = worker.plan_match(&gradient(10).unwrap()).unwrap();
    assert!(matches!(plan, MatchPlan::Search { top: 15, .. }));
    let best = Some(BestMatch { y: 10, score: 900_000 });
    let event = worker.frame_captured(&frame(10), gradient(10), best, 5).unwrap().unwrap();
    match event {
        WorkerEvent::ImageUpdated { data, width, height } => {
            assert_eq!((width, height), (2, 110));
            assert_eq!(data.len(), 4 * 2 * 110);
            assert_eq!(data[8 * 109 + 2], 109);
        }
        other => panic!("{:?}", other),
    }
    let weak = Some(BestMatch { y: 10, score: 100_000 });
    assert_eq!(worker.frame_captured(&frame(20), gradient(20), weak, 6), Ok(None));
    assert_eq!(
        worker.frame_captured(&frame(30), gradient(30), None, 7),
        Err(StitchError::Match),
    );
}

#[test]
fn messages_may_end_the_work() {
    assert_eq!(started().tick(true, 0), Tick::Stop);
    for message in [Some(InputEvent::Shutdown), None] {
        let mut worker = started();
        assert!(!worker.on_input(message, 0));
        assert_eq!(worker.phase(), Phase::Stopping);
    }
    for command in [Some(GuiCommand::Shutdown), None] {
        let mut worker = started();
        assert!(!worker.on_command(command));
        assert_eq!(worker.phase(), Phase::Stopping);
    }
    let mut worker = started();
    assert!(worker.on_command(Some(GuiCommand::RequestSave)));
    assert_eq!(worker.phase(), Phase::Running);
    assert!(worker.preview().is_some());
}

#[test]
fn frames_are_searched_in_the_direction_of_the_scroll() {
    let mut worker = started();
    let best = Some(BestMatch { y: 10, score: 900_000 });
    worker.frame_captured(&frame(10), gradient(10), best, 5).unwrap();
    for (direction, first) in [(3, 15), (-2, 0), (0, 0)] {
        assert!(worker.on_input(Some(InputEvent::ScrollDetected { direction }), 9));
        match worker.plan_match(&gradient(20).unwrap()).unwrap() {
            MatchPlan::Search { top, .. } => assert_eq!(top, first),
            other => panic!("{:?}", other),
        }
    }
}

#[test]
fn capture_may_start_anew() {
    let mut worker = started();
    let other = CaptureRegion { x: 7, y: 8, width: 9, height: 10 };
    assert!(worker.on_command(Some(GuiCommand::StartCapture(other))));
    assert_eq!(worker.region(), other);
    assert!(worker.preview().is_none());
    assert_eq!(worker.stitcher().get_frame_count(), 0);
}
