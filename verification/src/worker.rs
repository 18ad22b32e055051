//! The worker: when to capture a frame, and what to tell the display of it.

use crate::export::image_fits;
use crate::stitch::{
    match_plan, picture_of, stitch_step, BestMatch, GrayImage, ImageStitcher, MatchPlan, Plan,
    StitchError, Stitching,
};
use crate::types::{
    default_params, swapped, CaptureRegion, GuiCommand, InputEvent, RawFrame, StitchParams,
    WorkerEvent,
};
use vstd::prelude::*;

verus! {

/// The least time between two captures, in nanoseconds.
pub const MIN_CAPTURE_INTERVAL: u64 = 100_000_000;

/// How long after a scroll the screen takes to settle, in nanoseconds.
pub const SCROLL_SETTLE_DELAY: u64 = 80_000_000;

/// How long to wait for messages while a capture is due, in milliseconds.
pub const PENDING_WAIT_MS: u64 = 10;

/// How long to wait for messages otherwise, in milliseconds.
pub const IDLE_WAIT_MS: u64 = 100;

/// Whether a capture is due, since when, and in which direction the user last
/// scrolled, down where it is positive; times count nanoseconds from a fixed
/// moment.
#[derive(Debug, Clone, Copy, PartialEq, Eq, Structural)]
pub struct Pace {
    pub pending: bool,
    pub direction: i32,
    pub last_scroll: u64,
    pub last_capture: u64,
}

impl Pace {
    /// Whether to capture now: there was a scroll since the last capture, the
    /// screen has settled, and the last capture is not too recent.
    pub open spec fn due(self, now: u64) -> bool {
        &&& self.pending
        &&& now - self.last_scroll >= SCROLL_SETTLE_DELAY
        &&& now - self.last_capture >= MIN_CAPTURE_INTERVAL
    }

    /// Before anything happened.
    pub open spec fn at(now: u64) -> Pace {
        Pace { pending: false, direction: 0, last_scroll: now, last_capture: now }
    }

    /// After a scroll.
    pub open spec fn scrolled(self, direction: i32, now: u64) -> Pace {
        Pace { pending: true, direction, last_scroll: now, ..self }
    }

    /// After a look at the clock.
    pub open spec fn ticked(self, now: u64) -> Pace {
        Pace { pending: self.pending && !self.due(now), ..self }
    }

    /// After a capture, or an attempt at one.
    pub open spec fn captured(self, now: u64) -> Pace {
        Pace { last_capture: now, ..self }
    }
}

/// What to do at a look at the clock.
#[derive(Debug, Clone, Copy, PartialEq, Eq, Structural)]
pub enum Tick {
    /// End the work.
    Stop,
    /// Capture a frame, and wait for messages afterwards.
    Capture,
    /// Wait for messages.
    Idle,
}

/// How far a run of the worker has come.
#[derive(Debug, Clone, Copy, PartialEq, Eq, Structural)]
pub enum Phase {
    /// Nothing can be captured yet.
    Starting,
    /// The first frame is to be captured.
    First,
    /// The clock is to be started.
    Ready,
    /// Scrolls lead to captures.
    Running,
    /// The work is to be ended.
    Stopping,
    /// Nothing more happens.
    Over,
}

/// What may happen in a run, as far as its phases go.
#[derive(Debug, Clone, Copy, PartialEq, Eq, Structural)]
pub enum RunStep {
    /// Frames cannot be captured at all.
    StartFailed,
    /// Frames can be captured.
    Started,
    /// The first frame came; whether there is an image to show.
    FirstFrame(bool),
    /// The first frame could not be captured.
    FirstFailed,
    /// The clock was started.
    Began,
    /// A later frame came; whether there is an image to show.
    Frame(bool),
    /// The work was told to end.
    Stopped,
    /// The work was ended.
    Finished,
}

/// What the display is told.
#[derive(Debug, Clone, Copy, PartialEq, Eq, Structural)]
pub enum Report {
    Image,
    Error,
    Complete,
}

/// The phase after a step; a step that does not belong to a phase leaves it as
/// it is.
pub open spec fn next_phase(phase: Phase, step: RunStep) -> Phase {
    match (phase, step) {
        (Phase::Starting, RunStep::StartFailed) => Phase::Over,
        (Phase::Starting, RunStep::Started) => Phase::First,
        (Phase::First, RunStep::FirstFrame(_)) => Phase::Ready,
        (Phase::First, RunStep::FirstFailed) => Phase::Ready,
        (Phase::Ready, RunStep::Began) => Phase::Running,
        (Phase::Running, RunStep::Stopped) => Phase::Stopping,
        (Phase::Stopping, RunStep::Finished) => Phase::Over,
        _ => phase,
    }
}

/// What the display is told of a step; of one that does not belong to the
/// phase, nothing.
pub open spec fn report_of(phase: Phase, step: RunStep) -> Option<Report> {
    match (phase, step) {
        (Phase::Starting, RunStep::StartFailed) => Some(Report::Error),
        (Phase::First, RunStep::FirstFrame(true)) => Some(Report::Image),
        (Phase::First, RunStep::FirstFailed) => Some(Report::Error),
        (Phase::Running, RunStep::Frame(true)) => Some(Report::Image),
        (Phase::Stopping, RunStep::Finished) => Some(Report::Complete),
        _ => None,
    }
}

/// What an event tells the display.
pub open spec fn report_in(event: Option<WorkerEvent>) -> Option<Report> {
    match event {
        Some(WorkerEvent::ImageUpdated { .. }) => Some(Report::Image),
        Some(WorkerEvent::Error(_)) => Some(Report::Error),
        Some(WorkerEvent::CaptureComplete) => Some(Report::Complete),
        _ => None,
    }
}

/// The state of the worker.
pub struct WorkerModel {
    pub phase: Phase,
    pub region: CaptureRegion,
    pub stitching: Stitching,
    pub pace: Pace,
}

/// The worker: how far it has come, the region that it captures, the image
/// stitched so far, and what is due.
pub struct Worker {
    phase: Phase,
    region: CaptureRegion,
    stitcher: ImageStitcher,
    pace: Pace,
}

impl View for Worker {
    type V = WorkerModel;

    closed spec fn view(&self) -> WorkerModel {
        WorkerModel {
            phase: self.phase,
            region: self.region,
            stitching: self.stitcher@,
            pace: self.pace,
        }
    }
}

/// The event shows the image stitched so far; without an image there is no
/// event.
pub open spec fn shows(event: Option<WorkerEvent>, s: Stitching) -> bool {
    match s.image {
        Some(i) => event matches Some(WorkerEvent::ImageUpdated { data, width, height }) && data@
            == swapped(i.data) && width == i.width && height == i.height,
        None => event is None,
    }
}

impl WorkerModel {
    /// The state after a step that only concerns the phase.
    pub open spec fn stepped(self, step: RunStep) -> WorkerModel {
        WorkerModel { phase: next_phase(self.phase, step), ..self }
    }
}

impl Worker {
    /// The state of the stitching is consistent.
    pub open spec fn wf(self) -> bool {
        self@.stitching.wf()
    }

    /// A worker for a region, with the default parameters.
    pub fn new(region: CaptureRegion) -> (r: Worker)
        ensures
            r.wf(),
            r@ == (WorkerModel {
                phase: Phase::Starting,
                region,
                stitching: Stitching::fresh(default_params()),
                pace: Pace::at(0),
            }),
    {
        Worker {
            phase: Phase::Starting,
            region,
            stitcher: ImageStitcher::new(StitchParams::default()),
            pace: Pace { pending: false, direction: 0, last_scroll: 0, last_capture: 0 },
        }
    }

    /// How far the run has come.
    pub fn phase(&self) -> (r: Phase)
        ensures
            r == self@.phase,
    {
        self.phase
    }

    /// The region to capture.
    pub fn region(&self) -> (r: CaptureRegion)
        ensures
            r == self@.region,
    {
        self.region
    }

    /// The stitcher.
    pub fn stitcher(&self) -> (r: &ImageStitcher)
        requires
            self.wf(),
        ensures
            r.wf(),
            r@ == self@.stitching,
    {
        &self.stitcher
    }

    /// What to look for when the next frame has the given gradient image.
    pub fn plan_match(&self, gradient: &GrayImage) -> (r: Result<MatchPlan, StitchError>)
        requires
            self.wf(),
            gradient@.wf(1),
        ensures
            match r {
                Ok(plan) => match_plan(self@.stitching, gradient@, self@.pace.direction as int)
                    == Ok::<Plan, StitchError>(plan@),
                Err(e) => match_plan(self@.stitching, gradient@, self@.pace.direction as int)
                    == Err::<Plan, StitchError>(e),
            },
            r matches Ok(MatchPlan::Search { template, region, .. }) ==> template@.wf(1)
                && region@.wf(1),
    {
        self.stitcher.plan_match(gradient, self.pace.direction)
    }

    /// Records that frames cannot be captured at all: the run is over.  Returns
    /// what to tell the display, if the run has just started.
    pub fn init_failed(&mut self, error: &str) -> (r: Option<WorkerEvent>)
        requires
            old(self).wf(),
        ensures
            final(self).wf(),
            final(self)@ == old(self)@.stepped(RunStep::StartFailed),
            report_in(r) == report_of(old(self)@.phase, RunStep::StartFailed),
            r is Some <==> old(self)@.phase == Phase::Starting,
            r matches Some(event) ==> (event matches WorkerEvent::Error(text) && text@
                == "Capture init failed: "@ + error@),
    {
        match self.phase {
            Phase::Starting => {
                self.phase = Phase::Over;
                Some(WorkerEvent::Error("Capture init failed: ".to_string().concat(error)))
            },
            _ => None,
        }
    }

    /// Records that frames can be captured.
    pub fn init_done(&mut self)
        requires
            old(self).wf(),
        ensures
            final(self).wf(),
            final(self)@ == old(self)@.stepped(RunStep::Started),
    {
        match self.phase {
            Phase::Starting => {
                self.phase = Phase::First;
            },
            _ => {},
        }
    }

    /// Records that the first frame could not be captured.  Returns what to
    /// tell the display, if the first frame was due.
    pub fn initial_capture_failed(&mut self, error: &str) -> (r: Option<WorkerEvent>)
        requires
            old(self).wf(),
        ensures
            final(self).wf(),
            final(self)@ == old(self)@.stepped(RunStep::FirstFailed),
            report_in(r) == report_of(old(self)@.phase, RunStep::FirstFailed),
            r is Some <==> old(self)@.phase == Phase::First,
            r matches Some(event) ==> (event matches WorkerEvent::Error(text) && text@
                == "Initial capture failed: "@ + error@),
    {
        match self.phase {
            Phase::First => {
                self.phase = Phase::Ready;
                Some(WorkerEvent::Error("Initial capture failed: ".to_string().concat(error)))
            },
            _ => None,
        }
    }

    /// Takes in the first frame, if it is due; returns what to show of it.
    pub fn initial_frame(&mut self, frame: &RawFrame, gradient: Option<GrayImage>) -> (r: Result<
        Option<WorkerEvent>,
        StitchError,
    >)
        requires
            old(self).wf(),
        ensures
            final(self).wf(),
            if old(self)@.phase == Phase::First {
                let (after, report) = stitch_step(
                    old(self)@.stitching,
                    *frame,
                    picture_of(gradient),
                    0,
                    None,
                );
                &&& final(self)@ == (WorkerModel {
                    phase: Phase::Ready,
                    stitching: after,
                    ..old(self)@
                })
                &&& match report {
                    Err(e) => r matches Err(f) && f == e,
                    Ok(_) => r matches Ok(event) && shows(event, after),
                }
            } else {
                &&& final(self)@ == old(self)@
                &&& r matches Ok(event)
                &&& event is None
            },
            final(self)@.phase == next_phase(
                old(self)@.phase,
                RunStep::FirstFrame(r matches Ok(event) && event is Some),
            ),
            r matches Ok(event) ==> report_in(event) == report_of(
                old(self)@.phase,
                RunStep::FirstFrame(event is Some),
            ),
    {
        match self.phase {
            Phase::First => {},
            _ => return Ok(None),
        }
        self.phase = Phase::Ready;
        match self.stitcher.process_frame(frame, gradient, 0, None) {
            Err(e) => Err(e),
            Ok(_) => Ok(self.preview()),
        }
    }

    /// Starts the clock, after the first frame.
    pub fn begin(&mut self, now: u64)
        requires
            old(self).wf(),
        ensures
            final(self).wf(),
            final(self)@ == (if old(self)@.phase == Phase::Ready {
                WorkerModel { phase: Phase::Running, pace: Pace::at(now), ..old(self)@ }
            } else {
                old(self)@
            }),
            final(self)@.phase == next_phase(old(self)@.phase, RunStep::Began),
    {
        match self.phase {
            Phase::Ready => {
                self.phase = Phase::Running;
                self.pace = Pace {
                    pending: false,
                    direction: 0,
                    last_scroll: now,
                    last_capture: now,
                };
            },
            _ => {},
        }
    }

    /// Ends the work, if it is running.
    fn stop(&mut self)
        requires
            old(self).wf(),
        ensures
            final(self).wf(),
            final(self)@ == old(self)@.stepped(RunStep::Stopped),
    {
        match self.phase {
            Phase::Running => {
                self.phase = Phase::Stopping;
            },
            _ => {},
        }
    }

    /// What to do now.
    pub fn tick(&mut self, shutdown: bool, now: u64) -> (r: Tick)
        requires
            old(self).wf(),
        ensures
            final(self).wf(),
            r == (if shutdown || old(self)@.phase != Phase::Running {
                Tick::Stop
            } else if old(self)@.pace.due(now) {
                Tick::Capture
            } else {
                Tick::Idle
            }),
            final(self)@ == (if r == Tick::Stop {
                old(self)@.stepped(RunStep::Stopped)
            } else {
                WorkerModel { pace: old(self)@.pace.ticked(now), ..old(self)@ }
            }),
    {
        if shutdown || self.phase != Phase::Running {
            self.stop();
            return Tick::Stop;
        }
        let pace: Pace = self.pace;
        if pace.pending && now >= pace.last_scroll && now - pace.last_scroll
            >= SCROLL_SETTLE_DELAY && now >= pace.last_capture && now - pace.last_capture
            >= MIN_CAPTURE_INTERVAL {
            self.pace = Pace { pending: false, ..pace };
            Tick::Capture
        } else {
            Tick::Idle
        }
    }

    /// How many milliseconds to wait for messages.
    pub fn wait_millis(&self) -> (r: u64)
        ensures
            r == (if self@.pace.pending {
                10u64
            } else {
                100
            }),
    {
        if self.pace.pending {
            PENDING_WAIT_MS
        } else {
            IDLE_WAIT_MS
        }
    }

    /// Takes in a captured frame, while the work is running; returns what to
    /// show of it, if the image changed.
    pub fn frame_captured(
        &mut self,
        frame: &RawFrame,
        gradient: Option<GrayImage>,
        best: Option<BestMatch>,
        now: u64,
    ) -> (r: Result<Option<WorkerEvent>, StitchError>)
        requires
            old(self).wf(),
        ensures
            final(self).wf(),
            if old(self)@.phase == Phase::Running {
                let (after, report) = stitch_step(
                    old(self)@.stitching,
                    *frame,
                    picture_of(gradient),
                    old(self)@.pace.direction as int,
                    best,
                );
                &&& final(self)@ == (WorkerModel {
                    stitching: after,
                    pace: old(self)@.pace.captured(now),
                    ..old(self)@
                })
                &&& match report {
                    Err(e) => r matches Err(f) && f == e,
                    Ok(true) => r matches Ok(event) && shows(event, after),
                    Ok(false) => r matches Ok(event) && event is None,
                }
            } else {
                &&& final(self)@ == old(self)@
                &&& r matches Ok(event)
                &&& event is None
            },
            final(self)@.phase == next_phase(
                old(self)@.phase,
                RunStep::Frame(r matches Ok(event) && event is Some),
            ),
            r matches Ok(event) ==> report_in(event) == report_of(
                old(self)@.phase,
                RunStep::Frame(event is Some),
            ),
    {
        match self.phase {
            Phase::Running => {},
            _ => return Ok(None),
        }
        let direction: i32 = self.pace.direction;
        self.pace = Pace { last_capture: now, ..self.pace };
        match self.stitcher.process_frame(frame, gradient, direction, best) {
            Err(e) => Err(e),
            Ok(true) => Ok(self.preview()),
            Ok(false) => Ok(None),
        }
    }

    /// Records that a frame could not be captured.
    pub fn capture_failed(&mut self, now: u64)
        requires
            old(self).wf(),
        ensures
            final(self).wf(),
            final(self)@ == (WorkerModel { pace: old(self)@.pace.captured(now), ..old(self)@ }),
    {
        self.pace = Pace { last_capture: now, ..self.pace };
    }

    /// Takes in a message from the input side, or that none will come any
    /// more; returns whether to go on.
    pub fn on_input(&mut self, message: Option<InputEvent>, now: u64) -> (r: bool)
        requires
            old(self).wf(),
        ensures
            final(self).wf(),
            match message {
                Some(InputEvent::ScrollDetected { direction }) => r && final(self)@ == (
                WorkerModel { pace: old(self)@.pace.scrolled(direction, now), ..old(self)@ }),
                _ => !r && final(self)@ == old(self)@.stepped(RunStep::Stopped),
            },
            message matches Some(InputEvent::ScrollDetected { direction }) ==> {
                &&& final(self)@.pace.pending
                &&& final(self)@.pace.direction == direction
                &&& final(self)@.pace.last_scroll == now
                &&& final(self)@.pace.last_capture == old(self)@.pace.last_capture
            },
    {
        match message {
            Some(InputEvent::ScrollDetected { direction }) => {
                self.pace = Pace { pending: true, direction, last_scroll: now, ..self.pace };
                true
            },
            Some(InputEvent::Shutdown) => {
                self.stop();
                false
            },
            None => {
                self.stop();
                false
            },
        }
    }

    /// Takes in a command of the display, or that none will come any more;
    /// returns whether to go on.
    pub fn on_command(&mut self, command: Option<GuiCommand>) -> (r: bool)
        requires
            old(self).wf(),
        ensures
            final(self).wf(),
            match command {
                Some(GuiCommand::StartCapture(region)) => r && final(self)@ == (WorkerModel {
                    region,
                    stitching: Stitching::fresh(old(self)@.stitching.params),
                    ..old(self)@
                }),
                Some(GuiCommand::RequestSave) => r && final(self)@ == old(self)@,
                _ => !r && final(self)@ == old(self)@.stepped(RunStep::Stopped),
            },
    {
        match command {
            Some(GuiCommand::StartCapture(region)) => {
                self.region = region;
                self.stitcher.reset();
                true
            },
            Some(GuiCommand::RequestSave) => true,
            Some(GuiCommand::Shutdown) => {
                self.stop();
                false
            },
            None => {
                self.stop();
                false
            },
        }
    }

    /// Ends the run, if the work was told to end; returns what to tell the
    /// display.
    pub fn finish(&mut self) -> (r: Option<WorkerEvent>)
        requires
            old(self).wf(),
        ensures
            final(self).wf(),
            final(self)@ == old(self)@.stepped(RunStep::Finished),
            report_in(r) == report_of(old(self)@.phase, RunStep::Finished),
            r is Some <==> old(self)@.phase == Phase::Stopping,
            r matches Some(event) ==> event is CaptureComplete,
    {
        match self.phase {
            Phase::Stopping => {
                self.phase = Phase::Over;
                Some(WorkerEvent::CaptureComplete)
            },
            _ => None,
        }
    }

    /// What to show of the image stitched so far.
    pub fn preview(&self) -> (r: Option<WorkerEvent>)
        requires
            self.wf(),
        ensures
            shows(r, self@.stitching),
            r is Some <==> self@.stitching.image is Some,
    {
        match self.stitcher.get_result_rgba() {
            Some((data, width, height)) => Some(WorkerEvent::ImageUpdated { data, width, height }),
            None => None,
        }
    }
}

/// The phase after a run of steps.
pub open spec fn phase_after(steps: Seq<RunStep>) -> Phase
    decreases steps.len(),
{
    if steps.len() == 0 {
        Phase::Starting
    } else {
        next_phase(phase_after(steps.drop_last()), steps.last())
    }
}

/// What the display is told in a run of steps.
pub open spec fn reports(steps: Seq<RunStep>) -> Seq<Report>
    decreases steps.len(),
{
    if steps.len() == 0 {
        seq![]
    } else {
        let before = reports(steps.drop_last());
        match report_of(phase_after(steps.drop_last()), steps.last()) {
            Some(report) => before.push(report),
            None => before,
        }
    }
}

/// Frames could be captured in a run: that came before a failure to start.
pub open spec fn initialised(steps: Seq<RunStep>) -> bool
    decreases steps.len(),
{
    &&& steps.len() > 0
    &&& initialised(steps.drop_last()) || phase_after(steps.drop_last()) == Phase::Starting
        && steps.last() == RunStep::Started
}

/// A run that could not start tells the display of the error alone.  In every
/// other run the end of the captures is told once and last, when the run is
/// over, and not before.
pub proof fn completion_comes_once_and_last(steps: Seq<RunStep>)
    ensures
        ({
            let all = reports(steps);
            &&& !initialised(steps) ==> if phase_after(steps) == Phase::Over {
                all == seq![Report::Error]
            } else {
                phase_after(steps) == Phase::Starting && all == Seq::<Report>::empty()
            }
            &&& initialised(steps) ==> if phase_after(steps) == Phase::Over {
                &&& all.len() > 0
                &&& all.last() == Report::Complete
                &&& forall|i: int| 0 <= i < all.len() - 1 ==> #[trigger] all[i] != Report::Complete
            } else {
                &&& phase_after(steps) != Phase::Starting
                &&& forall|i: int| 0 <= i < all.len() ==> #[trigger] all[i] != Report::Complete
            }
        }),
    decreases steps.len(),
{
    if steps.len() > 0 {
        let first = steps.drop_last();
        completion_comes_once_and_last(first);
        let before = reports(first);
        let all = reports(steps);
        match report_of(phase_after(first), steps.last()) {
            Some(report) => {
                assert(all == before.push(report));
                assert(forall|i: int| 0 <= i < before.len() ==> #[trigger] all[i] == before[i]);
                if phase_after(first) == Phase::Starting {
                    assert(all =~= seq![Report::Error]);
                }
            },
            None => {
                assert(all == before);
            },
        }
    }
}

/// A first frame that cannot be captured is told as an error, and the run goes
/// on as after a first frame that came.
pub proof fn failed_first_frame_does_not_stop(steps: Seq<RunStep>, shown: bool)
    requires
        phase_after(steps) == Phase::First,
    ensures
        reports(steps.push(RunStep::FirstFailed)) == reports(steps).push(Report::Error),
        phase_after(steps.push(RunStep::FirstFailed)) == phase_after(
            steps.push(RunStep::FirstFrame(shown)),
        ),
        phase_after(steps.push(RunStep::FirstFailed).push(RunStep::Began)) == Phase::Running,
{
    let failed = steps.push(RunStep::FirstFailed);
    assert(failed.drop_last() =~= steps);
    assert(steps.push(RunStep::FirstFrame(shown)).drop_last() =~= steps);
    assert(failed.push(RunStep::Began).drop_last() =~= failed);
}

/// The image that the display is shown can be exported at its full size: its
/// bytes hold all its pixels.
pub proof fn shown_image_can_be_exported(s: Stitching, data: Seq<u8>, width: u32, height: u32)
    requires
        s.wf(),
        s.image matches Some(i) && data == swapped(i.data) && width == i.width && height
            == i.height,
        data.len() <= usize::MAX,
    ensures
        image_fits(data, width as int, height as int),
        data.len() == 4 * width * height,
{
    let w = width as int;
    let h = height as int;
    assert(h * (4 * w) == 4 * w * h) by (nonlinear_arith);
    assert((4 * (h * w)) % 4 == 0 && h * (4 * w) == 4 * (h * w)) by (nonlinear_arith);
    assert(4 * w <= h * (4 * w)) by (nonlinear_arith)
        requires
            1 <= h,
            0 <= w,
    ;
}

/// A scroll leads to a capture: at the first look at the clock after the
/// screen has settled and the interval since the last capture is over, and
/// not before.
pub proof fn scroll_leads_to_capture(pace: Pace, direction: i32, scroll: u64, now: u64)
    ensures
        pace.scrolled(direction, scroll).due(now) <==> now >= scroll + 80_000_000 && now
            >= pace.last_capture + 100_000_000,
{
}

/// Scrolls in quick succession lead to one capture: the later scroll counts
/// alone, and after the capture nothing is due until the next scroll.
pub proof fn rapid_scrolls_are_batched(
    pace: Pace,
    direction: i32,
    other: i32,
    first: u64,
    second: u64,
    now: u64,
    later: u64,
)
    ensures
        pace.scrolled(direction, first).scrolled(other, second) == pace.scrolled(other, second),
        pace.due(now) ==> !pace.ticked(now).due(later) && !pace.ticked(now).captured(later).due(
            later,
        ),
{
}

/// What may happen to a worker.
pub enum PaceEvent {
    /// A scroll in a direction.
    Scroll(i32, u64),
    /// A look at the clock; where it leads to a capture, that ends at the
    /// second time.
    Look(u64, u64),
}

/// The pace after a run of events.
pub open spec fn pace_run(pace: Pace, events: Seq<PaceEvent>) -> Pace
    decreases events.len(),
{
    if events.len() == 0 {
        pace
    } else {
        let before = pace_run(pace, events.drop_last());
        match events.last() {
            PaceEvent::Scroll(direction, now) => before.scrolled(direction, now),
            PaceEvent::Look(now, end) => if before.due(now) {
                before.ticked(now).captured(end)
            } else {
                before.ticked(now)
            },
        }
    }
}

/// The captures of a run of events: when each began and ended.
pub open spec fn captures(pace: Pace, events: Seq<PaceEvent>) -> Seq<(u64, u64)>
    decreases events.len(),
{
    if events.len() == 0 {
        seq![]
    } else {
        let before = captures(pace, events.drop_last());
        match events.last() {
            PaceEvent::Scroll(..) => before,
            PaceEvent::Look(now, end) => if pace_run(pace, events.drop_last()).due(now) {
                before.push((now, end))
            } else {
                before
            },
        }
    }
}

/// The number of scrolls in a run of events.
pub open spec fn scrolls(events: Seq<PaceEvent>) -> nat
    decreases events.len(),
{
    if events.len() == 0 {
        0
    } else {
        scrolls(events.drop_last()) + if events.last() is Scroll {
            1nat
        } else {
            0
        }
    }
}

/// Whatever happens, a capture begins at least the interval after the
/// previous one ended, and there are no more captures than scrolls.
pub proof fn captures_keep_apart(pace: Pace, events: Seq<PaceEvent>)
    requires
        !pace.pending,
    ensures
        ({
            let all = captures(pace, events);
            &&& forall|i: int|
                0 < i < all.len() ==> (#[trigger] all[i]).0 >= all[i - 1].1 + 100_000_000
            &&& all.len() > 0 ==> all[0].0 >= pace.last_capture + 100_000_000
            &&& pace_run(pace, events).last_capture == (if all.len() == 0 {
                pace.last_capture
            } else {
                all.last().1
            })
            &&& all.len() + (if pace_run(pace, events).pending {
                1int
            } else {
                0
            }) <= scrolls(events)
        }),
    decreases events.len(),
{
    if events.len() > 0 {
        let first = events.drop_last();
        captures_keep_apart(pace, first);
        let before = captures(pace, first);
        let all = captures(pace, events);
        assert forall|i: int| 0 < i < all.len() implies (#[trigger] all[i]).0 >= all[i - 1].1
            + MIN_CAPTURE_INTERVAL by {
            if i < before.len() {
                assert(all[i] == before[i]);
                assert(all[i - 1] == before[i - 1]);
            } else {
                assert(all[i - 1] == before.last());
            }
        }
    }
}

/// Each phase is left by the step that belongs to it, for the next phase, and by
/// no other step: a run starts, takes the first frame or does without, starts
/// the clock, runs until it is told to stop, and ends.
pub proof fn run_goes_from_phase_to_phase(phase: Phase, step: RunStep)
    ensures
        ({
            let next = next_phase(phase, step);
            match phase {
                Phase::Starting => {
                    &&& next is First <==> step is Started
                    &&& next is Over <==> step is StartFailed
                    &&& next is First || next is Over || next is Starting
                },
                Phase::First => {
                    &&& next is Ready <==> step is FirstFrame || step is FirstFailed
                    &&& next is Ready || next is First
                },
                Phase::Ready => {
                    &&& next is Running <==> step is Began
                    &&& next is Running || next is Ready
                },
                Phase::Running => {
                    &&& next is Stopping <==> step is Stopped
                    &&& next is Stopping || next is Running
                },
                Phase::Stopping => {
                    &&& next is Over <==> step is Finished
                    &&& next is Over || next is Stopping
                },
                Phase::Over => next is Over,
            }
        }),
{
}

/// The display is told of an image exactly when one came while it was due, of an
/// error exactly when the start or the first frame failed, and of the end exactly
/// when a run that was told to stop ends.
pub proof fn display_is_told_what_happened(phase: Phase, step: RunStep)
    ensures
        report_of(phase, step) == Some(Report::Image) <==> phase is First && step
            == RunStep::FirstFrame(true) || phase is Running && step == RunStep::Frame(true),
        report_of(phase, step) == Some(Report::Error) <==> phase is Starting && step is StartFailed
            || phase is First && step is FirstFailed,
        report_of(phase, step) == Some(Report::Complete) <==> phase is Stopping && step is Finished,
{
}

/// A scroll is not lost: until it leads to a capture, looking at the clock
/// changes nothing, and whenever it is due, waiting does not undo that.  A scroll
/// that comes before a capture ends stays due after it.
pub proof fn scrolls_are_not_lost(pace: Pace, now: u64, later: u64)
    requires
        now <= later,
    ensures
        !pace.due(now) ==> pace.ticked(now) == pace,
        pace.due(now) ==> pace.due(later),
        pace.due(now) ==> pace.ticked(now) == (Pace { pending: false, ..pace }),
        pace.due(now) ==> now >= pace.last_scroll + 80_000_000 && now >= pace.last_capture
            + 100_000_000,
        !pace.pending ==> !pace.due(later),
        pace.captured(now) == (Pace { last_capture: now, ..pace }),
        pace.captured(now).pending == pace.pending,
{
}

/// The direction is that of the last scroll, whatever happens between it and the
/// capture.
pub proof fn last_direction_counts(pace: Pace, direction: i32, scroll: u64, later: Seq<PaceEvent>)
    requires
        forall|i: int| 0 <= i < later.len() ==> #[trigger] later[i] is Look,
    ensures
        pace_run(pace.scrolled(direction, scroll), later).direction == direction,
        pace_run(pace.scrolled(direction, scroll), later).last_scroll == scroll,
    decreases later.len(),
{
    if later.len() > 0 {
        let first = later.drop_last();
        assert forall|i: int| 0 <= i < first.len() implies #[trigger] first[i] is Look by {
            assert(first[i] == later[i]);
        }
        assert(later[later.len() - 1] is Look);
        last_direction_counts(pace, direction, scroll, first);
    }
}

/// Before the first scroll nothing is captured, however long it takes; a capture
/// follows the first scroll, once the screen has settled, if the clock was
/// started long enough before.
pub proof fn captures_wait_for_scrolls(start: u64, direction: i32, scroll: u64, now: u64)
    requires
        start <= scroll,
    ensures
        !Pace::at(start).due(now),
        Pace::at(start).scrolled(direction, scroll).due(now) <==> now >= scroll + 80_000_000 && now
            >= start + 100_000_000,
        Pace::at(start).captured(scroll).scrolled(direction, scroll).due(now) <==> now >= scroll
            + 100_000_000,
{
}

/// The image that the display is shown has the colours of the stitched one: the
/// pixels with their first and third byte exchanged.
pub proof fn shown_image_has_its_colors(s: Stitching, event: WorkerEvent, p: int)
    requires
        shows(Some(event), s),
        0 <= p,
        4 * p + 4 <= s.image->0.data.len(),
    ensures
        s.image matches Some(i) && event matches WorkerEvent::ImageUpdated { data, width, height }
            && {
            &&& width == i.width && height == i.height
            &&& data@.len() == i.data.len() / 4 * 4
            &&& data@[4 * p] == i.data[4 * p + 2]
            &&& data@[4 * p + 1] == i.data[4 * p + 1]
            &&& data@[4 * p + 2] == i.data[4 * p]
            &&& data@[4 * p + 3] == i.data[4 * p + 3]
        },
{
}

/// Once there is an image, it is shown: an event that shows the state of the
/// stitching is there if and only if there is an image, and it is an update of
/// the image.
pub proof fn image_is_shown_when_there(s: Stitching, event: Option<WorkerEvent>)
    requires
        shows(event, s),
    ensures
        event is Some <==> s.image is Some,
        event matches Some(e) ==> e is ImageUpdated,
        report_in(event) == (if s.image is Some {
            Some(Report::Image)
        } else {
            None
        }),
{
}

/// What an event tells the display is what it is.
pub proof fn events_are_reports(event: WorkerEvent)
    ensures
        report_in(Some(event)) == Some(Report::Image) <==> event is ImageUpdated,
        report_in(Some(event)) == Some(Report::Error) <==> event is Error,
        report_in(Some(event)) == Some(Report::Complete) <==> event is CaptureComplete,
        report_in(None) is None,
{
}

} // verus!
