//! The capture of a frame: what to ask of the compositor, what its answers
//! mean, and what becomes of the buffer that it filled.

use crate::text::same_text;
use crate::types::{slurp_region, CaptureRegion, RawFrame, SlurpError, SlurpFault};
use vstd::arithmetic::div_mod::lemma_fundamental_div_mod_converse;
use vstd::prelude::*;

verus! {

/// How long a capture may take, in nanoseconds.
pub const CAPTURE_TIMEOUT: u64 = 2_000_000_000;

/// Why there is no frame.
#[derive(Debug, Clone, Copy, PartialEq, Eq, Structural)]
pub enum CaptureError {
    /// The compositor has no shared memory.
    NoShm,
    /// The compositor cannot copy the screen.
    NoScreencopy,
    /// The compositor announced no output.
    NoOutputs,
    /// There is no output to capture.
    NoOutput,
    /// There is nothing to ask for a frame.
    NoManager,
    /// The compositor did not answer in time.
    TimedOut,
    /// The compositor, or the allocation of a buffer, failed.
    Failed,
    /// The frame is ready, but there is no buffer.
    NoBuffer,
}

impl CaptureError {
    /// The error in words.
    pub open spec fn words(self) -> Seq<char> {
        match self {
            CaptureError::NoShm => "Compositor does not support wl_shm"@,
            CaptureError::NoScreencopy =>
                "Compositor does not support wlr-screencopy-unstable-v1.\nThis protocol is typically supported by wlroots-based compositors \n(Sway, Hyprland, etc.)"@,
            CaptureError::NoOutputs => "No outputs found"@,
            CaptureError::NoOutput => "No output available"@,
            CaptureError::NoManager => "Screencopy manager not available"@,
            CaptureError::TimedOut => "Frame capture timed out"@,
            CaptureError::Failed => "Frame capture failed"@,
            CaptureError::NoBuffer => "No buffer data available"@,
        }
    }

    /// The error in words.
    pub fn message(&self) -> (r: String)
        ensures
            r@ == self.words(),
    {
        match self {
            CaptureError::NoShm => "Compositor does not support wl_shm".to_string(),
            CaptureError::NoScreencopy => {
                "Compositor does not support wlr-screencopy-unstable-v1.\nThis protocol is typically supported by wlroots-based compositors \n(Sway, Hyprland, etc.)".to_string()
            },
            CaptureError::NoOutputs => "No outputs found".to_string(),
            CaptureError::NoOutput => "No output available".to_string(),
            CaptureError::NoManager => "Screencopy manager not available".to_string(),
            CaptureError::TimedOut => "Frame capture timed out".to_string(),
            CaptureError::Failed => "Frame capture failed".to_string(),
            CaptureError::NoBuffer => "No buffer data available".to_string(),
        }
    }
}

/// A global object of the compositor that a capture needs.
#[derive(Debug, Clone, Copy, PartialEq, Eq, Structural)]
pub enum Global {
    Shm,
    Output,
    ScreencopyManager,
}

/// The global that an interface name stands for, and the version of it to
/// bind where the compositor offers the given one.
pub open spec fn wanted(interface: Seq<char>, version: u32) -> Option<(Global, u32)> {
    if interface == "wl_shm"@ {
        Some((Global::Shm, version))
    } else if interface == "wl_output"@ {
        Some(
            (
                Global::Output,
                if version < 4 {
                    version
                } else {
                    4
                },
            ),
        )
    } else if interface == "zwlr_screencopy_manager_v1"@ {
        Some(
            (
                Global::ScreencopyManager,
                if version < 3 {
                    version
                } else {
                    3
                },
            ),
        )
    } else {
        None
    }
}

/// The global that an interface name stands for, and the version of it to
/// bind where the compositor offers the given one.
pub fn wanted_global(interface: &str, version: u32) -> (r: Option<(Global, u32)>)
    ensures
        r == wanted(interface@, version),
{
    if same_text(interface, "wl_shm") {
        return Some((Global::Shm, version));
    }
    if same_text(interface, "wl_output") {
        let bound: u32 = if version < 4 {
            version
        } else {
            4
        };
        return Some((Global::Output, bound));
    }
    if same_text(interface, "zwlr_screencopy_manager_v1") {
        let bound: u32 = if version < 3 {
            version
        } else {
            3
        };
        return Some((Global::ScreencopyManager, bound));
    }
    None
}

/// Whether the compositor offers what a capture needs.
pub fn check_globals(shm: bool, screencopy: bool, outputs: usize) -> (r: Result<(), CaptureError>)
    ensures
        r == (if !shm {
            Err::<(), CaptureError>(CaptureError::NoShm)
        } else if !screencopy {
            Err(CaptureError::NoScreencopy)
        } else if outputs == 0 {
            Err(CaptureError::NoOutputs)
        } else {
            Ok(())
        }),
{
    if !shm {
        Err(CaptureError::NoShm)
    } else if !screencopy {
        Err(CaptureError::NoScreencopy)
    } else if outputs == 0 {
        Err(CaptureError::NoOutputs)
    } else {
        Ok(())
    }
}

/// The buffer that the compositor wants to fill.
#[derive(Debug, Clone, Copy, PartialEq, Eq, Structural)]
pub struct BufferFormat {
    pub format: u32,
    pub width: u32,
    pub height: u32,
    pub stride: u32,
}

/// No buffer.
pub open spec fn no_format() -> BufferFormat {
    BufferFormat { format: 0, width: 0, height: 0, stride: 0 }
}

impl Default for BufferFormat {
    fn default() -> (r: BufferFormat)
        ensures
            r == no_format(),
    {
        BufferFormat { format: 0, width: 0, height: 0, stride: 0 }
    }
}

/// How far a capture has come.
#[derive(Debug, Clone, Copy, PartialEq, Eq, Structural)]
pub enum FrameState {
    Pending,
    BufferDone,
    Ready,
    Failed,
}

/// What the compositor says of a frame; a value that it does not define is
/// `None`.
#[derive(Debug, Clone, Copy, PartialEq, Eq, Structural)]
pub enum FrameEvent {
    Buffer { format: Option<u32>, width: u32, height: u32, stride: u32 },
    Flags(Option<u32>),
    BufferDone,
    Ready,
    Failed,
    Other,
}

/// A buffer to allocate, and to have the frame copied into: `size` bytes, with
/// an alpha channel or without.
#[derive(Debug, Clone, Copy, PartialEq, Eq, Structural)]
pub struct BufferRequest {
    pub size: u64,
    pub width: u32,
    pub height: u32,
    pub stride: u32,
    pub alpha: bool,
}

/// A region to have copied, without the cursor.
#[derive(Debug, Clone, Copy, PartialEq, Eq, Structural)]
pub struct CopyRequest {
    pub cursor: i32,
    pub x: i32,
    pub y: i32,
    pub width: i32,
    pub height: i32,
}

/// What to do next about a frame.
#[derive(Debug, Clone, Copy, PartialEq, Eq, Structural)]
pub enum CaptureStep {
    /// Wait for what the compositor says.
    Wait,
    /// Take the frame out of its buffer.
    Extract,
    /// Give up.
    Fail(CaptureError),
}

/// The state of a capture.
#[derive(Debug, Clone, Copy, PartialEq, Eq, Structural)]
pub struct FrameCapture {
    pub format: BufferFormat,
    pub state: FrameState,
    pub flags: u32,
}

/// The state after the compositor said something.
pub open spec fn frame_step(s: FrameCapture, event: FrameEvent) -> FrameCapture {
    match event {
        FrameEvent::Buffer { format: Some(format), width, height, stride } => if format == 0
            || format == 1 {
            FrameCapture { format: BufferFormat { format, width, height, stride }, ..s }
        } else {
            s
        },
        FrameEvent::Flags(Some(flags)) => FrameCapture { flags, ..s },
        FrameEvent::BufferDone => FrameCapture { state: FrameState::BufferDone, ..s },
        FrameEvent::Ready => FrameCapture { state: FrameState::Ready, ..s },
        FrameEvent::Failed => FrameCapture { state: FrameState::Failed, ..s },
        _ => s,
    }
}

/// The buffer to allocate when the compositor said something.
pub open spec fn buffer_wanted(s: FrameCapture, event: FrameEvent) -> Option<BufferRequest> {
    if event is BufferDone && s.format.stride > 0 {
        Some(
            BufferRequest {
                size: (s.format.stride * s.format.height) as u64,
                width: s.format.width,
                height: s.format.height,
                stride: s.format.stride,
                alpha: s.format.format == 0,
            },
        )
    } else {
        None
    }
}

/// Row `y` of a buffer whose rows take `stride` bytes each.
pub open spec fn row_at(data: Seq<u8>, stride: int, y: int) -> Seq<u8> {
    data.subrange(y * stride, y * stride + stride)
}

/// The rows of a buffer in reverse order; what lies behind the rows is zero.
pub open spec fn flipped(data: Seq<u8>, stride: int, height: int) -> Seq<u8> {
    Seq::new(
        data.len(),
        |i: int|
            if i < stride * height {
                data[(height - 1 - i / stride) * stride + i % stride]
            } else {
                0
            },
    )
}

impl FrameCapture {
    /// The bytes of a frame, the right way up.
    pub open spec fn pixels(self, data: Seq<u8>) -> Seq<u8> {
        if self.flags % 2 == 1 {
            flipped(data, self.format.stride as int, self.format.height as int)
        } else {
            data
        }
    }

    /// No frame has been asked for.
    pub fn new() -> (r: FrameCapture)
        ensures
            r == (FrameCapture { format: no_format(), state: FrameState::Pending, flags: 0 }),
    {
        FrameCapture { format: BufferFormat::default(), state: FrameState::Pending, flags: 0 }
    }

    /// Starts the capture of a region: what to ask of the compositor.
    pub fn begin(&mut self, region: &CaptureRegion, output: bool, manager: bool) -> (r: Result<
        CopyRequest,
        CaptureError,
    >)
        ensures
            *final(self) == (FrameCapture {
                format: no_format(),
                state: FrameState::Pending,
                ..*old(self)
            }),
            r == (if !output {
                Err::<CopyRequest, CaptureError>(CaptureError::NoOutput)
            } else if !manager {
                Err(CaptureError::NoManager)
            } else {
                Ok(
                    CopyRequest {
                        cursor: 0,
                        x: region.x,
                        y: region.y,
                        width: region.width as i32,
                        height: region.height as i32,
                    },
                )
            }),
    {
        self.state = FrameState::Pending;
        self.format = BufferFormat::default();
        if !output {
            return Err(CaptureError::NoOutput);
        }
        if !manager {
            return Err(CaptureError::NoManager);
        }
        Ok(
            CopyRequest {
                cursor: 0,
                x: region.x,
                y: region.y,
                width: #[verifier::truncate]
                (region.width as i32),
                height: #[verifier::truncate]
                (region.height as i32),
            },
        )
    }

    /// Takes in what the compositor says; returns the buffer to allocate, if
    /// one is wanted now.
    pub fn on_event(&mut self, event: FrameEvent) -> (r: Option<BufferRequest>)
        ensures
            *final(self) == frame_step(*old(self), event),
            r == buffer_wanted(*old(self), event),
            r is Some <==> event is BufferDone && old(self).format.stride != 0,
    {
        match event {
            FrameEvent::Buffer { format: Some(format), width, height, stride } => {
                if format == 0 || format == 1 {
                    self.format = BufferFormat { format, width, height, stride };
                }
                None
            },
            FrameEvent::Flags(Some(flags)) => {
                self.flags = flags;
                None
            },
            FrameEvent::BufferDone => {
                self.state = FrameState::BufferDone;
                let f: BufferFormat = self.format;
                if f.stride > 0 {
                    assert(f.stride * f.height <= 0xffff_ffff * 0xffff_ffff) by (nonlinear_arith)
                        requires
                            f.stride <= 0xffff_ffff,
                            f.height <= 0xffff_ffff,
                    ;
                    Some(
                        BufferRequest {
                            size: f.stride as u64 * f.height as u64,
                            width: f.width,
                            height: f.height,
                            stride: f.stride,
                            alpha: f.format == 0,
                        },
                    )
                } else {
                    None
                }
            },
            FrameEvent::Ready => {
                self.state = FrameState::Ready;
                None
            },
            FrameEvent::Failed => {
                self.state = FrameState::Failed;
                None
            },
            _ => None,
        }
    }

    /// Records that the wanted buffer could not be had.
    pub fn buffer_failed(&mut self)
        ensures
            *final(self) == (FrameCapture { state: FrameState::Failed, ..*old(self) }),
    {
        self.state = FrameState::Failed;
    }

    /// What to do next, the given time after the frame was asked for.
    pub fn next_step(&self, elapsed: u64) -> (r: CaptureStep)
        ensures
            r == (match self.state {
                FrameState::Ready => CaptureStep::Extract,
                FrameState::Failed => CaptureStep::Fail(CaptureError::Failed),
                _ => if elapsed > 2_000_000_000 {
                    CaptureStep::Fail(CaptureError::TimedOut)
                } else {
                    CaptureStep::Wait
                },
            }),
    {
        match self.state {
            FrameState::Ready => CaptureStep::Extract,
            FrameState::Failed => CaptureStep::Fail(CaptureError::Failed),
            _ => if elapsed > CAPTURE_TIMEOUT {
                CaptureStep::Fail(CaptureError::TimedOut)
            } else {
                CaptureStep::Wait
            },
        }
    }

    /// Takes the frame out of its buffer, the right way up.
    pub fn extract(&self, buffer: Option<Vec<u8>>) -> (r: Result<RawFrame, CaptureError>)
        requires
            (buffer matches Some(data) && self.flags % 2 == 1) ==> self.format.stride
                * self.format.height <= buffer->0@.len(),
        ensures
            match buffer {
                Some(data) => r matches Ok(frame) && frame.data@ == self.pixels(data@)
                    && frame.width == self.format.width && frame.height == self.format.height
                    && frame.stride == self.format.stride,
                None => r == Err::<RawFrame, CaptureError>(CaptureError::NoBuffer),
            },
            buffer matches Some(data) ==> (r matches Ok(frame) ==> {
                let stride = self.format.stride as int;
                let height = self.format.height as int;
                &&& frame.data@.len() == data@.len()
                &&& self.flags & 1 == 0 ==> frame.data@ == data@
                &&& self.flags & 1 != 0 ==> forall|y: int|
                    0 <= y < height ==> #[trigger] row_at(frame.data@, stride, y) == row_at(
                        data@,
                        stride,
                        height - 1 - y,
                    )
            }),
    {
        let f: BufferFormat = self.format;
        proof {
            let flags = self.flags;
            assert(flags & 1 != 0 <==> flags % 2 == 1) by (bit_vector);
            if buffer is Some {
                frame_is_upright(*self, buffer->0@);
            }
        }
        match buffer {
            None => Err(CaptureError::NoBuffer),
            Some(data) => {
                let data: Vec<u8> = if self.flags % 2 == 1 {
                    flip_rows(data.as_slice(), f.stride as usize, f.height as usize)
                } else {
                    data
                };
                Ok(RawFrame { data, width: f.width, height: f.height, stride: f.stride })
            },
        }
    }
}

/// Reverses the order of the rows of a buffer.
pub fn flip_rows(data: &[u8], stride: usize, height: usize) -> (r: Vec<u8>)
    requires
        stride * height <= data@.len(),
    ensures
        r@ == flipped(data@, stride as int, height as int),
        r@.len() == data@.len(),
        forall|y: int|
            0 <= y < height ==> #[trigger] row_at(r@, stride as int, y) == row_at(
                data@,
                stride as int,
                height - 1 - y,
            ),
        forall|i: int| stride * height <= i < r@.len() ==> #[trigger] r@[i] == 0,
{
    let total: usize = data.len();
    let mut out: Vec<u8> = Vec::new();
    let mut y: usize = 0;
    while y < height
        invariant
            y <= height,
            stride * height <= data@.len(),
            total == data@.len(),
            out@ == flipped(data@, stride as int, height as int).take(stride * y),
            0 <= stride * y <= stride * height,
        decreases height - y,
    {
        let ghost start = out@;
        let row: usize = height - 1 - y;
        assert(0 <= row * stride && row * stride + stride <= stride * height && stride * y + stride
            == stride * (y + 1) && stride * (y + 1) <= stride * height) by (nonlinear_arith)
            requires
                0 <= y < height,
                row == height - 1 - y,
                0 <= stride,
        ;
        let base: usize = row * stride;
        let mut x: usize = 0;
        while x < stride
            invariant
                y < height,
                row == height - 1 - y,
                base == row * stride,
                x <= stride,
                total == data@.len(),
                row * stride + stride <= stride * height <= data@.len(),
                start == flipped(data@, stride as int, height as int).take(stride * y),
                start.len() == stride * y,
                0 <= stride * y,
                stride * y + stride <= stride * height,
                out@.len() == stride * y + x,
                forall|i: int|
                    0 <= i < stride * y + x ==> #[trigger] out@[i] == flipped(
                        data@,
                        stride as int,
                        height as int,
                    )[i],
            decreases stride - x,
        {
            let ghost i = stride * y + x;
            proof {
                assert(stride * y == y * stride) by (nonlinear_arith);
                lemma_fundamental_div_mod_converse(i, stride as int, y as int, x as int);
            }
            out.push(data[base + x]);
            x = x + 1;
        }
        y = y + 1;
        assert(out@ =~= flipped(data@, stride as int, height as int).take(stride * y));
    }
    while out.len() < total
        invariant
            stride * height <= out@.len() <= total,
            total == data@.len(),
            out@ == flipped(data@, stride as int, height as int).take(out@.len() as int),
        decreases total - out@.len(),
    {
        out.push(0);
        assert(out@ =~= flipped(data@, stride as int, height as int).take(out@.len() as int));
    }
    assert(out@ =~= flipped(data@, stride as int, height as int));
    assert forall|y: int| 0 <= y < height implies #[trigger] row_at(out@, stride as int, y)
        == row_at(data@, stride as int, height - 1 - y) by {
        flipped_row(data@, stride as int, height as int, y);
    }
    out
}

/// Why no region was selected.
#[derive(Debug, Clone)]
pub enum SelectError {
    /// The selection tool failed; holds what it printed as its error.
    Tool(String),
    /// The selection tool printed no region.
    Output(SlurpError),
}

impl SelectError {
    /// The error in words.
    pub fn message(&self) -> (r: String)
        ensures
            match *self {
                SelectError::Tool(text) => r@ == "slurp failed: "@ + text@,
                SelectError::Output(e) => r@ == e.fault().words(),
            },
    {
        match self {
            SelectError::Tool(text) => "slurp failed: ".to_string().concat(text.as_str()),
            SelectError::Output(e) => e.message(),
        }
    }
}

/// The region that a run of the selection tool gave: whether it succeeded, and
/// what it printed.
pub fn selected_by_slurp(success: bool, stdout: &str, stderr: &str) -> (r: Result<
    CaptureRegion,
    SelectError,
>)
    ensures
        match r {
            Ok(region) => success && slurp_region(stdout@) == Ok::<CaptureRegion, SlurpFault>(
                region,
            ),
            Err(SelectError::Tool(text)) => !success && text@ == stderr@,
            Err(SelectError::Output(e)) => success && slurp_region(stdout@) == Err::<
                CaptureRegion,
                SlurpFault,
            >(e.fault()),
        },
{
    if !success {
        return Err(SelectError::Tool(stderr.to_string()));
    }
    match CaptureRegion::from_slurp(stdout) {
        Ok(region) => Ok(region),
        Err(e) => Err(SelectError::Output(e)),
    }
}

/// Whatever the compositor says, the format of the buffer stays one of the
/// two that the stitching can read.
pub proof fn only_known_formats(s: FrameCapture, event: FrameEvent)
    requires
        s.format.format <= 1,
    ensures
        frame_step(s, event).format.format <= 1,
        buffer_wanted(s, event) matches Some(b) ==> b.size == b.stride * b.height,
{
    assert(0 <= s.format.stride * s.format.height <= 0xffff_ffff * 0xffff_ffff)
        by (nonlinear_arith)
        requires
            0 <= s.format.stride <= 0xffff_ffff,
            0 <= s.format.height <= 0xffff_ffff,
    ;
}

/// Row `y` of a flipped buffer is the row that stands as far from the other
/// end.
pub proof fn flipped_row(data: Seq<u8>, stride: int, height: int, y: int)
    requires
        0 <= stride,
        0 <= y < height,
        stride * height <= data.len(),
    ensures
        flipped(data, stride, height).subrange(y * stride, y * stride + stride) == data.subrange(
            (height - 1 - y) * stride,
            (height - 1 - y) * stride + stride,
        ),
{
    let row = height - 1 - y;
    assert(0 <= y * stride && 0 <= row * stride && y * stride + stride <= stride * height && row
        * stride + stride <= stride * height) by (nonlinear_arith)
        requires
            0 <= y < height,
            row == height - 1 - y,
            0 <= stride,
    ;
    let f = flipped(data, stride, height);
    let got = f.subrange(y * stride, y * stride + stride);
    let wanted = data.subrange(row * stride, row * stride + stride);
    assert forall|x: int| 0 <= x < stride implies #[trigger] got[x] == wanted[x] by {
        lemma_fundamental_div_mod_converse(y * stride + x, stride, y, x);
    }
    assert(got =~= wanted);
}

/// Flipping a buffer twice gives it back.
pub proof fn flipped_twice(data: Seq<u8>, stride: int, height: int)
    requires
        0 < stride,
        0 <= height,
        data.len() == stride * height,
    ensures
        flipped(flipped(data, stride, height), stride, height) == data,
{
    let once = flipped(data, stride, height);
    let twice = flipped(once, stride, height);
    assert forall|i: int| 0 <= i < data.len() implies twice[i] == data[i] by {
        let y = i / stride;
        let x = i % stride;
        let row = height - 1 - y;
        assert(i == y * stride + x && 0 <= x < stride && 0 <= y < height) by (nonlinear_arith)
            requires
                0 <= i < stride * height,
                0 < stride,
                y == i / stride,
                x == i % stride,
        ;
        assert(0 <= row * stride && row * stride + stride <= stride * height) by (nonlinear_arith)
            requires
                0 <= y < height,
                row == height - 1 - y,
                0 < stride,
        ;
        lemma_fundamental_div_mod_converse(row * stride + x, stride, row, x);
        assert(twice[i] == once[row * stride + x]);
        assert(height - 1 - row == y);
    }
    assert(twice =~= data);
}

/// A frame is handed out the right way up.  Where the compositor set the lowest
/// bit of the flags, whatever the others are, row `y` of the frame is the row of
/// the buffer that stands as far from the other end; where it did not, the frame
/// is the buffer.
pub proof fn frame_is_upright(s: FrameCapture, data: Seq<u8>)
    requires
        s.flags & 1 != 0 ==> s.format.stride * s.format.height <= data.len(),
    ensures
        s.flags & 1 != 0 <==> s.flags % 2 == 1,
        s.pixels(data).len() == data.len(),
        s.flags & 1 == 0 ==> s.pixels(data) == data,
        s.flags & 1 != 0 ==> forall|y: int|
            0 <= y < s.format.height ==> #[trigger] row_at(
                s.pixels(data),
                s.format.stride as int,
                y,
            ) == row_at(data, s.format.stride as int, s.format.height - 1 - y),
{
    let flags = s.flags;
    assert(flags & 1 != 0 <==> flags % 2 == 1) by (bit_vector);
    if flags & 1 != 0 {
        assert forall|y: int| 0 <= y < s.format.height implies #[trigger] row_at(
            s.pixels(data),
            s.format.stride as int,
            y,
        ) == row_at(data, s.format.stride as int, s.format.height - 1 - y) by {
            flipped_row(data, s.format.stride as int, s.format.height as int, y);
        }
    }
}

/// The state after the compositor said several things.
pub open spec fn frame_run(s: FrameCapture, events: Seq<FrameEvent>) -> FrameCapture
    decreases events.len(),
{
    if events.len() == 0 {
        s
    } else {
        frame_step(frame_run(s, events.drop_last()), events.last())
    }
}

/// What the compositor said last of the flags counts, however much it says of
/// other things afterwards.
pub proof fn last_flags_count(s: FrameCapture, flags: u32, later: Seq<FrameEvent>)
    requires
        forall|i: int|
            0 <= i < later.len() ==> !(#[trigger] later[i] is Flags) || later[i] == FrameEvent::Flags(
                None,
            ),
    ensures
        frame_run(frame_step(s, FrameEvent::Flags(Some(flags))), later).flags == flags,
    decreases later.len(),
{
    if later.len() > 0 {
        let first = later.drop_last();
        assert forall|i: int| 0 <= i < first.len() implies !(#[trigger] first[i] is Flags)
            || first[i] == FrameEvent::Flags(None) by {
            assert(first[i] == later[i]);
        }
        last_flags_count(s, flags, first);
        assert(later.last() == later[later.len() - 1]);
    }
}

/// Of the buffers that the compositor offers, the last one whose format is known
/// counts; one of another format is passed over.  The buffer that is asked for
/// when all were offered has its size, and an alpha channel in the first of the
/// two formats alone.
pub proof fn last_known_buffer_counts(
    s: FrameCapture,
    format: u32,
    width: u32,
    height: u32,
    stride: u32,
    later: Seq<FrameEvent>,
)
    requires
        format == 0 || format == 1,
        forall|i: int|
            0 <= i < later.len() ==> (#[trigger] later[i] matches FrameEvent::Buffer {
                format: Some(other),
                ..
            } ==> other > 1),
    ensures
        ({
            let offered = FrameEvent::Buffer { format: Some(format), width, height, stride };
            let after = frame_run(frame_step(s, offered), later);
            &&& after.format == (BufferFormat { format, width, height, stride })
            &&& buffer_wanted(after, FrameEvent::BufferDone) matches Some(b) ==> b.width == width
                && b.height == height && b.stride == stride && b.size == stride * height && (b.alpha
                <==> format == 0)
            &&& buffer_wanted(after, FrameEvent::BufferDone) is Some <==> stride > 0
        }),
    decreases later.len(),
{
    assert(0 <= stride * height <= 0xffff_ffff * 0xffff_ffff) by (nonlinear_arith)
        requires
            0 <= stride <= 0xffff_ffff,
            0 <= height <= 0xffff_ffff,
    ;
    if later.len() > 0 {
        let first = later.drop_last();
        assert forall|i: int| 0 <= i < first.len() implies (#[trigger] first[i]
            matches FrameEvent::Buffer { format: Some(other), .. } ==> other > 1) by {
            assert(first[i] == later[i]);
        }
        last_known_buffer_counts(s, format, width, height, stride, first);
        assert(later.last() == later[later.len() - 1]);
    }
}

/// How far a capture has come is what the compositor said last of it: that the
/// frame is ready or failed, or that all buffers were offered.  Nothing else
/// that it says changes that.
pub proof fn state_follows_compositor(s: FrameCapture, event: FrameEvent)
    ensures
        event is Ready ==> frame_step(s, event).state is Ready,
        event is Failed ==> frame_step(s, event).state is Failed,
        event is BufferDone ==> frame_step(s, event).state is BufferDone,
        event is Buffer || event is Flags || event is Other ==> frame_step(s, event).state
            == s.state,
        !(event is Buffer) ==> frame_step(s, event).format == s.format,
        !(event is Flags) ==> frame_step(s, event).flags == s.flags,
{
}

/// Of each global object that a capture needs, the version that the compositor
/// offers is bound, but never one above the highest that is known; no other
/// object is bound.
pub proof fn versions_are_capped(interface: Seq<char>, version: u32)
    ensures
        match wanted(interface, version) {
            Some((global, bound)) => {
                &&& bound <= version
                &&& global is Shm ==> interface == "wl_shm"@ && bound == version
                &&& global is Output ==> interface == "wl_output"@ && bound <= 4 && (bound == version
                    || bound == 4)
                &&& global is ScreencopyManager ==> interface == "zwlr_screencopy_manager_v1"@
                    && bound <= 3 && (bound == version || bound == 3)
            },
            None => interface != "wl_shm"@ && interface != "wl_output"@ && interface
                != "zwlr_screencopy_manager_v1"@,
        },
{
}

} // verus!
