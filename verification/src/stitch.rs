//! Stitching of the frames of a scrolling capture.
//!
//! A new frame is located by its edges in the last frame that was stitched,
//! which is the bottom of the image.  The library chooses which rows of the new
//! gradient image to look for and in which rows of that frame to look; the best
//! position and its score come from outside, and
//! [`ImageStitcher::process_frame`] decides what they mean.

use crate::types::{
    default_params, swap_red_blue, swapped, RawFrame, StitchParams, RATIO_ONE,
};
use vstd::math::max;
use vstd::prelude::*;
use vstd::slice::slice_subrange;

verus! {

/// A template has at least this many rows.
pub const MIN_TEMPLATE_ROWS: u32 = 20;

/// The largest number of bytes that a stitched image may take.
pub const MAX_IMAGE_BYTES: u64 = 0x7fff_ffff;

/// Why a frame could not be processed, or an image not be had.
#[derive(Debug, Clone, Copy, PartialEq, Eq, Structural)]
pub enum StitchError {
    /// The frame has no pixels, or its buffer does not hold all its rows.
    BadFrame,
    /// There is no gradient image of the size of the frame.
    Gradient,
    /// The template does not fit into the frame.
    Template,
    /// Template matching gave no result.
    Match,
    /// The frame is wider than the image.
    Width,
    /// The image would exceed [`MAX_IMAGE_BYTES`].
    TooLarge,
    /// There is no image yet.
    NoImage,
}

impl StitchError {
    /// The error in words.
    pub open spec fn words(self) -> Seq<char> {
        match self {
            StitchError::BadFrame => "Frame data is incomplete"@,
            StitchError::Gradient => "No gradient image"@,
            StitchError::Template => "Template does not fit into the frame"@,
            StitchError::Match => "Template matching failed"@,
            StitchError::Width => "Frame is wider than the image"@,
            StitchError::TooLarge => "Image is too large"@,
            StitchError::NoImage => "No image to save"@,
        }
    }

    /// The error in words.
    pub fn message(&self) -> (r: String)
        ensures
            r@ == self.words(),
    {
        match self {
            StitchError::BadFrame => "Frame data is incomplete".to_string(),
            StitchError::Gradient => "No gradient image".to_string(),
            StitchError::Template => "Template does not fit into the frame".to_string(),
            StitchError::Match => "Template matching failed".to_string(),
            StitchError::Width => "Frame is wider than the image".to_string(),
            StitchError::TooLarge => "Image is too large".to_string(),
            StitchError::NoImage => "No image to save".to_string(),
        }
    }
}

/// A colour image: BGRA pixels, row after row without gaps.
#[derive(Debug, PartialEq, Eq)]
pub struct Image {
    pub data: Vec<u8>,
    pub width: u32,
    pub height: u32,
}

/// A grey image: one byte per pixel, row after row without gaps.
#[derive(Debug, PartialEq, Eq)]
pub struct GrayImage {
    pub data: Vec<u8>,
    pub width: u32,
    pub height: u32,
}

/// The contents of an image.
pub struct Picture {
    pub data: Seq<u8>,
    pub width: int,
    pub height: int,
}

impl View for Image {
    type V = Picture;

    open spec fn view(&self) -> Picture {
        Picture { data: self.data@, width: self.width as int, height: self.height as int }
    }
}

impl View for GrayImage {
    type V = Picture;

    open spec fn view(&self) -> Picture {
        Picture { data: self.data@, width: self.width as int, height: self.height as int }
    }
}

impl Picture {
    /// The picture has pixels, `depth` bytes each, and its data is complete.
    pub open spec fn wf(self, depth: int) -> bool {
        &&& 0 < self.width <= u32::MAX
        &&& 0 < self.height <= i32::MAX
        &&& self.data.len() == self.height * (depth * self.width)
    }

    /// The rows from `top` up to and without `bottom`.
    pub open spec fn rows(self, depth: int, top: int, bottom: int) -> Picture {
        Picture {
            data: self.data.subrange(top * (depth * self.width), bottom * (depth * self.width)),
            width: self.width,
            height: bottom - top,
        }
    }
}

/// The best position of a template in a search region, counted in rows from
/// the top of the region, and its score in millionths.
#[derive(Debug, Clone, Copy, PartialEq, Eq, Structural)]
pub struct BestMatch {
    pub y: i32,
    pub score: i32,
}

/// What to look for before a frame is processed.
#[derive(Debug, PartialEq, Eq)]
pub enum MatchPlan {
    /// Nothing: the outcome does not depend on a match.
    NoSearch,
    /// `template` in `region`, which starts at row `top` of the last frame
    /// that was stitched.
    Search { template: GrayImage, region: GrayImage, top: u32 },
}

/// The contents of a [`MatchPlan`].
pub enum Plan {
    NoSearch,
    Search { template: Picture, region: Picture, top: int },
}

impl View for MatchPlan {
    type V = Plan;

    open spec fn view(&self) -> Plan {
        match self {
            MatchPlan::NoSearch => Plan::NoSearch,
            MatchPlan::Search { template, region, top } => Plan::Search {
                template: template@,
                region: region@,
                top: *top as int,
            },
        }
    }
}

/// The state of the stitching.
pub struct Stitching {
    pub params: StitchParams,
    /// The image stitched so far.
    pub image: Option<Picture>,
    /// The gradient image of the last frame that was stitched: of the bottom
    /// of the image.
    pub gradient: Option<Picture>,
    /// The row of the last match.
    pub last_match_y: Option<int>,
    /// How many frames came, modulo 2^32.
    pub frame_count: int,
}

/// The part `ratio` (in millionths) of `height`, rounded down; never more than
/// the largest 32-bit integer.
pub open spec fn scaled(height: int, ratio: int) -> int {
    let n = height * ratio / RATIO_ONE as int;
    if n > i32::MAX {
        i32::MAX as int
    } else {
        n
    }
}

/// The first row below the part of a frame that is ignored at its top.
pub open spec fn effective_top(params: StitchParams, height: int) -> int {
    scaled(height, params.ignore_y_top as int)
}

/// The first row of the part of a frame that is ignored at its bottom.
pub open spec fn effective_bottom(params: StitchParams, height: int) -> int {
    height - scaled(height, params.ignore_y_bottom as int)
}

/// How many rows the template of a frame has.
pub open spec fn template_rows(params: StitchParams, height: int) -> int {
    let n = scaled(height, params.template_ratio as int);
    if n < MIN_TEMPLATE_ROWS {
        MIN_TEMPLATE_ROWS as int
    } else {
        n
    }
}

/// The rows to search, of a frame with `height` rows, for a template of `rows`
/// rows: those near the last match, or, before the first match, the effective
/// region.
///
/// A template of which nothing moved is found at row `rest`.  Near the last
/// match, only rows from there on are searched where the user scrolled down,
/// and only rows up to there where the user scrolled up.
pub open spec fn search_window(
    s: Stitching,
    height: int,
    rows: int,
    rest: int,
    direction: int,
) -> (int, int) {
    match s.last_match_y {
        Some(y) => {
            let near = if y - s.params.max_search_range > 0 {
                y - s.params.max_search_range
            } else {
                0
            };
            let far = if y + s.params.max_search_range < height - rows {
                y + s.params.max_search_range
            } else {
                height - rows
            };
            let first = if direction > 0 && near < rest {
                rest
            } else {
                near
            };
            let last = if direction < 0 && far > rest {
                rest
            } else {
                far
            };
            (first, last + rows)
        },
        None => (effective_top(s.params, height), effective_bottom(s.params, height)),
    }
}

/// What to look for when the next frame has the given gradient image, and the
/// user scrolled in the given direction: down where it is positive, up where it
/// is negative.
pub open spec fn match_plan(s: Stitching, gradient: Picture, direction: int) -> Result<
    Plan,
    StitchError,
> {
    match s.gradient {
        None => Ok(Plan::NoSearch),
        Some(previous) => {
            let top = effective_top(s.params, gradient.height);
            let rows = template_rows(s.params, gradient.height);
            let (first, end) = search_window(s, previous.height, rows, top, direction);
            if top + rows > gradient.height {
                Err(StitchError::Template)
            } else if rows >= previous.height || end <= first + rows {
                Ok(Plan::NoSearch)
            } else {
                Ok(
                    Plan::Search {
                        template: gradient.rows(1, top, top + rows),
                        region: previous.rows(1, first, end),
                        top: first,
                    },
                )
            }
        },
    }
}

/// The frame has pixels, and its buffer holds all its rows.
pub open spec fn frame_ok(frame: RawFrame) -> bool {
    &&& 0 < frame.width <= i32::MAX
    &&& 0 < frame.height <= i32::MAX
    &&& 4 * frame.width <= frame.stride
    &&& (frame.height - 1) * frame.stride + 4 * frame.width <= frame.data@.len()
}

/// The first `n` rows of a frame, one after the other.
pub open spec fn packed_rows(frame: RawFrame, n: nat) -> Seq<u8>
    decreases n,
{
    if n == 0 {
        Seq::empty()
    } else {
        packed_rows(frame, (n - 1) as nat) + frame.data@.subrange(
            (n - 1) * frame.stride,
            (n - 1) * frame.stride + 4 * frame.width,
        )
    }
}

/// The pixels of a frame.
pub open spec fn packed(frame: RawFrame) -> Picture {
    Picture {
        data: packed_rows(frame, frame.height as nat),
        width: frame.width as int,
        height: frame.height as int,
    }
}

/// The bytes at the start of an image, as many as its rows take at the width of
/// a frame, and below them the last `shift` rows of the frame.  Where the frame
/// is as wide as the image, these are all the rows of the image; where it is
/// narrower, they are the same pixels in shorter rows.
pub open spec fn appended(image: Picture, current: Picture, shift: int) -> Picture {
    let row = 4 * current.width;
    Picture {
        data: image.data.take(image.height * row) + current.data.subrange(
            (current.height - shift) * row,
            current.height * row,
        ),
        width: current.width,
        height: image.height + shift,
    }
}

/// What a match at `y` rows below the top of the search region means: by how
/// many rows the content moved up.
pub open spec fn shift_of(s: Stitching, height: int, top: int, y: int) -> int {
    top + y - effective_top(s.params, height)
}

/// The state after a frame, and what is reported of it.  A frame that is not
/// stitched is counted and changes nothing else.
pub open spec fn stitch_step(
    s: Stitching,
    frame: RawFrame,
    gradient: Option<Picture>,
    direction: int,
    best: Option<BestMatch>,
) -> (Stitching, Result<bool, StitchError>) {
    let counted = Stitching { frame_count: (s.frame_count + 1) % 0x1_0000_0000, ..s };
    if !frame_ok(frame) {
        (counted, Err(StitchError::BadFrame))
    } else if !(gradient matches Some(g) && g.wf(1) && g.width == frame.width && g.height
        == frame.height) {
        (counted, Err(StitchError::Gradient))
    } else {
        let g = gradient->0;
        let current = packed(frame);
        let seen = Stitching { gradient: Some(g), ..counted };
        match s.image {
            None => (Stitching { image: Some(current), ..seen }, Ok(true)),
            Some(image) => match match_plan(s, g, direction) {
                Err(e) => (counted, Err(e)),
                Ok(Plan::NoSearch) => (counted, Ok(false)),
                Ok(Plan::Search { top, .. }) => match best {
                    None => (counted, Err(StitchError::Match)),
                    Some(b) => {
                        let shift = shift_of(s, current.height, top, b.y as int);
                        if b.score < s.params.match_confidence || !(0 < shift < current.height) {
                            (counted, Ok(false))
                        } else if current.width > image.width {
                            (counted, Err(StitchError::Width))
                        } else if (image.height + shift) * (4 * current.width) > MAX_IMAGE_BYTES {
                            (counted, Err(StitchError::TooLarge))
                        } else {
                            (
                                Stitching {
                                    image: Some(appended(image, current, shift)),
                                    last_match_y: Some(top + b.y),
                                    ..seen
                                },
                                Ok(true),
                            )
                        }
                    },
                },
            },
        }
    }
}

proof fn lemma_packed_len(frame: RawFrame, n: nat)
    requires
        frame_ok(frame),
        n <= frame.height,
    ensures
        packed_rows(frame, n).len() == n * (4 * frame.width),
    decreases n,
{
    if n > 0 {
        let m = (n - 1) as nat;
        lemma_packed_len(frame, m);
        let w: int = 4 * frame.width;
        let st = frame.stride as int;
        assert(m * st + w <= frame.data@.len() && 0 <= m * st) by (nonlinear_arith)
            requires
                0 <= m <= frame.height - 1,
                0 <= st,
                (frame.height - 1) * st + w <= frame.data@.len(),
        ;
        assert(n * w == m * w + w) by (nonlinear_arith)
            requires
                n == m + 1,
        ;
        assert(packed_rows(frame, n).len() == m * w + w);
    } else {
        assert(n * (4 * frame.width) == 0) by (nonlinear_arith)
            requires
                n == 0,
        ;
    }
}

/// Whether a frame has pixels and a complete buffer.
fn check_frame(frame: &RawFrame) -> (r: bool)
    ensures
        r == frame_ok(*frame),
{
    if frame.width == 0 || frame.width > 0x7fff_ffff || frame.height == 0 || frame.height
        > 0x7fff_ffff {
        return false;
    }
    let row: u64 = 4 * frame.width as u64;
    if row > frame.stride as u64 {
        return false;
    }
    assert((frame.height - 1) * frame.stride <= 0x7fff_ffff * 0xffff_ffff) by (nonlinear_arith)
        requires
            0 < frame.height <= 0x7fff_ffff,
            0 <= frame.stride <= 0xffff_ffff,
    ;
    assert(0 <= (frame.height - 1) * frame.stride) by (nonlinear_arith)
        requires
            0 < frame.height,
            0 <= frame.stride,
    ;
    let before: u64 = (frame.height - 1) as u64 * frame.stride as u64;
    before + row <= frame.data.len() as u64
}

/// The pixels of a frame, without the gaps between its rows.
fn frame_to_image(frame: &RawFrame) -> (r: Image)
    requires
        frame_ok(*frame),
    ensures
        r@ == packed(*frame),
        r@.wf(4),
{
    let total: usize = frame.data.len();
    assert(0 <= (frame.height - 1) * frame.stride) by (nonlinear_arith)
        requires
            0 < frame.height,
            0 <= frame.stride,
    ;
    let row: usize = 4 * frame.width as usize;
    let mut data: Vec<u8> = Vec::new();
    let mut y: u32 = 0;
    let mut start: usize = 0;
    let mut first: bool = true;
    while y < frame.height
        invariant
            frame_ok(*frame),
            total == frame.data@.len(),
            y <= frame.height,
            row == 4 * frame.width,
            first == (y == 0),
            y == 0 ==> start == 0,
            y > 0 ==> start == (y - 1) * frame.stride,
            data@ == packed_rows(*frame, y as nat),
        decreases frame.height - y,
    {
        let ghost st = frame.stride as int;
        assert(y * st + row <= frame.data@.len() && 0 <= y * st) by (nonlinear_arith)
            requires
                0 <= y <= frame.height - 1,
                0 <= st,
                (frame.height - 1) * st + row <= frame.data@.len(),
        ;
        if !first {
            assert(y * st == (y - 1) * st + st) by (nonlinear_arith);
            start = start + frame.stride as usize;
        }
        first = false;
        assert(start == y * st) by (nonlinear_arith)
            requires
                y == 0 ==> start == 0,
                y > 0 ==> start == y * st,
        ;
        let line: &[u8] = slice_subrange(frame.data.as_slice(), start, start + row);
        data.extend_from_slice(line);
        assert(data@ =~= packed_rows(*frame, (y + 1) as nat));
        y = y + 1;
    }
    proof {
        lemma_packed_len(*frame, frame.height as nat);
    }
    Image { data, width: frame.width, height: frame.height }
}

/// The part `ratio` of a height.
fn scaled_rows(height: u32, ratio: u32) -> (r: u32)
    requires
        height <= i32::MAX,
    ensures
        r == scaled(height as int, ratio as int),
        r <= i32::MAX,
{
    assert(0 <= height * ratio <= 0x7fff_ffff * 0xffff_ffff) by (nonlinear_arith)
        requires
            0 <= height <= 0x7fff_ffff,
            0 <= ratio <= 0xffff_ffff,
    ;
    let n: u64 = height as u64 * ratio as u64 / RATIO_ONE as u64;
    if n > 0x7fff_ffff {
        0x7fff_ffff
    } else {
        n as u32
    }
}

/// The rows of a grey image from `top` up to and without `bottom`.
fn crop_rows(image: &GrayImage, top: u32, bottom: u32) -> (r: GrayImage)
    requires
        image@.wf(1),
        top < bottom <= image.height,
    ensures
        r@ == image@.rows(1, top as int, bottom as int),
        r@.wf(1),
{
    let total: usize = image.data.len();
    proof {
        let w = image.width as int;
        assert(total == image.height * w);
        assert(0 <= top * w < bottom * w <= image.height * w) by (nonlinear_arith)
            requires
                0 <= top < bottom <= image.height,
                0 < w,
        ;
        assert((bottom - top) * w == bottom * w - top * w) by (nonlinear_arith);
    }
    let from: usize = top as usize * image.width as usize;
    let to: usize = bottom as usize * image.width as usize;
    let mut data: Vec<u8> = Vec::new();
    let part: &[u8] = slice_subrange(image.data.as_slice(), from, to);
    data.extend_from_slice(part);
    assert(data@ =~= image.data@.subrange(from as int, to as int));
    GrayImage { data, width: image.width, height: bottom - top }
}

/// Pixels of four bytes without their last byte; what does not fill a pixel is
/// dropped.
pub open spec fn without_alpha(data: Seq<u8>) -> Seq<u8> {
    Seq::new((data.len() / 4 * 3) as nat, |i: int| data[i / 3 * 4 + i % 3])
}

/// Drops the last byte of each pixel.
fn drop_alpha(data: &[u8]) -> (r: Vec<u8>)
    ensures
        r@ == without_alpha(data@),
{
    let mut out: Vec<u8> = Vec::new();
    let mut i: usize = 0;
    while data.len() - i >= 4
        invariant
            i <= data@.len(),
            i % 4 == 0,
            out@.len() == i / 4 * 3,
            forall|j: int| 0 <= j < out@.len() ==> #[trigger] out@[j] == data@[j / 3 * 4 + j % 3],
        decreases data@.len() - i,
    {
        let ghost before = out@;
        out.push(data[i]);
        out.push(data[i + 1]);
        out.push(data[i + 2]);
        assert forall|j: int| 0 <= j < out@.len() implies #[trigger] out@[j] == data@[j / 3 * 4 + j
            % 3] by {
            if j < before.len() {
                assert(out@[j] == before[j]);
            }
        }
        i = i + 4;
    }
    assert(out@ =~= without_alpha(data@));
    out
}

/// Stitches the frames of a scrolling capture into one image.
pub struct ImageStitcher {
    params: StitchParams,
    result: Option<Image>,
    stitched_gradient: Option<GrayImage>,
    last_match_y: Option<i64>,
    frame_count: u32,
}

/// The contents of a picture that may be missing.
pub open spec fn picture_of(image: Option<GrayImage>) -> Option<Picture> {
    match image {
        Some(i) => Some(i@),
        None => None,
    }
}

impl View for ImageStitcher {
    type V = Stitching;

    closed spec fn view(&self) -> Stitching {
        Stitching {
            params: self.params,
            image: match self.result {
                Some(i) => Some(i@),
                None => None,
            },
            gradient: picture_of(self.stitched_gradient),
            last_match_y: match self.last_match_y {
                Some(y) => Some(y as int),
                None => None,
            },
            frame_count: self.frame_count as int,
        }
    }
}

impl Stitching {
    /// The state before the first frame.
    pub open spec fn fresh(params: StitchParams) -> Stitching {
        Stitching { params, image: None, gradient: None, last_match_y: None, frame_count: 0 }
    }

    /// There is an image if and only if there was a frame to compare with,
    /// and both are complete.
    pub open spec fn wf(self) -> bool {
        &&& self.image is Some <==> self.gradient is Some
        &&& self.image matches Some(i) ==> i.wf(4)
        &&& self.gradient matches Some(g) ==> g.wf(1)
        &&& self.last_match_y matches Some(y) ==> 0 <= y < 0x1_0000_0000
        &&& 0 <= self.frame_count < 0x1_0000_0000
    }

    /// The height of the image.
    pub open spec fn total_height(self) -> int {
        match self.image {
            Some(i) => i.height,
            None => 0,
        }
    }
}

impl ImageStitcher {
    /// The state is consistent.
    pub open spec fn wf(self) -> bool {
        self@.wf()
    }

    /// A stitcher that has seen no frame.
    pub fn new(params: StitchParams) -> (r: ImageStitcher)
        ensures
            r.wf(),
            r@ == Stitching::fresh(params),
            r@.params == params,
            r@.image is None && r@.gradient is None && r@.last_match_y is None,
            r@.frame_count == 0,
    {
        ImageStitcher {
            params,
            result: None,
            stitched_gradient: None,
            last_match_y: None,
            frame_count: 0,
        }
    }

    /// Forgets all frames.
    pub fn reset(&mut self)
        requires
            old(self).wf(),
        ensures
            final(self).wf(),
            final(self)@ == Stitching::fresh(old(self)@.params),
            final(self)@.params == old(self)@.params,
            final(self)@.image is None && final(self)@.gradient is None,
            final(self)@.last_match_y is None && final(self)@.frame_count == 0,
    {
        self.result = None;
        self.stitched_gradient = None;
        self.last_match_y = None;
        self.frame_count = 0;
    }

    /// The rows of a frame between the ignored parts at its top and bottom.
    pub fn get_effective_region(&self, height: u32) -> (r: (i64, i64))
        requires
            height <= i32::MAX,
        ensures
            r.0 == effective_top(self@.params, height as int),
            r.1 == effective_bottom(self@.params, height as int),
    {
        let top: u32 = scaled_rows(height, self.params.ignore_y_top);
        let ignored: u32 = scaled_rows(height, self.params.ignore_y_bottom);
        (top as i64, height as i64 - ignored as i64)
    }

    /// What to look for when the next frame has the given gradient image, and
    /// the user scrolled in the given direction: down where it is positive, up
    /// where it is negative.
    pub fn plan_match(&self, gradient: &GrayImage, direction: i32) -> (r: Result<
        MatchPlan,
        StitchError,
    >)
        requires
            self.wf(),
            gradient@.wf(1),
        ensures
            match r {
                Ok(plan) => match_plan(self@, gradient@, direction as int) == Ok::<
                    Plan,
                    StitchError,
                >(plan@),
                Err(e) => match_plan(self@, gradient@, direction as int) == Err::<
                    Plan,
                    StitchError,
                >(e),
            },
            r matches Ok(MatchPlan::Search { template, region, .. }) ==> template@.wf(1)
                && region@.wf(1),
    {
        let previous: &GrayImage = match &self.stitched_gradient {
            None => return Ok(MatchPlan::NoSearch),
            Some(previous) => previous,
        };
        assert(self@.gradient == Some(previous@));
        let top: i64 = self.get_effective_region(gradient.height).0;
        let ratio: u32 = self.params.template_ratio;
        let mut rows: u32 = scaled_rows(gradient.height, ratio);
        if rows < MIN_TEMPLATE_ROWS {
            rows = MIN_TEMPLATE_ROWS;
        }
        if top + rows as i64 > gradient.height as i64 {
            return Err(StitchError::Template);
        }
        if rows >= previous.height {
            return Ok(MatchPlan::NoSearch);
        }
        let range: i64 = self.params.max_search_range as i64;
        let positions: i64 = previous.height as i64 - rows as i64;
        let mut first: i64 = 0;
        let mut end: i64 = 0;
        match self.last_match_y {
            Some(y) => {
                if y - range > 0 {
                    first = y - range;
                }
                if direction > 0 && first < top {
                    first = top;
                }
                let mut last: i64 = if y + range < positions {
                    y + range
                } else {
                    positions
                };
                if direction < 0 && last > top {
                    last = top;
                }
                end = last + rows as i64;
            },
            None => {
                let region: (i64, i64) = self.get_effective_region(previous.height);
                first = region.0;
                end = region.1;
            },
        }
        assert((first as int, end as int) == search_window(
            self@,
            previous@.height,
            rows as int,
            top as int,
            direction as int,
        ));
        if end <= first + rows as i64 {
            return Ok(MatchPlan::NoSearch);
        }
        assert(0 <= scaled(previous@.height, self.params.ignore_y_bottom as int)) by {
            assert(0 <= previous@.height * self.params.ignore_y_bottom) by (nonlinear_arith)
                requires
                    0 <= previous@.height,
                    0 <= self.params.ignore_y_bottom,
            ;
        }
        let template: GrayImage = crop_rows(gradient, top as u32, top as u32 + rows);
        let region: GrayImage = crop_rows(previous, first as u32, end as u32);
        Ok(MatchPlan::Search { template, region, top: first as u32 })
    }

    /// Takes in a frame.
    ///
    /// `gradient` is the gradient image of the frame, `direction` the one in
    /// which the user scrolled, and `best` the best position of the template in
    /// the region that [`Self::plan_match`] named for them; gradient and
    /// position are missing where they could not be computed.  Reports whether
    /// the image changed.
    pub fn process_frame(
        &mut self,
        frame: &RawFrame,
        gradient: Option<GrayImage>,
        direction: i32,
        best: Option<BestMatch>,
    ) -> (r: Result<bool, StitchError>)
        requires
            old(self).wf(),
        ensures
            final(self).wf(),
            (final(self)@, r) == stitch_step(
                old(self)@,
                *frame,
                picture_of(gradient),
                direction as int,
                best,
            ),
    {
        let ghost before = self@;
        self.frame_count = self.frame_count.wrapping_add(1);
        let ghost counted = self@;
        assert(counted == Stitching {
            frame_count: (before.frame_count + 1) % 0x1_0000_0000,
            ..before
        });
        if !check_frame(frame) {
            return Err(StitchError::BadFrame);
        }
        let gradient: GrayImage = match gradient {
            None => return Err(StitchError::Gradient),
            Some(g) => g,
        };
        assert(0 <= frame.height * frame.width <= 0x8000_0000 * 0x8000_0000) by (nonlinear_arith)
            requires
                0 <= frame.height <= 0x8000_0000,
                0 <= frame.width <= 0x8000_0000,
        ;
        if gradient.width != frame.width || gradient.height != frame.height
            || gradient.data.len() as u64 != frame.height as u64 * frame.width as u64 {
            return Err(StitchError::Gradient);
        }
        let current: Image = frame_to_image(frame);
        if self.result.is_none() {
            self.result = Some(current);
            self.stitched_gradient = Some(gradient);
            return Ok(true);
        }
        let plan: MatchPlan = match self.plan_match(&gradient, direction) {
            Err(e) => return Err(e),
            Ok(plan) => plan,
        };
        let top: u32 = match plan {
            MatchPlan::NoSearch => return Ok(false),
            MatchPlan::Search { top, .. } => top,
        };
        let best: BestMatch = match best {
            None => return Err(StitchError::Match),
            Some(b) => b,
        };
        let effective: i64 = self.get_effective_region(frame.height).0;
        let match_y: i64 = top as i64 + best.y as i64;
        let shift: i64 = match_y - effective;
        if best.score < self.params.match_confidence || shift <= 0 || shift >= frame.height as i64 {
            return Ok(false);
        }
        match self.append_content(&current, shift as i32) {
            Err(e) => return Err(e),
            Ok(()) => {},
        }
        self.last_match_y = Some(match_y);
        self.stitched_gradient = Some(gradient);
        Ok(true)
    }

    /// Appends the last `shift` rows of a frame to the image, where the frame
    /// has so many; a shift of no row, of less or of more than the frame has
    /// leaves the image as it is.
    pub fn append_content(&mut self, current: &Image, shift: i32) -> (r: Result<(), StitchError>)
        requires
            old(self).wf(),
            old(self)@.image is Some,
            current@.wf(4),
        ensures
            ({
                let image = old(self)@.image->0;
                if shift <= 0 || shift > current.height {
                    r is Ok && final(self)@ == old(self)@
                } else if current.width > image.width {
                    r == Err::<(), StitchError>(StitchError::Width) && final(self)@ == old(self)@
                } else if (image.height + shift) * (4 * current.width) > MAX_IMAGE_BYTES {
                    r == Err::<(), StitchError>(StitchError::TooLarge) && final(self)@ == old(
                        self,
                    )@
                } else {
                    r is Ok && final(self)@ == (Stitching {
                        image: Some(appended(image, current@, shift as int)),
                        ..old(self)@
                    })
                }
            }),
            final(self).wf(),
    {
        if shift <= 0 || shift as u32 > current.height {
            return Ok(());
        }
        let shift: u32 = shift as u32;
        let ghost before = self@;
        let image: &Image = match &self.result {
            Some(image) => image,
            None => return Err(StitchError::NoImage),
        };
        assert(before.image == Some(image@));
        if current.width > image.width {
            return Err(StitchError::Width);
        }
        let new_height: u64 = image.height as u64 + shift as u64;
        let total: usize = current.data.len();
        assert(0 <= (image.height + shift) * (4 * current.width) <= 0x1_0000_0000 * (4
            * 0x1_0000_0000)) by (nonlinear_arith)
            requires
                0 <= image.height + shift <= 0x1_0000_0000,
                0 <= current.width <= 0x1_0000_0000,
        ;
        if new_height as u128 * (4 * current.width as u128) > MAX_IMAGE_BYTES as u128 {
            return Err(StitchError::TooLarge);
        }
        proof {
            let row = 4 * current.width as int;
            let h = image.height as int;
            let ch = current.height as int;
            assert(0 <= h * row <= h * (4 * image.width)) by (nonlinear_arith)
                requires
                    0 <= row <= 4 * image.width,
                    0 <= h,
            ;
            assert(0 <= (ch - shift) * row <= ch * row) by (nonlinear_arith)
                requires
                    0 <= row,
                    0 < shift <= ch,
            ;
            assert((h + shift) * row == h * row + ch * row - (ch - shift) * row)
                by (nonlinear_arith);
            assert(row <= (h + shift) * row) by (nonlinear_arith)
                requires
                    0 <= row,
                    1 <= h + shift,
            ;
            assert(h + shift <= (h + shift) * row) by (nonlinear_arith)
                requires
                    1 <= row,
                    0 <= h,
                    0 <= shift,
            ;
        }
        let row: usize = 4 * current.width as usize;
        let existing: usize = image.height as usize * row;
        let from: usize = (current.height - shift) as usize * row;
        let to: usize = total;
        let mut data: Vec<u8> = Vec::new();
        data.extend_from_slice(slice_subrange(image.data.as_slice(), 0, existing));
        data.extend_from_slice(slice_subrange(current.data.as_slice(), from, to));
        let stitched: Image = Image {
            data,
            width: current.width,
            height: new_height as u32,
        };
        assert(stitched@.data =~= appended(image@, current@, shift as int).data);
        self.result = Some(stitched);
        Ok(())
    }

    /// The image in RGBA bytes, with its width and height.
    pub fn get_result_rgba(&self) -> (r: Option<(Vec<u8>, u32, u32)>)
        requires
            self.wf(),
        ensures
            match r {
                Some((data, width, height)) => self@.image matches Some(i) && data@ == swapped(
                    i.data,
                ) && width == i.width && height == i.height,
                None => self@.image is None,
            },
    {
        match &self.result {
            Some(image) => {
                Some((swap_red_blue(image.data.as_slice()), image.width, image.height))
            },
            None => None,
        }
    }

    /// The image, where it is higher than `max_height` and has to be scaled
    /// down for a preview.
    pub fn preview_source(&self, max_height: u32) -> (r: Option<&Image>)
        requires
            self.wf(),
        ensures
            match r {
                Some(image) => self@.image == Some(image@) && image.height > max_height,
                None => self@.image matches Some(i) ==> i.height <= max_height,
            },
    {
        match &self.result {
            Some(image) => if image.height > max_height {
                Some(image)
            } else {
                None
            },
            None => None,
        }
    }

    /// A preview in RGBA bytes, with its width and height: the image itself
    /// where it is not higher than `max_height`, and otherwise `resized`, the
    /// image scaled to that height and its width, if there is one.
    pub fn get_preview(&self, max_height: u32, resized: Option<(Vec<u8>, u32)>) -> (r: Option<
        (Vec<u8>, u32, u32),
    >)
        requires
            self.wf(),
        ensures
            match self@.image {
                None => r is None,
                Some(i) => if i.height <= max_height {
                    r matches Some((data, width, height)) && data@ == swapped(i.data) && width
                        == i.width && height == i.height
                } else {
                    match resized {
                        None => r is None,
                        Some(p) => r matches Some((data, width, height)) && data@ == swapped(
                            p.0@,
                        ) && width == p.1 && height == max_height,
                    }
                },
            },
    {
        match &self.result {
            None => None,
            Some(image) => if image.height <= max_height {
                self.get_result_rgba()
            } else {
                match resized {
                    None => None,
                    Some(p) => Some((swap_red_blue(p.0.as_slice()), p.1, max_height)),
                }
            },
        }
    }

    /// The image in BGR bytes, for an encoder that expects them, with its
    /// width and height.
    pub fn image_to_save(&self) -> (r: Result<(Vec<u8>, u32, u32), StitchError>)
        requires
            self.wf(),
        ensures
            match r {
                Ok((data, width, height)) => self@.image matches Some(i) && data@
                    == without_alpha(i.data) && width == i.width && height == i.height,
                Err(e) => e == StitchError::NoImage && self@.image is None,
            },
    {
        match &self.result {
            Some(image) => Ok((drop_alpha(image.data.as_slice()), image.width, image.height)),
            None => Err(StitchError::NoImage),
        }
    }

    /// The height of the image; zero where there is none.
    pub fn get_total_height(&self) -> (r: i32)
        requires
            self.wf(),
        ensures
            r == self@.total_height(),
            self@.image matches Some(i) ==> r == i.height,
            self@.image is None ==> r == 0,
    {
        match &self.result {
            Some(image) => image.height as i32,
            None => 0,
        }
    }

    /// How many frames came, modulo 2^32.
    pub fn get_frame_count(&self) -> (r: u32)
        ensures
            r == self@.frame_count,
    {
        self.frame_count
    }
}

/// A frame that is not stitched is counted and changes nothing else: neither
/// the image nor what the next frame is compared with.  One that is extends the
/// image, at a frame of the same width, by at least one row and by fewer
/// rows than the frame has, and keeps every row that was there.
pub proof fn image_only_grows(
    s: Stitching,
    frame: RawFrame,
    gradient: Option<Picture>,
    direction: int,
    best: Option<BestMatch>,
)
    requires
        s.wf(),
    ensures
        ({
            let (after, report) = stitch_step(s, frame, gradient, direction, best);
            &&& report != Ok::<bool, StitchError>(true) ==> after == (Stitching {
                frame_count: (s.frame_count + 1) % 0x1_0000_0000,
                ..s
            })
            &&& report == Ok::<bool, StitchError>(true) && s.image is None ==> after.image == Some(
                packed(frame),
            )
            &&& s.image matches Some(i) ==> (report == Ok::<bool, StitchError>(true) && i.width
                == frame.width ==> {
                &&& after.image matches Some(j)
                &&& j.width == i.width
                &&& i.height < j.height < i.height + frame.height
                &&& j.data.take(i.data.len() as int) == i.data
            })
        }),
{
    let (after, report) = stitch_step(s, frame, gradient, direction, best);
    if report == Ok::<bool, StitchError>(true) && s.image is Some && s.image->0.width
        == frame.width {
        let i = s.image->0;
        let j = after.image->0;
        assert(i.data.take(i.height * (4 * i.width)) =~= i.data);
        assert(j.data.take(i.data.len() as int) =~= i.data);
    }
}

/// Every frame is counted, whatever becomes of it, and no frame changes the
/// parameters.
pub proof fn every_frame_is_counted(
    s: Stitching,
    frame: RawFrame,
    gradient: Option<Picture>,
    direction: int,
    best: Option<BestMatch>,
)
    ensures
        stitch_step(s, frame, gradient, direction, best).0.frame_count == (s.frame_count + 1) % 0x1_0000_0000,
        stitch_step(s, frame, gradient, direction, best).0.params == s.params,
{
}

/// The rows from `top` up to and without `bottom` of a page whose rows take
/// `row` bytes each.
pub open spec fn page_rows(page: Seq<u8>, row: int, top: int, bottom: int) -> Seq<u8> {
    page.subrange(top * row, bottom * row)
}

/// Stitching reconstructs the page that is scrolled.
///
/// The image shows the rows of the page from `start` to the end of the last
/// frame that was stitched, which began at row `from`; the new frame shows the page
/// from row `to` on, less than a frame further down.  Where the template is
/// found at its true place, the new image shows the page from `start` to the
/// end of the new frame.
pub proof fn stitching_reconstructs_the_page(
    s: Stitching,
    frame: RawFrame,
    gradient: Picture,
    direction: int,
    best: BestMatch,
    page: Seq<u8>,
    start: int,
    from: int,
    to: int,
)
    requires
        s.wf(),
        frame_ok(frame),
        gradient.wf(1),
        gradient.width == frame.width,
        gradient.height == frame.height,
        0 <= start <= from < to < from + frame.height,
        (to + frame.height) * (4 * frame.width) <= page.len(),
        s.image matches Some(i) && i.width == frame.width && i.height == from + frame.height - start
            && i.data == page_rows(page, 4 * frame.width, start, from + frame.height),
        packed(frame).data == page_rows(page, 4 * frame.width, to, to + frame.height),
        match_plan(s, gradient, direction) matches Ok(Plan::Search { top, .. }) && shift_of(
            s,
            frame.height as int,
            top,
            best.y as int,
        ) == to - from,
        best.score >= s.params.match_confidence,
        (to + frame.height - start) * (4 * frame.width) <= MAX_IMAGE_BYTES,
    ensures
        ({
            let (after, report) = stitch_step(s, frame, Some(gradient), direction, Some(best));
            &&& report == Ok::<bool, StitchError>(true)
            &&& after.image matches Some(j)
            &&& j.width == frame.width
            &&& j.height == to + frame.height - start
            &&& j.data == page_rows(page, 4 * frame.width, start, to + frame.height)
        }),
{
    let row = 4 * frame.width;
    let h = frame.height as int;
    let shift = to - from;
    let (after, report) = stitch_step(s, frame, Some(gradient), direction, Some(best));
    let i = s.image->0;
    let current = packed(frame);
    assert(0 <= start * row <= (from + h) * row) by (nonlinear_arith)
        requires
            0 <= start <= from + h,
            0 <= row,
    ;
    assert((from + h) * row <= (to + h) * row && 0 <= to * row <= (to + h) * row)
        by (nonlinear_arith)
        requires
            0 <= from < to,
            0 <= h,
            0 <= row,
    ;
    assert((h - shift) * row == (from + h) * row - to * row) by (nonlinear_arith)
        requires
            shift == to - from,
    ;
    assert(h * row == (to + h) * row - to * row) by (nonlinear_arith);
    assert(i.height * row == (from + h) * row - start * row) by (nonlinear_arith)
        requires
            i.height == from + h - start,
    ;
    let j = appended(i, current, shift);
    assert(0 <= (h - shift) * row <= h * row) by (nonlinear_arith)
        requires
            0 < shift < h,
            0 <= row,
    ;
    assert(j.data =~= page_rows(page, row, start, to + h));
}

/// A frame, its gradient image, the direction in which the user scrolled, and
/// the best place of the template.
pub struct StitchInput {
    pub frame: RawFrame,
    pub gradient: Picture,
    pub direction: int,
    pub best: BestMatch,
}

/// The state after a frame of a run, and what is reported of it.
pub open spec fn input_step(s: Stitching, input: StitchInput) -> (
    Stitching,
    Result<bool, StitchError>,
) {
    stitch_step(s, input.frame, Some(input.gradient), input.direction, Some(input.best))
}

/// The state after a run of frames.
pub open spec fn stitch_run(s: Stitching, inputs: Seq<StitchInput>) -> Stitching
    decreases inputs.len(),
{
    if inputs.len() == 0 {
        s
    } else {
        input_step(stitch_run(s, inputs.drop_last()), inputs.last()).0
    }
}

/// The last frame of a run that was stitched; -1 where none was.
pub open spec fn last_stitched(s: Stitching, inputs: Seq<StitchInput>) -> int
    decreases inputs.len(),
{
    if inputs.len() == 0 {
        -1
    } else {
        let first = inputs.drop_last();
        if input_step(stitch_run(s, first), inputs.last()).1 == Ok::<bool, StitchError>(true) {
            first.len() as int
        } else {
            last_stitched(s, first)
        }
    }
}

/// Every frame leaves the state consistent.
pub proof fn stitching_stays_consistent(
    s: Stitching,
    frame: RawFrame,
    gradient: Option<Picture>,
    direction: int,
    best: Option<BestMatch>,
)
    requires
        s.wf(),
    ensures
        stitch_step(s, frame, gradient, direction, best).0.wf(),
{
    let (after, report) = stitch_step(s, frame, gradient, direction, best);
    if frame_ok(frame) {
        lemma_packed_len(frame, frame.height as nat);
    }
    if s.image is Some && report == Ok::<bool, StitchError>(true) {
        let i = s.image->0;
        let current = packed(frame);
        let row = 4 * current.width;
        let shift = after.image->0.height - i.height;
        assert(0 <= i.height * row <= i.height * (4 * i.width)) by (nonlinear_arith)
            requires
                0 <= row <= 4 * i.width,
                0 <= i.height,
        ;
        assert(0 <= (current.height - shift) * row <= current.height * row) by (nonlinear_arith)
            requires
                0 <= row,
                0 < shift < current.height,
        ;
        assert((i.height + shift) * row == i.height * row + current.height * row - (current.height
            - shift) * row) by (nonlinear_arith);
        assert(i.height + shift <= (i.height + shift) * row) by (nonlinear_arith)
            requires
                1 <= row,
                0 <= i.height + shift,
        ;
        match match_plan(s, gradient->0, direction) {
            Ok(Plan::Search { top, .. }) => {
                assert(0 <= effective_top(s.params, current.height)) by {
                    assert(0 <= current.height * s.params.ignore_y_top) by (nonlinear_arith)
                        requires
                            0 <= current.height,
                            0 <= s.params.ignore_y_top,
                    ;
                }
            },
            _ => {},
        }
    }
}

/// A frame shows the page from row `top` on, with the given width and height.
pub open spec fn shows_page(
    input: StitchInput,
    page: Seq<u8>,
    width: u32,
    height: u32,
    top: int,
) -> bool {
    &&& frame_ok(input.frame)
    &&& input.frame.width == width
    &&& input.frame.height == height
    &&& input.gradient.wf(1)
    &&& input.gradient.width == width
    &&& input.gradient.height == height
    &&& 0 <= top
    &&& (top + height) * (4 * width) <= page.len()
    &&& packed(input.frame).data == page_rows(page, 4 * width, top, top + height)
}

/// A match of a frame that counts lies at the true place of the template: the
/// content moved up by `shift` rows.
pub open spec fn matches_truly(s: Stitching, input: StitchInput, shift: int) -> bool {
    match match_plan(s, input.gradient, input.direction) {
        Ok(Plan::Search { top, .. }) => input.best.score >= s.params.match_confidence ==> shift_of(
            s,
            input.frame.height as int,
            top,
            input.best.y as int,
        ) == shift,
        _ => true,
    }
}

/// The image shows the page from row `start` to the end of a frame at row `top`.
pub open spec fn image_shows_page(
    image: Option<Picture>,
    page: Seq<u8>,
    width: u32,
    height: u32,
    start: int,
    top: int,
) -> bool {
    &&& start <= top
    &&& image matches Some(i)
    &&& i.width == width
    &&& i.height == top + height - start
    &&& i.data == page_rows(page, 4 * width, start, top + height)
}

/// One frame of a run.
proof fn lemma_run_step(
    s: Stitching,
    input: StitchInput,
    page: Seq<u8>,
    width: u32,
    height: u32,
    start: int,
    from: int,
    to: int,
)
    requires
        s.wf(),
        0 <= start,
        image_shows_page(s.image, page, width, height, start, from),
        shows_page(input, page, width, height, to),
        matches_truly(s, input, to - from),
    ensures
        ({
            let (after, report) = input_step(s, input);
            &&& after.wf()
            &&& after.params == s.params
            &&& if report == Ok::<bool, StitchError>(true) {
                &&& image_shows_page(after.image, page, width, height, start, to)
                &&& after.gradient == Some(input.gradient)
            } else {
                after.image == s.image && after.gradient == s.gradient
            }
        }),
{
    let (after, report) = input_step(s, input);
    stitching_stays_consistent(
        s,
        input.frame,
        Some(input.gradient),
        input.direction,
        Some(input.best),
    );
    if report == Ok::<bool, StitchError>(true) {
        let i = s.image->0;
        match match_plan(s, input.gradient, input.direction) {
            Ok(Plan::Search { top, .. }) => {
                let shift = shift_of(s, height as int, top, input.best.y as int);
                assert(packed(input.frame).height == height);
                assert(0 < shift < height);
                assert(shift == to - from);
                assert(i.height + shift == to + height - start);
                stitching_reconstructs_the_page(
                    s,
                    input.frame,
                    input.gradient,
                    input.direction,
                    input.best,
                    page,
                    start,
                    from,
                    to,
                );
            },
            _ => {},
        }
    }
}

/// Frame `k` of a run matches truly after the frames before it: the content
/// moved up by as many rows as the frame shows the page further down than the
/// last frame that was stitched.
pub open spec fn frame_matches_truly(
    params: StitchParams,
    inputs: Seq<StitchInput>,
    tops: Seq<int>,
    k: int,
) -> bool {
    let fresh = Stitching::fresh(params);
    let first = inputs.take(k);
    matches_truly(stitch_run(fresh, first), inputs[k], tops[k] - tops[last_stitched(fresh, first)])
}

/// The first frame of a run.
proof fn lemma_first_step(
    params: StitchParams,
    input: StitchInput,
    page: Seq<u8>,
    width: u32,
    height: u32,
    top: int,
)
    requires
        shows_page(input, page, width, height, top),
    ensures
        ({
            let (after, report) = input_step(Stitching::fresh(params), input);
            &&& report == Ok::<bool, StitchError>(true)
            &&& after.wf()
            &&& after.params == params
            &&& after.gradient == Some(input.gradient)
            &&& image_shows_page(after.image, page, width, height, top, top)
        }),
{
    stitching_stays_consistent(
        Stitching::fresh(params),
        input.frame,
        Some(input.gradient),
        input.direction,
        Some(input.best),
    );
}

/// A run of frames of one page, which moves down and up as it likes,
/// reconstructs the page from the top of the first frame to the end of the last
/// frame that was stitched, without a gap and without repeated rows, where no
/// match that counts lies at a wrong place.  That frame is the bottom of the
/// image, and the next frame is compared with it.
pub proof fn scrolling_reconstructs_the_page(
    params: StitchParams,
    inputs: Seq<StitchInput>,
    tops: Seq<int>,
    page: Seq<u8>,
    width: u32,
    height: u32,
)
    requires
        inputs.len() == tops.len() > 0,
        forall|k: int|
            0 <= k < inputs.len() ==> shows_page(
                #[trigger] inputs[k],
                page,
                width,
                height,
                tops[k],
            ),
        forall|k: int|
            0 < k < inputs.len() ==> #[trigger] frame_matches_truly(params, inputs, tops, k),
    ensures
        ({
            let after = stitch_run(Stitching::fresh(params), inputs);
            let last = last_stitched(Stitching::fresh(params), inputs);
            &&& after.wf()
            &&& after.params == params
            &&& 0 <= last < inputs.len()
            &&& after.gradient == Some(inputs[last].gradient)
            &&& image_shows_page(after.image, page, width, height, tops[0], tops[last])
        }),
    decreases inputs.len(),
{
    let fresh = Stitching::fresh(params);
    let n = inputs.len() - 1;
    let input = inputs[n];
    let first = inputs.drop_last();
    let before = stitch_run(fresh, first);
    if n == 0 {
        lemma_first_step(params, input, page, width, height, tops[0]);
        assert(before == fresh);
    } else {
        let before_tops = tops.drop_last();
        assert forall|k: int| 0 <= k < first.len() implies shows_page(
            #[trigger] first[k],
            page,
            width,
            height,
            before_tops[k],
        ) by {
            assert(first[k] == inputs[k]);
        }
        assert forall|k: int| 0 < k < first.len() implies #[trigger] frame_matches_truly(
            params,
            first,
            before_tops,
            k,
        ) by {
            assert(frame_matches_truly(params, inputs, tops, k));
            assert(first.take(k) =~= inputs.take(k));
            assert(inputs.take(k).len() == k);
            lemma_stitched_frame_of_run(params, inputs, page, width, height, tops, k);
        }
        scrolling_reconstructs_the_page(params, first, before_tops, page, width, height);
        let reached = last_stitched(fresh, first);
        assert(inputs.take(n) =~= first);
        assert(frame_matches_truly(params, inputs, tops, n));
        assert(matches_truly(before, input, tops[n] - tops[reached]));
        assert(shows_page(inputs[0], page, width, height, tops[0]));
        assert(shows_page(input, page, width, height, tops[n]));
        lemma_run_step(before, input, page, width, height, tops[0], tops[reached], tops[n]);
    }
}

/// The last stitched frame of the start of a run is one of its frames: at least
/// the first one is stitched.
proof fn lemma_stitched_frame_of_run(
    params: StitchParams,
    inputs: Seq<StitchInput>,
    page: Seq<u8>,
    width: u32,
    height: u32,
    tops: Seq<int>,
    k: int,
)
    requires
        0 < k <= inputs.len(),
        shows_page(inputs[0], page, width, height, tops[0]),
    ensures
        0 <= last_stitched(Stitching::fresh(params), inputs.take(k)) < k,
    decreases k,
{
    let part = inputs.take(k);
    let fresh = Stitching::fresh(params);
    assert(part.drop_last() =~= inputs.take(k - 1));
    if k == 1 {
        assert(stitch_run(fresh, part.drop_last()) == fresh);
        assert(part.last() == inputs[0]);
        lemma_first_step(params, inputs[0], page, width, height, tops[0]);
    } else {
        lemma_stitched_frame_of_run(params, inputs, page, width, height, tops, k - 1);
    }
}

/// The template of frame `k` of a run is found at its true place in the frame
/// before it.
pub open spec fn frame_found(
    params: StitchParams,
    inputs: Seq<StitchInput>,
    tops: Seq<int>,
    k: int,
) -> bool {
    let s = stitch_run(Stitching::fresh(params), inputs.take(k));
    let input = inputs[k];
    &&& match_plan(s, input.gradient, input.direction) matches Ok(Plan::Search { top, .. })
    &&& shift_of(s, input.frame.height as int, top, input.best.y as int) == tops[k] - tops[k - 1]
    &&& input.best.score >= params.match_confidence
}

/// A run of frames that scrolls down a page, each less than its height further
/// than the one before, is stitched whole, where every template is found at its
/// true place and the image does not become too large.
pub proof fn steady_scrolling_shows_the_whole_page(
    params: StitchParams,
    inputs: Seq<StitchInput>,
    tops: Seq<int>,
    page: Seq<u8>,
    width: u32,
    height: u32,
)
    requires
        inputs.len() == tops.len() > 0,
        forall|k: int|
            0 <= k < inputs.len() ==> shows_page(
                #[trigger] inputs[k],
                page,
                width,
                height,
                tops[k],
            ),
        forall|k: int|
            0 < k < tops.len() ==> tops[k - 1] < #[trigger] tops[k] < tops[k - 1] + height,
        forall|k: int| 0 < k < inputs.len() ==> #[trigger] frame_found(params, inputs, tops, k),
        (tops.last() + height - tops[0]) * (4 * width) <= MAX_IMAGE_BYTES,
    ensures
        ({
            let after = stitch_run(Stitching::fresh(params), inputs);
            &&& after.wf()
            &&& after.params == params
            &&& last_stitched(Stitching::fresh(params), inputs) == inputs.len() - 1
            &&& image_shows_page(after.image, page, width, height, tops[0], tops.last())
        }),
    decreases inputs.len(),
{
    let fresh = Stitching::fresh(params);
    let n = inputs.len() - 1;
    let input = inputs[n];
    let first = inputs.drop_last();
    let before = stitch_run(fresh, first);
    if n == 0 {
        lemma_first_step(params, input, page, width, height, tops[0]);
        assert(before == fresh);
    } else {
        let before_tops = tops.drop_last();
        assert forall|k: int| 0 <= k < first.len() implies shows_page(
            #[trigger] first[k],
            page,
            width,
            height,
            before_tops[k],
        ) by {
            assert(first[k] == inputs[k]);
        }
        assert forall|k: int| 0 < k < before_tops.len() implies before_tops[k - 1]
            < #[trigger] before_tops[k] < before_tops[k - 1] + height by {
            assert(tops[k - 1] < tops[k] < tops[k - 1] + height);
        }
        assert forall|k: int| 0 < k < first.len() implies #[trigger] frame_found(
            params,
            first,
            before_tops,
            k,
        ) by {
            assert(frame_found(params, inputs, tops, k));
            assert(first.take(k) =~= inputs.take(k));
        }
        let from = tops[n - 1];
        let to = tops[n];
        assert(from < to < from + height);
        assert(before_tops.last() == from);
        assert(before_tops[0] == tops[0]);
        assert((from + height - tops[0]) * (4 * width) <= (to + height - tops[0]) * (4 * width))
            by (nonlinear_arith)
            requires
                from < to,
                0 <= width,
        ;
        steady_scrolling_shows_the_whole_page(params, first, before_tops, page, width, height);
        assert(inputs.take(n) =~= first);
        assert(frame_found(params, inputs, tops, n));
        assert(shows_page(inputs[0], page, width, height, tops[0]));
        assert(shows_page(input, page, width, height, to));
        stitching_reconstructs_the_page(
            before,
            input.frame,
            input.gradient,
            input.direction,
            input.best,
            page,
            tops[0],
            from,
            to,
        );
        stitching_stays_consistent(
            before,
            input.frame,
            Some(input.gradient),
            input.direction,
            Some(input.best),
        );
    }
}

/// The rows of a part of a page are rows of the page.
proof fn lemma_rows_of_rows(page: Seq<u8>, row: int, top: int, bottom: int, from: int, to: int)
    requires
        0 <= row,
        0 <= top,
        0 <= from <= to <= bottom - top,
        bottom * row <= page.len(),
    ensures
        0 <= from * row <= to * row <= page_rows(page, row, top, bottom).len(),
        page_rows(page, row, top, bottom).subrange(from * row, to * row) == page_rows(
            page,
            row,
            top + from,
            top + to,
        ),
{
    assert(0 <= top * row && 0 <= from * row <= to * row && to * row <= (bottom - top) * row && (
    bottom - top) * row == bottom * row - top * row && (top + from) * row == top * row + from * row
        && (top + to) * row == top * row + to * row) by (nonlinear_arith)
        requires
            0 <= row,
            0 <= top,
            0 <= from <= to <= bottom - top,
    ;
    assert(page_rows(page, row, top, bottom).subrange(from * row, to * row) =~= page_rows(
        page,
        row,
        top + from,
        top + to,
    ));
}

/// Where the gradient images of two frames are parts of one page, which starts
/// at row `from` for the last stitched frame and at row `to` for the new one, the
/// template occurs in the search region at the row that stands for the
/// distance of the two, if the region reaches that far.
pub proof fn template_occurs_at_its_place(
    s: Stitching,
    gradient: Picture,
    direction: int,
    page: Seq<u8>,
    from: int,
    to: int,
    y: int,
)
    requires
        s.wf(),
        gradient.wf(1),
        0 <= from,
        0 <= to,
        s.gradient matches Some(previous) && previous.width == gradient.width && previous.height
            == gradient.height && previous.data == page_rows(
            page,
            gradient.width,
            from,
            from + gradient.height,
        ),
        gradient.data == page_rows(page, gradient.width, to, to + gradient.height),
        (from + gradient.height) * gradient.width <= page.len(),
        (to + gradient.height) * gradient.width <= page.len(),
        match_plan(s, gradient, direction) matches Ok(Plan::Search { template, region, top }) && 0 <= y
            <= region.height - template.height && shift_of(s, gradient.height, top, y) == to - from,
    ensures
        match_plan(s, gradient, direction) matches Ok(Plan::Search { template, region, top }) && region.rows(
            1,
            y,
            y + template.height,
        ).data == template.data,
{
    let w = gradient.width;
    let h = gradient.height;
    let previous = s.gradient->0;
    let top = effective_top(s.params, h);
    let rows = template_rows(s.params, h);
    let (first, end) = search_window(s, h, rows, top, direction);
    assert(1 * w == w) by (nonlinear_arith);
    assert(0 <= scaled(h, s.params.ignore_y_top as int) && 0 <= scaled(
        h,
        s.params.ignore_y_bottom as int,
    )) by {
        assert(0 <= h * s.params.ignore_y_top && 0 <= h * s.params.ignore_y_bottom)
            by (nonlinear_arith)
            requires
                0 <= h,
                0 <= s.params.ignore_y_top,
                0 <= s.params.ignore_y_bottom,
        ;
    }
    let template = gradient.rows(1, top, top + rows);
    let region = previous.rows(1, first, end);
    assert(match_plan(s, gradient, direction) == Ok::<Plan, StitchError>(
        Plan::Search { template, region, top: first },
    ));
    lemma_rows_of_rows(page, w, to, to + h, top, top + rows);
    lemma_rows_of_rows(page, w, from, from + h, first, end);
    assert((from + end) * w <= page.len()) by (nonlinear_arith)
        requires
            end <= h,
            0 <= w,
            (from + h) * w <= page.len(),
    ;
    lemma_rows_of_rows(page, w, from + first, from + end, y, y + rows);
    assert(from + first + y == to + top);
}

/// After a first match, a match is accepted only within the search range of
/// the previous one.
pub proof fn matches_stay_in_range(
    s: Stitching,
    frame: RawFrame,
    gradient: Picture,
    direction: int,
    best: BestMatch,
)
    requires
        s.wf(),
        s.last_match_y is Some,
        match_plan(s, gradient, direction) matches Ok(Plan::Search { template, region, .. }) && 0 <= best.y
            <= region.height - template.height,
    ensures
        ({
            let after = stitch_step(s, frame, Some(gradient), direction, Some(best)).0;
            &&& after.last_match_y matches Some(y)
            &&& after.last_match_y == s.last_match_y || -s.params.max_search_range <= y
                - s.last_match_y->0 <= s.params.max_search_range
        }),
{
}

/// After a first match, the search follows the direction in which the user
/// scrolled: after scrolling down no match means that the content moved down,
/// after scrolling up none means that it moved up, and so nothing is appended.
pub proof fn search_follows_direction(
    s: Stitching,
    frame: RawFrame,
    gradient: Picture,
    direction: int,
    best: BestMatch,
)
    requires
        s.wf(),
        s.last_match_y is Some,
        match_plan(s, gradient, direction) matches Ok(Plan::Search { template, region, .. }) && 0
            <= best.y <= region.height - template.height,
    ensures
        match_plan(s, gradient, direction) matches Ok(Plan::Search { top, .. }) && {
            let shift = shift_of(s, gradient.height, top, best.y as int);
            &&& direction > 0 ==> shift >= 0
            &&& direction < 0 ==> shift <= 0
        },
        direction < 0 && s.image is Some ==> stitch_step(
            s,
            frame,
            Some(gradient),
            direction,
            Some(best),
        ).0.image == s.image,
{
}

/// With the default parameters a template keeps clear of both ignored parts
/// of its frame, unless the frame is lower than 28 rows.
pub proof fn template_avoids_margins(height: int)
    requires
        28 <= height <= i32::MAX,
    ensures
        effective_top(default_params(), height) + template_rows(default_params(), height)
            <= effective_bottom(default_params(), height),
{
}

/// The number of whole rows in a part of a height, where the part counts
/// millionths; no more than a 32-bit integer can count.
pub open spec fn is_part(rows: int, height: int, millionths: int) -> bool {
    &&& 0 <= rows <= 0x7fff_ffff
    &&& rows * 1_000_000 <= height * millionths
    &&& rows == 0x7fff_ffff || height * millionths < rows * 1_000_000 + 1_000_000
}

/// The ignored parts of a frame and its template have as many rows as their part
/// of the height holds, and the template at least twenty.
pub proof fn parts_are_measured_in_rows(params: StitchParams, height: int)
    requires
        0 <= height,
    ensures
        is_part(effective_top(params, height), height, params.ignore_y_top as int),
        is_part(height - effective_bottom(params, height), height, params.ignore_y_bottom as int),
        template_rows(params, height) >= 20,
        template_rows(params, height) == 20 || is_part(
            template_rows(params, height),
            height,
            params.template_ratio as int,
        ),
        forall|n: int|
            #[trigger] is_part(n, height, params.template_ratio as int) ==> template_rows(
                params,
                height,
            ) == (if n < 20 {
                20
            } else {
                n
            }),
        forall|n: int|
            #[trigger] is_part(n, height, params.ignore_y_top as int) ==> effective_top(
                params,
                height,
            ) == n,
        forall|n: int|
            #[trigger] is_part(n, height, params.ignore_y_bottom as int) ==> effective_bottom(
                params,
                height,
            ) == height - n,
{
    lemma_scaled(height, params.ignore_y_top as int);
    lemma_scaled(height, params.ignore_y_bottom as int);
    lemma_scaled(height, params.template_ratio as int);
}

/// A part of a height is the number of whole rows in it.
proof fn lemma_scaled(height: int, ratio: int)
    requires
        0 <= height,
        0 <= ratio,
    ensures
        forall|n: int| #[trigger] is_part(n, height, ratio) <==> n == scaled(height, ratio),
{
    assert(0 <= height * ratio) by (nonlinear_arith)
        requires
            0 <= height,
            0 <= ratio,
    ;
    let all = height * ratio;
    assert forall|n: int| #[trigger] is_part(n, height, ratio) <==> n == scaled(
        height,
        ratio,
    ) by {
        assert(all / 1_000_000 * 1_000_000 <= all < all / 1_000_000 * 1_000_000 + 1_000_000);
    }
}

/// The rows of the last stitched frame, which has `height` of them, at which a
/// template of `rows` rows may be looked for.  Before the first match these are
/// the ones at which it keeps clear of the ignored parts.  Afterwards they are
/// the ones near the last match; where the user scrolled down, not above the row
/// `rest` at which it would stand if nothing moved, and where the user scrolled
/// up, not below it.
pub open spec fn place_allowed(
    s: Stitching,
    height: int,
    rows: int,
    rest: int,
    direction: int,
    place: int,
) -> bool {
    match s.last_match_y {
        None => exists|above: int, below: int|
            #[trigger] is_part(above, height, s.params.ignore_y_top as int) && #[trigger] is_part(
                below,
                height,
                s.params.ignore_y_bottom as int,
            ) && above <= place <= height - below - rows,
        Some(y) => {
            &&& 0 <= place <= height - rows
            &&& -s.params.max_search_range <= place - y <= s.params.max_search_range
            &&& direction > 0 ==> place >= rest
            &&& direction < 0 ==> place <= rest
        },
    }
}

/// A search covers every place that is allowed and no other, and it takes place
/// whenever there are two such places.  The template is the part of the new
/// frame from the end of its ignored part on, and the region consists of rows of
/// the last stitched frame.
pub proof fn search_covers_allowed_places(
    s: Stitching,
    gradient: Picture,
    direction: int,
    rest: int,
    ratio_rows: int,
)
    requires
        s.wf(),
        gradient.wf(1),
        s.gradient is Some,
        is_part(rest, gradient.height, s.params.ignore_y_top as int),
        is_part(ratio_rows, gradient.height, s.params.template_ratio as int),
    ensures
        ({
            let previous = s.gradient->0;
            let rows = max(20, ratio_rows);
            let height = previous.height;
            match match_plan(s, gradient, direction) {
                Err(e) => e == StitchError::Template && rest + rows > gradient.height,
                Ok(Plan::NoSearch) => {
                    &&& rest + rows <= gradient.height
                    &&& forall|a: int, b: int|
                        #[trigger] place_allowed(s, height, rows, rest, direction, a)
                            && #[trigger] place_allowed(s, height, rows, rest, direction, b) ==> a
                            == b
                },
                Ok(Plan::Search { template, region, top }) => {
                    &&& rest + rows <= gradient.height
                    &&& template.width == gradient.width && template.height == rows
                    &&& template.data == page_rows(
                        gradient.data,
                        gradient.width,
                        rest,
                        rest + rows,
                    )
                    &&& region.width == previous.width
                    &&& 0 <= top && top + region.height <= height
                    &&& region.data == page_rows(
                        previous.data,
                        previous.width,
                        top,
                        top + region.height,
                    )
                    &&& region.height > rows
                    &&& forall|place: int|
                        #[trigger] place_allowed(s, height, rows, rest, direction, place) <==> top
                            <= place <= top + region.height - rows
                },
            }
        }),
{
    let previous = s.gradient->0;
    let height = previous.height;
    parts_are_measured_in_rows(s.params, gradient.height);
    parts_are_measured_in_rows(s.params, height);
    let rows = template_rows(s.params, gradient.height);
    let (first, end) = search_window(s, height, rows, rest, direction);
    let above = effective_top(s.params, height);
    let below = height - effective_bottom(s.params, height);
    assert(is_part(above, height, s.params.ignore_y_top as int));
    assert(is_part(below, height, s.params.ignore_y_bottom as int));
    assert(1 * gradient.width == gradient.width) by (nonlinear_arith);
    assert(1 * previous.width == previous.width) by (nonlinear_arith);
    assert forall|place: int| #[trigger]
        place_allowed(s, height, rows, rest, direction, place) <==> first <= place <= end
            - rows by {}
    match match_plan(s, gradient, direction) {
        Ok(Plan::NoSearch) => {
            assert(end - first <= rows);
        },
        _ => {},
    }
}

/// With the default parameters, which ignore 15% of a frame at its top and at its
/// bottom and make the template 20% of its height, the whole part of the last
/// frame between the ignored ones is searched before the first match, if the
/// frames are 29 rows high or higher.  In lower ones the template has no two
/// places, and in frames of less than 23 rows it has none.
pub proof fn first_search_covers_the_frame(
    s: Stitching,
    gradient: Picture,
    direction: int,
    margin: int,
    fifth: int,
)
    requires
        s.wf(),
        gradient.wf(1),
        s.params == default_params(),
        s.last_match_y is None,
        s.gradient matches Some(previous) && previous.height == gradient.height,
        100 * margin <= 15 * gradient.height < 100 * margin + 100,
        5 * fifth <= gradient.height < 5 * fifth + 5,
    ensures
        ({
            let previous = s.gradient->0;
            let height = gradient.height;
            let rows = max(20, fifth);
            if height < 23 {
                match_plan(s, gradient, direction) == Err::<Plan, StitchError>(
                    StitchError::Template,
                )
            } else if height < 29 {
                match_plan(s, gradient, direction) == Ok::<Plan, StitchError>(Plan::NoSearch)
            } else {
                &&& match_plan(s, gradient, direction) matches Ok(
                    Plan::Search { template, region, top },
                )
                &&& top == margin
                &&& region.width == previous.width
                &&& region.height == height - 2 * margin
                &&& region.data == page_rows(
                    previous.data,
                    previous.width,
                    margin,
                    height - margin,
                )
                &&& template.width == gradient.width
                &&& template.height == rows
                &&& template.data == page_rows(
                    gradient.data,
                    gradient.width,
                    margin,
                    margin + rows,
                )
            }
        }),
{
    let height = gradient.height;
    let previous = s.gradient->0;
    assert(is_part(margin, height, 150_000));
    assert(is_part(fifth, height, 200_000));
    parts_are_measured_in_rows(s.params, height);
    assert(1 * gradient.width == gradient.width) by (nonlinear_arith);
    assert(1 * previous.width == previous.width) by (nonlinear_arith);
}

/// A byte of the pixels of a frame is the byte at its place in the buffer of the
/// frame.
pub proof fn pixels_of_frame(frame: RawFrame, x: int, y: int)
    requires
        frame_ok(frame),
        0 <= x < 4 * frame.width,
        0 <= y < frame.height,
    ensures
        packed(frame).width == frame.width,
        packed(frame).height == frame.height,
        packed(frame).data.len() == frame.height * (4 * frame.width),
        0 <= y * (4 * frame.width) + x < packed(frame).data.len(),
        packed(frame).data[y * (4 * frame.width) + x] == frame.data@[y * frame.stride + x],
{
    lemma_packed_len(frame, frame.height as nat);
    lemma_packed_byte(frame, frame.height as nat, x, y);
    let row: int = 4 * frame.width;
    assert(y * row + row <= frame.height * row) by (nonlinear_arith)
        requires
            y < frame.height,
            0 <= row,
    ;
    assert(0 <= y * row) by (nonlinear_arith)
        requires
            0 <= y,
            0 <= row,
    ;
}

proof fn lemma_packed_byte(frame: RawFrame, n: nat, x: int, y: int)
    requires
        frame_ok(frame),
        n <= frame.height,
        0 <= x < 4 * frame.width,
        0 <= y < n,
    ensures
        packed_rows(frame, n)[y * (4 * frame.width) + x] == frame.data@[y * frame.stride + x],
    decreases n,
{
    let m = (n - 1) as nat;
    let row: int = 4 * frame.width;
    let stride = frame.stride as int;
    lemma_packed_len(frame, m);
    lemma_packed_len(frame, n);
    assert(m * stride + row <= frame.data@.len() && 0 <= m * stride) by (nonlinear_arith)
        requires
            0 <= m <= frame.height - 1,
            0 <= stride,
            (frame.height - 1) * stride + row <= frame.data@.len(),
    ;
    let line = frame.data@.subrange(m * stride, m * stride + row);
    assert(packed_rows(frame, n) == packed_rows(frame, m) + line);
    assert(0 <= y * row && 0 <= m * row) by (nonlinear_arith)
        requires
            0 <= y,
            0 <= m,
            0 <= row,
    ;
    if y == m {
        assert(line[x] == frame.data@[m * stride + x]);
    } else {
        lemma_packed_byte(frame, m, x, y);
        assert(y * row + row <= m * row) by (nonlinear_arith)
            requires
                y + 1 <= m,
                0 <= row,
        ;
    }
}

/// A frame that has pixels, and whose buffer holds all of them, is never
/// refused as incomplete; every other one is.  A complete frame is refused for
/// its gradient image if and only if there is none of its size.
pub proof fn only_incomplete_frames_are_bad(
    s: Stitching,
    frame: RawFrame,
    gradient: Option<Picture>,
    direction: int,
    best: Option<BestMatch>,
)
    ensures
        stitch_step(s, frame, gradient, direction, best).1 == Err::<bool, StitchError>(
            StitchError::BadFrame,
        ) <==> frame.width == 0 || frame.height == 0 || frame.width > 0x7fff_ffff || frame.height
            > 0x7fff_ffff || frame.stride < 4 * frame.width || frame.data@.len() < (frame.height
            - 1) * frame.stride + 4 * frame.width,
        frame_ok(frame) ==> (stitch_step(s, frame, gradient, direction, best).1 == Err::<
            bool,
            StitchError,
        >(StitchError::Gradient) <==> !(gradient matches Some(g) && 0 < g.width == frame.width
            && 0 < g.height == frame.height && g.data.len() == g.height * g.width)),
{
    if gradient is Some {
        let w = gradient->0.width;
        assert(1 * w == w) by (nonlinear_arith);
    }
    if s.image is Some && gradient is Some {
        match match_plan(s, gradient->0, direction) {
            Err(e) => assert(e == StitchError::Template),
            _ => {},
        }
    }
}

/// The first complete frame, with a gradient image of its size, becomes the
/// image, byte for byte.
pub proof fn first_frame_becomes_the_image(
    s: Stitching,
    frame: RawFrame,
    gradient: Picture,
    direction: int,
    best: Option<BestMatch>,
    x: int,
    y: int,
)
    requires
        s.image is None,
        0 < frame.width <= 0x7fff_ffff,
        0 < frame.height <= 0x7fff_ffff,
        4 * frame.width <= frame.stride,
        (frame.height - 1) * frame.stride + 4 * frame.width <= frame.data@.len(),
        gradient.width == frame.width,
        gradient.height == frame.height,
        gradient.data.len() == frame.height * frame.width,
        0 <= x < 4 * frame.width,
        0 <= y < frame.height,
    ensures
        ({
            let (after, report) = stitch_step(s, frame, Some(gradient), direction, best);
            &&& report == Ok::<bool, StitchError>(true)
            &&& after.image matches Some(i)
            &&& i.width == frame.width
            &&& i.height == frame.height
            &&& i.data.len() == frame.height * (4 * frame.width)
            &&& i.data[y * (4 * frame.width) + x] == frame.data@[y * frame.stride + x]
            &&& after.gradient == Some(gradient)
            &&& after.last_match_y == s.last_match_y
        }),
{
    pixels_of_frame(frame, x, y);
    assert(1 * gradient.width == gradient.width) by (nonlinear_arith);
}

/// What is reported of a frame that comes after the first one says what happened.
///
/// It is stitched if its template was found, by a match that counts, at a place
/// that means that the content moved up by at least one row and by less than a
/// frame; by so many rows the image grows.  A frame for which nothing was looked
/// for, or of which the match does not count or means another motion, is
/// passed over.  Each error has its own reason.
pub proof fn reports_say_what_happened(
    s: Stitching,
    frame: RawFrame,
    gradient: Option<Picture>,
    direction: int,
    best: Option<BestMatch>,
    rest: int,
)
    requires
        s.wf(),
        s.image is Some,
        is_part(rest, frame.height as int, s.params.ignore_y_top as int),
    ensures
        ({
            let image = s.image->0;
            let row = 4 * frame.width;
            let (after, report) = stitch_step(s, frame, gradient, direction, best);
            let plan = match_plan(s, gradient->0, direction);
            let moved = plan->Ok_0->top + best->0.y - rest;
            let complete = frame_ok(frame);
            let measured = gradient is Some && gradient->0.wf(1) && gradient->0.width == frame.width
                && gradient->0.height == frame.height;
            let found = plan is Ok && plan->Ok_0 is Search && best is Some;
            let counts = found && best->0.score >= s.params.match_confidence && 0 < moved
                < frame.height;
            match report {
                Ok(true) => {
                    &&& complete && measured && counts
                    &&& frame.width <= image.width
                    &&& (image.height + moved) * row <= 0x7fff_ffff
                    &&& after.image is Some
                    &&& after.image->0.height == image.height + moved
                    &&& after.image->0.width == frame.width
                    &&& after.image->0 == appended(image, packed(frame), moved)
                    &&& after.gradient == gradient
                    &&& after.last_match_y == Some(plan->Ok_0->top + best->0.y)
                },
                Ok(false) => complete && measured && plan is Ok && (plan->Ok_0 is NoSearch || found
                    && !counts),
                Err(StitchError::BadFrame) => !complete,
                Err(StitchError::Gradient) => complete && !measured,
                Err(StitchError::Match) => complete && measured && plan is Ok && plan->Ok_0 is Search
                    && best is None,
                Err(StitchError::Width) => complete && measured && counts && frame.width
                    > image.width,
                Err(StitchError::TooLarge) => complete && measured && counts && frame.width
                    <= image.width && (image.height + moved) * row > 0x7fff_ffff,
                Err(e) => complete && measured && plan is Err && plan->Err_0 == e,
            }
        }),
{
    parts_are_measured_in_rows(s.params, frame.height as int);
}

/// The image after rows were appended: every byte that was there, as far as the
/// rows at the width of the frame take them, and then the bytes of the last
/// rows of the frame.
pub proof fn appended_rows_follow_the_image(
    image: Picture,
    current: Picture,
    shift: int,
    x: int,
    y: int,
)
    requires
        image.wf(4),
        current.wf(4),
        current.width <= image.width,
        0 < shift <= current.height,
        0 <= x < 4 * current.width,
        0 <= y < image.height + shift,
    ensures
        ({
            let row = 4 * current.width;
            let after = appended(image, current, shift);
            &&& after.width == current.width
            &&& after.height == image.height + shift
            &&& after.data.len() == (image.height + shift) * row
            &&& after.data[y * row + x] == (if y < image.height {
                image.data[y * row + x]
            } else {
                current.data[(current.height - shift + y - image.height) * row + x]
            })
        }),
{
    let row = 4 * current.width;
    let h = image.height;
    let ch = current.height;
    assert(0 <= h * row <= h * (4 * image.width)) by (nonlinear_arith)
        requires
            0 <= row <= 4 * image.width,
            0 <= h,
    ;
    assert(0 <= (ch - shift) * row <= ch * row) by (nonlinear_arith)
        requires
            0 <= row,
            0 < shift <= ch,
    ;
    assert((h + shift) * row == h * row + ch * row - (ch - shift) * row) by (nonlinear_arith);
    assert(0 <= y * row) by (nonlinear_arith)
        requires
            0 <= y,
            0 <= row,
    ;
    if y < h {
        assert(y * row + row <= h * row) by (nonlinear_arith)
            requires
                y + 1 <= h,
                0 <= row,
        ;
    } else {
        assert(h * row <= y * row && y * row + row <= (h + shift) * row) by (nonlinear_arith)
            requires
                h <= y < h + shift,
                0 <= row,
        ;
        assert((ch - shift + y - h) * row == (ch - shift) * row + y * row - h * row)
            by (nonlinear_arith);
    }
}

/// A scroll down is stitched.
///
/// The last stitched frame and the new one have the same size; the content moved
/// up by `moved` rows.  Where the place at which the template stands in the last
/// frame is allowed and is not the only one, and the match at that place counts,
/// the image gets `moved` more rows: the last ones of the frame, below all that
/// was there.
pub proof fn found_scroll_is_stitched(
    s: Stitching,
    frame: RawFrame,
    gradient: Picture,
    direction: int,
    best: BestMatch,
    rest: int,
    ratio_rows: int,
    first: int,
    other: int,
    moved: int,
    x: int,
    y: int,
)
    requires
        s.wf(),
        frame_ok(frame),
        gradient.wf(1),
        gradient.width == frame.width,
        gradient.height == frame.height,
        s.gradient matches Some(previous) && previous.height == frame.height,
        s.image matches Some(i) && i.width == frame.width,
        is_part(rest, frame.height as int, s.params.ignore_y_top as int),
        is_part(ratio_rows, frame.height as int, s.params.template_ratio as int),
        0 < moved < frame.height,
        ({
            let rows = max(20, ratio_rows);
            let height = frame.height as int;
            &&& rest + rows <= height
            &&& place_allowed(s, height, rows, rest, direction, rest + moved)
            &&& place_allowed(s, height, rows, rest, direction, other)
            &&& other != rest + moved
            &&& place_allowed(s, height, rows, rest, direction, first)
            &&& forall|place: int|
                #[trigger] place_allowed(s, height, rows, rest, direction, place) ==> first <= place
        }),
        best.y == rest + moved - first,
        best.score >= s.params.match_confidence,
        (s.image->0.height + moved) * (4 * frame.width) <= 0x7fff_ffff,
        0 <= x < 4 * frame.width,
        0 <= y < moved,
    ensures
        ({
            let image = s.image->0;
            let row = 4 * frame.width;
            let (after, report) = stitch_step(s, frame, Some(gradient), direction, Some(best));
            &&& report == Ok::<bool, StitchError>(true)
            &&& after.image matches Some(j)
            &&& j.width == frame.width
            &&& j.height == image.height + moved
            &&& j.data.take(image.data.len() as int) == image.data
            &&& j.data[(image.height + y) * row + x] == frame.data@[(frame.height - moved + y)
                * frame.stride + x]
            &&& after.gradient == Some(gradient)
            &&& after.last_match_y == Some(rest + moved)
        }),
{
    let image = s.image->0;
    search_covers_allowed_places(s, gradient, direction, rest, ratio_rows);
    parts_are_measured_in_rows(s.params, frame.height as int);
    let plan = match_plan(s, gradient, direction);
    assert(plan is Ok && plan->Ok_0 is Search);
    let top = plan->Ok_0->top;
    let rows = max(20, ratio_rows);
    assert(place_allowed(s, frame.height as int, rows, rest, direction, top));
    assert(top == first);
    lemma_packed_len(frame, frame.height as nat);
    image_only_grows(s, frame, Some(gradient), direction, Some(best));
    appended_rows_follow_the_image(image, packed(frame), moved, x, image.height + y);
    pixels_of_frame(frame, x, frame.height - moved + y);
}

/// The user scrolled down by `moved` rows, and the template of the frame is found
/// at its true place in the last frame, which it reaches, with a score of at
/// least one half.
pub open spec fn scrolled_down(
    input: StitchInput,
    moved: int,
    height: int,
    margin: int,
    fifth: int,
) -> bool {
    &&& 0 < moved <= 500
    &&& margin + moved + max(20, fifth) <= height - margin
    &&& input.direction > 0
    &&& input.best.y == moved
    &&& input.best.score >= 500_000
}

/// The template of a frame that was reached by scrolling down is looked for from
/// the row on at which it would stand if nothing moved.
proof fn lemma_search_below_margin(
    s: Stitching,
    input: StitchInput,
    height: int,
    margin: int,
    fifth: int,
    moved: int,
)
    requires
        s.wf(),
        s.params == default_params(),
        s.gradient matches Some(previous) && previous.height == height,
        s.last_match_y matches Some(y) ==> margin < y <= margin + 500,
        input.gradient.wf(1),
        input.gradient.height == height,
        100 * margin <= 15 * height < 100 * margin + 100,
        5 * fifth <= height < 5 * fifth + 5,
        scrolled_down(input, moved, height, margin, fifth),
    ensures
        match_plan(s, input.gradient, input.direction) matches Ok(Plan::Search { top, .. }) && top
            == margin,
        effective_top(s.params, height) == margin,
{
    assert(is_part(margin, height, 150_000));
    assert(is_part(fifth, height, 200_000));
    parts_are_measured_in_rows(s.params, height);
}

/// One frame of a page that is scrolled down.
proof fn lemma_scroll_step(
    s: Stitching,
    input: StitchInput,
    page: Seq<u8>,
    width: u32,
    height: u32,
    margin: int,
    fifth: int,
    start: int,
    from: int,
    to: int,
)
    requires
        s.wf(),
        s.params == default_params(),
        s.gradient matches Some(previous) && previous.height == height,
        s.last_match_y matches Some(y) ==> margin < y <= margin + 500,
        100 * margin <= 15 * height < 100 * margin + 100,
        5 * fifth <= height < 5 * fifth + 5,
        0 <= start,
        image_shows_page(s.image, page, width, height, start, from),
        shows_page(input, page, width, height, to),
        scrolled_down(input, to - from, height as int, margin, fifth),
        (to + height - start) * (4 * width) <= 0x7fff_ffff,
    ensures
        ({
            let (after, report) = input_step(s, input);
            &&& report == Ok::<bool, StitchError>(true)
            &&& after.wf()
            &&& after.params == s.params
            &&& image_shows_page(after.image, page, width, height, start, to)
            &&& after.gradient == Some(input.gradient)
            &&& after.last_match_y == Some(margin + to - from)
        }),
{
    lemma_search_below_margin(s, input, height as int, margin, fifth, to - from);
    stitching_reconstructs_the_page(
        s,
        input.frame,
        input.gradient,
        input.direction,
        input.best,
        page,
        start,
        from,
        to,
    );
    stitching_stays_consistent(
        s,
        input.frame,
        Some(input.gradient),
        input.direction,
        Some(input.best),
    );
}

/// Scrolling down a page is stitched, with the default parameters.
///
/// Each frame shows the page at most 500 rows below the one before, and so near
/// that the template of the new frame, 20% of its height and at least twenty
/// rows, which begins 15% below its top, still shows in the last one above the
/// 15% at its bottom.  Where every template is found at its true place, with a
/// score of at least one half, every frame is stitched, and the image shows the
/// page from the top of the first frame to the end of the last one.
pub proof fn scrolling_down_is_stitched(
    inputs: Seq<StitchInput>,
    tops: Seq<int>,
    page: Seq<u8>,
    width: u32,
    height: u32,
    margin: int,
    fifth: int,
)
    requires
        inputs.len() == tops.len() > 0,
        100 * margin <= 15 * height < 100 * margin + 100,
        5 * fifth <= height < 5 * fifth + 5,
        forall|k: int|
            0 <= k < inputs.len() ==> shows_page(
                #[trigger] inputs[k],
                page,
                width,
                height,
                tops[k],
            ),
        forall|k: int|
            0 < k < inputs.len() ==> #[trigger] scrolled_down(
                inputs[k],
                tops[k] - tops[k - 1],
                height as int,
                margin,
                fifth,
            ),
        (tops.last() + height - tops[0]) * (4 * width) <= 0x7fff_ffff,
    ensures
        ({
            let after = stitch_run(Stitching::fresh(default_params()), inputs);
            &&& after.wf()
            &&& after.params == default_params()
            &&& last_stitched(Stitching::fresh(default_params()), inputs) == inputs.len() - 1
            &&& image_shows_page(after.image, page, width, height, tops[0], tops.last())
            &&& after.gradient == Some(inputs.last().gradient)
            &&& after.last_match_y == (if inputs.len() == 1 {
                None
            } else {
                Some(margin + tops.last() - tops[tops.len() - 2])
            })
        }),
    decreases inputs.len(),
{
    let params = default_params();
    let fresh = Stitching::fresh(params);
    let n = inputs.len() - 1;
    let input = inputs[n];
    let first = inputs.drop_last();
    let before = stitch_run(fresh, first);
    assert(shows_page(input, page, width, height, tops[n]));
    if n == 0 {
        lemma_first_step(params, input, page, width, height, tops[0]);
        assert(before == fresh);
    } else {
        let before_tops = tops.drop_last();
        let from = tops[n - 1];
        let to = tops[n];
        assert(scrolled_down(inputs[n], tops[n] - tops[n - 1], height as int, margin, fifth));
        assert forall|k: int| 0 <= k < first.len() implies shows_page(
            #[trigger] first[k],
            page,
            width,
            height,
            before_tops[k],
        ) by {
            assert(first[k] == inputs[k]);
        }
        assert forall|k: int| 0 < k < first.len() implies #[trigger] scrolled_down(
            first[k],
            before_tops[k] - before_tops[k - 1],
            height as int,
            margin,
            fifth,
        ) by {
            assert(scrolled_down(inputs[k], tops[k] - tops[k - 1], height as int, margin, fifth));
        }
        assert((from + height - tops[0]) * (4 * width) <= (to + height - tops[0]) * (4 * width))
            by (nonlinear_arith)
            requires
                from < to,
                0 <= width,
        ;
        scrolling_down_is_stitched(first, before_tops, page, width, height, margin, fifth);
        assert(shows_page(inputs[0], page, width, height, tops[0]));
        if n > 1 {
            assert(scrolled_down(
                inputs[n - 1],
                tops[n - 1] - tops[n - 2],
                height as int,
                margin,
                fifth,
            ));
        }
        assert(shows_page(first.last(), page, width, height, from));
        lemma_scroll_step(before, input, page, width, height, margin, fifth, tops[0], from, to);
    }
}

/// Dropping the last byte of each pixel keeps the other three, in order.
pub proof fn colors_are_kept(data: Seq<u8>, p: int)
    requires
        0 <= p,
        4 * p + 4 <= data.len(),
    ensures
        3 * p + 3 <= without_alpha(data).len() <= data.len(),
        without_alpha(data).len() * 4 <= data.len() * 3 < without_alpha(data).len() * 4 + 12,
        without_alpha(data)[3 * p] == data[4 * p],
        without_alpha(data)[3 * p + 1] == data[4 * p + 1],
        without_alpha(data)[3 * p + 2] == data[4 * p + 2],
{
}

/// The contents of images and plans are their bytes and sizes.
pub proof fn contents_are_complete(image: Image, gray: GrayImage, other: GrayImage, top: u32)
    ensures
        image@ == (Picture {
            data: image.data@,
            width: image.width as int,
            height: image.height as int,
        }),
        gray@ == (Picture {
            data: gray.data@,
            width: gray.width as int,
            height: gray.height as int,
        }),
        picture_of(Some(gray)) == Some(gray@),
        picture_of(None) is None,
        MatchPlan::NoSearch@ is NoSearch,
        (MatchPlan::Search { template: gray, region: other, top })@ == (Plan::Search {
            template: gray@,
            region: other@,
            top: top as int,
        }),
{
}

} // verus!
