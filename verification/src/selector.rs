//! Selection of a screen region with the pointer, and the frame that marks
//! the region afterwards.

use crate::label::{
    draw_text, glyphs_of, glyphs_spell, text_colors_its_points, text_ink, with_chars, with_glyphs,
    with_text, Glyph, FONT_SIZE,
};
use crate::overlay::{
    on_pixel, whole, whole_part_is_the_pixel, whole_pixels, BUTTON_LEFT, BUTTON_RIGHT, TRANSPARENT,
    WHITE,
};
use crate::pixels::{
    clear, fill_box, frame_is_box_without_inside, holds_point, in_box, inked, lemma_byte_of_point,
    lemma_rows_without_gaps, on_frame, painted, painted_point, pixel_at, row_of, stroke_frame,
};
use crate::preview::BORDER_COLOR;
use crate::text::{decimal, decimal_denotes, fields, push_decimal, two_fields};
use crate::types::CaptureRegion;
use vstd::prelude::*;

verus! {

/// The least time between two drawings, in milliseconds.
pub const REDRAW_MILLIS: u64 = 33;

/// A selection has to be wider and higher than this.
pub const MIN_SELECTION: u32 = 10;

/// Half transparent black, in BGRA bytes.
pub const DIMMED: [u8; 4] = [0, 0, 0, 120];

/// The background of a label.
pub const LABEL_COLOR: [u8; 4] = [40, 40, 40, 230];

/// The width of the label of a marked region.
pub const MARK_LABEL_WIDTH: i64 = 140;

/// The height of a label.
pub const LABEL_HEIGHT: i64 = 20;

/// How far above its region a label stands.
pub const LABEL_RISE: i64 = 24;

/// What the pointer did during the selection; coordinates count 256ths of a
/// pixel.
#[derive(Debug, Clone, Copy, PartialEq, Eq, Structural)]
pub enum SelectorInput {
    Motion { x: i32, y: i32 },
    Press { button: u32, x: i32, y: i32 },
    Release { button: u32 },
    Other,
}

/// The state of the selection; times count nanoseconds from a fixed moment.
#[derive(Debug, Clone, Copy, PartialEq, Eq, Structural)]
pub struct SelectorState {
    pub width: u32,
    pub height: u32,
    pub configured: bool,
    pub start_x: i32,
    pub start_y: i32,
    pub current_x: i32,
    pub current_y: i32,
    pub is_selecting: bool,
    pub selection_complete: bool,
    pub running: bool,
    pub first_draw: bool,
    pub last_draw: u64,
}

/// The distance of two numbers.
pub open spec fn distance(a: int, b: int) -> int {
    if a < b {
        b - a
    } else {
        a - b
    }
}

/// The smallest region that spans two corners, at least one pixel wide and
/// high.
pub open spec fn spanned(x1: int, y1: int, x2: int, y2: int) -> CaptureRegion {
    CaptureRegion {
        x: (if x1 < x2 {
            x1
        } else {
            x2
        }) as i32,
        y: (if y1 < y2 {
            y1
        } else {
            y2
        }) as i32,
        width: (if distance(x1, x2) < 1 {
            1
        } else {
            distance(x1, x2)
        }) as u32,
        height: (if distance(y1, y2) < 1 {
            1
        } else {
            distance(y1, y2)
        }) as u32,
    }
}

/// The state after the pointer did something.
pub open spec fn selector_step(s: SelectorState, input: SelectorInput) -> SelectorState {
    match input {
        SelectorInput::Motion { x, y } => SelectorState {
            current_x: whole(x as int) as i32,
            current_y: whole(y as int) as i32,
            ..s
        },
        SelectorInput::Press { button, x, y } => if button == BUTTON_LEFT {
            SelectorState {
                start_x: whole(x as int) as i32,
                start_y: whole(y as int) as i32,
                current_x: whole(x as int) as i32,
                current_y: whole(y as int) as i32,
                is_selecting: true,
                ..s
            }
        } else {
            s
        },
        SelectorInput::Release { button } => if button == BUTTON_LEFT && s.is_selecting {
            SelectorState { is_selecting: false, selection_complete: true, running: false, ..s }
        } else if button == BUTTON_RIGHT {
            SelectorState { selection_complete: false, running: false, ..s }
        } else {
            s
        },
        SelectorInput::Other => s,
    }
}

impl SelectorState {
    /// The region between the two corners.
    pub open spec fn region(self) -> CaptureRegion {
        spanned(
            self.start_x as int,
            self.start_y as int,
            self.current_x as int,
            self.current_y as int,
        )
    }

    /// The region that was selected, if one was, and it is large enough.
    pub open spec fn outcome(self) -> Option<CaptureRegion> {
        if self.selection_complete && self.region().width > MIN_SELECTION && self.region().height
            > MIN_SELECTION {
            Some(self.region())
        } else {
            None
        }
    }

    /// Whether enough time has passed for another drawing.
    pub open spec fn may_draw(self, now: u64) -> bool {
        self.first_draw || now - self.last_draw >= REDRAW_MILLIS * 1_000_000
    }

    /// The state before anything happened.
    pub open spec fn fresh(now: u64) -> SelectorState {
        SelectorState {
            width: 1920,
            height: 1080,
            configured: false,
            start_x: 0,
            start_y: 0,
            current_x: 0,
            current_y: 0,
            is_selecting: false,
            selection_complete: false,
            running: true,
            first_draw: true,
            last_draw: now,
        }
    }

    /// A selection that has not begun.
    pub fn new(now: u64) -> (r: SelectorState)
        ensures
            r == SelectorState::fresh(now),
            r.running && r.first_draw && r.last_draw == now,
            !r.configured && !r.is_selecting && !r.selection_complete,
            r.width == 1920 && r.height == 1080,
    {
        SelectorState {
            width: 1920,
            height: 1080,
            configured: false,
            start_x: 0,
            start_y: 0,
            current_x: 0,
            current_y: 0,
            is_selecting: false,
            selection_complete: false,
            running: true,
            first_draw: true,
            last_draw: now,
        }
    }

    /// The region between the two corners.
    pub fn get_region(&self) -> (r: CaptureRegion)
        ensures
            r == self.region(),
            r.x <= self.start_x && r.x <= self.current_x,
            r.x == self.start_x || r.x == self.current_x,
            r.y <= self.start_y && r.y <= self.current_y,
            r.y == self.start_y || r.y == self.current_y,
    {
        let x: i32 = if self.start_x < self.current_x {
            self.start_x
        } else {
            self.current_x
        };
        let y: i32 = if self.start_y < self.current_y {
            self.start_y
        } else {
            self.current_y
        };
        CaptureRegion {
            x,
            y,
            width: side(self.start_x, self.current_x),
            height: side(self.start_y, self.current_y),
        }
    }

    /// Takes the size that the compositor gives; zero leaves a side as it is.
    pub fn configure(&mut self, width: u32, height: u32)
        ensures
            *final(self) == (SelectorState {
                width: if width > 0 {
                    width
                } else {
                    old(self).width
                },
                height: if height > 0 {
                    height
                } else {
                    old(self).height
                },
                configured: true,
                ..*old(self)
            }),
    {
        if width > 0 {
            self.width = width;
        }
        if height > 0 {
            self.height = height;
        }
        self.configured = true;
    }

    /// Ends the selection without a region: the compositor closed the window.
    pub fn close(&mut self)
        ensures
            *final(self) == (SelectorState { running: false, ..*old(self) }),
    {
        self.running = false;
    }

    /// Takes in what the pointer did, and reports whether to draw.
    pub fn pointer_input(&mut self, input: SelectorInput) -> (r: bool)
        ensures
            *final(self) == selector_step(*old(self), input),
            r == (input is Motion && old(self).is_selecting),
            input matches SelectorInput::Motion { x, y } ==> on_pixel(
                x as int,
                final(self).current_x as int,
            ) && on_pixel(y as int, final(self).current_y as int),
    {
        match input {
            SelectorInput::Motion { x, y } => {
                self.current_x = whole_pixels(x as i64) as i32;
                self.current_y = whole_pixels(y as i64) as i32;
                self.is_selecting
            },
            SelectorInput::Press { button, x, y } => {
                if button == BUTTON_LEFT {
                    self.start_x = whole_pixels(x as i64) as i32;
                    self.start_y = whole_pixels(y as i64) as i32;
                    self.current_x = self.start_x;
                    self.current_y = self.start_y;
                    self.is_selecting = true;
                }
                false
            },
            SelectorInput::Release { button } => {
                if button == BUTTON_LEFT && self.is_selecting {
                    self.is_selecting = false;
                    self.selection_complete = true;
                    self.running = false;
                } else if button == BUTTON_RIGHT {
                    self.running = false;
                    self.selection_complete = false;
                }
                false
            },
            SelectorInput::Other => false,
        }
    }

    /// Whether to draw now; if so, the time counts from here.
    pub fn begin_draw(&mut self, now: u64) -> (r: bool)
        ensures
            r == (old(self).configured && old(self).may_draw(now)),
            *final(self) == (SelectorState {
                last_draw: if r {
                    now
                } else {
                    old(self).last_draw
                },
                ..*old(self)
            }),
    {
        if !self.configured {
            return false;
        }
        if !self.first_draw && now.saturating_sub(self.last_draw) < REDRAW_MILLIS * 1_000_000 {
            return false;
        }
        self.last_draw = now;
        true
    }

    /// Records that a drawing was shown.
    pub fn end_draw(&mut self)
        ensures
            *final(self) == (SelectorState { first_draw: false, ..*old(self) }),
    {
        self.first_draw = false;
    }

    /// The region that was selected, if one was, and it is large enough.
    pub fn selected(&self) -> (r: Option<CaptureRegion>)
        ensures
            r == self.outcome(),
            !self.selection_complete ==> r is None,
    {
        if !self.selection_complete {
            return None;
        }
        let region: CaptureRegion = self.get_region();
        if region.width > MIN_SELECTION && region.height > MIN_SELECTION {
            Some(region)
        } else {
            None
        }
    }

    /// Draws the selection: the screen dimmed, and, while a region is being
    /// selected, the region cut out, framed and labelled.  `glyphs` are those
    /// of [`selection_label`], where a font gives them.
    pub fn draw(&self, canvas: &mut [u8], glyphs: &Option<Vec<Glyph>>)
        requires
            glyphs_spell(*glyphs, size_text(self.region())),
        ensures
            final(canvas)@ == selection_canvas(*self, old(canvas)@, glyphs_of(*glyphs)),
    {
        clear(canvas, &DIMMED);
        let region: CaptureRegion = self.get_region();
        if self.is_selecting && region.width > 1 && region.height > 1 {
            let width: u32 = self.width;
            let height: u32 = self.height;
            let stride: i64 = 4 * width as i64;
            fill_box(
                canvas,
                stride,
                width,
                height,
                region.x as i128,
                region.y as i128,
                region.width as i64,
                region.height as i64,
                &TRANSPARENT,
            );
            stroke_frame(
                canvas,
                stride,
                width,
                height,
                region.x as i64,
                region.y as i64,
                region.width as i64,
                region.height as i64,
                &BORDER_COLOR,
            );
            draw_size_label_selector(canvas, stride, width, height, &region, glyphs);
        }
    }
}

/// The length of a side of a region.
fn side(a: i32, b: i32) -> (r: u32)
    ensures
        r == (if distance(a as int, b as int) < 1 {
            1
        } else {
            distance(a as int, b as int)
        }),
{
    let d: i64 = if a < b {
        b as i64 - a as i64
    } else {
        a as i64 - b as i64
    };
    if d < 1 {
        1
    } else {
        d as u32
    }
}

/// The size of a region in words.
pub open spec fn size_text(region: CaptureRegion) -> Seq<char> {
    decimal(region.width as nat) + "x"@ + decimal(region.height as nat)
}

/// The width and the height of a marked region in words, and in brackets the
/// height of the image.
pub open spec fn mark_text(region: CaptureRegion, total_height: int) -> Seq<char> {
    decimal(region.width as nat) + "x"@ + decimal(region.height as nat) + "("@ + decimal(
        total_height as nat,
    ) + ")"@
}

/// The top of the label of a region.
pub open spec fn label_top(region: CaptureRegion) -> int {
    if region.y - LABEL_RISE < 0 {
        0
    } else {
        region.y - LABEL_RISE
    }
}

/// A canvas with a label on it.
pub open spec fn with_label(
    before: Seq<u8>,
    stride: int,
    width: int,
    height: int,
    region: CaptureRegion,
    label_width: int,
    text: Seq<char>,
    glyphs: Option<Seq<Glyph>>,
) -> Seq<u8> {
    let left = region.x as int;
    let top = label_top(region);
    let plate = painted(
        before,
        stride,
        width,
        height,
        |x: int, y: int| in_box(x, y, left, top, label_width, LABEL_HEIGHT as int),
        LABEL_COLOR@,
    );
    with_text(plate, stride, width, height, left + 4, top + 3, text, glyphs, FONT_SIZE as int, WHITE@)
}

/// A canvas with the label of a region that is being selected.
pub open spec fn with_size_label(
    before: Seq<u8>,
    stride: int,
    width: int,
    height: int,
    region: CaptureRegion,
    glyphs: Option<Seq<Glyph>>,
) -> Seq<u8> {
    let text = size_text(region);
    with_label(before, stride, width, height, region, (text.len() * 8 + 12) as int, text, glyphs)
}

/// What the screen shows during the selection.
pub open spec fn selection_canvas(
    s: SelectorState,
    before: Seq<u8>,
    glyphs: Option<Seq<Glyph>>,
) -> Seq<u8> {
    let dimmed = inked(before, |p: int| true, DIMMED@);
    let r = s.region();
    if s.is_selecting && r.width > 1 && r.height > 1 {
        let w = s.width as int;
        let h = s.height as int;
        let cut = painted(
            dimmed,
            4 * w,
            w,
            h,
            |x: int, y: int|
                in_box(x, y, r.x as int, r.y as int, r.width as int, r.height as int),
            TRANSPARENT@,
        );
        let framed = painted(
            cut,
            4 * w,
            w,
            h,
            |x: int, y: int|
                on_frame(x, y, r.x as int, r.y as int, r.width as int, r.height as int),
            BORDER_COLOR@,
        );
        with_size_label(framed, 4 * w, w, h, r, glyphs)
    } else {
        dimmed
    }
}

/// A screen with the frame that marks a region: two pixels thick, round the
/// region.
pub open spec fn mark_frame(
    before: Seq<u8>,
    width: int,
    height: int,
    region: CaptureRegion,
) -> Seq<u8> {
    painted(
        inked(before, |p: int| true, TRANSPARENT@),
        4 * width,
        width,
        height,
        |x: int, y: int|
            on_frame(x, y, region.x - 2, region.y - 2, region.width + 4, region.height + 4),
        BORDER_COLOR@,
    )
}

/// What the screen shows while a region is captured.
pub open spec fn mark_canvas(
    before: Seq<u8>,
    width: int,
    height: int,
    region: CaptureRegion,
    total_height: int,
    glyphs: Option<Seq<Glyph>>,
) -> Seq<u8> {
    with_label(
        mark_frame(before, width, height, region),
        4 * width,
        width,
        height,
        region,
        MARK_LABEL_WIDTH as int,
        mark_text(region, total_height),
        glyphs,
    )
}

/// A decimal has no more digits than a bound of its number.
proof fn lemma_decimal_len(n: nat, bound: nat)
    requires
        n <= bound,
    ensures
        decimal(n).len() <= decimal(bound).len(),
    decreases bound,
{
    if n >= 10 {
        lemma_decimal_len(n / 10, bound / 10);
    } else {
        decimal_denotes(bound);
    }
}

proof fn lemma_label_size(region: CaptureRegion)
    ensures
        size_text(region).len() <= 21,
{
    lemma_decimal_len(region.width as nat, u32::MAX as nat);
    lemma_decimal_len(region.height as nat, u32::MAX as nat);
    reveal_with_fuel(decimal, 11);
    assert(decimal(u32::MAX as nat).len() == 10);
    reveal_strlit("x");
}

/// The size of a region in words.
pub fn selection_label(region: &CaptureRegion) -> (r: String)
    ensures
        r@ == size_text(*region),
{
    let mut text: String = String::new();
    push_decimal(&mut text, region.width as u64);
    text.append("x");
    push_decimal(&mut text, region.height as u64);
    assert(text@ =~= size_text(*region));
    text
}

/// The width and the height of a marked region in words, and in brackets the
/// height of the image.
pub fn mark_label(region: &CaptureRegion, total_height: u32) -> (r: String)
    ensures
        r@ == mark_text(*region, total_height as int),
{
    let mut text: String = String::new();
    push_decimal(&mut text, region.width as u64);
    text.append("x");
    push_decimal(&mut text, region.height as u64);
    text.append("(");
    push_decimal(&mut text, total_height as u64);
    text.append(")");
    assert(text@ =~= mark_text(*region, total_height as int));
    text
}

/// Draws a label above a region, or at the top of the screen where there is
/// no room above it.
fn draw_label(
    canvas: &mut [u8],
    stride: i64,
    width: u32,
    height: u32,
    region: &CaptureRegion,
    label_width: i64,
    text: &str,
    glyphs: &Option<Vec<Glyph>>,
)
    requires
        4 * width <= stride,
        glyphs_spell(*glyphs, text@),
        label_width <= 1000,
    ensures
        final(canvas)@ == with_label(
            old(canvas)@,
            stride as int,
            width as int,
            height as int,
            *region,
            label_width as int,
            text@,
            glyphs_of(*glyphs),
        ),
{
    let left: i64 = region.x as i64;
    let top: i64 = if (region.y as i64) < LABEL_RISE {
        0
    } else {
        region.y as i64 - LABEL_RISE
    };
    fill_box(
        canvas,
        stride,
        width,
        height,
        left as i128,
        top as i128,
        label_width,
        LABEL_HEIGHT,
        &LABEL_COLOR,
    );
    draw_text(canvas, stride, width, height, left + 4, top + 3, text, glyphs, FONT_SIZE, &WHITE);
}

/// Draws the size of a region that is being selected.  `glyphs` are those of
/// [`selection_label`], where a font gives them.
pub fn draw_size_label_selector(
    canvas: &mut [u8],
    stride: i64,
    width: u32,
    height: u32,
    region: &CaptureRegion,
    glyphs: &Option<Vec<Glyph>>,
)
    requires
        4 * width <= stride,
        glyphs_spell(*glyphs, size_text(*region)),
    ensures
        final(canvas)@ == with_size_label(
            old(canvas)@,
            stride as int,
            width as int,
            height as int,
            *region,
            glyphs_of(*glyphs),
        ),
{
    let text: String = selection_label(region);
    let size: usize = text.as_str().unicode_len();
    proof {
        lemma_label_size(*region);
    }
    let label_width: i64 = size as i64 * 8 + 12;
    draw_label(canvas, stride, width, height, region, label_width, text.as_str(), glyphs);
}

/// Draws the size of a region that is being captured.  `glyphs` are those of
/// [`mark_label`], where a font gives them.
pub fn draw_size_label(
    canvas: &mut [u8],
    stride: i64,
    width: u32,
    height: u32,
    region: &CaptureRegion,
    total_height: u32,
    glyphs: &Option<Vec<Glyph>>,
)
    requires
        4 * width <= stride,
        glyphs_spell(*glyphs, mark_text(*region, total_height as int)),
    ensures
        final(canvas)@ == with_label(
            old(canvas)@,
            stride as int,
            width as int,
            height as int,
            *region,
            MARK_LABEL_WIDTH as int,
            mark_text(*region, total_height as int),
            glyphs_of(*glyphs),
        ),
{
    let text: String = mark_label(region, total_height);
    draw_label(canvas, stride, width, height, region, MARK_LABEL_WIDTH, text.as_str(), glyphs);
}

/// The state of the frame that marks the captured region.
#[derive(Debug, Clone, Copy, PartialEq, Eq, Structural)]
pub struct BorderState {
    pub width: u32,
    pub height: u32,
    pub configured: bool,
    pub region: CaptureRegion,
    pub total_height: u32,
}

impl BorderState {
    /// A frame round a region, not shown yet.
    pub fn new(region: CaptureRegion) -> (r: BorderState)
        ensures
            r == (BorderState {
                width: 1920,
                height: 1080,
                configured: false,
                region,
                total_height: region.height,
            }),
    {
        BorderState {
            width: 1920,
            height: 1080,
            configured: false,
            region,
            total_height: region.height,
        }
    }

    /// Takes the size that the compositor gives; zero leaves a side as it is.
    pub fn configure(&mut self, width: u32, height: u32)
        ensures
            *final(self) == (BorderState {
                width: if width > 0 {
                    width
                } else {
                    old(self).width
                },
                height: if height > 0 {
                    height
                } else {
                    old(self).height
                },
                configured: true,
                ..*old(self)
            }),
    {
        if width > 0 {
            self.width = width;
        }
        if height > 0 {
            self.height = height;
        }
        self.configured = true;
    }

    /// Whether to draw, while the capture is running.
    pub fn wants_draw(&self, running: bool) -> (r: bool)
        ensures
            r == (self.configured && running),
    {
        self.configured && running
    }

    /// Draws the mark: a frame round the region, and a label.  `glyphs` are
    /// those of [`mark_label`], where a font gives them.
    pub fn draw(&self, canvas: &mut [u8], glyphs: &Option<Vec<Glyph>>)
        requires
            glyphs_spell(*glyphs, mark_text(self.region, self.total_height as int)),
        ensures
            final(canvas)@ == mark_canvas(
                old(canvas)@,
                self.width as int,
                self.height as int,
                self.region,
                self.total_height as int,
                glyphs_of(*glyphs),
            ),
    {
        let region: CaptureRegion = self.region;
        let stride: i64 = 4 * self.width as i64;
        clear(canvas, &TRANSPARENT);
        stroke_frame(
            canvas,
            stride,
            self.width,
            self.height,
            region.x as i64 - 2,
            region.y as i64 - 2,
            region.width as i64 + 4,
            region.height as i64 + 4,
            &BORDER_COLOR,
        );
        draw_size_label(
            canvas,
            stride,
            self.width,
            self.height,
            &region,
            self.total_height,
            glyphs,
        );
    }
}

/// Which corner is given first makes no difference, and the region has both
/// corners on its edges.
pub proof fn region_spans_corners(x1: i32, y1: i32, x2: i32, y2: i32)
    ensures
        spanned(x1 as int, y1 as int, x2 as int, y2 as int) == spanned(
            x2 as int,
            y2 as int,
            x1 as int,
            y1 as int,
        ),
        ({
            let r = spanned(x1 as int, y1 as int, x2 as int, y2 as int);
            &&& r.x <= x1 <= r.x + r.width
            &&& r.x <= x2 <= r.x + r.width
            &&& r.y <= y1 <= r.y + r.height
            &&& r.y <= y2 <= r.y + r.height
            &&& x1 != x2 ==> (r.x == x1 || r.x == x2) && (r.x + r.width == x1 || r.x + r.width
                == x2)
            &&& y1 != y2 ==> (r.y == y1 || r.y == y2) && (r.y + r.height == y1 || r.y + r.height
                == y2)
            &&& x1 == x2 ==> r.x == x1 && r.width == 1
            &&& y1 == y2 ==> r.y == y1 && r.height == 1
        }),
{
}

/// Dragging with the left button selects the region between the point where
/// it was pressed and the last point before its release, if that is large
/// enough, and ends the selection.
pub proof fn dragging_selects(s: SelectorState, x1: i32, y1: i32, x2: i32, y2: i32)
    ensures
        ({
            let pressed = selector_step(
                s,
                SelectorInput::Press { button: BUTTON_LEFT, x: x1, y: y1 },
            );
            let moved = selector_step(pressed, SelectorInput::Motion { x: x2, y: y2 });
            let released = selector_step(moved, SelectorInput::Release { button: BUTTON_LEFT });
            let r = spanned(
                whole(x1 as int),
                whole(y1 as int),
                whole(x2 as int),
                whole(y2 as int),
            );
            &&& !released.running
            &&& released.outcome() == (if r.width > MIN_SELECTION && r.height > MIN_SELECTION {
                Some(r)
            } else {
                None
            })
        }),
{
}

/// Releasing the right button ends the selection without a region, whatever
/// came before.
pub proof fn right_button_cancels(s: SelectorState)
    ensures
        ({
            let released = selector_step(s, SelectorInput::Release { button: BUTTON_RIGHT });
            !released.running && released.outcome() is None
        }),
{
}

/// After a drawing that was shown, the next one comes no sooner than
/// [`REDRAW_MILLIS`] milliseconds later.
pub proof fn redraws_are_limited(s: SelectorState, first: u64, second: u64)
    requires
        (SelectorState { last_draw: first, first_draw: false, ..s }).may_draw(second),
    ensures
        second >= first + 33_000_000,
{
}

/// Built-in characters leave the rows below them as they were.
proof fn lemma_chars_above(
    before: Seq<u8>,
    stride: int,
    width: int,
    height: int,
    left: int,
    top: int,
    text: Seq<char>,
    color: Seq<u8>,
    i: int,
)
    requires
        0 <= i < before.len(),
        top + 10 <= row_of(i, stride),
    ensures
        with_chars(before, stride, width, height, left, top, text, color).len() == before.len(),
        with_chars(before, stride, width, height, left, top, text, color)[i] == before[i],
    decreases text.len(),
{
    if text.len() > 0 {
        lemma_chars_above(before, stride, width, height, left, top, text.drop_last(), color, i);
    }
}

/// Glyphs leave the rows below them as they were.
proof fn lemma_glyphs_above(
    before: Seq<u8>,
    stride: int,
    width: int,
    height: int,
    x: int,
    y: int,
    glyphs: Seq<Glyph>,
    size: int,
    color: Seq<u8>,
    i: int,
)
    requires
        0 <= i < before.len(),
        forall|k: int|
            0 <= k < glyphs.len() ==> y + size - (#[trigger] glyphs[k]).ymin <= row_of(i, stride),
    ensures
        with_glyphs(before, stride, width, height, x, y, glyphs, size, color).len() == before.len(),
        with_glyphs(before, stride, width, height, x, y, glyphs, size, color)[i] == before[i],
    decreases glyphs.len(),
{
    if glyphs.len() > 0 {
        assert(glyphs.last() == glyphs[glyphs.len() - 1]);
        assert forall|k: int| 0 <= k < glyphs.len() - 1 implies y + size - (
        #[trigger] glyphs.drop_last()[k]).ymin <= row_of(i, stride) by {
            assert(glyphs.drop_last()[k] == glyphs[k]);
        }
        lemma_glyphs_above(
            before,
            stride,
            width,
            height,
            x,
            y,
            glyphs.drop_last(),
            size,
            color,
            i,
        );
    }
}

/// The frame of a marked region lies outside the region: every pixel of the
/// screen that belongs to the region stays transparent.
pub proof fn frame_stays_outside(
    before: Seq<u8>,
    width: int,
    height: int,
    region: CaptureRegion,
    x: int,
    y: int,
)
    requires
        in_box(
            x,
            y,
            region.x as int,
            region.y as int,
            region.width as int,
            region.height as int,
        ),
        holds_point(before, 4 * width, width, height, x, y),
    ensures
        pixel_at(mark_frame(before, width, height, region), 4 * width, x, y) == TRANSPARENT@,
{
    let stride = 4 * width;
    let got = pixel_at(mark_frame(before, width, height, region), stride, x, y);
    let at = y * stride + 4 * x;
    assert(0 <= y * stride) by (nonlinear_arith)
        requires
            0 <= y,
            0 <= stride,
    ;
    assert forall|k: int| 0 <= k < 4 implies #[trigger] got[k] == TRANSPARENT@[k] by {
        lemma_byte_of_point(at + k, stride, x, y);
        lemma_rows_without_gaps(at + k, width);
    }
    assert(got =~= TRANSPARENT@);
}

/// Where there is room for the label above a marked region, and no glyph
/// reaches more than seven pixels below its line, the mark lies outside the
/// region: every pixel of the screen that belongs to the region stays
/// transparent.
pub proof fn mark_stays_outside(
    before: Seq<u8>,
    width: int,
    height: int,
    region: CaptureRegion,
    total_height: int,
    glyphs: Option<Seq<Glyph>>,
    x: int,
    y: int,
)
    requires
        region.y >= LABEL_RISE,
        glyphs matches Some(run) ==> (forall|k: int|
            0 <= k < run.len() ==> (#[trigger] run[k]).ymin >= -7),
        in_box(
            x,
            y,
            region.x as int,
            region.y as int,
            region.width as int,
            region.height as int,
        ),
        holds_point(before, 4 * width, width, height, x, y),
    ensures
        pixel_at(mark_canvas(before, width, height, region, total_height, glyphs), 4 * width, x, y)
            == TRANSPARENT@,
{
    let stride = 4 * width;
    let framed = mark_frame(before, width, height, region);
    let left = region.x as int;
    let top = label_top(region);
    let plate = painted(
        framed,
        stride,
        width,
        height,
        |x: int, y: int| in_box(x, y, left, top, MARK_LABEL_WIDTH as int, LABEL_HEIGHT as int),
        LABEL_COLOR@,
    );
    let text = mark_text(region, total_height);
    let after = mark_canvas(before, width, height, region, total_height, glyphs);
    let at = y * stride + 4 * x;
    assert(0 <= y * stride) by (nonlinear_arith)
        requires
            0 <= y,
            0 <= stride,
    ;
    frame_stays_outside(before, width, height, region, x, y);
    let got = pixel_at(after, stride, x, y);
    assert forall|k: int| 0 <= k < 4 implies after.len() == before.len() && #[trigger] got[k]
        == TRANSPARENT@[k] by {
        let i = at + k;
        lemma_byte_of_point(i, stride, x, y);
        assert(framed[i] == pixel_at(framed, stride, x, y)[k]);
        assert(plate[i] == framed[i]);
        match glyphs {
            Some(run) => lemma_glyphs_above(
                plate,
                stride,
                width,
                height,
                left + 4,
                top + 3,
                run,
                FONT_SIZE as int,
                WHITE@,
                i,
            ),
            None => lemma_chars_above(
                plate,
                stride,
                width,
                height,
                left + 4,
                top + 3,
                text,
                WHITE@,
                i,
            ),
        }
    }
    assert(got[0] == TRANSPARENT@[0]);
    assert(got =~= TRANSPARENT@);
}

/// The state after the pointer did several things.
pub open spec fn selector_run(s: SelectorState, inputs: Seq<SelectorInput>) -> SelectorState
    decreases inputs.len(),
{
    if inputs.len() == 0 {
        s
    } else {
        selector_step(selector_run(s, inputs.drop_last()), inputs.last())
    }
}

/// In every state a motion takes the current corner to the pixel under the
/// pointer, and changes nothing else.
pub proof fn motion_moves_current_corner(s: SelectorState, x: i32, y: i32)
    ensures
        ({
            let moved = selector_step(s, SelectorInput::Motion { x, y });
            &&& on_pixel(x as int, moved.current_x as int)
            &&& on_pixel(y as int, moved.current_y as int)
            &&& moved.start_x == s.start_x && moved.start_y == s.start_y
            &&& moved.is_selecting == s.is_selecting
            &&& moved.selection_complete == s.selection_complete
            &&& moved.running == s.running
            &&& moved == (SelectorState {
                current_x: moved.current_x,
                current_y: moved.current_y,
                ..s
            })
        }),
{
    whole_part_is_the_pixel(x as int, whole(x as int));
    whole_part_is_the_pixel(y as int, whole(y as int));
}

/// Motions leave the corner where the left button was pressed, and go on with
/// the selection.
proof fn lemma_held_button(s: SelectorState, moves: Seq<SelectorInput>)
    requires
        forall|i: int|
            0 <= i < moves.len() ==> #[trigger] moves[i] is Motion || moves[i] is Other,
    ensures
        ({
            let held = selector_run(s, moves);
            &&& held.is_selecting == s.is_selecting
            &&& held.start_x == s.start_x && held.start_y == s.start_y
            &&& held.selection_complete == s.selection_complete
            &&& held.running == s.running
        }),
    decreases moves.len(),
{
    if moves.len() > 0 {
        let first = moves.drop_last();
        assert forall|i: int| 0 <= i < first.len() implies #[trigger] first[i] is Motion || first[i]
            is Other by {
            assert(first[i] == moves[i]);
        }
        assert(moves[moves.len() - 1] is Motion || moves[moves.len() - 1] is Other);
        lemma_held_button(s, first);
    }
}

/// The region that the corners on two pixels span, if it is wider and higher
/// than ten pixels.
pub open spec fn drags_out(
    outcome: Option<CaptureRegion>,
    x1: int,
    y1: int,
    x2: int,
    y2: int,
) -> bool {
    match outcome {
        Some(r) => {
            &&& r.width > 10 && r.height > 10
            &&& r.x == x1 && r.x + r.width == x2 || r.x == x2 && r.x + r.width == x1
            &&& r.y == y1 && r.y + r.height == y2 || r.y == y2 && r.y + r.height == y1
        },
        None => -10 <= x1 - x2 <= 10 || -10 <= y1 - y2 <= 10,
    }
}

/// However the pointer moves between the press and the release of the left
/// button, the region has one corner on the pixel where the button was pressed
/// and the other on the pixel where the pointer moved last, if it is large
/// enough, and the selection is over.  Nothing is selected before the release.
pub proof fn last_motion_sets_the_corner(
    s: SelectorState,
    x1: i32,
    y1: i32,
    moves: Seq<SelectorInput>,
    x2: i32,
    y2: i32,
    start_x: int,
    start_y: int,
    end_x: int,
    end_y: int,
)
    requires
        forall|i: int|
            0 <= i < moves.len() ==> #[trigger] moves[i] is Motion || moves[i] is Other,
        on_pixel(x1 as int, start_x),
        on_pixel(y1 as int, start_y),
        on_pixel(x2 as int, end_x),
        on_pixel(y2 as int, end_y),
    ensures
        ({
            let pressed = selector_step(s, SelectorInput::Press { button: 272, x: x1, y: y1 });
            let moved = selector_step(
                selector_run(pressed, moves),
                SelectorInput::Motion { x: x2, y: y2 },
            );
            let released = selector_step(moved, SelectorInput::Release { button: 272 });
            &&& !released.running
            &&& !released.is_selecting
            &&& drags_out(released.outcome(), start_x, start_y, end_x, end_y)
            &&& !s.selection_complete ==> moved.outcome() is None && moved.running == s.running
        }),
{
    let pressed = selector_step(s, SelectorInput::Press { button: 272, x: x1, y: y1 });
    lemma_held_button(pressed, moves);
    whole_part_is_the_pixel(x1 as int, start_x);
    whole_part_is_the_pixel(y1 as int, start_y);
    whole_part_is_the_pixel(x2 as int, end_x);
    whole_part_is_the_pixel(y2 as int, end_y);
}

/// A press without a motion selects nothing.
pub proof fn click_selects_nothing(s: SelectorState, x: i32, y: i32)
    ensures
        ({
            let pressed = selector_step(s, SelectorInput::Press { button: 272, x, y });
            selector_step(pressed, SelectorInput::Release { button: 272 }).outcome() is None
        }),
{
}

/// A selection is completed by the release of the left button alone, after it
/// was pressed, and ended by that or by the release of the right button.  It is
/// begun by a press of the left button alone, which puts both corners on the
/// pixel under the pointer; whatever else happens leaves the first corner alone.
pub proof fn buttons_begin_and_end(s: SelectorState, input: SelectorInput)
    ensures
        ({
            let after = selector_step(s, input);
            &&& after.selection_complete && !s.selection_complete ==> input
                == (SelectorInput::Release { button: 272 }) && s.is_selecting && !after.running
            &&& s.running && !after.running ==> (input matches SelectorInput::Release { button }
                && (button == 273 || button == 272 && s.is_selecting))
            &&& !s.running ==> !after.running
            &&& after.is_selecting && !s.is_selecting ==> (input matches SelectorInput::Press {
                button,
                ..
            } && button == 272)
            &&& input matches SelectorInput::Press { button, x, y } ==> if button == 272 {
                &&& after.is_selecting
                &&& on_pixel(x as int, after.start_x as int) && on_pixel(
                    y as int,
                    after.start_y as int,
                )
                &&& after.current_x == after.start_x && after.current_y == after.start_y
            } else {
                after == s
            }
            &&& !(input is Press) ==> after.start_x == s.start_x && after.start_y == s.start_y
            &&& input is Other ==> after == s
            &&& after.width == s.width && after.height == s.height && after.configured
                == s.configured && after.first_draw == s.first_draw && after.last_draw
                == s.last_draw
        }),
{
    match input {
        SelectorInput::Press { button, x, y } => {
            whole_part_is_the_pixel(x as int, whole(x as int));
            whole_part_is_the_pixel(y as int, whole(y as int));
        },
        _ => {},
    }
}

/// The label of a region that is being selected shows its width and its height,
/// as two numbers with an `x` between them.
pub proof fn label_shows_the_size(region: CaptureRegion, total_height: nat)
    ensures
        size_text(region) == decimal(region.width as nat) + seq!['x'] + decimal(
            region.height as nat,
        ),
        fields(size_text(region), 'x') == seq![
            decimal(region.width as nat),
            decimal(region.height as nat),
        ],
        mark_text(region, total_height as int) == size_text(region) + seq!['('] + decimal(
            total_height,
        ) + seq![')'],
{
    reveal_strlit("x");
    reveal_strlit("(");
    reveal_strlit(")");
    assert("x"@ =~= seq!['x']);
    assert("("@ =~= seq!['(']);
    assert(")"@ =~= seq![')']);
    decimal_denotes(region.width as nat);
    decimal_denotes(region.height as nat);
    two_fields(decimal(region.width as nat), decimal(region.height as nat), 'x');
    assert(mark_text(region, total_height as int) =~= size_text(region) + seq!['('] + decimal(
        total_height,
    ) + seq![')']);
}

/// A point of a canvas that was cleared.
proof fn lemma_cleared_point(
    before: Seq<u8>,
    width: int,
    height: int,
    color: Seq<u8>,
    x: int,
    y: int,
)
    requires
        holds_point(before, 4 * width, width, height, x, y),
        color.len() == 4,
    ensures
        inked(before, |p: int| true, color).len() == before.len(),
        pixel_at(inked(before, |p: int| true, color), 4 * width, x, y) == color,
{
    let stride = 4 * width;
    let after = inked(before, |p: int| true, color);
    let got = pixel_at(after, stride, x, y);
    let at = y * stride + 4 * x;
    assert(0 <= y * stride) by (nonlinear_arith)
        requires
            0 <= y,
            0 <= stride,
    ;
    assert forall|k: int| 0 <= k < 4 implies #[trigger] got[k] == color[k] by {
        lemma_byte_of_point(at + k, stride, x, y);
        lemma_rows_without_gaps(at + k, width);
    }
    assert(got =~= color);
}

/// A label leaves the points below it as they were, where no glyph reaches more
/// than seven pixels below its line.
proof fn lemma_label_above(
    before: Seq<u8>,
    width: int,
    height: int,
    region: CaptureRegion,
    label_width: int,
    text: Seq<char>,
    glyphs: Option<Seq<Glyph>>,
    x: int,
    y: int,
)
    requires
        holds_point(before, 4 * width, width, height, x, y),
        y >= label_top(region) + 24,
        glyphs matches Some(run) ==> (forall|k: int|
            0 <= k < run.len() ==> (#[trigger] run[k]).ymin >= -7),
    ensures
        pixel_at(
            with_label(before, 4 * width, width, height, region, label_width, text, glyphs),
            4 * width,
            x,
            y,
        ) == pixel_at(before, 4 * width, x, y),
{
    let stride = 4 * width;
    let left = region.x as int;
    let top = label_top(region);
    let plate = painted(
        before,
        stride,
        width,
        height,
        |x: int, y: int| in_box(x, y, left, top, label_width, LABEL_HEIGHT as int),
        LABEL_COLOR@,
    );
    let after = with_label(before, stride, width, height, region, label_width, text, glyphs);
    let at = y * stride + 4 * x;
    assert(0 <= y * stride) by (nonlinear_arith)
        requires
            0 <= y,
            0 <= stride,
    ;
    let got = pixel_at(after, stride, x, y);
    let wanted = pixel_at(before, stride, x, y);
    assert forall|k: int| 0 <= k < 4 implies after.len() == before.len() && #[trigger] got[k]
        == wanted[k] by {
        let i = at + k;
        lemma_byte_of_point(i, stride, x, y);
        assert(plate[i] == before[i]);
        match glyphs {
            Some(run) => lemma_glyphs_above(
                plate,
                stride,
                width,
                height,
                left + 4,
                top + 3,
                run,
                FONT_SIZE as int,
                WHITE@,
                i,
            ),
            None => lemma_chars_above(
                plate,
                stride,
                width,
                height,
                left + 4,
                top + 3,
                text,
                WHITE@,
                i,
            ),
        }
    }
    assert(got[0] == wanted[0]);
    assert(got =~= wanted);
}

/// While a region is dragged out, the screen is dimmed outside it, clear inside
/// it, and the region has a red frame, two pixels thick, along its inner edges.
/// Before that, the whole screen is dimmed.  The label may cover this in the rows
/// above the region, or at the top of the screen.
pub proof fn selection_is_cut_out(
    s: SelectorState,
    before: Seq<u8>,
    glyphs: Option<Seq<Glyph>>,
    x: int,
    y: int,
)
    requires
        holds_point(before, 4 * s.width, s.width as int, s.height as int, x, y),
        y >= 24,
        y >= s.region().y,
        glyphs matches Some(run) ==> (forall|k: int|
            0 <= k < run.len() ==> (#[trigger] run[k]).ymin >= -7),
    ensures
        ({
            let r = s.region();
            let shown = pixel_at(selection_canvas(s, before, glyphs), 4 * s.width as int, x, y);
            let inside = r.x <= x < r.x + r.width && r.y <= y < r.y + r.height;
            let deep = r.x + 2 <= x < r.x + r.width - 2 && r.y + 2 <= y < r.y + r.height - 2;
            if !s.is_selecting || r.width <= 1 || r.height <= 1 || !inside {
                shown == seq![0u8, 0, 0, 120]
            } else if deep {
                shown == seq![0u8, 0, 0, 0]
            } else {
                shown == seq![0u8, 0, 255, 255]
            }
        }),
{
    let r = s.region();
    let w = s.width as int;
    let h = s.height as int;
    let stride = 4 * w;
    let dimmed = inked(before, |p: int| true, DIMMED@);
    lemma_cleared_point(before, w, h, DIMMED@, x, y);
    assert(DIMMED@ =~= seq![0u8, 0, 0, 120]);
    assert(TRANSPARENT@ =~= seq![0u8, 0, 0, 0]);
    assert(BORDER_COLOR@ =~= seq![0u8, 0, 255, 255]);
    if s.is_selecting && r.width > 1 && r.height > 1 {
        let in_region = |x: int, y: int|
            in_box(x, y, r.x as int, r.y as int, r.width as int, r.height as int);
        let on_edge = |x: int, y: int|
            on_frame(x, y, r.x as int, r.y as int, r.width as int, r.height as int);
        let cut = painted(dimmed, stride, w, h, in_region, TRANSPARENT@);
        let framed = painted(cut, stride, w, h, on_edge, BORDER_COLOR@);
        let text = size_text(r);
        painted_point(dimmed, stride, w, h, in_region, TRANSPARENT@, x, y);
        painted_point(cut, stride, w, h, on_edge, BORDER_COLOR@, x, y);
        frame_is_box_without_inside(
            x,
            y,
            r.x as int,
            r.y as int,
            r.width as int,
            r.height as int,
        );
        lemma_label_above(framed, w, h, r, (text.len() * 8 + 12) as int, text, glyphs, x, y);
    }
}

/// The mark of a region that is being captured is a red frame, two pixels thick,
/// just outside the region; the rest of the screen is transparent.  The label may
/// cover this in the rows above the region, or at the top of the screen.
pub proof fn mark_surrounds_the_region(
    before: Seq<u8>,
    width: int,
    height: int,
    region: CaptureRegion,
    total_height: int,
    glyphs: Option<Seq<Glyph>>,
    x: int,
    y: int,
)
    requires
        holds_point(before, 4 * width, width, height, x, y),
        y >= 24,
        y >= region.y,
        glyphs matches Some(run) ==> (forall|k: int|
            0 <= k < run.len() ==> (#[trigger] run[k]).ymin >= -7),
    ensures
        ({
            let shown = pixel_at(
                mark_canvas(before, width, height, region, total_height, glyphs),
                4 * width,
                x,
                y,
            );
            let inside = region.x <= x < region.x + region.width && region.y <= y < region.y
                + region.height;
            let near = region.x - 2 <= x < region.x + region.width + 2 && region.y - 2 <= y
                < region.y + region.height + 2;
            shown == (if near && !inside {
                seq![0u8, 0, 255, 255]
            } else {
                seq![0u8, 0, 0, 0]
            })
        }),
{
    let stride = 4 * width;
    let clear = inked(before, |p: int| true, TRANSPARENT@);
    let edge = |x: int, y: int|
        on_frame(x, y, region.x - 2, region.y - 2, region.width + 4, region.height + 4);
    lemma_cleared_point(before, width, height, TRANSPARENT@, x, y);
    painted_point(clear, stride, width, height, edge, BORDER_COLOR@, x, y);
    frame_is_box_without_inside(
        x,
        y,
        region.x - 2,
        region.y - 2,
        region.width + 4,
        region.height + 4,
    );
    assert(TRANSPARENT@ =~= seq![0u8, 0, 0, 0]);
    assert(BORDER_COLOR@ =~= seq![0u8, 0, 255, 255]);
    lemma_label_above(
        mark_frame(before, width, height, region),
        width,
        height,
        region,
        MARK_LABEL_WIDTH as int,
        mark_text(region, total_height),
        glyphs,
        x,
        y,
    );
}

/// A label is a dark plate, twenty pixels high, 24 pixels above the region or at
/// the top of the screen, with the text on it in white, four pixels from its left
/// edge and three from its top, where it is drawn with the built-in characters.
pub proof fn label_is_a_plate_with_text(
    before: Seq<u8>,
    stride: int,
    width: int,
    height: int,
    region: CaptureRegion,
    label_width: int,
    text: Seq<char>,
    x: int,
    y: int,
)
    requires
        holds_point(before, stride, width, height, x, y),
    ensures
        ({
            let top = if region.y < 24 {
                0
            } else {
                region.y - 24
            };
            let shown = pixel_at(
                with_label(before, stride, width, height, region, label_width, text, None),
                stride,
                x,
                y,
            );
            if text_ink(text, x - region.x - 4, y - top - 3) {
                shown == seq![255u8, 255, 255, 255]
            } else if region.x <= x < region.x + label_width && top <= y < top + 20 {
                shown == seq![40u8, 40, 40, 230]
            } else {
                shown == pixel_at(before, stride, x, y)
            }
        }),
{
    let left = region.x as int;
    let top = label_top(region);
    let on_plate = |x: int, y: int| in_box(x, y, left, top, label_width, LABEL_HEIGHT as int);
    let plate = painted(before, stride, width, height, on_plate, LABEL_COLOR@);
    painted_point(before, stride, width, height, on_plate, LABEL_COLOR@, x, y);
    text_colors_its_points(plate, stride, width, height, left + 4, top + 3, text, WHITE@, x, y);
    assert(WHITE@ =~= seq![255u8, 255, 255, 255]);
    assert(LABEL_COLOR@ =~= seq![40u8, 40, 40, 230]);
}

/// The label of a region that is being selected is eight pixels wide for each
/// character and twelve more, and the one of a marked region 140 pixels.
pub proof fn labels_have_room_for_their_text(
    before: Seq<u8>,
    stride: int,
    width: int,
    height: int,
    region: CaptureRegion,
    glyphs: Option<Seq<Glyph>>,
    total_height: int,
)
    ensures
        with_size_label(before, stride, width, height, region, glyphs) == with_label(
            before,
            stride,
            width,
            height,
            region,
            8 * size_text(region).len() as int + 12,
            size_text(region),
            glyphs,
        ),
        mark_canvas(before, width, height, region, total_height, glyphs) == with_label(
            mark_frame(before, width, height, region),
            4 * width,
            width,
            height,
            region,
            140,
            mark_text(region, total_height),
            glyphs,
        ),
{
}

/// A drawing is due when nothing was shown yet, and otherwise from 33
/// milliseconds after the last one on.
pub proof fn drawings_come_when_due(s: SelectorState, now: u64)
    ensures
        s.may_draw(now) <==> s.first_draw || now >= s.last_draw + 33_000_000,
{
}

/// The text of a label, from whichever font, has its line three pixels below the
/// top of the plate, begins four pixels from its left edge, is 14 pixels high and
/// white.
pub proof fn label_text_has_its_place(
    before: Seq<u8>,
    stride: int,
    width: int,
    height: int,
    region: CaptureRegion,
    label_width: int,
    text: Seq<char>,
    glyphs: Option<Seq<Glyph>>,
)
    ensures
        ({
            let top = if region.y < 24 {
                0
            } else {
                region.y - 24
            };
            with_label(before, stride, width, height, region, label_width, text, glyphs)
                == with_text(
                painted(
                    before,
                    stride,
                    width,
                    height,
                    |x: int, y: int|
                        region.x <= x < region.x + label_width && top <= y < top + 20,
                    seq![40u8, 40, 40, 230],
                ),
                stride,
                width,
                height,
                region.x + 4,
                top + 3,
                text,
                glyphs,
                14,
                seq![255u8, 255, 255, 255],
            )
        }),
{
    let left = region.x as int;
    let top = label_top(region);
    let on_plate = |x: int, y: int| in_box(x, y, left, top, label_width, LABEL_HEIGHT as int);
    let plain = |x: int, y: int|
        region.x <= x < region.x + label_width && top <= y < top + 20;
    assert(WHITE@ =~= seq![255u8, 255, 255, 255]);
    assert(LABEL_COLOR@ =~= seq![40u8, 40, 40, 230]);
    assert(on_plate =~= plain);
}

/// Whether a point of the screen during the selection, without the label, has the
/// colour that it should have: dimmed outside the region, clear inside it, and
/// red along its inner edges.
pub open spec fn cut_out_point(s: SelectorState, screen: Seq<u8>, x: int, y: int) -> bool {
    let r = s.region();
    let shown = pixel_at(screen, 4 * s.width as int, x, y);
    let inside = r.x <= x < r.x + r.width && r.y <= y < r.y + r.height;
    let deep = r.x + 2 <= x < r.x + r.width - 2 && r.y + 2 <= y < r.y + r.height - 2;
    if !inside {
        shown == seq![0u8, 0, 0, 120]
    } else if deep {
        shown == seq![0u8, 0, 0, 0]
    } else {
        shown == seq![0u8, 0, 255, 255]
    }
}

/// While a region is dragged out, what the screen shows is a screen on which the
/// region is cut out and framed, at every point of it, with the label of the
/// region laid over it and nothing else.
pub proof fn label_lies_over_the_selection(
    s: SelectorState,
    before: Seq<u8>,
    glyphs: Option<Seq<Glyph>>,
) -> (screen: Seq<u8>)
    requires
        s.is_selecting,
        s.region().width > 1,
        s.region().height > 1,
    ensures
        screen.len() == before.len(),
        forall|x: int, y: int| #[trigger]
            holds_point(before, 4 * s.width as int, s.width as int, s.height as int, x, y)
                ==> cut_out_point(s, screen, x, y),
        selection_canvas(s, before, glyphs) == with_label(
            screen,
            4 * s.width as int,
            s.width as int,
            s.height as int,
            s.region(),
            8 * size_text(s.region()).len() as int + 12,
            size_text(s.region()),
            glyphs,
        ),
{
    let r = s.region();
    let w = s.width as int;
    let h = s.height as int;
    let stride = 4 * w;
    let dimmed = inked(before, |p: int| true, DIMMED@);
    let in_region = |x: int, y: int|
        in_box(x, y, r.x as int, r.y as int, r.width as int, r.height as int);
    let on_edge = |x: int, y: int|
        on_frame(x, y, r.x as int, r.y as int, r.width as int, r.height as int);
    let cut = painted(dimmed, stride, w, h, in_region, TRANSPARENT@);
    let framed = painted(cut, stride, w, h, on_edge, BORDER_COLOR@);
    assert(DIMMED@ =~= seq![0u8, 0, 0, 120]);
    assert(TRANSPARENT@ =~= seq![0u8, 0, 0, 0]);
    assert(BORDER_COLOR@ =~= seq![0u8, 0, 255, 255]);
    assert forall|x: int, y: int| #[trigger]
        holds_point(before, stride, w, h, x, y) implies cut_out_point(s, framed, x, y) by {
        lemma_cleared_point(before, w, h, DIMMED@, x, y);
        painted_point(dimmed, stride, w, h, in_region, TRANSPARENT@, x, y);
        painted_point(cut, stride, w, h, on_edge, BORDER_COLOR@, x, y);
        frame_is_box_without_inside(
            x,
            y,
            r.x as int,
            r.y as int,
            r.width as int,
            r.height as int,
        );
    }
    framed
}

/// The frame of a marked region, before the label is laid over it, is red within
/// two pixels outside the region, and every other point of the screen is
/// transparent.
pub proof fn frame_surrounds_the_region(
    before: Seq<u8>,
    width: int,
    height: int,
    region: CaptureRegion,
    x: int,
    y: int,
)
    requires
        holds_point(before, 4 * width, width, height, x, y),
    ensures
        ({
            let inside = region.x <= x < region.x + region.width && region.y <= y < region.y
                + region.height;
            let near = region.x - 2 <= x < region.x + region.width + 2 && region.y - 2 <= y
                < region.y + region.height + 2;
            pixel_at(mark_frame(before, width, height, region), 4 * width, x, y) == (if near
                && !inside {
                seq![0u8, 0, 255, 255]
            } else {
                seq![0u8, 0, 0, 0]
            })
        }),
{
    let clear = inked(before, |p: int| true, TRANSPARENT@);
    let edge = |x: int, y: int|
        on_frame(x, y, region.x - 2, region.y - 2, region.width + 4, region.height + 4);
    lemma_cleared_point(before, width, height, TRANSPARENT@, x, y);
    painted_point(clear, 4 * width, width, height, edge, BORDER_COLOR@, x, y);
    frame_is_box_without_inside(
        x,
        y,
        region.x - 2,
        region.y - 2,
        region.width + 4,
        region.height + 4,
    );
    assert(TRANSPARENT@ =~= seq![0u8, 0, 0, 0]);
    assert(BORDER_COLOR@ =~= seq![0u8, 0, 255, 255]);
}

} // verus!
