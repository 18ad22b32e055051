//! The preview window: what it shows, and what the pointer does in it.

use crate::button::{
    button_shows_in_its_place, cancel_icon_is_a_cross, copy_icon_is_two_sheets, draw_cancel_icon,
    draw_copy_icon, draw_rounded_button, draw_save_icon, rounded, save_icon_is_a_disk, with_button,
    with_cancel_icon, with_copy_icon, with_save_icon, ButtonRect,
};
use crate::export::{image_fits, image_for_export, ExportError};
use crate::pixels::{
    clear, holds_point, inked, lemma_byte_of_point, lemma_rows_without_gaps, pixel_at,
};
use crate::preview::{
    draw_preview_with_scroll, preview_keeps_to_its_place, preview_width, with_preview, PreviewScale,
    PREVIEW_Y,
};
use crate::text::{decimal, push_decimal};
use crate::types::{CaptureRegion, WorkerEvent};
use vstd::prelude::*;

verus! {

/// The width that the window asks for.
pub const WINDOW_WIDTH: u32 = 200;

/// The height of the window before the compositor sets it.
pub const INITIAL_HEIGHT: u32 = 800;

/// The distance between the selected region and the window.
pub const WINDOW_GAP: i32 = 10;

/// The number of the left mouse button.
pub const BUTTON_LEFT: u32 = 272;

/// The number of the right mouse button.
pub const BUTTON_RIGHT: u32 = 273;

/// How many units of a pointer coordinate make a pixel.
pub const FIXED_ONE: i64 = 256;

/// How far, in pixels, the pointer may move between press and release for a
/// click.
pub const CLICK_SLACK: i64 = 5;

/// What a click asks for.
#[derive(Debug, Clone, Copy, PartialEq, Eq, Structural)]
pub enum OverlayAction {
    /// Save the image.
    Save,
    /// Copy the image to the clipboard.
    Copy,
    /// Leave without the image.
    Cancel,
}

/// What the pointer did; coordinates count 256ths of a pixel.
#[derive(Debug, Clone, Copy, PartialEq, Eq, Structural)]
pub enum PointerInput {
    Motion { x: i32, y: i32 },
    Press { button: u32 },
    Release { button: u32 },
    Other,
}

/// The buttons of the window.
#[derive(Debug, Clone, Copy, PartialEq, Eq, Structural)]
pub struct Buttons {
    pub save: ButtonRect,
    pub copy: ButtonRect,
    pub cancel: ButtonRect,
}

/// The pointer, and how far the preview is scrolled up from the end of the
/// image; coordinates count 256ths of a pixel.
#[derive(Debug, Clone, Copy, PartialEq, Eq, Structural)]
pub struct PointerState {
    pub x: i32,
    pub y: i32,
    pub scroll_offset: i32,
    pub is_dragging: bool,
    pub drag_start_y: i32,
    pub drag_start_offset: i32,
}

/// A pointer coordinate in whole pixels, rounded towards zero.
pub open spec fn whole(fixed: int) -> int {
    if fixed >= 0 {
        fixed / FIXED_ONE as int
    } else {
        -(-fixed / FIXED_ONE as int)
    }
}

/// The pixel on which a pointer coordinate lies, the pixel of the origin
/// reaching to both sides.
pub open spec fn on_pixel(fixed: int, pixel: int) -> bool {
    if fixed >= 0 {
        256 * pixel <= fixed < 256 * pixel + 256
    } else {
        256 * pixel - 256 < fixed <= 256 * pixel
    }
}

/// Every pointer coordinate lies on one pixel, which is its whole part.
pub proof fn whole_part_is_the_pixel(fixed: int, pixel: int)
    ensures
        on_pixel(fixed, pixel) <==> pixel == whole(fixed),
{
}

/// What a click at a point asks for.
pub open spec fn click_action(buttons: Buttons, x: int, y: int) -> Option<OverlayAction> {
    if buttons.save.holds(x, y) {
        Some(OverlayAction::Save)
    } else if buttons.copy.holds(x, y) {
        Some(OverlayAction::Copy)
    } else if buttons.cancel.holds(x, y) {
        Some(OverlayAction::Cancel)
    } else {
        None
    }
}

/// The scroll offset after the preview was dragged down by `delta` pixels.
pub open spec fn dragged_offset(start: int, delta: int) -> int {
    if start + delta < 0 {
        0
    } else if start + delta > i32::MAX {
        i32::MAX as int
    } else {
        start + delta
    }
}

/// The pointer after it did something, and what that asks for.
pub open spec fn pointer_step(
    s: PointerState,
    buttons: Buttons,
    input: PointerInput,
) -> (PointerState, Option<OverlayAction>) {
    let clicked = click_action(buttons, whole(s.x as int), whole(s.y as int));
    match input {
        PointerInput::Motion { x, y } => if s.is_dragging {
            (
                PointerState {
                    x,
                    y,
                    scroll_offset: dragged_offset(
                        s.drag_start_offset as int,
                        whole(y - s.drag_start_y),
                    ) as i32,
                    ..s
                },
                None,
            )
        } else {
            (PointerState { x, y, ..s }, None)
        },
        PointerInput::Press { button } => if button != BUTTON_LEFT {
            (s, None)
        } else if whole(s.y as int) > PREVIEW_Y {
            (
                PointerState {
                    is_dragging: true,
                    drag_start_y: s.y,
                    drag_start_offset: s.scroll_offset,
                    ..s
                },
                None,
            )
        } else {
            (s, clicked)
        },
        PointerInput::Release { button } => if button != BUTTON_LEFT {
            (s, None)
        } else {
            let slack = CLICK_SLACK * FIXED_ONE;
            let still = !s.is_dragging || -slack < s.y - s.drag_start_y < slack;
            (
                PointerState { is_dragging: false, ..s },
                if still && whole(s.y as int) <= PREVIEW_Y {
                    clicked
                } else {
                    None
                },
            )
        },
        PointerInput::Other => (s, None),
    }
}

/// A pointer coordinate in whole pixels.
pub fn whole_pixels(fixed: i64) -> (r: i64)
    ensures
        r == whole(fixed as int),
        on_pixel(fixed as int, r as int),
{
    if fixed >= 0 {
        fixed / FIXED_ONE
    } else {
        let n: i128 = -(fixed as i128);
        -((n / FIXED_ONE as i128) as i64)
    }
}

/// What a click at a point asks for.
pub fn handle_click(buttons: &Buttons, x: i32, y: i32) -> (r: Option<OverlayAction>)
    ensures
        r == click_action(*buttons, x as int, y as int),
        r is None <==> !buttons.save.holds(x as int, y as int) && !buttons.copy.holds(
            x as int,
            y as int,
        ) && !buttons.cancel.holds(x as int, y as int),
{
    if buttons.save.contains(x, y) {
        Some(OverlayAction::Save)
    } else if buttons.copy.contains(x, y) {
        Some(OverlayAction::Copy)
    } else if buttons.cancel.contains(x, y) {
        Some(OverlayAction::Cancel)
    } else {
        None
    }
}

impl PointerState {
    /// Takes in what the pointer did.
    pub fn apply(&mut self, buttons: &Buttons, input: PointerInput) -> (r: Option<OverlayAction>)
        ensures
            (*final(self), r) == pointer_step(*old(self), *buttons, input),
    {
        match input {
            PointerInput::Motion { x, y } => {
                self.x = x;
                self.y = y;
                if self.is_dragging {
                    let delta: i64 = whole_pixels(y as i64 - self.drag_start_y as i64);
                    let offset: i64 = self.drag_start_offset as i64 + delta;
                    self.scroll_offset = if offset < 0 {
                        0
                    } else if offset > 0x7fff_ffff {
                        0x7fff_ffff
                    } else {
                        offset as i32
                    };
                }
                None
            },
            PointerInput::Press { button } => {
                if button != BUTTON_LEFT {
                    return None;
                }
                let x: i64 = whole_pixels(self.x as i64);
                let y: i64 = whole_pixels(self.y as i64);
                if y > PREVIEW_Y as i64 {
                    self.is_dragging = true;
                    self.drag_start_y = self.y;
                    self.drag_start_offset = self.scroll_offset;
                    None
                } else {
                    handle_click(buttons, x as i32, y as i32)
                }
            },
            PointerInput::Release { button } => {
                if button != BUTTON_LEFT {
                    return None;
                }
                let x: i64 = whole_pixels(self.x as i64);
                let y: i64 = whole_pixels(self.y as i64);
                let moved: i64 = self.y as i64 - self.drag_start_y as i64;
                let slack: i64 = CLICK_SLACK * FIXED_ONE;
                let still: bool = !self.is_dragging || (-slack < moved && moved < slack);
                self.is_dragging = false;
                if still && y <= PREVIEW_Y as i64 {
                    handle_click(buttons, x as i32, y as i32)
                } else {
                    None
                }
            },
            PointerInput::Other => None,
        }
    }
}

/// The buttons, side by side at the top of the window.
pub open spec fn standard_buttons() -> Buttons {
    Buttons {
        save: ButtonRect { x: 10, y: 10, width: 44, height: 44 },
        copy: ButtonRect { x: 64, y: 10, width: 44, height: 44 },
        cancel: ButtonRect { x: 118, y: 10, width: 44, height: 44 },
    }
}

/// The state of the preview window.
#[derive(Debug)]
pub struct OverlayState {
    pub width: u32,
    pub height: u32,
    pub configured: bool,
    pub pointer: PointerState,
    pub image_data: Option<Vec<u8>>,
    pub image_width: u32,
    pub image_height: u32,
    pub frame_count: u32,
    pub total_height: u32,
    pub status: String,
    pub running: bool,
    pub buttons: Buttons,
}

/// The colours of the window, in BGRA bytes.
pub const TRANSPARENT: [u8; 4] = [0, 0, 0, 0];

pub const WHITE: [u8; 4] = [255, 255, 255, 255];

pub const BUTTON_COLOR: [u8; 4] = [45, 45, 45, 220];

pub const SAVE_COLOR: [u8; 4] = [80, 200, 120, 255];

pub const COPY_COLOR: [u8; 4] = [100, 180, 255, 255];

pub const CANCEL_COLOR: [u8; 4] = [80, 80, 255, 255];

/// A window with its buttons on it.
pub open spec fn with_buttons(before: Seq<u8>, width: int, buttons: Buttons) -> Seq<u8> {
    let empty = inked(before, |p: int| true, TRANSPARENT@);
    let saving = with_button(empty, width, buttons.save, BUTTON_COLOR@, SAVE_COLOR@);
    let copying = with_button(saving, width, buttons.copy, BUTTON_COLOR@, COPY_COLOR@);
    let leaving = with_button(copying, width, buttons.cancel, BUTTON_COLOR@, CANCEL_COLOR@);
    with_cancel_icon(
        with_copy_icon(
            with_save_icon(leaving, width, buttons.save, WHITE@),
            width,
            buttons.copy,
            WHITE@,
        ),
        width,
        buttons.cancel,
        WHITE@,
    )
}

/// What the window shows.
pub open spec fn overlay_canvas(s: OverlayState, before: Seq<u8>, scale: PreviewScale) -> Seq<u8> {
    let plain = with_buttons(before, s.width as int, s.buttons);
    match s.image_data {
        None => plain,
        Some(data) => with_preview(
            plain,
            s.width as int,
            s.height as int,
            data@,
            s.image_width as int,
            s.image_height as int,
            s.pointer.scroll_offset as int,
            scale,
        ),
    }
}

/// The status line while frames come in.
pub open spec fn progress_text(frames: int, height: int) -> Seq<char> {
    "帧数: "@ + decimal(frames as nat) + " | 高度: "@ + decimal(height as nat) + "px"@
}

/// The status line when no more frames come.
pub open spec fn complete_text(frames: int, height: int) -> Seq<char> {
    "捕获完成 - "@ + decimal(frames as nat) + " 帧, "@ + decimal(height as nat) + "px"@
}

impl OverlayState {
    /// The window before anything happened.
    pub fn new() -> (r: OverlayState)
        ensures
            r.width == 200,
            r.height == 800,
            !r.configured,
            r.pointer == (PointerState {
                x: 0,
                y: 0,
                scroll_offset: 0,
                is_dragging: false,
                drag_start_y: 0,
                drag_start_offset: 0,
            }),
            r.image_data is None,
            r.image_width == 0,
            r.image_height == 0,
            r.frame_count == 0,
            r.total_height == 0,
            r.status@ == "等待滚动..."@,
            r.running,
            r.buttons == standard_buttons(),
    {
        OverlayState {
            width: WINDOW_WIDTH,
            height: INITIAL_HEIGHT,
            configured: false,
            pointer: PointerState {
                x: 0,
                y: 0,
                scroll_offset: 0,
                is_dragging: false,
                drag_start_y: 0,
                drag_start_offset: 0,
            },
            image_data: None,
            image_width: 0,
            image_height: 0,
            frame_count: 0,
            total_height: 0,
            status: "等待滚动...".to_string(),
            running: true,
            buttons: Buttons {
                save: ButtonRect { x: 10, y: 10, width: 44, height: 44 },
                copy: ButtonRect { x: 64, y: 10, width: 44, height: 44 },
                cancel: ButtonRect { x: 118, y: 10, width: 44, height: 44 },
            },
        }
    }

    /// The place and the pointer are the same, and so is whether the window
    /// is open.
    pub open spec fn same_window(self, other: OverlayState) -> bool {
        &&& self.width == other.width
        &&& self.height == other.height
        &&& self.configured == other.configured
        &&& self.pointer == other.pointer
        &&& self.running == other.running
        &&& self.buttons == other.buttons
    }

    /// The image is the same, and so are the counts that belong to it.
    pub open spec fn same_image(self, other: OverlayState) -> bool {
        &&& self.image_data == other.image_data
        &&& self.image_width == other.image_width
        &&& self.image_height == other.image_height
        &&& self.frame_count == other.frame_count
        &&& self.total_height == other.total_height
    }

    /// Takes in a message of the worker.
    pub fn process_worker_event(&mut self, event: WorkerEvent)
        ensures
            final(self).same_window(*old(self)),
            match event {
                WorkerEvent::ImageUpdated { data, width, height } => {
                    &&& final(self).image_data == Some(data)
                    &&& final(self).image_width == width
                    &&& final(self).image_height == height
                    &&& final(self).frame_count == (old(self).frame_count + 1) % 0x1_0000_0000
                    &&& final(self).total_height == height
                    &&& final(self).status@ == progress_text(
                        final(self).frame_count as int,
                        height as int,
                    )
                    &&& final(self).status@ == "帧数: "@ + decimal(
                        final(self).frame_count as nat,
                    ) + " | 高度: "@ + decimal(height as nat) + "px"@
                },
                WorkerEvent::Status(message) => {
                    &&& final(self).same_image(*old(self))
                    &&& final(self).status@ == message@
                },
                WorkerEvent::Error(message) => {
                    &&& final(self).same_image(*old(self))
                    &&& final(self).status@ == "错误: "@ + message@
                },
                WorkerEvent::CaptureComplete => {
                    &&& final(self).same_image(*old(self))
                    &&& final(self).status@ == complete_text(
                        old(self).frame_count as int,
                        old(self).total_height as int,
                    )
                    &&& final(self).status@ == "捕获完成 - "@ + decimal(
                        old(self).frame_count as nat,
                    ) + " 帧, "@ + decimal(old(self).total_height as nat) + "px"@
                },
            },
    {
        match event {
            WorkerEvent::ImageUpdated { data, width, height } => {
                self.image_data = Some(data);
                self.image_width = width;
                self.image_height = height;
                self.frame_count = self.frame_count.wrapping_add(1);
                self.total_height = height;
                let mut status: String = "帧数: ".to_string();
                push_decimal(&mut status, self.frame_count as u64);
                status.append(" | 高度: ");
                push_decimal(&mut status, self.total_height as u64);
                status.append("px");
                self.status = status;
            },
            WorkerEvent::Status(message) => {
                self.status = message;
            },
            WorkerEvent::Error(message) => {
                self.status = "错误: ".to_string().concat(message.as_str());
            },
            WorkerEvent::CaptureComplete => {
                let mut status: String = "捕获完成 - ".to_string();
                push_decimal(&mut status, self.frame_count as u64);
                status.append(" 帧, ");
                push_decimal(&mut status, self.total_height as u64);
                status.append("px");
                self.status = status;
            },
        }
    }

    /// Closes the window: the worker is gone, or the compositor closed it.
    pub fn close(&mut self)
        ensures
            !final(self).running,
            final(self).same_window((OverlayState { running: false, ..*old(self) })),
            final(self).same_image(*old(self)),
            final(self).status == old(self).status,
    {
        self.running = false;
    }

    /// Takes the size that the compositor gives; zero leaves a side as it is.
    pub fn configure(&mut self, width: u32, height: u32)
        ensures
            final(self).same_window(
                (OverlayState {
                    width: if width > 0 {
                        width
                    } else {
                        old(self).width
                    },
                    height: if height > 0 {
                        height
                    } else {
                        old(self).height
                    },
                    configured: true,
                    ..*old(self)
                }),
            ),
            final(self).same_image(*old(self)),
            final(self).status == old(self).status,
    {
        if width > 0 {
            self.width = width;
        }
        if height > 0 {
            self.height = height;
        }
        self.configured = true;
    }

    /// Takes in what the pointer did; a click on a button ends the window.
    pub fn pointer_input(&mut self, input: PointerInput) -> (r: Option<OverlayAction>)
        ensures
            (final(self).pointer, r) == pointer_step(old(self).pointer, old(self).buttons, input),
            final(self).same_window(
                (OverlayState {
                    pointer: final(self).pointer,
                    running: old(self).running && r is None,
                    ..*old(self)
                }),
            ),
            final(self).same_image(*old(self)),
            final(self).status == old(self).status,
    {
        let buttons: Buttons = self.buttons;
        let action: Option<OverlayAction> = self.pointer.apply(&buttons, input);
        if action.is_some() {
            self.running = false;
        }
        action
    }

    /// The bytes to save of the image.
    pub fn image_to_save(&self) -> (r: Result<Vec<u8>, ExportError>)
        ensures
            match self.image_data {
                None => r == Err::<Vec<u8>, ExportError>(ExportError::NoImage),
                Some(bytes) => if image_fits(
                    bytes@,
                    self.image_width as int,
                    self.image_height as int,
                ) {
                    r matches Ok(out) && out@ == bytes@
                } else {
                    r == Err::<Vec<u8>, ExportError>(ExportError::Buffer)
                },
            },
    {
        image_for_export(&self.image_data, self.image_width, self.image_height)
    }

    /// Draws the window.
    pub fn draw(&self, canvas: &mut [u8], scale: &PreviewScale)
        requires
            self.image_data is Some ==> self.width >= 10 && scale.wf(
                preview_width(self.width as int),
            ),
        ensures
            final(canvas)@ == overlay_canvas(*self, old(canvas)@, *scale),
    {
        let width: u32 = self.width;
        clear(canvas, &TRANSPARENT);
        draw_rounded_button(canvas, width, self.buttons.save, &BUTTON_COLOR, &SAVE_COLOR);
        draw_rounded_button(canvas, width, self.buttons.copy, &BUTTON_COLOR, &COPY_COLOR);
        draw_rounded_button(canvas, width, self.buttons.cancel, &BUTTON_COLOR, &CANCEL_COLOR);
        draw_save_icon(canvas, width, self.buttons.save, &WHITE);
        draw_copy_icon(canvas, width, self.buttons.copy, &WHITE);
        draw_cancel_icon(canvas, width, self.buttons.cancel, &WHITE);
        match &self.image_data {
            Some(data) => {
                draw_preview_with_scroll(
                    canvas,
                    width,
                    self.height,
                    data.as_slice(),
                    self.image_width,
                    self.image_height,
                    self.pointer.scroll_offset,
                    scale,
                );
            },
            None => {},
        }
    }
}

/// The distance of the window from the left edge of the screen: it stands to
/// the right of the region.  None where the number is too large.
pub fn window_margin(region: &CaptureRegion) -> (r: Option<i32>)
    ensures
        match r {
            Some(margin) => margin == region.x + region.width + 10,
            None => region.x + region.width + 10 > i32::MAX,
        },
{
    let margin: i64 = region.x as i64 + region.width as i64 + WINDOW_GAP as i64;
    if margin <= 0x7fff_ffff {
        Some(margin as i32)
    } else {
        None
    }
}

/// The size of a memory pool for two buffers of a window; none where one
/// buffer would take more bytes than a 32-bit number can count.
pub fn pool_size(width: u32, height: u32) -> (r: Option<u64>)
    ensures
        match r {
            Some(size) => size == 2 * (4 * (width * height)),
            None => 4 * (width * height) > u32::MAX,
        },
{
    assert(0 <= width * height <= 0xffff_ffff * 0xffff_ffff) by (nonlinear_arith)
        requires
            0 <= width <= 0xffff_ffff,
            0 <= height <= 0xffff_ffff,
    ;
    let pixels: u64 = width as u64 * height as u64;
    if pixels <= 0x3fff_ffff {
        Some(2 * (4 * pixels))
    } else {
        None
    }
}

/// No point belongs to two buttons, and no button reaches into the preview.
pub proof fn buttons_are_apart(x: int, y: int)
    ensures
        ({
            let b = standard_buttons();
            &&& !(b.save.holds(x, y) && b.copy.holds(x, y))
            &&& !(b.save.holds(x, y) && b.cancel.holds(x, y))
            &&& !(b.copy.holds(x, y) && b.cancel.holds(x, y))
            &&& b.save.holds(x, y) || b.copy.holds(x, y) || b.cancel.holds(x, y) ==> y < PREVIEW_Y
                && 0 <= x < WINDOW_WIDTH
        }),
{
}

/// The preview is never scrolled below the end of the image.
pub proof fn scroll_offset_stays_positive(s: PointerState, buttons: Buttons, input: PointerInput)
    requires
        s.scroll_offset >= 0,
    ensures
        pointer_step(s, buttons, input).0.scroll_offset >= 0,
{
}

/// Pressing in the preview, moving within it and releasing scrolls the preview
/// by as many rows as the pointer moved, towards the start of the image where
/// it moved down, and asks for nothing.
pub proof fn dragging_scrolls(s: PointerState, buttons: Buttons, x: i32, y: i32)
    requires
        whole(s.y as int) > PREVIEW_Y,
        whole(y as int) > PREVIEW_Y,
    ensures
        ({
            let (pressed, first) = pointer_step(
                s,
                buttons,
                PointerInput::Press { button: BUTTON_LEFT },
            );
            let (moved, second) = pointer_step(pressed, buttons, PointerInput::Motion { x, y });
            let (released, third) = pointer_step(
                moved,
                buttons,
                PointerInput::Release { button: BUTTON_LEFT },
            );
            &&& first is None && second is None && third is None
            &&& released.scroll_offset == dragged_offset(s.scroll_offset as int, whole(y - s.y))
            &&& !released.is_dragging
        }),
{
}

/// A click on a button asks for what the button stands for, and a click beside
/// the buttons for nothing.
pub proof fn buttons_ask_for_their_action(x: int, y: int)
    ensures
        ({
            let action = click_action(standard_buttons(), x, y);
            &&& action == Some(OverlayAction::Save) <==> 10 <= x < 54 && 10 <= y < 54
            &&& action == Some(OverlayAction::Copy) <==> 64 <= x < 108 && 10 <= y < 54
            &&& action == Some(OverlayAction::Cancel) <==> 118 <= x < 162 && 10 <= y < 54
        }),
{
}

/// Whatever the buttons are, a point asks for an action only if it lies on the
/// button of that action, and for some action if it lies on any button.
pub proof fn clicks_are_taken_by_buttons(buttons: Buttons, x: int, y: int)
    ensures
        match click_action(buttons, x, y) {
            Some(action) => {
                let b = match action {
                    OverlayAction::Save => buttons.save,
                    OverlayAction::Copy => buttons.copy,
                    OverlayAction::Cancel => buttons.cancel,
                };
                b.x <= x < b.x + b.width && b.y <= y < b.y + b.height
            },
            None => forall|b: ButtonRect|
                b == buttons.save || b == buttons.copy || b == buttons.cancel ==> !(b.x <= x < b.x
                    + b.width && b.y <= y < #[trigger] (b.y + b.height)),
        },
{
}

/// A press of the left button above the preview is a click at the pixel under
/// the pointer, and changes nothing else; in the preview it begins a drag, and
/// asks for nothing.  Other mouse buttons do nothing, neither pressed nor
/// released.
pub proof fn presses_click_or_drag(
    s: PointerState,
    buttons: Buttons,
    button: u32,
    column: int,
    row: int,
)
    requires
        on_pixel(s.x as int, column),
        on_pixel(s.y as int, row),
    ensures
        ({
            let (after, action) = pointer_step(s, buttons, PointerInput::Press { button });
            if button != 272 {
                after == s && action is None && pointer_step(
                    s,
                    buttons,
                    PointerInput::Release { button },
                ) == (s, None::<OverlayAction>)
            } else if row <= 60 {
                after == s && action == click_action(buttons, column, row)
            } else {
                &&& action is None
                &&& after.is_dragging
                &&& after.drag_start_y == s.y
                &&& after.drag_start_offset == s.scroll_offset
                &&& after.scroll_offset == s.scroll_offset && after.x == s.x && after.y == s.y
            }
        }),
{
    whole_part_is_the_pixel(s.x as int, column);
    whole_part_is_the_pixel(s.y as int, row);
}

/// A release of the left button ends a drag and leaves the view where it is.  It
/// is a click, at the pixel under the pointer, above the preview, unless the
/// pointer was dragged there by five pixels or more.
pub proof fn releases_end_drags(s: PointerState, buttons: Buttons, column: int, row: int)
    requires
        on_pixel(s.x as int, column),
        on_pixel(s.y as int, row),
    ensures
        ({
            let (after, action) = pointer_step(s, buttons, PointerInput::Release { button: 272 });
            let dragged = s.is_dragging && (s.y - s.drag_start_y >= 1280 || s.y - s.drag_start_y
                <= -1280);
            &&& after == (PointerState { is_dragging: false, ..s })
            &&& action == (if row <= 60 && !dragged {
                click_action(buttons, column, row)
            } else {
                None
            })
        }),
{
    whole_part_is_the_pixel(s.x as int, column);
    whole_part_is_the_pixel(s.y as int, row);
}

/// The pointer after several things.
pub open spec fn pointer_run(
    s: PointerState,
    buttons: Buttons,
    inputs: Seq<PointerInput>,
) -> PointerState
    decreases inputs.len(),
{
    if inputs.len() == 0 {
        s
    } else {
        pointer_step(pointer_run(s, buttons, inputs.drop_last()), buttons, inputs.last()).0
    }
}

/// Motions leave the start of a drag as it is.
proof fn lemma_motions_go_on(s: PointerState, buttons: Buttons, moves: Seq<PointerInput>)
    requires
        forall|i: int| 0 <= i < moves.len() ==> #[trigger] moves[i] is Motion || moves[i] is Other,
    ensures
        ({
            let after = pointer_run(s, buttons, moves);
            &&& after.is_dragging == s.is_dragging
            &&& after.drag_start_y == s.drag_start_y
            &&& after.drag_start_offset == s.drag_start_offset
            &&& !s.is_dragging ==> after.scroll_offset == s.scroll_offset
        }),
    decreases moves.len(),
{
    if moves.len() > 0 {
        let first = moves.drop_last();
        assert forall|i: int| 0 <= i < first.len() implies #[trigger] first[i] is Motion || first[i]
            is Other by {
            assert(first[i] == moves[i]);
        }
        assert(moves[moves.len() - 1] is Motion || moves[moves.len() - 1] is Other);
        lemma_motions_go_on(s, buttons, first);
    }
}

/// The view follows the pointer while it is dragged: however it moved before, the
/// view is scrolled from where it was when the drag began by as many rows as the
/// pointer now stands below where it was then, though never past the end of the
/// image.  Without a drag, motions move the pointer alone.  No motion asks for
/// anything.
pub proof fn view_follows_the_drag(
    s: PointerState,
    buttons: Buttons,
    moves: Seq<PointerInput>,
    x: i32,
    y: i32,
    rows: int,
)
    requires
        forall|i: int| 0 <= i < moves.len() ==> #[trigger] moves[i] is Motion || moves[i] is Other,
        on_pixel(y - s.drag_start_y, rows),
    ensures
        ({
            let before = pointer_run(s, buttons, moves);
            let (after, action) = pointer_step(before, buttons, PointerInput::Motion { x, y });
            &&& action is None
            &&& after.x == x && after.y == y
            &&& after.is_dragging == s.is_dragging
            &&& !s.is_dragging ==> after.scroll_offset == s.scroll_offset
            &&& s.is_dragging && 0 <= s.drag_start_offset + rows <= i32::MAX ==> after.scroll_offset
                == s.drag_start_offset + rows
            &&& s.is_dragging && s.drag_start_offset + rows < 0 ==> after.scroll_offset == 0
            &&& s.is_dragging && s.drag_start_offset + rows > i32::MAX ==> after.scroll_offset
                == i32::MAX
            &&& after.drag_start_y == s.drag_start_y
            &&& after.drag_start_offset == s.drag_start_offset
        }),
{
    lemma_motions_go_on(s, buttons, moves);
    whole_part_is_the_pixel(y - s.drag_start_y, rows);
}

/// A point of a cleared window.
proof fn lemma_empty_window(before: Seq<u8>, width: int, height: int, x: int, y: int)
    requires
        holds_point(before, 4 * width, width, height, x, y),
    ensures
        inked(before, |p: int| true, TRANSPARENT@).len() == before.len(),
        pixel_at(inked(before, |p: int| true, TRANSPARENT@), 4 * width, x, y) == TRANSPARENT@,
{
    let stride = 4 * width;
    let got = pixel_at(inked(before, |p: int| true, TRANSPARENT@), stride, x, y);
    let at = y * stride + 4 * x;
    assert(0 <= y * stride) by (nonlinear_arith)
        requires
            0 <= y,
            0 <= stride,
    ;
    assert forall|k: int| 0 <= k < 4 implies #[trigger] got[k] == TRANSPARENT@[k] by {
        lemma_byte_of_point(at + k, stride, x, y);
        lemma_rows_without_gaps(at + k, width);
    }
    assert(got =~= TRANSPARENT@);
}

/// The point belongs to the white disk on the button for saving, to the sheets on
/// the one for copying, or to the cross on the one for cancelling.
pub open spec fn on_an_icon(x: int, y: int) -> bool {
    ||| 25 <= y < 39 && (x == 24 || x == 39)
    ||| y == 38 && 24 <= x < 40
    ||| y == 25 && (24 <= x < 27 || 37 <= x < 40)
    ||| 34 <= y < 38 && 27 <= x < 37
    ||| 79 <= x < 89 && 29 <= y < 39 && !(80 <= x < 88 && 30 <= y < 38)
    ||| y == 26 && 82 <= x < 92
    ||| 26 <= y <= 32 && (x == 82 || x == 91)
    ||| y == 32 && 88 <= x < 92
    ||| 134 <= x < 148 && 26 <= y < 39 && (x - y == 108 || x - y == 109 || x + y == 172 || x + y
        == 173)
}

/// The window shows three buttons side by side, each with a bar in a colour of
/// its own and a white icon, and is transparent around them.
pub proof fn window_shows_its_buttons(before: Seq<u8>, width: int, height: int, x: int, y: int)
    requires
        holds_point(before, 4 * width, width, height, x, y),
        width >= 162,
        height >= 54,
    ensures
        ({
            let after = with_buttons(before, width, standard_buttons());
            let shown = pixel_at(after, 4 * width, x, y);
            let inside = 10 <= y < 54;
            let save = inside && 10 <= x < 54 && rounded(44, 44, x - 10, y - 10);
            let copy = inside && 64 <= x < 108 && rounded(44, 44, x - 64, y - 10);
            let cancel = inside && 118 <= x < 162 && rounded(44, 44, x - 118, y - 10);
            &&& after.len() == before.len()
            &&& shown == (if on_an_icon(x, y) {
                seq![255u8, 255, 255, 255]
            } else if save && y < 13 {
                seq![80u8, 200, 120, 255]
            } else if copy && y < 13 {
                seq![100u8, 180, 255, 255]
            } else if cancel && y < 13 {
                seq![80u8, 80, 255, 255]
            } else if save || copy || cancel {
                seq![45u8, 45, 45, 220]
            } else {
                seq![0u8, 0, 0, 0]
            })
        }),
{
    let b = standard_buttons();
    let empty = inked(before, |p: int| true, TRANSPARENT@);
    let saving = with_button(empty, width, b.save, BUTTON_COLOR@, SAVE_COLOR@);
    let copying = with_button(saving, width, b.copy, BUTTON_COLOR@, COPY_COLOR@);
    let leaving = with_button(copying, width, b.cancel, BUTTON_COLOR@, CANCEL_COLOR@);
    let disk = with_save_icon(leaving, width, b.save, WHITE@);
    let sheets = with_copy_icon(disk, width, b.copy, WHITE@);
    lemma_empty_window(before, width, height, x, y);
    button_shows_in_its_place(
        empty,
        width,
        height,
        b.save,
        BUTTON_COLOR@,
        SAVE_COLOR@,
        x,
        y,
    );
    button_shows_in_its_place(
        saving,
        width,
        height,
        b.copy,
        BUTTON_COLOR@,
        COPY_COLOR@,
        x,
        y,
    );
    button_shows_in_its_place(
        copying,
        width,
        height,
        b.cancel,
        BUTTON_COLOR@,
        CANCEL_COLOR@,
        x,
        y,
    );
    save_icon_is_a_disk(leaving, width, height, b.save, WHITE@, x, y);
    copy_icon_is_two_sheets(disk, width, height, b.copy, WHITE@, x, y);
    cancel_icon_is_a_cross(sheets, width, height, b.cancel, WHITE@, x, y);
    assert(WHITE@ =~= seq![255u8, 255, 255, 255]);
    assert(SAVE_COLOR@ =~= seq![80u8, 200, 120, 255]);
    assert(COPY_COLOR@ =~= seq![100u8, 180, 255, 255]);
    assert(CANCEL_COLOR@ =~= seq![80u8, 80, 255, 255]);
    assert(BUTTON_COLOR@ =~= seq![45u8, 45, 45, 220]);
    assert(TRANSPARENT@ =~= seq![0u8, 0, 0, 0]);
}

/// The preview does not touch the buttons: with an image or without, and however
/// far it is scrolled, the upper 58 rows of the window show the same.  Below, the
/// window shows the preview of its image, and nothing before it has one.
pub proof fn buttons_show_above_the_preview(
    s: OverlayState,
    before: Seq<u8>,
    scale: PreviewScale,
    x: int,
    y: int,
)
    requires
        holds_point(before, 4 * s.width, s.width as int, s.height as int, x, y),
        s.width >= 12,
        with_buttons(before, s.width as int, s.buttons).len() == before.len(),
    ensures
        ({
            let w = s.width as int;
            let h = s.height as int;
            let plain = with_buttons(before, w, s.buttons);
            let shown = overlay_canvas(s, before, scale);
            &&& s.image_data is None ==> shown == plain
            &&& s.image_data matches Some(data) ==> shown == with_preview(
                plain,
                w,
                h,
                data@,
                s.image_width as int,
                s.image_height as int,
                s.pointer.scroll_offset as int,
                scale,
            )
            &&& y < 58 ==> pixel_at(shown, 4 * w, x, y) == pixel_at(plain, 4 * w, x, y)
        }),
{
    if s.image_data is Some && y < 58 {
        preview_keeps_to_its_place(
            with_buttons(before, s.width as int, s.buttons),
            s.width as int,
            s.height as int,
            s.image_data->0@,
            s.image_width as int,
            s.image_height as int,
            s.pointer.scroll_offset as int,
            scale,
            x,
            y,
        );
    }
}

/// What stays the same of a window, and of its image.
pub proof fn windows_and_images_compare(a: OverlayState, b: OverlayState)
    ensures
        a.same_window(b) <==> a.width == b.width && a.height == b.height && a.configured
            == b.configured && a.pointer == b.pointer && a.running == b.running && a.buttons
            == b.buttons,
        a.same_image(b) <==> a.image_data == b.image_data && a.image_width == b.image_width
            && a.image_height == b.image_height && a.frame_count == b.frame_count && a.total_height
            == b.total_height,
{
}

} // verus!
