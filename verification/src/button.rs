//! The buttons of the preview window.

use crate::pixels::{
    fill_box, holds_point, in_box, paint_streaked, painted, pixel_at, streaked, streaked_point, Shape,
};
use vstd::prelude::*;

verus! {

/// The radius of the corners of a button.
pub const CORNER_RADIUS: i64 = 8;

/// The height of the coloured bar at the top of a button.
pub const ACCENT_ROWS: i64 = 3;

/// The place of a button.
#[derive(Debug, Clone, Copy, PartialEq, Eq, Structural)]
pub struct ButtonRect {
    pub x: i32,
    pub y: i32,
    pub width: i32,
    pub height: i32,
}

impl ButtonRect {
    /// Whether a point lies on the button.
    pub fn contains(&self, x: i32, y: i32) -> (r: bool)
        ensures
            r == self.holds(x as int, y as int),
            r <==> self.x <= x < self.x + self.width && self.y <= y < self.y + self.height,
    {
        x >= self.x && (x as i64) < self.x as i64 + self.width as i64 && y >= self.y && (y as i64)
            < self.y as i64 + self.height as i64
    }

    /// The points of the button.
    pub open spec fn holds(self, x: int, y: int) -> bool {
        in_box(x, y, self.x as int, self.y as int, self.width as int, self.height as int)
    }
}

/// Half of a number, rounded towards zero.
pub open spec fn half(n: int) -> int {
    if n >= 0 {
        n / 2
    } else {
        -(-n / 2)
    }
}

/// The column of the middle of a button.
pub open spec fn center_x(button: ButtonRect) -> int {
    button.x + half(button.width as int)
}

/// The row of the middle of a button.
pub open spec fn center_y(button: ButtonRect) -> int {
    button.y + half(button.height as int)
}

/// Whether a point lies within the corner radius of another one.
pub open spec fn in_corner(dx: int, dy: int, cx: int, cy: int) -> bool {
    (dx - cx) * (dx - cx) + (dy - cy) * (dy - cy) <= CORNER_RADIUS * CORNER_RADIUS
}

/// The points of a rectangle with rounded corners, relative to its upper left
/// corner.
pub open spec fn rounded(width: int, height: int, dx: int, dy: int) -> bool {
    let r = CORNER_RADIUS as int;
    ||| r <= dx < width - r
    ||| r <= dy < height - r
    ||| in_corner(dx, dy, r, r)
    ||| in_corner(dx, dy, width - r - 1, r)
    ||| in_corner(dx, dy, r, height - r - 1)
    ||| in_corner(dx, dy, width - r - 1, height - r - 1)
}

/// A canvas with a button on it: a rounded rectangle with a coloured bar at
/// its top.
pub open spec fn with_button(
    before: Seq<u8>,
    width: int,
    button: ButtonRect,
    background: Seq<u8>,
    accent: Seq<u8>,
) -> Seq<u8> {
    let w = button.width as int;
    let h = button.height as int;
    let bar = streaked(
        before,
        width,
        button.x as int,
        button.y as int,
        w,
        if h < ACCENT_ROWS {
            h
        } else {
            ACCENT_ROWS as int
        },
        |dx: int, dy: int| rounded(w, h, dx, dy),
        accent,
    );
    streaked(
        bar,
        width,
        button.x as int,
        button.y + ACCENT_ROWS,
        w,
        h - ACCENT_ROWS,
        |dx: int, dy: int| rounded(w, h, dx, dy + ACCENT_ROWS),
        background,
    )
}

/// The points of the icon for saving, a disk, relative to its middle.
pub open spec fn save_icon(dx: int, dy: int) -> bool {
    let border = dx == -8 || dx == 7 || dy == -7 || dy == 6;
    let notch = dy == -7 && -6 < dx < 5;
    let label = 2 <= dy <= 5 && -5 <= dx <= 4;
    border && !notch || label
}

/// A canvas with the icon for saving on it.
pub open spec fn with_save_icon(
    before: Seq<u8>,
    width: int,
    button: ButtonRect,
    color: Seq<u8>,
) -> Seq<u8> {
    streaked(
        before,
        width,
        center_x(button) - 8,
        center_y(button) - 7,
        16,
        14,
        |dx: int, dy: int| save_icon(dx - 8, dy - 7),
        color,
    )
}

/// The points of the sheet in the back of the icon for copying, relative to
/// the middle of the icon.
pub open spec fn copy_icon_back(dx: int, dy: int) -> bool {
    ||| (dx == -4 || dx == 5) && -6 <= dy < 1
    ||| dy == -6 && -4 <= dx <= 5
    ||| dy == 0 && 2 <= dx <= 5
}

/// The points of the sheet in the front of the icon for copying.
pub open spec fn copy_icon_front(dx: int, dy: int) -> bool {
    dx == -7 || dx == 2 || dy == -3 || dy == 6
}

/// A canvas with the icon for copying on it.
pub open spec fn with_copy_icon(
    before: Seq<u8>,
    width: int,
    button: ButtonRect,
    color: Seq<u8>,
) -> Seq<u8> {
    let back = streaked(
        before,
        width,
        center_x(button) - 4,
        center_y(button) - 6,
        10,
        10,
        |dx: int, dy: int| copy_icon_back(dx - 4, dy - 6),
        color,
    );
    streaked(
        back,
        width,
        center_x(button) - 7,
        center_y(button) - 3,
        10,
        10,
        |dx: int, dy: int| copy_icon_front(dx - 7, dy - 3),
        color,
    )
}

/// The points of the icon for cancelling, a cross, relative to its middle.
pub open spec fn cancel_icon(dx: int, dy: int) -> bool {
    dx == dy || dx == dy + 1 || dx == -dy || dx == 1 - dy
}

/// A canvas with the icon for cancelling on it.
pub open spec fn with_cancel_icon(
    before: Seq<u8>,
    width: int,
    button: ButtonRect,
    color: Seq<u8>,
) -> Seq<u8> {
    streaked(
        before,
        width,
        center_x(button) - 6,
        center_y(button) - 6,
        14,
        13,
        |dx: int, dy: int| cancel_icon(dx - 6, dy - 6),
        color,
    )
}

struct Rounded {
    width: i64,
    height: i64,
    skipped: i64,
}

impl Rounded {
    #[verifier::type_invariant]
    spec fn bounded(self) -> bool {
        &&& i32::MIN <= self.width <= i32::MAX
        &&& i32::MIN <= self.height <= i32::MAX
        &&& 0 <= self.skipped <= ACCENT_ROWS
    }
}

/// Whether a point lies within the corner radius of another one.
fn near(dx: i64, dy: i64, cx: i64, cy: i64) -> (r: bool)
    requires
        -0x10_0000_0000 <= dx <= 0x10_0000_0000,
        -0x10_0000_0000 <= dy <= 0x10_0000_0000,
        -0x10_0000_0000 <= cx <= 0x10_0000_0000,
        -0x10_0000_0000 <= cy <= 0x10_0000_0000,
    ensures
        r == in_corner(dx as int, dy as int, cx as int, cy as int),
{
    let a: i128 = dx as i128 - cx as i128;
    let b: i128 = dy as i128 - cy as i128;
    assert(0 <= a * a <= 0x20_0000_0000 * 0x20_0000_0000) by (nonlinear_arith)
        requires
            -0x20_0000_0000 <= a <= 0x20_0000_0000,
    ;
    assert(0 <= b * b <= 0x20_0000_0000 * 0x20_0000_0000) by (nonlinear_arith)
        requires
            -0x20_0000_0000 <= b <= 0x20_0000_0000,
    ;
    a * a + b * b <= 64
}

impl Shape for Rounded {
    closed spec fn ink(&self, dx: int, dy: int) -> bool {
        rounded(self.width as int, self.height as int, dx, dy + self.skipped)
    }

    fn has_ink(&self, dx: i64, dy: i64) -> bool {
        proof {
            use_type_invariant(self);
        }
        let y: i64 = dy + self.skipped;
        let right: i64 = self.width - CORNER_RADIUS;
        let bottom: i64 = self.height - CORNER_RADIUS;
        (dx >= CORNER_RADIUS && dx < right) || (y >= CORNER_RADIUS && y < bottom) || near(
            dx,
            y,
            CORNER_RADIUS,
            CORNER_RADIUS,
        ) || near(dx, y, right - 1, CORNER_RADIUS) || near(dx, y, CORNER_RADIUS, bottom - 1)
            || near(dx, y, right - 1, bottom - 1)
    }
}

struct SaveIcon;

impl Shape for SaveIcon {
    closed spec fn ink(&self, dx: int, dy: int) -> bool {
        save_icon(dx - 8, dy - 7)
    }

    fn has_ink(&self, dx: i64, dy: i64) -> bool {
        let x: i64 = dx - 8;
        let y: i64 = dy - 7;
        let border: bool = x == -8 || x == 7 || y == -7 || y == 6;
        let notch: bool = y == -7 && x > -6 && x < 5;
        let label: bool = y >= 2 && y <= 5 && x >= -5 && x <= 4;
        (border && !notch) || label
    }
}

struct CopyIconBack;

impl Shape for CopyIconBack {
    closed spec fn ink(&self, dx: int, dy: int) -> bool {
        copy_icon_back(dx - 4, dy - 6)
    }

    fn has_ink(&self, dx: i64, dy: i64) -> bool {
        let x: i64 = dx - 4;
        let y: i64 = dy - 6;
        ((x == -4 || x == 5) && y >= -6 && y < 1) || (y == -6 && x >= -4 && x <= 5) || (y == 0 && x
            >= 2 && x <= 5)
    }
}

struct CopyIconFront;

impl Shape for CopyIconFront {
    closed spec fn ink(&self, dx: int, dy: int) -> bool {
        copy_icon_front(dx - 7, dy - 3)
    }

    fn has_ink(&self, dx: i64, dy: i64) -> bool {
        dx == 0 || dx == 9 || dy == 0 || dy == 9
    }
}

struct CancelIcon;

impl Shape for CancelIcon {
    closed spec fn ink(&self, dx: int, dy: int) -> bool {
        cancel_icon(dx - 6, dy - 6)
    }

    fn has_ink(&self, dx: i64, dy: i64) -> bool {
        let x: i64 = dx - 6;
        let y: i64 = dy - 6;
        x == y || x == y + 1 || x == -y || x == 1 - y
    }
}

/// Half of a number, rounded towards zero.
fn half_of(n: i32) -> (r: i64)
    ensures
        r == half(n as int),
{
    let n: i64 = n as i64;
    if n >= 0 {
        n / 2
    } else {
        -(-n / 2)
    }
}

/// Draws a button.
pub fn draw_rounded_button(
    canvas: &mut [u8],
    width: u32,
    button: ButtonRect,
    background: &[u8; 4],
    accent: &[u8; 4],
)
    ensures
        final(canvas)@ == with_button(old(canvas)@, width as int, button, background@, accent@),
{
    let w: i64 = button.width as i64;
    let h: i64 = button.height as i64;
    let bar: i64 = if h < ACCENT_ROWS {
        h
    } else {
        ACCENT_ROWS
    };
    let upper: Rounded = Rounded { width: w, height: h, skipped: 0 };
    let lower: Rounded = Rounded { width: w, height: h, skipped: ACCENT_ROWS };
    proof {
        let a = |dx: int, dy: int| upper.ink(dx, dy);
        let b = |dx: int, dy: int| rounded(w as int, h as int, dx, dy);
        assert(a =~= b);
        let c = |dx: int, dy: int| lower.ink(dx, dy);
        let d = |dx: int, dy: int| rounded(w as int, h as int, dx, dy + ACCENT_ROWS);
        assert(c =~= d);
    }
    paint_streaked(
        canvas,
        width,
        button.x as i64,
        button.y as i64,
        w,
        bar,
        &upper,
        accent,
    );
    paint_streaked(
        canvas,
        width,
        button.x as i64,
        button.y as i64 + ACCENT_ROWS,
        w,
        h - ACCENT_ROWS,
        &lower,
        background,
    );
}

/// Draws the icon for saving.
pub fn draw_save_icon(canvas: &mut [u8], width: u32, button: ButtonRect, color: &[u8; 4])
    ensures
        final(canvas)@ == with_save_icon(old(canvas)@, width as int, button, color@),
{
    proof {
        let a = |dx: int, dy: int| SaveIcon.ink(dx, dy);
        let b = |dx: int, dy: int| save_icon(dx - 8, dy - 7);
        assert(a =~= b);
    }
    let x: i64 = button.x as i64 + half_of(button.width);
    let y: i64 = button.y as i64 + half_of(button.height);
    paint_streaked(canvas, width, x - 8, y - 7, 16, 14, &SaveIcon, color);
}

/// Draws the icon for copying.
pub fn draw_copy_icon(canvas: &mut [u8], width: u32, button: ButtonRect, color: &[u8; 4])
    ensures
        final(canvas)@ == with_copy_icon(old(canvas)@, width as int, button, color@),
{
    proof {
        let a = |dx: int, dy: int| CopyIconBack.ink(dx, dy);
        let b = |dx: int, dy: int| copy_icon_back(dx - 4, dy - 6);
        assert(a =~= b);
        let c = |dx: int, dy: int| CopyIconFront.ink(dx, dy);
        let d = |dx: int, dy: int| copy_icon_front(dx - 7, dy - 3);
        assert(c =~= d);
    }
    let x: i64 = button.x as i64 + half_of(button.width);
    let y: i64 = button.y as i64 + half_of(button.height);
    paint_streaked(canvas, width, x - 4, y - 6, 10, 10, &CopyIconBack, color);
    paint_streaked(canvas, width, x - 7, y - 3, 10, 10, &CopyIconFront, color);
}

/// Draws the icon for cancelling.
pub fn draw_cancel_icon(canvas: &mut [u8], width: u32, button: ButtonRect, color: &[u8; 4])
    ensures
        final(canvas)@ == with_cancel_icon(old(canvas)@, width as int, button, color@),
{
    proof {
        let a = |dx: int, dy: int| CancelIcon.ink(dx, dy);
        let b = |dx: int, dy: int| cancel_icon(dx - 6, dy - 6);
        assert(a =~= b);
    }
    let x: i64 = button.x as i64 + half_of(button.width);
    let y: i64 = button.y as i64 + half_of(button.height);
    paint_streaked(canvas, width, x - 6, y - 6, 14, 13, &CancelIcon, color);
}

/// Marks the place of a line of text with a bar.
pub fn draw_text_static(
    canvas: &mut [u8],
    width: u32,
    height: u32,
    x: i32,
    y: i32,
    color: &[u8; 4],
)
    ensures
        final(canvas)@ == painted(
            old(canvas)@,
            4 * width as int,
            width as int,
            height as int,
            |a: int, b: int| in_box(a, b, x as int, y as int, 150, 12),
            color@,
        ),
{
    fill_box(canvas, 4 * width as i64, width, height, x as i128, y as i128, 150, 12, color);
}

/// A rounded rectangle of at least 17 pixels each way is the same from all four
/// sides, lacks of each corner what is further than eight pixels from the middle
/// of its rounding, and lacks nothing else.
pub proof fn corners_are_rounded(width: int, height: int, dx: int, dy: int)
    requires
        width >= 17,
        height >= 17,
        0 <= dx < width,
        0 <= dy < height,
    ensures
        rounded(width, height, dx, dy) == rounded(width, height, width - 1 - dx, dy),
        rounded(width, height, dx, dy) == rounded(width, height, dx, height - 1 - dy),
        8 <= dx < width - 8 || 8 <= dy < height - 8 ==> rounded(width, height, dx, dy),
        dx < 8 && dy < 8 ==> (rounded(width, height, dx, dy) <==> (8 - dx) * (8 - dx) + (8 - dy) * (8
            - dy) <= 64),
{
    lemma_rounded(width, height, dx, dy);
    lemma_rounded(width, height, width - 1 - dx, dy);
    lemma_rounded(width, height, dx, height - 1 - dy);
    assert((dx - 8) * (dx - 8) == (8 - dx) * (8 - dx)) by (nonlinear_arith);
    assert((dy - 8) * (dy - 8) == (8 - dy) * (8 - dy)) by (nonlinear_arith);
    let a = dx - (width - 9);
    let b = dy - (height - 9);
    assert((width - 1 - dx - 8) * (width - 1 - dx - 8) == a * a) by (nonlinear_arith)
        requires
            a == dx - (width - 9),
    ;
    assert((height - 1 - dy - 8) * (height - 1 - dy - 8) == b * b) by (nonlinear_arith)
        requires
            b == dy - (height - 9),
    ;
    assert((width - 1 - dx - (width - 9)) * (width - 1 - dx - (width - 9)) == (dx - 8) * (dx - 8))
        by (nonlinear_arith);
    assert((height - 1 - dy - (height - 9)) * (height - 1 - dy - (height - 9)) == (dy - 8) * (dy
        - 8)) by (nonlinear_arith);
}

/// In a corner, the nearest of the four roundings decides.
proof fn lemma_rounded(width: int, height: int, dx: int, dy: int)
    requires
        width >= 17,
        height >= 17,
        0 <= dx < width,
        0 <= dy < height,
    ensures
        ({
            let cx = if dx < 8 {
                8
            } else {
                width - 9
            };
            let cy = if dy < 8 {
                8
            } else {
                height - 9
            };
            rounded(width, height, dx, dy) <==> 8 <= dx < width - 8 || 8 <= dy < height - 8 || (dx
                - cx) * (dx - cx) + (dy - cy) * (dy - cy) <= 64
        }),
{
    if dx < 8 {
        assert((dx - 8) * (dx - 8) <= (dx - (width - 9)) * (dx - (width - 9))) by (nonlinear_arith)
            requires
                dx < 8,
                width >= 17,
        ;
    } else if dx >= width - 8 {
        assert((dx - (width - 9)) * (dx - (width - 9)) <= (dx - 8) * (dx - 8)) by (nonlinear_arith)
            requires
                dx >= width - 8,
                width >= 17,
        ;
    }
    if dy < 8 {
        assert((dy - 8) * (dy - 8) <= (dy - (height - 9)) * (dy - (height - 9)))
            by (nonlinear_arith)
            requires
                dy < 8,
                height >= 17,
        ;
    } else if dy >= height - 8 {
        assert((dy - (height - 9)) * (dy - (height - 9)) <= (dy - 8) * (dy - 8))
            by (nonlinear_arith)
            requires
                dy >= height - 8,
                height >= 17,
        ;
    }
}

/// A button on the canvas has its coloured bar in its first three rows and its
/// background below, within the rounded corners; every other point stays as it
/// was.
pub proof fn button_shows_in_its_place(
    before: Seq<u8>,
    width: int,
    height: int,
    button: ButtonRect,
    background: Seq<u8>,
    accent: Seq<u8>,
    x: int,
    y: int,
)
    requires
        0 <= button.x,
        button.x + button.width <= width,
        0 <= button.y,
        button.y + button.height <= height,
        button.height >= 3,
        holds_point(before, 4 * width, width, height, x, y),
        background.len() == 4,
        accent.len() == 4,
    ensures
        ({
            let after = with_button(before, width, button, background, accent);
            let dx = x - button.x;
            let dy = y - button.y;
            let on = 0 <= dx < button.width && 0 <= dy < button.height && rounded(
                button.width as int,
                button.height as int,
                dx,
                dy,
            );
            &&& after.len() == before.len()
            &&& pixel_at(after, 4 * width, x, y) == (if on && dy < 3 {
                accent
            } else if on {
                background
            } else {
                pixel_at(before, 4 * width, x, y)
            })
        }),
{
    let w = button.width as int;
    let h = button.height as int;
    let upper = |dx: int, dy: int| rounded(w, h, dx, dy);
    let lower = |dx: int, dy: int| rounded(w, h, dx, dy + ACCENT_ROWS);
    let left = button.x as int;
    let top = button.y as int;
    let bar = streaked(before, width, left, top, w, 3, upper, accent);
    streaked_point(before, width, height, left, top, w, 3, upper, accent, x, y);
    streaked_point(bar, width, height, left, top + 3, w, h - 3, lower, background, x, y);
    assert(with_button(before, width, button, background, accent) == streaked(
        bar,
        width,
        left,
        top + 3,
        w,
        h - 3,
        lower,
        background,
    ));
}

/// The icon for saving is a disk round the middle of its button: a frame, 16
/// pixels wide and 14 high, open at the top between its corners of three pixels,
/// with a label of ten by four pixels in its lower half.
pub proof fn save_icon_is_a_disk(
    before: Seq<u8>,
    width: int,
    height: int,
    button: ButtonRect,
    color: Seq<u8>,
    x: int,
    y: int,
)
    requires
        8 <= center_x(button) <= width - 8,
        7 <= center_y(button) <= height - 7,
        holds_point(before, 4 * width, width, height, x, y),
        color.len() == 4,
    ensures
        ({
            let after = with_save_icon(before, width, button, color);
            let column = x - (center_x(button) - 8);
            let row = y - (center_y(button) - 7);
            let side = 0 <= row < 14 && (column == 0 || column == 15);
            let bottom = row == 13 && 0 <= column < 16;
            let corner = row == 0 && (0 <= column < 3 || 13 <= column < 16);
            let label = 9 <= row < 13 && 3 <= column < 13;
            &&& after.len() == before.len()
            &&& pixel_at(after, 4 * width, x, y) == (if side || bottom || corner || label {
                color
            } else {
                pixel_at(before, 4 * width, x, y)
            })
        }),
{
    streaked_point(
        before,
        width,
        height,
        center_x(button) - 8,
        center_y(button) - 7,
        16,
        14,
        |dx: int, dy: int| save_icon(dx - 8, dy - 7),
        color,
        x,
        y,
    );
}

/// The icon for copying is a sheet of ten by ten pixels, with the edges of
/// another one behind it, three pixels to the right of it and three above.
pub proof fn copy_icon_is_two_sheets(
    before: Seq<u8>,
    width: int,
    height: int,
    button: ButtonRect,
    color: Seq<u8>,
    x: int,
    y: int,
)
    requires
        7 <= center_x(button) <= width - 6,
        6 <= center_y(button) <= height - 7,
        holds_point(before, 4 * width, width, height, x, y),
        color.len() == 4,
    ensures
        ({
            let after = with_copy_icon(before, width, button, color);
            let column = x - (center_x(button) - 7);
            let row = y - (center_y(button) - 3);
            let sheet = 0 <= column < 10 && 0 <= row < 10;
            let front = sheet && !(1 <= column < 9 && 1 <= row < 9);
            let top = row == -3 && 3 <= column < 13;
            let sides = -3 <= row <= 3 && (column == 3 || column == 12);
            let corner = row == 3 && 9 <= column < 13;
            &&& after.len() == before.len()
            &&& pixel_at(after, 4 * width, x, y) == (if front || top || sides || corner {
                color
            } else {
                pixel_at(before, 4 * width, x, y)
            })
        }),
{
    let behind = |dx: int, dy: int| copy_icon_back(dx - 4, dy - 6);
    let back = streaked(
        before,
        width,
        center_x(button) - 4,
        center_y(button) - 6,
        10,
        10,
        behind,
        color,
    );
    streaked_point(
        before,
        width,
        height,
        center_x(button) - 4,
        center_y(button) - 6,
        10,
        10,
        behind,
        color,
        x,
        y,
    );
    streaked_point(
        back,
        width,
        height,
        center_x(button) - 7,
        center_y(button) - 3,
        10,
        10,
        |dx: int, dy: int| copy_icon_front(dx - 7, dy - 3),
        color,
        x,
        y,
    );
}

/// The icon for cancelling is a cross of two diagonals, two pixels wide, in a box
/// of 14 by 13 pixels.
pub proof fn cancel_icon_is_a_cross(
    before: Seq<u8>,
    width: int,
    height: int,
    button: ButtonRect,
    color: Seq<u8>,
    x: int,
    y: int,
)
    requires
        6 <= center_x(button) <= width - 8,
        6 <= center_y(button) <= height - 7,
        holds_point(before, 4 * width, width, height, x, y),
        color.len() == 4,
    ensures
        ({
            let after = with_cancel_icon(before, width, button, color);
            let column = x - (center_x(button) - 6);
            let row = y - (center_y(button) - 6);
            let falling = column - row == 0 || column - row == 1;
            let rising = column + row == 12 || column + row == 13;
            &&& after.len() == before.len()
            &&& pixel_at(after, 4 * width, x, y) == (if 0 <= row < 13 && 0 <= column < 14 && (falling
                || rising) {
                color
            } else {
                pixel_at(before, 4 * width, x, y)
            })
        }),
{
    streaked_point(
        before,
        width,
        height,
        center_x(button) - 6,
        center_y(button) - 6,
        14,
        13,
        |dx: int, dy: int| cancel_icon(dx - 6, dy - 6),
        color,
        x,
        y,
    );
}

/// The middle of a button lies as far from its left edge as from its right one,
/// and as far from its upper edge as from its lower one, up to a pixel.
pub proof fn middle_is_between_edges(button: ButtonRect)
    ensures
        button.width >= 0 ==> 0 <= button.width - 2 * (center_x(button) - button.x) <= 1,
        button.height >= 0 ==> 0 <= button.height - 2 * (center_y(button) - button.y) <= 1,
        button.width < 0 ==> -1 <= button.width - 2 * (center_x(button) - button.x) <= 0,
        button.height < 0 ==> -1 <= button.height - 2 * (center_y(button) - button.y) <= 0,
{
}

} // verus!
