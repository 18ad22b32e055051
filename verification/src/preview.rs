//! The preview of a long image: a strip of it, scaled to a fixed width with a
//! box filter, that can be scrolled.

use crate::pixels::{
    frame_is_box_without_inside, holds_point, on_frame, paint_tinted, painted, painted_point,
    pixel_at, row_of, stroke_frame, tinted, tinted_point, Tint,
};
use vstd::arithmetic::div_mod::lemma_fundamental_div_mod_converse;
use vstd::prelude::*;

verus! {

/// The left edge of the preview.
pub const PREVIEW_X: u32 = 5;

/// The top of the preview, below the buttons.
pub const PREVIEW_Y: u32 = 60;

/// Red, in BGRA bytes.
pub const BORDER_COLOR: [u8; 4] = [0, 0, 255, 255];

/// A run of rows or columns of an image, from `start` up to and without
/// `end`; it is empty where `end` is not beyond `start`.
#[derive(Debug, Clone, Copy, PartialEq, Eq, Structural)]
pub struct Span {
    pub start: u64,
    pub end: u64,
}

/// How an image is scaled: the height of the scaled image, and for each of its
/// columns and rows the columns and rows of the image that it averages.
#[derive(Debug, Clone, PartialEq, Eq)]
pub struct PreviewScale {
    pub scaled_height: u32,
    pub columns: Vec<Span>,
    pub rows: Vec<Span>,
}

impl PreviewScale {
    /// There is a span for each row, and one for each of the given number of
    /// columns.
    pub open spec fn wf(self, columns: int) -> bool {
        &&& self.scaled_height <= i32::MAX
        &&& self.columns@.len() >= columns
        &&& self.rows@.len() >= self.scaled_height
    }
}

/// The width of the preview on a window.
pub open spec fn preview_width(width: int) -> int {
    width - 10
}

/// The height of the preview on a window.
pub open spec fn preview_height(height: int) -> int {
    if height > 65 {
        height - 65
    } else {
        0
    }
}

/// The first row of the scaled image that shows, when it is scrolled up by
/// `offset` rows from its end.
pub open spec fn view_top(scaled_height: int, visible: int, offset: int) -> int {
    let max_scroll = if scaled_height > visible {
        scaled_height - visible
    } else {
        0
    };
    let clamped = if offset < 0 {
        0
    } else if offset > max_scroll {
        max_scroll
    } else {
        offset
    };
    let bottom = scaled_height - clamped;
    if bottom > visible {
        bottom - visible
    } else {
        0
    }
}

/// What a pixel of an RGBA image adds to a sum: the value of a channel, or
/// one for the fourth channel, which counts the pixels.  A pixel whose bytes
/// are missing adds nothing.
pub open spec fn sample(data: Seq<u8>, width: int, x: int, y: int, channel: int) -> int {
    let index = y * (4 * width) + 4 * x;
    if index + 3 < data.len() {
        if channel == 3 {
            1
        } else {
            data[index + channel] as int
        }
    } else {
        0
    }
}

/// The sum over the columns from `from` up to and without `to` of a row.
pub open spec fn row_sum(
    data: Seq<u8>,
    width: int,
    y: int,
    from: int,
    to: int,
    channel: int,
) -> int
    decreases to - from,
{
    if to <= from {
        0
    } else {
        row_sum(data, width, y, from, to - 1, channel) + sample(data, width, to - 1, y, channel)
    }
}

/// The sum over a rectangle.
pub open spec fn box_sum(
    data: Seq<u8>,
    width: int,
    left: int,
    right: int,
    top: int,
    bottom: int,
    channel: int,
) -> int
    decreases bottom - top,
{
    if bottom <= top {
        0
    } else {
        box_sum(data, width, left, right, top, bottom - 1, channel) + row_sum(
            data,
            width,
            bottom - 1,
            left,
            right,
            channel,
        )
    }
}

/// The average colour of a rectangle of an RGBA image, in BGRA bytes, opaque;
/// none where no pixel lies in it.
pub open spec fn box_color(
    data: Seq<u8>,
    width: int,
    left: int,
    right: int,
    top: int,
    bottom: int,
) -> Option<Seq<u8>> {
    let count = box_sum(data, width, left, right, top, bottom, 3);
    if count > 0 {
        Some(
            seq![
                (box_sum(data, width, left, right, top, bottom, 2) / count) as u8,
                (box_sum(data, width, left, right, top, bottom, 1) / count) as u8,
                (box_sum(data, width, left, right, top, bottom, 0) / count) as u8,
                255u8,
            ],
        )
    } else {
        None
    }
}

/// The end of a span, cut to the size of the image.
pub open spec fn clipped_end(span: Span, size: int) -> int {
    if span.end < size {
        span.end as int
    } else {
        size
    }
}

/// The colour of a point of the preview.
pub open spec fn preview_color(
    data: Seq<u8>,
    image_width: int,
    image_height: int,
    scale: PreviewScale,
    top: int,
    dx: int,
    dy: int,
) -> Option<Seq<u8>> {
    let y = top + dy;
    if y < scale.scaled_height {
        let columns = scale.columns@[dx];
        let rows = scale.rows@[y];
        box_color(
            data,
            image_width,
            columns.start as int,
            clipped_end(columns, image_width),
            rows.start as int,
            clipped_end(rows, image_height),
        )
    } else {
        None
    }
}

/// The smaller one of two numbers.
pub open spec fn smaller(a: int, b: int) -> int {
    if a < b {
        a
    } else {
        b
    }
}

/// A window with the preview of an RGBA image on it, and a red frame round the
/// preview.
pub open spec fn with_preview(
    before: Seq<u8>,
    width: int,
    height: int,
    data: Seq<u8>,
    image_width: int,
    image_height: int,
    offset: int,
    scale: PreviewScale,
) -> Seq<u8> {
    let columns = preview_width(width);
    let rows = preview_height(height);
    if image_width == 0 || image_height == 0 || columns == 0 || rows == 0 {
        before
    } else {
        let top = view_top(scale.scaled_height as int, rows, offset);
        let shown = tinted(
            before,
            width,
            height,
            |x: int, y: int|
                if PREVIEW_X <= x < PREVIEW_X + columns && PREVIEW_Y <= y < PREVIEW_Y + rows {
                    preview_color(
                        data,
                        image_width,
                        image_height,
                        scale,
                        top,
                        x - PREVIEW_X,
                        y - PREVIEW_Y,
                    )
                } else {
                    None
                },
        );
        painted(
            shown,
            4 * width,
            width,
            height,
            |x: int, y: int|
                on_frame(
                    x,
                    y,
                    PREVIEW_X as int,
                    PREVIEW_Y as int,
                    columns,
                    smaller(rows, scale.scaled_height as int),
                ),
            BORDER_COLOR@,
        )
    }
}

/// The sums of the channels over some pixels, and the number of the pixels.
struct Sums {
    red: u128,
    green: u128,
    blue: u128,
    count: u128,
}

/// Adds up the pixels of a part of a row.
fn add_row(data: &[u8], width: u32, y: u64, from: u64, to: u64) -> (r: Sums)
    requires
        to <= width,
        y < u32::MAX,
    ensures
        r.red == row_sum(data@, width as int, y as int, from as int, to as int, 0),
        r.green == row_sum(data@, width as int, y as int, from as int, to as int, 1),
        r.blue == row_sum(data@, width as int, y as int, from as int, to as int, 2),
        r.count == row_sum(data@, width as int, y as int, from as int, to as int, 3),
        r.red <= 255 * r.count,
        r.green <= 255 * r.count,
        r.blue <= 255 * r.count,
        r.count <= u32::MAX,
{
    let mut sums: Sums = Sums { red: 0, green: 0, blue: 0, count: 0 };
    let mut x: u64 = from;
    let ghost w = width as int;
    assert(0 <= y * (4 * width) <= u32::MAX * (4 * u32::MAX)) by (nonlinear_arith)
        requires
            0 <= y <= u32::MAX,
            0 <= width <= u32::MAX,
    ;
    let start: u128 = y as u128 * (4 * width as u128);
    while x < to
        invariant
            from <= x,
            x <= to || x == from,
            to <= width,
            w == width as int,
            start == y * (4 * width),
            start <= u32::MAX * (4 * u32::MAX),
            sums.red == row_sum(data@, w, y as int, from as int, x as int, 0),
            sums.green == row_sum(data@, w, y as int, from as int, x as int, 1),
            sums.blue == row_sum(data@, w, y as int, from as int, x as int, 2),
            sums.count == row_sum(data@, w, y as int, from as int, x as int, 3),
            sums.red <= 255 * sums.count,
            sums.green <= 255 * sums.count,
            sums.blue <= 255 * sums.count,
            sums.count <= x - from,
        decreases to - x,
    {
        let index: u128 = start + 4 * x as u128;
        if index + 3 < data.len() as u128 {
            let i: usize = index as usize;
            sums.red = sums.red + data[i] as u128;
            sums.green = sums.green + data[i + 1] as u128;
            sums.blue = sums.blue + data[i + 2] as u128;
            sums.count = sums.count + 1;
        }
        x = x + 1;
    }
    sums
}

/// The average colour of a rectangle of an RGBA image.
fn average(data: &[u8], width: u32, left: u64, right: u64, top: u64, bottom: u64) -> (r: Option<
    [u8; 4],
>)
    requires
        right <= width,
        bottom <= u32::MAX,
    ensures
        match r {
            Some(color) => box_color(
                data@,
                width as int,
                left as int,
                right as int,
                top as int,
                bottom as int,
            ) == Some(color@),
            None => box_color(
                data@,
                width as int,
                left as int,
                right as int,
                top as int,
                bottom as int,
            ) is None,
        },
{
    let mut sums: Sums = Sums { red: 0, green: 0, blue: 0, count: 0 };
    let mut y: u64 = top;
    let ghost w = width as int;
    let ghost l = left as int;
    let ghost r = right as int;
    let ghost t = top as int;
    while y < bottom
        invariant
            top <= y,
            y <= bottom || y == top,
            right <= width,
            bottom <= u32::MAX,
            w == width as int,
            l == left as int,
            r == right as int,
            t == top as int,
            sums.red == box_sum(data@, w, l, r, t, y as int, 0),
            sums.green == box_sum(data@, w, l, r, t, y as int, 1),
            sums.blue == box_sum(data@, w, l, r, t, y as int, 2),
            sums.count == box_sum(data@, w, l, r, t, y as int, 3),
            sums.red <= 255 * sums.count,
            sums.green <= 255 * sums.count,
            sums.blue <= 255 * sums.count,
            sums.count <= u32::MAX * (y - top),
        decreases bottom - y,
    {
        let row: Sums = add_row(data, width, y, left, right);
        assert(u32::MAX * (y + 1 - top) == u32::MAX * (y - top) + u32::MAX) by (nonlinear_arith);
        assert(u32::MAX * (y - top) <= u32::MAX * u32::MAX) by (nonlinear_arith)
            requires
                y - top <= u32::MAX,
        ;
        sums.red = sums.red + row.red;
        sums.green = sums.green + row.green;
        sums.blue = sums.blue + row.blue;
        sums.count = sums.count + row.count;
        y = y + 1;
    }
    assert(forall|c: int|
        0 <= c <= 3 && bottom <= top ==> box_sum(data@, w, l, r, t, bottom as int, c) == 0);
    if sums.count == 0 {
        return None;
    }
    let n: u128 = sums.count;
    assert(sums.blue / n <= 255) by (nonlinear_arith)
        requires
            0 < n,
            0 <= sums.blue <= 255 * n,
    ;
    assert(sums.green / n <= 255) by (nonlinear_arith)
        requires
            0 < n,
            0 <= sums.green <= 255 * n,
    ;
    assert(sums.red / n <= 255) by (nonlinear_arith)
        requires
            0 < n,
            0 <= sums.red <= 255 * n,
    ;
    let color: [u8; 4] = [
        (sums.blue / n) as u8,
        (sums.green / n) as u8,
        (sums.red / n) as u8,
        255,
    ];
    assert(color@ =~= box_color(data@, w, l, r, t, bottom as int)->0);
    Some(color)
}

/// The part of a scaled image that shows in the preview.
struct Strip<'a> {
    data: &'a [u8],
    width: u32,
    height: u32,
    scale: &'a PreviewScale,
    top: u32,
}

impl<'a> Tint for Strip<'a> {
    closed spec fn tint(&self, dx: int, dy: int) -> Option<Seq<u8>> {
        preview_color(
            self.data@,
            self.width as int,
            self.height as int,
            *self.scale,
            self.top as int,
            dx,
            dy,
        )
    }

    closed spec fn extent(&self, columns: int, rows: int) -> bool {
        &&& columns <= self.scale.columns@.len()
        &&& self.scale.scaled_height <= self.scale.rows@.len()
        &&& self.top <= i32::MAX
        &&& self.scale.scaled_height <= i32::MAX
    }

    fn tint_at(&self, dx: u32, dy: u32) -> Option<[u8; 4]> {
        let y: u64 = self.top as u64 + dy as u64;
        if y >= self.scale.scaled_height as u64 {
            return None;
        }
        let columns: Span = self.scale.columns[dx as usize];
        let rows: Span = self.scale.rows[y as usize];
        let right: u64 = if columns.end < self.width as u64 {
            columns.end
        } else {
            self.width as u64
        };
        let bottom: u64 = if rows.end < self.height as u64 {
            rows.end
        } else {
            self.height as u64
        };
        average(self.data, self.width, columns.start, right, rows.start, bottom)
    }
}

/// The first row of the scaled image that shows.
fn first_row(scaled_height: u32, visible: u32, offset: i32) -> (r: u32)
    ensures
        r == view_top(scaled_height as int, visible as int, offset as int),
        r <= scaled_height,
{
    let max_scroll: u32 = if scaled_height > visible {
        scaled_height - visible
    } else {
        0
    };
    let clamped: u32 = if offset < 0 {
        0
    } else if offset as u32 > max_scroll {
        max_scroll
    } else {
        offset as u32
    };
    let bottom: u32 = scaled_height - clamped;
    if bottom > visible {
        bottom - visible
    } else {
        0
    }
}

/// Draws the preview of an RGBA image on a window.
///
/// `offset` is how far the preview is scrolled up from the end of the image.
pub fn draw_preview_with_scroll(
    canvas: &mut [u8],
    width: u32,
    height: u32,
    data: &[u8],
    image_width: u32,
    image_height: u32,
    offset: i32,
    scale: &PreviewScale,
)
    requires
        width >= 10,
        scale.wf(preview_width(width as int)),
    ensures
        final(canvas)@ == with_preview(
            old(canvas)@,
            width as int,
            height as int,
            data@,
            image_width as int,
            image_height as int,
            offset as int,
            *scale,
        ),
{
    let columns: u32 = width - 10;
    let rows: u32 = if height > 65 {
        height - 65
    } else {
        0
    };
    if image_width == 0 || image_height == 0 || columns == 0 || rows == 0 {
        return;
    }
    let top: u32 = first_row(scale.scaled_height, rows, offset);
    let strip: Strip = Strip { data, width: image_width, height: image_height, scale, top };
    paint_tinted(canvas, width, height, PREVIEW_X, PREVIEW_Y, columns, rows, &strip);
    assert(canvas@ =~= tinted(
        old(canvas)@,
        width as int,
        height as int,
        |x: int, y: int|
            if PREVIEW_X <= x < PREVIEW_X + columns && PREVIEW_Y <= y < PREVIEW_Y + rows {
                preview_color(
                    data@,
                    image_width as int,
                    image_height as int,
                    *scale,
                    top as int,
                    x - PREVIEW_X,
                    y - PREVIEW_Y,
                )
            } else {
                None
            },
    ));
    let shown: u32 = if rows < scale.scaled_height {
        rows
    } else {
        scale.scaled_height
    };
    stroke_frame(
        canvas,
        4 * width as i64,
        width,
        height,
        PREVIEW_X as i64,
        PREVIEW_Y as i64,
        columns as i64,
        shown as i64,
        &BORDER_COLOR,
    );
    assert(canvas@ =~= with_preview(
        old(canvas)@,
        width as int,
        height as int,
        data@,
        image_width as int,
        image_height as int,
        offset as int,
        *scale,
    ));
}

/// Whatever the scroll offset, the preview shows rows of the scaled image; it
/// shows as many as fit, and with no offset the last ones.
pub proof fn view_stays_on_image(scaled_height: int, visible: int, offset: int)
    requires
        0 <= scaled_height,
        0 <= visible,
    ensures
        ({
            let top = view_top(scaled_height, visible, offset);
            &&& 0 <= top
            &&& top + smaller(visible, scaled_height) <= scaled_height
            &&& offset <= 0 ==> top + smaller(visible, scaled_height) == scaled_height
            &&& offset >= scaled_height ==> top == 0
        }),
{
}

/// The sum over a row lies between the bounds of its pixels, times their
/// number.
proof fn lemma_row_sum_between(
    data: Seq<u8>,
    width: int,
    y: int,
    from: int,
    to: int,
    channel: int,
    low: int,
    high: int,
)
    requires
        0 <= channel < 3,
        forall|x: int|
            from <= x < to ==> low * sample(data, width, x, y, 3) <= #[trigger] sample(
                data,
                width,
                x,
                y,
                channel,
            ) <= high * sample(data, width, x, y, 3),
    ensures
        low * row_sum(data, width, y, from, to, 3) <= row_sum(data, width, y, from, to, channel)
            <= high * row_sum(data, width, y, from, to, 3),
    decreases to - from,
{
    if from < to {
        lemma_row_sum_between(data, width, y, from, to - 1, channel, low, high);
        let n = row_sum(data, width, y, from, to - 1, 3);
        let one = sample(data, width, to - 1, y, 3);
        assert(low * (n + one) == low * n + low * one) by (nonlinear_arith);
        assert(high * (n + one) == high * n + high * one) by (nonlinear_arith);
    } else {
        assert(low * 0 == 0 && high * 0 == 0) by (nonlinear_arith);
    }
}

/// The sum over a rectangle lies between the bounds of its pixels, times their
/// number.
proof fn lemma_box_sum_between(
    data: Seq<u8>,
    width: int,
    left: int,
    right: int,
    top: int,
    bottom: int,
    channel: int,
    low: int,
    high: int,
)
    requires
        0 <= channel < 3,
        forall|x: int, y: int|
            left <= x < right && top <= y < bottom ==> low * sample(data, width, x, y, 3)
                <= #[trigger] sample(data, width, x, y, channel) <= high * sample(
                data,
                width,
                x,
                y,
                3,
            ),
    ensures
        low * box_sum(data, width, left, right, top, bottom, 3) <= box_sum(
            data,
            width,
            left,
            right,
            top,
            bottom,
            channel,
        ) <= high * box_sum(data, width, left, right, top, bottom, 3),
    decreases bottom - top,
{
    if top < bottom {
        lemma_box_sum_between(data, width, left, right, top, bottom - 1, channel, low, high);
        lemma_row_sum_between(data, width, bottom - 1, left, right, channel, low, high);
        let n = box_sum(data, width, left, right, top, bottom - 1, 3);
        let row = row_sum(data, width, bottom - 1, left, right, 3);
        assert(low * (n + row) == low * n + low * row) by (nonlinear_arith);
        assert(high * (n + row) == high * n + high * row) by (nonlinear_arith);
    } else {
        assert(low * 0 == 0 && high * 0 == 0) by (nonlinear_arith);
    }
}

/// Each channel of a point of the preview lies between the least and the
/// greatest value of that channel among the pixels that it averages; so an
/// area of one colour keeps its colour.
pub proof fn average_lies_between(
    data: Seq<u8>,
    width: int,
    left: int,
    right: int,
    top: int,
    bottom: int,
    channel: int,
    low: u8,
    high: u8,
)
    requires
        0 <= channel < 3,
        forall|x: int, y: int|
            left <= x < right && top <= y < bottom && y * (4 * width) + 4 * x + 3 < data.len()
                ==> low <= #[trigger] data[y * (4 * width) + 4 * x + channel] <= high,
    ensures
        box_color(data, width, left, right, top, bottom) matches Some(color) ==> low <= color[2
            - channel] <= high,
{
    let count = box_sum(data, width, left, right, top, bottom, 3);
    let sum = box_sum(data, width, left, right, top, bottom, channel);
    assert forall|x: int, y: int| left <= x < right && top <= y < bottom implies low * sample(
        data,
        width,
        x,
        y,
        3,
    ) <= #[trigger] sample(data, width, x, y, channel) <= high * sample(data, width, x, y, 3) by {
        let index = y * (4 * width) + 4 * x;
        if index + 3 < data.len() {
            assert(low <= data[y * (4 * width) + 4 * x + channel] <= high);
        }
    }
    lemma_box_sum_between(
        data,
        width,
        left,
        right,
        top,
        bottom,
        channel,
        low as int,
        high as int,
    );
    if count > 0 {
        assert(low <= sum / count <= high) by (nonlinear_arith)
            requires
                low * count <= sum <= high * count,
                count > 0,
        ;
    }
}

/// The preview leaves the part of the window above it, where the buttons are,
/// as it was.
pub proof fn preview_spares_buttons(
    before: Seq<u8>,
    width: int,
    height: int,
    data: Seq<u8>,
    image_width: int,
    image_height: int,
    offset: int,
    scale: PreviewScale,
    i: int,
)
    requires
        0 <= i < before.len(),
        row_of(i, 4 * width) < PREVIEW_Y - 2,
    ensures
        ({
            let after = with_preview(
                before,
                width,
                height,
                data,
                image_width,
                image_height,
                offset,
                scale,
            );
            after.len() == before.len() && after[i] == before[i]
        }),
{
}

/// The bytes of a channel of the pixels of a box of an RGBA image, row after
/// row; a pixel whose bytes are missing stands as zero.
pub open spec fn box_bytes(
    data: Seq<u8>,
    width: int,
    left: int,
    right: int,
    top: int,
    bottom: int,
    channel: int,
) -> Seq<int> {
    Seq::new(
        ((right - left) * (bottom - top)) as nat,
        |k: int|
            {
                let at = (top + k / (right - left)) * (4 * width) + 4 * (left + k % (right - left));
                if at + 4 <= data.len() {
                    data[at + channel] as int
                } else {
                    0
                }
            },
    )
}

/// One for each pixel of a box whose bytes are there, and zero for each other
/// pixel.
pub open spec fn box_pixels(
    data: Seq<u8>,
    width: int,
    left: int,
    right: int,
    top: int,
    bottom: int,
) -> Seq<int> {
    Seq::new(
        ((right - left) * (bottom - top)) as nat,
        |k: int|
            {
                let at = (top + k / (right - left)) * (4 * width) + 4 * (left + k % (right - left));
                if at + 4 <= data.len() {
                    1
                } else {
                    0
                }
            },
    )
}

/// The sum of some numbers.
pub open spec fn total(numbers: Seq<int>) -> int {
    numbers.fold_left(0int, |sum: int, n: int| sum + n)
}

/// The numbers of a box, with the first columns of one more row.
proof fn lemma_box_total(
    data: Seq<u8>,
    width: int,
    left: int,
    right: int,
    top: int,
    bottom: int,
    channel: int,
    numbers: Seq<int>,
    rows: int,
    columns: int,
)
    requires
        0 <= channel <= 3,
        left < right,
        0 <= rows <= bottom - top,
        0 <= columns <= right - left,
        columns > 0 ==> rows < bottom - top,
        numbers == (if channel == 3 {
            box_pixels(data, width, left, right, top, bottom)
        } else {
            box_bytes(data, width, left, right, top, bottom, channel)
        }),
    ensures
        0 <= rows * (right - left) + columns <= numbers.len(),
        total(numbers.take(rows * (right - left) + columns)) == box_sum(
            data,
            width,
            left,
            right,
            top,
            top + rows,
            channel,
        ) + row_sum(data, width, top + rows, left, left + columns, channel),
    decreases rows, columns,
{
    let w = right - left;
    let n = rows * w + columns;
    assert(0 <= rows * w && rows * w + columns <= w * (bottom - top)) by (nonlinear_arith)
        requires
            0 < w,
            0 <= columns <= w,
            0 <= rows <= bottom - top,
            columns > 0 ==> rows + 1 <= bottom - top,
    ;
    if columns > 0 {
        lemma_box_total(
            data,
            width,
            left,
            right,
            top,
            bottom,
            channel,
            numbers,
            rows,
            columns - 1,
        );
        let k = n - 1;
        lemma_fundamental_div_mod_converse(k, w, rows, columns - 1);
        assert(numbers.take(n).drop_last() =~= numbers.take(n - 1));
        assert(numbers.take(n).last() == numbers[k]);
        assert(numbers[k] == sample(data, width, left + columns - 1, top + rows, channel));
    } else if rows > 0 {
        lemma_box_total(data, width, left, right, top, bottom, channel, numbers, rows - 1, w);
        assert((rows - 1) * w + w == rows * w) by (nonlinear_arith);
    } else {
        assert(0 * w == 0) by (nonlinear_arith);
        assert(numbers.take(0) =~= Seq::<int>::empty());
    }
}

/// A point of the preview has a colour if and only if a pixel of its box is
/// there.  It is opaque, and each of its channels is the mean of that channel
/// over all the pixels of the box that are there, rounded down: the sum of their
/// values lies between as many times the channel and less than as many times
/// one more.
pub proof fn preview_shows_the_mean(
    data: Seq<u8>,
    width: int,
    left: int,
    right: int,
    top: int,
    bottom: int,
    channel: int,
)
    requires
        0 <= channel < 3,
        left < right,
        top < bottom,
    ensures
        ({
            let n = total(box_pixels(data, width, left, right, top, bottom));
            let sum = total(box_bytes(data, width, left, right, top, bottom, channel));
            match box_color(data, width, left, right, top, bottom) {
                Some(color) => {
                    &&& n > 0
                    &&& color.len() == 4
                    &&& color[3] == 255
                    &&& n * color[2 - channel] <= sum < n * color[2 - channel] + n
                },
                None => n == 0,
            }
        }),
{
    let pixels = box_pixels(data, width, left, right, top, bottom);
    let bytes = box_bytes(data, width, left, right, top, bottom, channel);
    lemma_box_total(data, width, left, right, top, bottom, 3, pixels, bottom - top, 0);
    lemma_box_total(data, width, left, right, top, bottom, channel, bytes, bottom - top, 0);
    assert((bottom - top) * (right - left) == (right - left) * (bottom - top))
        by (nonlinear_arith);
    assert((right - left) * (bottom - top) > 0) by (nonlinear_arith)
        requires
            left < right,
            top < bottom,
    ;
    assert(pixels.take(pixels.len() as int) =~= pixels);
    assert(bytes.take(bytes.len() as int) =~= bytes);
    assert forall|x: int, y: int| left <= x < right && top <= y < bottom implies 0 * sample(
        data,
        width,
        x,
        y,
        3,
    ) <= #[trigger] sample(data, width, x, y, channel) <= 255 * sample(data, width, x, y, 3) by {}
    lemma_box_sum_between(data, width, left, right, top, bottom, channel, 0, 255);
    lemma_box_count(data, width, left, right, top, bottom);
    let n = total(pixels);
    let sum = total(bytes);
    if n > 0 {
        assert(0 <= sum / n <= 255 && n * (sum / n) <= sum < n * (sum / n) + n) by (nonlinear_arith)
            requires
                0 < n,
                0 <= sum <= 255 * n,
        ;
    }
}

/// Pixels are counted, never subtracted.
proof fn lemma_row_count(data: Seq<u8>, width: int, y: int, from: int, to: int)
    ensures
        0 <= row_sum(data, width, y, from, to, 3),
    decreases to - from,
{
    if from < to {
        lemma_row_count(data, width, y, from, to - 1);
    }
}

proof fn lemma_box_count(data: Seq<u8>, width: int, left: int, right: int, top: int, bottom: int)
    ensures
        0 <= box_sum(data, width, left, right, top, bottom, 3),
    decreases bottom - top,
{
    if top < bottom {
        lemma_box_count(data, width, left, right, top, bottom - 1);
        lemma_row_count(data, width, bottom - 1, left, right);
    }
}

/// Where a box has no column or no row, there is no colour.
pub proof fn empty_box_has_no_color(
    data: Seq<u8>,
    width: int,
    left: int,
    right: int,
    top: int,
    bottom: int,
)
    requires
        right <= left || bottom <= top,
    ensures
        box_color(data, width, left, right, top, bottom) is None,
    decreases bottom - top,
{
    if top < bottom {
        empty_box_has_no_color(data, width, left, right, top, bottom - 1);
    }
}

/// Scrolling by a row moves the view by a row towards the start of the image,
/// until its start shows; without scrolling its end shows.
pub proof fn scrolling_moves_the_view(scaled_height: int, visible: int, offset: int)
    requires
        0 <= visible,
    ensures
        scaled_height <= visible ==> view_top(scaled_height, visible, offset) == 0,
        scaled_height > visible && 0 <= offset <= scaled_height - visible ==> view_top(
            scaled_height,
            visible,
            offset,
        ) + visible + offset == scaled_height,
        scaled_height > visible && offset < 0 ==> view_top(scaled_height, visible, offset) + visible
            == scaled_height,
        scaled_height > visible && offset > scaled_height - visible ==> view_top(
            scaled_height,
            visible,
            offset,
        ) == 0,
{
}

/// A red frame, two pixels thick, stands round the part of the preview that
/// shows the image.
pub proof fn preview_is_framed(
    before: Seq<u8>,
    width: int,
    height: int,
    data: Seq<u8>,
    image_width: int,
    image_height: int,
    offset: int,
    scale: PreviewScale,
    x: int,
    y: int,
)
    requires
        image_width > 0,
        image_height > 0,
        scale.scaled_height >= 2,
        height >= 67,
        width >= 12,
        holds_point(before, 4 * width, width, height, x, y),
        5 <= x < width - 5,
        60 <= y < height - 5,
        y < 60 + scale.scaled_height,
        x < 7 || x >= width - 7 || y < 62 || y >= height - 7 || y >= 58 + scale.scaled_height,
    ensures
        pixel_at(
            with_preview(
                before,
                width,
                height,
                data,
                image_width,
                image_height,
                offset,
                scale,
            ),
            4 * width,
            x,
            y,
        ) == seq![0u8, 0, 255, 255],
{
    let columns = width - 10;
    let rows = height - 65;
    let first = view_top(scale.scaled_height as int, rows, offset);
    let tint = |x: int, y: int|
        if PREVIEW_X <= x < PREVIEW_X + columns && PREVIEW_Y <= y < PREVIEW_Y + rows {
            preview_color(
                data,
                image_width,
                image_height,
                scale,
                first,
                x - PREVIEW_X,
                y - PREVIEW_Y,
            )
        } else {
            None
        };
    let shown = tinted(before, width, height, tint);
    let border = |x: int, y: int|
        on_frame(
            x,
            y,
            PREVIEW_X as int,
            PREVIEW_Y as int,
            columns,
            smaller(rows, scale.scaled_height as int),
        );
    frame_is_box_without_inside(
        x,
        y,
        PREVIEW_X as int,
        PREVIEW_Y as int,
        columns,
        smaller(rows, scale.scaled_height as int),
    );
    painted_point(shown, 4 * width, width, height, border, BORDER_COLOR@, x, y);
    assert(BORDER_COLOR@ =~= seq![0u8, 0, 255, 255]);
}

/// The preview leaves the margins at both sides of the window as they were, and
/// draws nothing where there is no image or no room.
pub proof fn preview_keeps_to_its_place(
    before: Seq<u8>,
    width: int,
    height: int,
    data: Seq<u8>,
    image_width: int,
    image_height: int,
    offset: int,
    scale: PreviewScale,
    x: int,
    y: int,
)
    requires
        width >= 12,
        holds_point(before, 4 * width, width, height, x, y),
        x < 5 || x >= width - 5 || y < 58 || y >= height - 5 && y >= 62,
    ensures
        ({
            let after = with_preview(
                before,
                width,
                height,
                data,
                image_width,
                image_height,
                offset,
                scale,
            );
            &&& pixel_at(after, 4 * width, x, y) == pixel_at(before, 4 * width, x, y)
            &&& image_width == 0 || image_height == 0 || width == 10 || height <= 65 ==> after
                == before
        }),
{
    let columns = preview_width(width);
    let rows = preview_height(height);
    let first = view_top(scale.scaled_height as int, rows, offset);
    let tint = |x: int, y: int|
        if PREVIEW_X <= x < PREVIEW_X + columns && PREVIEW_Y <= y < PREVIEW_Y + rows {
            preview_color(
                data,
                image_width,
                image_height,
                scale,
                first,
                x - PREVIEW_X,
                y - PREVIEW_Y,
            )
        } else {
            None
        };
    let shown = tinted(before, width, height, tint);
    let border = |x: int, y: int|
        on_frame(
            x,
            y,
            PREVIEW_X as int,
            PREVIEW_Y as int,
            columns,
            smaller(rows, scale.scaled_height as int),
        );
    if image_width != 0 && image_height != 0 && rows != 0 {
        let after = painted(shown, 4 * width, width, height, border, BORDER_COLOR@);
        assert(after == with_preview(
            before,
            width,
            height,
            data,
            image_width,
            image_height,
            offset,
            scale,
        ));
        assert(tint(x, y) is None);
        tinted_point(before, width, height, tint, x, y);
        assert(!border(x, y));
        painted_point(shown, 4 * width, width, height, border, BORDER_COLOR@, x, y);
    }
}

/// What the preview does to each point of the window: the points of its frame are
/// red; every other point of it whose row the scaled image has shows the mean of
/// its box, if a pixel of that is there; and all others stay as they were.
pub proof fn preview_at_every_point(
    before: Seq<u8>,
    width: int,
    height: int,
    data: Seq<u8>,
    image_width: int,
    image_height: int,
    offset: int,
    scale: PreviewScale,
    x: int,
    y: int,
    channel: int,
)
    requires
        width > 10,
        height > 65,
        image_width > 0,
        image_height > 0,
        scale.wf(width - 10),
        holds_point(before, 4 * width, width, height, x, y),
        0 <= channel < 3,
    ensures
        ({
            let after = with_preview(
                before,
                width,
                height,
                data,
                image_width,
                image_height,
                offset,
                scale,
            );
            let shown = pixel_at(after, 4 * width, x, y);
            let was = pixel_at(before, 4 * width, x, y);
            let inside = 5 <= x < width - 5 && 60 <= y < height - 5;
            let row = view_top(scale.scaled_height as int, height - 65, offset) + y - 60;
            let left = scale.columns@[x - 5].start as int;
            let right = smaller(scale.columns@[x - 5].end as int, image_width);
            let top = scale.rows@[row].start as int;
            let bottom = smaller(scale.rows@[row].end as int, image_height);
            let n = total(box_pixels(data, image_width, left, right, top, bottom));
            let sum = total(box_bytes(data, image_width, left, right, top, bottom, channel));
            if on_frame(
                x,
                y,
                5,
                60,
                width - 10,
                smaller(height - 65, scale.scaled_height as int),
            ) {
                shown == seq![0u8, 0, 255, 255]
            } else if inside && row < scale.scaled_height && left < right && top < bottom && n > 0 {
                &&& shown[3] == 255
                &&& n * shown[2 - channel] <= sum < n * shown[2 - channel] + n
            } else {
                shown == was
            }
        }),
{
    let columns = width - 10;
    let rows = height - 65;
    let first = view_top(scale.scaled_height as int, rows, offset);
    let row = first + y - 60;
    let tint = |x: int, y: int|
        if PREVIEW_X <= x < PREVIEW_X + columns && PREVIEW_Y <= y < PREVIEW_Y + rows {
            preview_color(
                data,
                image_width,
                image_height,
                scale,
                first,
                x - PREVIEW_X,
                y - PREVIEW_Y,
            )
        } else {
            None
        };
    let shown = tinted(before, width, height, tint);
    let border = |x: int, y: int|
        on_frame(
            x,
            y,
            PREVIEW_X as int,
            PREVIEW_Y as int,
            columns,
            smaller(rows, scale.scaled_height as int),
        );
    let after = painted(shown, 4 * width, width, height, border, BORDER_COLOR@);
    assert(after == with_preview(
        before,
        width,
        height,
        data,
        image_width,
        image_height,
        offset,
        scale,
    ));
    let left = scale.columns@[x - 5].start as int;
    let right = smaller(scale.columns@[x - 5].end as int, image_width);
    let top = scale.rows@[row].start as int;
    let bottom = smaller(scale.rows@[row].end as int, image_height);
    assert(BORDER_COLOR@ =~= seq![0u8, 0, 255, 255]);
    tinted_point(before, width, height, tint, x, y);
    painted_point(shown, 4 * width, width, height, border, BORDER_COLOR@, x, y);
    if left < right && top < bottom {
        preview_shows_the_mean(data, image_width, left, right, top, bottom, channel);
    } else {
        empty_box_has_no_color(data, image_width, left, right, top, bottom);
    }
}

/// Without an image, or without room for a column or a row of it, there is no
/// preview.
pub proof fn nothing_to_preview(
    before: Seq<u8>,
    width: int,
    height: int,
    data: Seq<u8>,
    image_width: int,
    image_height: int,
    offset: int,
    scale: PreviewScale,
)
    requires
        image_width == 0 || image_height == 0 || width == 10 || height <= 65,
    ensures
        with_preview(before, width, height, data, image_width, image_height, offset, scale)
            == before,
{
}

} // verus!
