//! Drawing on a canvas: a slice of BGRA pixels, row after row.

use vstd::arithmetic::div_mod::lemma_fundamental_div_mod;
use vstd::arithmetic::div_mod::lemma_fundamental_div_mod_converse;
use vstd::prelude::*;

verus! {

/// No shape is drawn wider or higher than this.
pub const MAX_EXTENT: i64 = 0x2_0000_0000;

/// No shape is drawn further than this from the origin of the canvas.
pub const MAX_OFFSET: i128 = 0x100_0000_0000_0000_0000_0000_0000;

/// A canvas on which the pixels that `ink` selects, counted from the first,
/// have the given colour, as far as the canvas holds all their bytes.
pub open spec fn inked(before: Seq<u8>, ink: spec_fn(int) -> bool, color: Seq<u8>) -> Seq<u8> {
    Seq::new(
        before.len(),
        |i: int|
            if i / 4 < before.len() / 4 && ink(i / 4) {
                color[i % 4]
            } else {
                before[i]
            },
    )
}

/// The row to which a byte of a canvas belongs, where rows start `stride` bytes
/// apart.
pub open spec fn row_of(i: int, stride: int) -> int {
    i / stride
}

/// The column to which a byte of a canvas belongs.
pub open spec fn column_of(i: int, stride: int) -> int {
    (i % stride) / 4
}

/// Whether a byte belongs to one of the pixels, `width` in each of `height`
/// rows, and the canvas holds all the bytes of that pixel.
pub open spec fn on_canvas(i: int, len: int, stride: int, width: int, height: int) -> bool {
    &&& stride > 0
    &&& column_of(i, stride) < width
    &&& row_of(i, stride) < height
    &&& row_of(i, stride) * stride + 4 * column_of(i, stride) + 3 < len
}

/// A canvas, `width` pixels wide and `height` pixels high, whose rows start
/// `stride` bytes apart, on which the points that `shape` selects have the given
/// colour.
pub open spec fn painted(
    before: Seq<u8>,
    stride: int,
    width: int,
    height: int,
    shape: spec_fn(int, int) -> bool,
    color: Seq<u8>,
) -> Seq<u8> {
    Seq::new(
        before.len(),
        |i: int|
            if on_canvas(i, before.len() as int, stride, width, height) && shape(
                column_of(i, stride),
                row_of(i, stride),
            ) {
                color[(i % stride) % 4]
            } else {
                before[i]
            },
    )
}

/// A point of a canvas: its blue, green, red and alpha byte.
pub open spec fn pixel_at(canvas: Seq<u8>, stride: int, x: int, y: int) -> Seq<u8> {
    canvas.subrange(y * stride + 4 * x, y * stride + 4 * x + 4)
}

/// The point lies on a canvas, which holds all its bytes.
pub open spec fn holds_point(
    canvas: Seq<u8>,
    stride: int,
    width: int,
    height: int,
    x: int,
    y: int,
) -> bool {
    &&& 4 * width <= stride
    &&& 0 <= x < width
    &&& 0 <= y < height
    &&& y * stride + 4 * x + 3 < canvas.len()
}

/// The points of a rectangle.
pub open spec fn in_box(x: int, y: int, left: int, top: int, width: int, height: int) -> bool {
    left <= x < left + width && top <= y < top + height
}

/// The points of a frame of lines, two pixels thick, along the inner edges of
/// a rectangle.
pub open spec fn on_frame(x: int, y: int, left: int, top: int, width: int, height: int) -> bool {
    ||| left <= x < left + width && (y == top || y == top + 1 || y == top + height - 1 || y == top
        + height - 2)
    ||| top <= y < top + height && (x == left || x == left + 1 || x == left + width - 1 || x == left
        + width - 2)
}

/// A set of points, relative to an origin of its own.
pub trait Shape {
    spec fn ink(&self, dx: int, dy: int) -> bool;

    /// Whether a point belongs to the shape.
    fn has_ink(&self, dx: i64, dy: i64) -> (r: bool)
        requires
            0 <= dx <= MAX_EXTENT,
            0 <= dy <= MAX_EXTENT,
        ensures
            r == self.ink(dx as int, dy as int),
    ;
}

/// All points.
pub struct Solid;

impl Shape for Solid {
    open spec fn ink(&self, dx: int, dy: int) -> bool {
        true
    }

    fn has_ink(&self, dx: i64, dy: i64) -> bool {
        true
    }
}

/// The point of a canvas to which a pixel index belongs.
pub proof fn lemma_point_of_index(p: int, width: int, x: int, y: int)
    requires
        width > 0,
        0 <= x < width,
    ensures
        p == y * width + x <==> p % width == x && p / width == y,
{
    if p == y * width + x {
        lemma_fundamental_div_mod_converse(p, width, y, x);
    }
    lemma_fundamental_div_mod(p, width);
    assert(width * (p / width) == (p / width) * width) by (nonlinear_arith);
}

/// The bytes of a point of a canvas.
pub proof fn lemma_byte_of_point(i: int, stride: int, x: int, y: int)
    requires
        0 <= x,
        4 * x + 4 <= stride,
    ensures
        y * stride + 4 * x <= i < y * stride + 4 * x + 4 <==> column_of(i, stride) == x && row_of(
            i,
            stride,
        ) == y,
        y * stride + 4 * x <= i < y * stride + 4 * x + 4 ==> (i % stride) % 4 == i - (y * stride + 4
            * x),
{
    let k = i - (y * stride + 4 * x);
    if 0 <= k < 4 {
        lemma_fundamental_div_mod_converse(i, stride, y, 4 * x + k);
    }
    lemma_fundamental_div_mod(i, stride);
    assert(stride * (i / stride) == (i / stride) * stride) by (nonlinear_arith);
}

/// On a canvas without gaps between its rows, the row and the column of a byte
/// are those of its pixel.
pub proof fn lemma_rows_without_gaps(i: int, width: int)
    requires
        width > 0,
        0 <= i,
    ensures
        row_of(i, 4 * width) == (i / 4) / width,
        column_of(i, 4 * width) == (i / 4) % width,
        (i % (4 * width)) % 4 == i % 4,
        row_of(i, 4 * width) * (4 * width) + 4 * column_of(i, 4 * width) == 4 * (i / 4),
        0 <= row_of(i, 4 * width),
        0 <= column_of(i, 4 * width) < width,
{
    let p = i / 4;
    let x = p % width;
    let y = p / width;
    lemma_fundamental_div_mod(p, width);
    assert(width * y == y * width) by (nonlinear_arith);
    assert(0 <= x < width && 0 <= y) by (nonlinear_arith)
        requires
            0 <= p,
            0 < width,
            x == p % width,
            y == p / width,
    ;
    assert(y * (4 * width) == 4 * (y * width)) by (nonlinear_arith);
    lemma_byte_of_point(i, 4 * width, x, y);
}

/// What painting a shape does to a point: it has the colour where it belongs to
/// the shape, and is otherwise unchanged.
pub proof fn painted_point(
    before: Seq<u8>,
    stride: int,
    width: int,
    height: int,
    shape: spec_fn(int, int) -> bool,
    color: Seq<u8>,
    x: int,
    y: int,
)
    requires
        holds_point(before, stride, width, height, x, y),
        color.len() == 4,
    ensures
        pixel_at(painted(before, stride, width, height, shape, color), stride, x, y) == (if shape(
            x,
            y,
        ) {
            color
        } else {
            pixel_at(before, stride, x, y)
        }),
{
    let at = y * stride + 4 * x;
    assert(0 <= y * stride) by (nonlinear_arith)
        requires
            0 <= y,
            0 <= stride,
    ;
    let got = pixel_at(painted(before, stride, width, height, shape, color), stride, x, y);
    let wanted = if shape(x, y) {
        color
    } else {
        pixel_at(before, stride, x, y)
    };
    assert forall|k: int| 0 <= k < 4 implies #[trigger] got[k] == wanted[k] by {
        lemma_byte_of_point(at + k, stride, x, y);
    }
    assert(got =~= wanted);
}

/// Colours one pixel.
fn set_pixel(canvas: &mut [u8], p: usize, color: &[u8; 4])
    requires
        p < old(canvas)@.len() / 4,
    ensures
        final(canvas)@ == inked(old(canvas)@, |q: int| q == p, color@),
{
    let i: usize = 4 * p;
    canvas[i] = color[0];
    canvas[i + 1] = color[1];
    canvas[i + 2] = color[2];
    canvas[i + 3] = color[3];
    assert(canvas@ =~= inked(old(canvas)@, |q: int| q == p, color@));
}

/// Colours a point, where it lies on the canvas.
fn plot(canvas: &mut [u8], stride: i64, width: u32, height: u32, x: i128, y: i128, color: &[u8; 4])
    requires
        4 * width <= stride,
    ensures
        final(canvas)@ == painted(
            old(canvas)@,
            stride as int,
            width as int,
            height as int,
            |a: int, b: int| a == x && b == y,
            color@,
        ),
{
    let ghost st = stride as int;
    let ghost before = canvas@;
    let count: usize = canvas.len();
    if 0 <= x && x < width as i128 && 0 <= y && y < height as i128 {
        assert(0 <= y * stride <= 0xffff_ffff * 0x7fff_ffff_ffff_ffff) by (nonlinear_arith)
            requires
                0 <= y <= 0xffff_ffff,
                0 <= stride <= 0x7fff_ffff_ffff_ffff,
        ;
        let index: i128 = y * stride as i128 + 4 * x;
        if index + 3 < count as i128 {
            let i: usize = index as usize;
            canvas[i] = color[0];
            canvas[i + 1] = color[1];
            canvas[i + 2] = color[2];
            canvas[i + 3] = color[3];
        }
        assert forall|j: int| 0 <= j < before.len() implies #[trigger] canvas@[j] == painted(
            before,
            st,
            width as int,
            height as int,
            |a: int, b: int| a == x && b == y,
            color@,
        )[j] by {
            lemma_byte_of_point(j, st, x as int, y as int);
        }
    } else {
        assert forall|j: int| 0 <= j < before.len() implies #[trigger] canvas@[j] == painted(
            before,
            st,
            width as int,
            height as int,
            |a: int, b: int| a == x && b == y,
            color@,
        )[j] by {
            if st > 0 {
                assert(0 <= j / st && 0 <= j % st) by (nonlinear_arith)
                    requires
                        0 <= j,
                        st > 0,
                ;
            }
        }
    }
    assert(canvas@ =~= painted(
        before,
        st,
        width as int,
        height as int,
        |a: int, b: int| a == x && b == y,
        color@,
    ));
}

/// Draws a shape at a place, as far as it lies on the canvas.
pub fn paint<S: Shape>(
    canvas: &mut [u8],
    stride: i64,
    width: u32,
    height: u32,
    left: i128,
    top: i128,
    columns: i64,
    rows: i64,
    shape: &S,
    color: &[u8; 4],
)
    requires
        4 * width <= stride,
        -MAX_OFFSET <= left <= MAX_OFFSET,
        -MAX_OFFSET <= top <= MAX_OFFSET,
        columns <= MAX_EXTENT,
        rows <= MAX_EXTENT,
    ensures
        final(canvas)@ == painted(
            old(canvas)@,
            stride as int,
            width as int,
            height as int,
            |x: int, y: int|
                in_box(x, y, left as int, top as int, columns as int, rows as int) && shape.ink(
                    x - left,
                    y - top,
                ),
            color@,
        ),
{
    let ghost before = canvas@;
    let ghost st = stride as int;
    let ghost w = width as int;
    let ghost h = height as int;
    let mut dy: i64 = 0;
    assert(canvas@ =~= painted(before, st, w, h, |x: int, y: int| false, color@));
    assert(canvas@ =~= painted(
        before,
        st,
        w,
        h,
        |x: int, y: int|
            in_box(x, y, left as int, top as int, columns as int, rows as int) && y - top < 0
                && shape.ink(x - left, y - top),
        color@,
    ));
    while dy < rows
        invariant
            0 <= dy,
            dy <= rows || rows < 0 && dy == 0,
            -MAX_OFFSET <= left <= MAX_OFFSET,
            -MAX_OFFSET <= top <= MAX_OFFSET,
            columns <= MAX_EXTENT,
            rows <= MAX_EXTENT,
            4 * width <= stride,
            st == stride as int,
            w == width as int,
            h == height as int,
            canvas@ == painted(
                before,
                st,
                w,
                h,
                |x: int, y: int|
                    in_box(x, y, left as int, top as int, columns as int, rows as int) && y - top
                        < dy && shape.ink(x - left, y - top),
                color@,
            ),
        decreases rows - dy,
    {
        let mut dx: i64 = 0;
        assert(canvas@ =~= painted(
            before,
            st,
            w,
            h,
            |x: int, y: int|
                in_box(x, y, left as int, top as int, columns as int, rows as int) && (y - top < dy
                    || y - top == dy && x - left < 0) && shape.ink(x - left, y - top),
            color@,
        ));
        while dx < columns
            invariant
                0 <= dy < rows,
                0 <= dx,
                dx <= columns || columns < 0 && dx == 0,
                -MAX_OFFSET <= left <= MAX_OFFSET,
                -MAX_OFFSET <= top <= MAX_OFFSET,
                columns <= MAX_EXTENT,
                rows <= MAX_EXTENT,
                4 * width <= stride,
            st == stride as int,
            w == width as int,
                h == height as int,
                canvas@ == painted(
                    before,
                    st,
                    w,
                    h,
                    |x: int, y: int|
                        in_box(x, y, left as int, top as int, columns as int, rows as int) && (y
                            - top < dy || y - top == dy && x - left < dx) && shape.ink(
                            x - left,
                            y - top,
                        ),
                    color@,
                ),
            decreases columns - dx,
        {
            if shape.has_ink(dx, dy) {
                plot(canvas, stride, width, height, left + dx as i128, top + dy as i128, color);
            }
            dx = dx + 1;
            assert(canvas@ =~= painted(
                before,
                st,
                w,
                h,
                |x: int, y: int|
                    in_box(x, y, left as int, top as int, columns as int, rows as int) && (y - top
                        < dy || y - top == dy && x - left < dx) && shape.ink(x - left, y - top),
                color@,
            ));
        }
        dy = dy + 1;
        assert(canvas@ =~= painted(
            before,
            st,
            w,
            h,
            |x: int, y: int|
                in_box(x, y, left as int, top as int, columns as int, rows as int) && y - top < dy
                    && shape.ink(x - left, y - top),
            color@,
        ));
    }
    assert(canvas@ =~= painted(
        before,
        st,
        w,
        h,
        |x: int, y: int|
            in_box(x, y, left as int, top as int, columns as int, rows as int) && shape.ink(
                x - left,
                y - top,
            ),
        color@,
    ));
}

/// Gives every pixel the same colour.
pub fn clear(canvas: &mut [u8], color: &[u8; 4])
    ensures
        final(canvas)@ == inked(old(canvas)@, |p: int| true, color@),
{
    let ghost before = canvas@;
    let count: usize = canvas.len() / 4;
    let mut p: usize = 0;
    assert(canvas@ =~= inked(before, |q: int| q < 0, color@));
    while p < count
        invariant
            p <= count,
            count == before.len() / 4,
            canvas@ == inked(before, |q: int| q < p, color@),
        decreases count - p,
    {
        set_pixel(canvas, p, color);
        p = p + 1;
        assert(canvas@ =~= inked(before, |q: int| q < p, color@));
    }
    assert(canvas@ =~= inked(before, |q: int| true, color@));
}

/// Fills a rectangle, as far as it lies on the canvas.
pub fn fill_box(
    canvas: &mut [u8],
    stride: i64,
    width: u32,
    height: u32,
    left: i128,
    top: i128,
    columns: i64,
    rows: i64,
    color: &[u8; 4],
)
    requires
        4 * width <= stride,
        -MAX_OFFSET <= left <= MAX_OFFSET,
        -MAX_OFFSET <= top <= MAX_OFFSET,
        columns <= MAX_EXTENT,
        rows <= MAX_EXTENT,
    ensures
        final(canvas)@ == painted(
            old(canvas)@,
            stride as int,
            width as int,
            height as int,
            |x: int, y: int|
                in_box(x, y, left as int, top as int, columns as int, rows as int),
            color@,
        ),
{
    paint(canvas, stride, width, height, left, top, columns, rows, &Solid, color);
    assert(canvas@ =~= painted(
        old(canvas)@,
        stride as int,
        width as int,
        height as int,
        |x: int, y: int| in_box(x, y, left as int, top as int, columns as int, rows as int),
        color@,
    ));
}

/// Draws lines, two pixels thick, along the inner edges of a rectangle.
pub fn stroke_frame(
    canvas: &mut [u8],
    stride: i64,
    width: u32,
    height: u32,
    left: i64,
    top: i64,
    columns: i64,
    rows: i64,
    color: &[u8; 4],
)
    requires
        4 * width <= stride,
        -MAX_EXTENT <= left <= MAX_EXTENT,
        -MAX_EXTENT <= top <= MAX_EXTENT,
        0 <= columns <= MAX_EXTENT,
        0 <= rows <= MAX_EXTENT,
    ensures
        final(canvas)@ == painted(
            old(canvas)@,
            stride as int,
            width as int,
            height as int,
            |x: int, y: int|
                on_frame(x, y, left as int, top as int, columns as int, rows as int),
            color@,
        ),
{
    let ghost before = canvas@;
    let ghost st = stride as int;
    let ghost w = width as int;
    let ghost h = height as int;
    let x: i128 = left as i128;
    let y: i128 = top as i128;
    let right: i128 = x + columns as i128;
    let bottom: i128 = y + rows as i128;
    fill_box(canvas, stride, width, height, x, y, columns, 1, color);
    fill_box(canvas, stride, width, height, x, y + 1, columns, 1, color);
    assert(canvas@ =~= painted(
        before,
        st,
        w,
        h,
        |a: int, b: int| x <= a < right && (b == y || b == y + 1),
        color@,
    ));
    fill_box(canvas, stride, width, height, x, bottom - 1, columns, 1, color);
    fill_box(canvas, stride, width, height, x, bottom - 2, columns, 1, color);
    assert(canvas@ =~= painted(
        before,
        st,
        w,
        h,
        |a: int, b: int|
            x <= a < right && (b == y || b == y + 1 || b == bottom - 1 || b == bottom - 2),
        color@,
    ));
    let ghost lines = canvas@;
    fill_box(canvas, stride, width, height, x, y, 1, rows, color);
    fill_box(canvas, stride, width, height, x + 1, y, 1, rows, color);
    assert(canvas@ =~= painted(
        lines,
        st,
        w,
        h,
        |a: int, b: int| y <= b < bottom && (a == x || a == x + 1),
        color@,
    ));
    fill_box(canvas, stride, width, height, right - 1, y, 1, rows, color);
    fill_box(canvas, stride, width, height, right - 2, y, 1, rows, color);
    assert(canvas@ =~= painted(
        lines,
        st,
        w,
        h,
        |a: int, b: int|
            y <= b < bottom && (a == x || a == x + 1 || a == right - 1 || a == right - 2),
        color@,
    ));
    assert(canvas@ =~= painted(
        before,
        st,
        w,
        h,
        |a: int, b: int| on_frame(a, b, left as int, top as int, columns as int, rows as int),
        color@,
    ));
}

/// A canvas, `width` pixels wide, on which a shape was drawn pixel by pixel
/// without regard to its edges: what lies beyond the right edge shows on the
/// next row.
pub open spec fn streaked(
    before: Seq<u8>,
    width: int,
    left: int,
    top: int,
    columns: int,
    rows: int,
    shape: spec_fn(int, int) -> bool,
    color: Seq<u8>,
) -> Seq<u8> {
    inked(
        before,
        |p: int| streak_covers(p, width, left, top, columns, rows, shape),
        color,
    )
}

/// Whether a shape drawn without regard to the edges covers a pixel.
pub open spec fn streak_covers(
    p: int,
    width: int,
    left: int,
    top: int,
    columns: int,
    rows: int,
    shape: spec_fn(int, int) -> bool,
) -> bool {
    exists|dx: int, dy: int| #[trigger]
        shape(dx, dy) && 0 <= dx < columns && 0 <= dy < rows && p == (top + dy) * width + left + dx
}

/// A shape that lies on the canvas with all its box shows in its place,
/// whether or not the edges are regarded.
pub proof fn streaked_inside(
    before: Seq<u8>,
    width: int,
    height: int,
    left: int,
    top: int,
    columns: int,
    rows: int,
    shape: spec_fn(int, int) -> bool,
    color: Seq<u8>,
)
    requires
        0 <= left,
        left + columns <= width,
        0 <= top,
        top + rows <= height,
    ensures
        streaked(before, width, left, top, columns, rows, shape, color) == painted(
            before,
            4 * width,
            width,
            height,
            |x: int, y: int|
                in_box(x, y, left, top, columns, rows) && shape(x - left, y - top),
            color,
        ),
{
    let plain = |x: int, y: int| in_box(x, y, left, top, columns, rows) && shape(x - left, y - top);
    let after = streaked(before, width, left, top, columns, rows, shape, color);
    let wanted = painted(before, 4 * width, width, height, plain, color);
    assert forall|i: int| 0 <= i < before.len() implies #[trigger] after[i] == wanted[i] by {
        let p = i / 4;
        if streak_covers(p, width, left, top, columns, rows, shape) {
            let (dx, dy) = choose|dx: int, dy: int| #[trigger]
                shape(dx, dy) && 0 <= dx < columns && 0 <= dy < rows && p == (top + dy) * width
                    + left + dx;
            lemma_point_of_index(p, width, left + dx, top + dy);
        }
        if width > 0 {
            lemma_rows_without_gaps(i, width);
            if plain(p % width, p / width) {
                let dx = p % width - left;
                let dy = p / width - top;
                lemma_fundamental_div_mod(p, width);
                assert(width * (p / width) == (p / width) * width) by (nonlinear_arith);
                assert(shape(dx, dy));
            }
        }
    }
    assert(after =~= wanted);
}

/// Draws a shape at a place, without regard to the left and right edge of the
/// canvas.
pub fn paint_streaked<S: Shape>(
    canvas: &mut [u8],
    width: u32,
    left: i64,
    top: i64,
    columns: i64,
    rows: i64,
    shape: &S,
    color: &[u8; 4],
)
    requires
        -MAX_EXTENT <= left <= MAX_EXTENT,
        -MAX_EXTENT <= top <= MAX_EXTENT,
        columns <= MAX_EXTENT,
        rows <= MAX_EXTENT,
    ensures
        final(canvas)@ == streaked(
            old(canvas)@,
            width as int,
            left as int,
            top as int,
            columns as int,
            rows as int,
            |dx: int, dy: int| shape.ink(dx, dy),
            color@,
        ),
{
    let ghost before = canvas@;
    let ghost w = width as int;
    let ghost c = columns as int;
    let ghost r = rows as int;
    let count: usize = canvas.len() / 4;
    let mut dy: i64 = 0;
    let ghost mut done = |a: int, b: int| false;
    assert(canvas@ =~= streaked(before, w, left as int, top as int, c, r, done, color@));
    while dy < rows
        invariant
            0 <= dy,
            dy <= rows || rows < 0 && dy == 0,
            -MAX_EXTENT <= left <= MAX_EXTENT,
            -MAX_EXTENT <= top <= MAX_EXTENT,
            columns <= MAX_EXTENT,
            rows <= MAX_EXTENT,
            w == width as int,
            c == columns as int,
            r == rows as int,
            count == before.len() / 4,
            forall|a: int, b: int| #[trigger]
                done(a, b) <==> 0 <= a < c && 0 <= b < r && b < dy && shape.ink(a, b),
            canvas@ == streaked(before, w, left as int, top as int, c, r, done, color@),
        decreases rows - dy,
    {
        let mut dx: i64 = 0;
        while dx < columns
            invariant
                0 <= dy < rows,
                0 <= dx,
                dx <= columns || columns < 0 && dx == 0,
                -MAX_EXTENT <= left <= MAX_EXTENT,
                -MAX_EXTENT <= top <= MAX_EXTENT,
                columns <= MAX_EXTENT,
                rows <= MAX_EXTENT,
                w == width as int,
                c == columns as int,
                r == rows as int,
                count == before.len() / 4,
                forall|a: int, b: int| #[trigger]
                    done(a, b) <==> 0 <= a < c && 0 <= b < r && (b < dy || b == dy && a < dx)
                        && shape.ink(a, b),
                canvas@ == streaked(before, w, left as int, top as int, c, r, done, color@),
            decreases columns - dx,
        {
            if shape.has_ink(dx, dy) {
                let y: i128 = top as i128 + dy as i128;
                let x: i128 = left as i128 + dx as i128;
                assert(-0x8_0000_0000 * 0xffff_ffff <= y * width <= 0x8_0000_0000 * 0xffff_ffff)
                    by (nonlinear_arith)
                    requires
                        -0x8_0000_0000 <= y <= 0x8_0000_0000,
                        0 <= width <= 0xffff_ffff,
                ;
                let p: i128 = y * width as i128 + x;
                let ghost next = |a: int, b: int| done(a, b) || a == dx && b == dy;
                if 0 <= p && p < count as i128 {
                    set_pixel(canvas, p as usize, color);
                }
                proof {
                    let l = left as int;
                    let t = top as int;
                    assert forall|q: int|
                        streak_covers(q, w, l, t, c, r, next) <==> streak_covers(
                            q,
                            w,
                            l,
                            t,
                            c,
                            r,
                            done,
                        ) || q == p by {
                        if streak_covers(q, w, l, t, c, r, done) {
                            let (a, b) = choose|a: int, b: int| #[trigger]
                                done(a, b) && 0 <= a < c && 0 <= b < r && q == (t + b) * w + l + a;
                            assert(next(a, b));
                        }
                        if q == p {
                            assert(next(dx as int, dy as int));
                        }
                        if streak_covers(q, w, l, t, c, r, next) {
                            let (a, b) = choose|a: int, b: int| #[trigger]
                                next(a, b) && 0 <= a < c && 0 <= b < r && q == (t + b) * w + l + a;
                            assert(done(a, b) || a == dx && b == dy);
                        }
                    }
                    assert(canvas@ =~= streaked(before, w, l, t, c, r, next, color@));
                    done = next;
                }
            }
            dx = dx + 1;
        }
        dy = dy + 1;
    }
    proof {
        let l = left as int;
        let t = top as int;
        let whole = |a: int, b: int| shape.ink(a, b);
        assert forall|q: int|
            streak_covers(q, w, l, t, c, r, whole) <==> streak_covers(q, w, l, t, c, r, done) by {
            if streak_covers(q, w, l, t, c, r, done) {
                let (a, b) = choose|a: int, b: int| #[trigger]
                    done(a, b) && 0 <= a < c && 0 <= b < r && q == (t + b) * w + l + a;
                assert(whole(a, b));
            }
            if streak_covers(q, w, l, t, c, r, whole) {
                let (a, b) = choose|a: int, b: int| #[trigger]
                    whole(a, b) && 0 <= a < c && 0 <= b < r && q == (t + b) * w + l + a;
                assert(done(a, b));
            }
        }
        assert(canvas@ =~= streaked(before, w, l, t, c, r, whole, color@));
    }
}

/// A canvas without gaps between its rows, on which the points for which `tint`
/// gives a colour have it.
pub open spec fn tinted(
    before: Seq<u8>,
    width: int,
    height: int,
    tint: spec_fn(int, int) -> Option<Seq<u8>>,
) -> Seq<u8> {
    let stride = 4 * width;
    Seq::new(
        before.len(),
        |i: int|
            if on_canvas(i, before.len() as int, stride, width, height) && tint(
                column_of(i, stride),
                row_of(i, stride),
            ) is Some {
                tint(column_of(i, stride), row_of(i, stride))->0[(i % stride) % 4]
            } else {
                before[i]
            },
    )
}

/// A picture that has a colour at some points, relative to an origin of its
/// own.
pub trait Tint {
    spec fn tint(&self, dx: int, dy: int) -> Option<Seq<u8>>;

    /// The points at which the picture can be asked for its colour.
    spec fn extent(&self, columns: int, rows: int) -> bool;

    /// The colour of a point.
    fn tint_at(&self, dx: u32, dy: u32) -> (r: Option<[u8; 4]>)
        requires
            self.extent(dx + 1, dy + 1),
        ensures
            match r {
                Some(color) => self.tint(dx as int, dy as int) == Some(color@),
                None => self.tint(dx as int, dy as int) is None,
            },
    ;
}

/// Draws a picture at a place, as far as it lies on the canvas.
pub fn paint_tinted<T: Tint>(
    canvas: &mut [u8],
    width: u32,
    height: u32,
    left: u32,
    top: u32,
    columns: u32,
    rows: u32,
    picture: &T,
)
    requires
        forall|c: int, r: int|
            0 < c <= columns && 0 < r <= rows ==> #[trigger] picture.extent(c, r),
    ensures
        final(canvas)@ == tinted(
            old(canvas)@,
            width as int,
            height as int,
            |x: int, y: int|
                if in_box(x, y, left as int, top as int, columns as int, rows as int) {
                    picture.tint(x - left, y - top)
                } else {
                    None
                },
        ),
{
    let ghost before = canvas@;
    let ghost w = width as int;
    let ghost h = height as int;
    let mut dy: u32 = 0;
    let ghost mut done = |x: int, y: int| None::<Seq<u8>>;
    assert(canvas@ =~= tinted(before, w, h, done));
    while dy < rows
        invariant
            dy <= rows,
            w == width as int,
            h == height as int,
            forall|c: int, r: int|
                0 < c <= columns && 0 < r <= rows ==> #[trigger] picture.extent(c, r),
            forall|x: int, y: int| #[trigger]
                done(x, y) == (if in_box(
                    x,
                    y,
                    left as int,
                    top as int,
                    columns as int,
                    dy as int,
                ) {
                    picture.tint(x - left, y - top)
                } else {
                    None
                }),
            canvas@ == tinted(before, w, h, done),
        decreases rows - dy,
    {
        let mut dx: u32 = 0;
        while dx < columns
            invariant
                dx <= columns,
                dy < rows,
                w == width as int,
                h == height as int,
                forall|c: int, r: int|
                    0 < c <= columns && 0 < r <= rows ==> #[trigger] picture.extent(c, r),
                forall|x: int, y: int| #[trigger]
                    done(x, y) == (if in_box(
                        x,
                        y,
                        left as int,
                        top as int,
                        columns as int,
                        dy as int,
                    ) || left <= x < left + dx && y == top + dy {
                        picture.tint(x - left, y - top)
                    } else {
                        None
                    }),
                canvas@ == tinted(before, w, h, done),
            decreases columns - dx,
        {
            let ghost next = |x: int, y: int|
                if x == left + dx && y == top + dy {
                    picture.tint(dx as int, dy as int)
                } else {
                    done(x, y)
                };
            let color: Option<[u8; 4]> = picture.tint_at(dx, dy);
            match color {
                Some(color) => {
                    plot(
                        canvas,
                        4 * width as i64,
                        width,
                        height,
                        left as i128 + dx as i128,
                        top as i128 + dy as i128,
                        &color,
                    );
                },
                None => {},
            }
            proof {
                assert(done(left + dx, top + dy) is None);
                assert(canvas@ =~= tinted(before, w, h, next));
                done = next;
            }
            dx = dx + 1;
        }
        dy = dy + 1;
    }
    assert(canvas@ =~= tinted(
        before,
        w,
        h,
        |x: int, y: int|
            if in_box(x, y, left as int, top as int, columns as int, rows as int) {
                picture.tint(x - left, y - top)
            } else {
                None
            },
    ));
}

/// What laying a picture over a canvas does to a point: it has the colour of the
/// picture there, if that has one, and is otherwise unchanged.
pub proof fn tinted_point(
    before: Seq<u8>,
    width: int,
    height: int,
    tint: spec_fn(int, int) -> Option<Seq<u8>>,
    x: int,
    y: int,
)
    requires
        holds_point(before, 4 * width, width, height, x, y),
        tint(x, y) matches Some(color) ==> color.len() == 4,
    ensures
        tinted(before, width, height, tint).len() == before.len(),
        pixel_at(tinted(before, width, height, tint), 4 * width, x, y) == (match tint(x, y) {
            Some(color) => color,
            None => pixel_at(before, 4 * width, x, y),
        }),
{
    let stride = 4 * width;
    let at = y * stride + 4 * x;
    assert(0 <= y * stride) by (nonlinear_arith)
        requires
            0 <= y,
            0 <= stride,
    ;
    let got = pixel_at(tinted(before, width, height, tint), stride, x, y);
    let wanted = match tint(x, y) {
        Some(color) => color,
        None => pixel_at(before, stride, x, y),
    };
    assert forall|k: int| 0 <= k < 4 implies #[trigger] got[k] == wanted[k] by {
        lemma_byte_of_point(at + k, stride, x, y);
    }
    assert(got =~= wanted);
}

/// A byte that belongs to no point of the canvas, because it lies in a gap
/// between two rows, beyond the last row, or in a pixel that the canvas does not
/// hold whole, is never painted.
pub proof fn painting_stays_on_canvas(
    before: Seq<u8>,
    stride: int,
    width: int,
    height: int,
    shape: spec_fn(int, int) -> bool,
    color: Seq<u8>,
    i: int,
)
    requires
        0 <= i < before.len(),
        0 <= 4 * width <= stride,
        forall|x: int, y: int|
            #![trigger holds_point(before, stride, width, height, x, y)]
            holds_point(before, stride, width, height, x, y) ==> !(y * stride + 4 * x <= i < y
                * stride + 4 * x + 4),
    ensures
        painted(before, stride, width, height, shape, color).len() == before.len(),
        painted(before, stride, width, height, shape, color)[i] == before[i],
{
    let x = column_of(i, stride);
    let y = row_of(i, stride);
    if on_canvas(i, before.len() as int, stride, width, height) {
        assert(0 <= x && 0 <= y) by (nonlinear_arith)
            requires
                0 <= i,
                0 < stride,
                x == (i % stride) / 4,
                y == i / stride,
        ;
        assert(holds_point(before, stride, width, height, x, y));
        lemma_byte_of_point(i, stride, x, y);
    }
}

/// A frame is what lies in a rectangle, but not in the one that is two pixels
/// smaller on each side.
pub proof fn frame_is_box_without_inside(
    x: int,
    y: int,
    left: int,
    top: int,
    width: int,
    height: int,
)
    requires
        width >= 2,
        height >= 2,
    ensures
        on_frame(x, y, left, top, width, height) <==> left <= x < left + width && top <= y < top
            + height && !(left + 2 <= x < left + width - 2 && top + 2 <= y < top + height - 2),
{
}

/// Colouring every pixel of a canvas gives each of them that colour; bytes that
/// do not fill a pixel stay.
pub proof fn cleared_pixel(before: Seq<u8>, color: Seq<u8>, p: int)
    requires
        color.len() == 4,
        0 <= p,
        4 * p + 4 <= before.len(),
    ensures
        inked(before, |q: int| true, color).len() == before.len(),
        inked(before, |q: int| true, color).subrange(4 * p, 4 * p + 4) == color,
        forall|i: int|
            before.len() / 4 * 4 <= i < before.len() ==> inked(before, |q: int| true, color)[i]
                == #[trigger] before[i],
{
    let after = inked(before, |q: int| true, color);
    let got = after.subrange(4 * p, 4 * p + 4);
    assert forall|k: int| 0 <= k < 4 implies #[trigger] got[k] == color[k] by {
        assert((4 * p + k) / 4 == p);
    }
    assert(got =~= color);
}

/// What drawing a shape without regard to the edges does to a point, where the
/// box of the shape lies on the canvas.
pub proof fn streaked_point(
    before: Seq<u8>,
    width: int,
    height: int,
    left: int,
    top: int,
    columns: int,
    rows: int,
    shape: spec_fn(int, int) -> bool,
    color: Seq<u8>,
    x: int,
    y: int,
)
    requires
        0 <= left,
        left + columns <= width,
        0 <= top,
        top + rows <= height,
        holds_point(before, 4 * width, width, height, x, y),
        color.len() == 4,
    ensures
        streaked(before, width, left, top, columns, rows, shape, color).len() == before.len(),
        pixel_at(
            streaked(before, width, left, top, columns, rows, shape, color),
            4 * width,
            x,
            y,
        ) == (if left <= x < left + columns && top <= y < top + rows && shape(x - left, y - top) {
            color
        } else {
            pixel_at(before, 4 * width, x, y)
        }),
{
    streaked_inside(before, width, height, left, top, columns, rows, shape, color);
    painted_point(
        before,
        4 * width,
        width,
        height,
        |x: int, y: int| in_box(x, y, left, top, columns, rows) && shape(x - left, y - top),
        color,
        x,
        y,
    );
}

/// A shape that is drawn without regard to the edges colours the pixels at which
/// its points stand when the rows of the canvas are laid end to end, and no
/// others.
pub proof fn streaks_run_on(
    before: Seq<u8>,
    width: int,
    left: int,
    top: int,
    columns: int,
    rows: int,
    shape: spec_fn(int, int) -> bool,
    color: Seq<u8>,
    dx: int,
    dy: int,
)
    requires
        color.len() == 4,
        0 <= dx < columns,
        0 <= dy < rows,
        shape(dx, dy),
        0 <= (top + dy) * width + left + dx < before.len() / 4,
    ensures
        ({
            let p = (top + dy) * width + left + dx;
            streaked(before, width, left, top, columns, rows, shape, color).subrange(
                4 * p,
                4 * p + 4,
            ) == color
        }),
{
    let p = (top + dy) * width + left + dx;
    let after = streaked(before, width, left, top, columns, rows, shape, color);
    let got = after.subrange(4 * p, 4 * p + 4);
    assert(streak_covers(p, width, left, top, columns, rows, shape));
    assert forall|k: int| 0 <= k < 4 implies #[trigger] got[k] == color[k] by {
        assert((4 * p + k) / 4 == p && (4 * p + k) % 4 == k);
    }
    assert(got =~= color);
}

/// A shape that is drawn without regard to the edges leaves every pixel alone at
/// which none of its points stands.
pub proof fn streaks_touch_nothing_else(
    before: Seq<u8>,
    width: int,
    left: int,
    top: int,
    columns: int,
    rows: int,
    shape: spec_fn(int, int) -> bool,
    color: Seq<u8>,
    i: int,
)
    requires
        0 <= i < before.len(),
        forall|dx: int, dy: int|
            0 <= dx < columns && 0 <= dy < rows && #[trigger] shape(dx, dy) ==> i / 4 != (top + dy)
                * width + left + dx,
    ensures
        streaked(before, width, left, top, columns, rows, shape, color).len() == before.len(),
        streaked(before, width, left, top, columns, rows, shape, color)[i] == before[i],
{
}

} // verus!
