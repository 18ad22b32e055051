//! Text on a canvas, from the glyphs of a font or from a built-in set of
//! segments.

use crate::pixels::{
    column_of, holds_point, in_box, lemma_byte_of_point, on_canvas, paint, painted, painted_point,
    pixel_at, row_of, Shape, MAX_OFFSET,
};
use crate::text::{chars_of, is_digit};
use vstd::prelude::*;

verus! {

/// The size of the text, in pixels.
pub const FONT_SIZE: u16 = 14;

/// How far apart built-in characters stand.
pub const ADVANCE: i64 = 8;

/// A rasterised character: which one it is, the place of its bitmap relative to
/// its origin, the distance to the next character, and how much of each pixel
/// it covers.
#[derive(Debug, Clone, PartialEq, Eq)]
pub struct Glyph {
    pub ch: char,
    pub xmin: i32,
    pub ymin: i32,
    pub width: u32,
    pub height: u32,
    pub advance: i32,
    pub bitmap: Vec<u8>,
}

impl Glyph {
    /// The bitmap holds all its rows.
    pub open spec fn wf(self) -> bool {
        self.bitmap@.len() == self.height * self.width
    }

    /// How much of a point of the bitmap the character covers.
    pub open spec fn coverage(self, dx: int, dy: int) -> u8 {
        self.bitmap@[dy * self.width + dx]
    }

    /// Whether a point belongs to the bitmap and is covered at all.
    pub open spec fn covers(self, dx: int, dy: int) -> bool {
        in_box(dx, dy, 0, 0, self.width as int, self.height as int) && self.coverage(dx, dy) > 0
    }
}

/// A colour channel laid over another one with the given opacity.
pub open spec fn mixed(over: u8, under: u8, alpha: u8) -> u8 {
    ((over * alpha + under * (255 - alpha)) / 255) as u8
}

/// A byte of a canvas after a pixel of the given colour and opacity was laid
/// over it.
pub open spec fn shaded(under: u8, channel: int, color: Seq<u8>, alpha: u8) -> u8 {
    if channel == 3 {
        255
    } else {
        mixed(color[channel], under, alpha)
    }
}

/// A canvas with a glyph on it, the bitmap at the given place, as far as it
/// lies on the canvas.
pub open spec fn with_glyph(
    before: Seq<u8>,
    stride: int,
    width: int,
    height: int,
    left: int,
    top: int,
    glyph: Glyph,
    color: Seq<u8>,
) -> Seq<u8> {
    Seq::new(
        before.len(),
        |i: int|
            {
                let dx = column_of(i, stride) - left;
                let dy = row_of(i, stride) - top;
                if on_canvas(i, before.len() as int, stride, width, height) && glyph.covers(
                    dx,
                    dy,
                ) {
                    shaded(before[i], (i % stride) % 4, color, glyph.coverage(dx, dy))
                } else {
                    before[i]
                }
            },
    )
}

/// The width of a run of glyphs.
pub open spec fn advance_of(glyphs: Seq<Glyph>) -> int
    decreases glyphs.len(),
{
    if glyphs.len() == 0 {
        0
    } else {
        advance_of(glyphs.drop_last()) + glyphs.last().advance
    }
}

/// A canvas with a run of glyphs on it, the first one at `x`, in a line whose
/// top is at `y`.
pub open spec fn with_glyphs(
    before: Seq<u8>,
    stride: int,
    width: int,
    height: int,
    x: int,
    y: int,
    glyphs: Seq<Glyph>,
    size: int,
    color: Seq<u8>,
) -> Seq<u8>
    decreases glyphs.len(),
{
    if glyphs.len() == 0 {
        before
    } else {
        let first = glyphs.drop_last();
        let glyph = glyphs.last();
        with_glyph(
            with_glyphs(before, stride, width, height, x, y, first, size, color),
            stride,
            width,
            height,
            x + advance_of(first) + glyph.xmin,
            y + size - glyph.height - glyph.ymin,
            glyph,
            color,
        )
    }
}

/// Which of the segments of a digit are on: top, upper left, upper right,
/// middle, lower left, lower right, bottom.
pub open spec fn segments(ch: char) -> Seq<bool> {
    if ch == '0' {
        seq![true, true, true, true, true, true, false]
    } else if ch == '1' {
        seq![false, true, true, false, false, false, false]
    } else if ch == '2' {
        seq![true, true, false, true, true, false, true]
    } else if ch == '3' {
        seq![true, true, true, true, false, false, true]
    } else if ch == '4' {
        seq![false, true, true, false, false, true, true]
    } else if ch == '5' {
        seq![true, false, true, true, false, true, true]
    } else if ch == '6' {
        seq![true, false, true, true, true, true, true]
    } else if ch == '7' {
        seq![true, true, true, false, false, false, false]
    } else if ch == '8' {
        seq![true, true, true, true, true, true, true]
    } else if ch == '9' {
        seq![true, true, true, true, false, true, true]
    } else {
        seq![false, false, false, false, false, false, false]
    }
}

/// The points of a built-in character, in a box six pixels wide and ten
/// pixels high: the segments of a digit, or a small cross for an `x`.
pub open spec fn char_ink(ch: char, dx: int, dy: int) -> bool {
    let s = segments(ch);
    ||| is_digit(ch) && 1 <= dx <= 4 && dy == 0 && s[0]
    ||| is_digit(ch) && dx == 0 && 1 <= dy <= 4 && s[1]
    ||| is_digit(ch) && dx == 5 && 1 <= dy <= 4 && s[2]
    ||| is_digit(ch) && 1 <= dx <= 4 && dy == 4 && s[3]
    ||| is_digit(ch) && dx == 0 && 5 <= dy <= 8 && s[4]
    ||| is_digit(ch) && dx == 5 && 5 <= dy <= 8 && s[5]
    ||| is_digit(ch) && 1 <= dx <= 4 && dy == 9 && s[6]
    ||| ch == 'x' && (dx == 1 || dx == 4) && (dy == 3 || dy == 6)
    ||| ch == 'x' && (dx == 2 || dx == 3) && (dy == 4 || dy == 5)
}

/// A canvas with a built-in character on it.
pub open spec fn with_char(
    before: Seq<u8>,
    stride: int,
    width: int,
    height: int,
    left: int,
    top: int,
    ch: char,
    color: Seq<u8>,
) -> Seq<u8> {
    painted(
        before,
        stride,
        width,
        height,
        |x: int, y: int| in_box(x, y, left, top, 6, 10) && char_ink(ch, x - left, y - top),
        color,
    )
}

/// A canvas with a text of built-in characters on it.
pub open spec fn with_chars(
    before: Seq<u8>,
    stride: int,
    width: int,
    height: int,
    left: int,
    top: int,
    text: Seq<char>,
    color: Seq<u8>,
) -> Seq<u8>
    decreases text.len(),
{
    if text.len() == 0 {
        before
    } else {
        with_char(
            with_chars(before, stride, width, height, left, top, text.drop_last(), color),
            stride,
            width,
            height,
            left + ADVANCE * (text.len() - 1),
            top,
            text.last(),
            color,
        )
    }
}

/// A canvas with a text on it: the glyphs, where a font gave them, and
/// otherwise built-in characters.
pub open spec fn with_text(
    before: Seq<u8>,
    stride: int,
    width: int,
    height: int,
    x: int,
    y: int,
    text: Seq<char>,
    glyphs: Option<Seq<Glyph>>,
    size: int,
    color: Seq<u8>,
) -> Seq<u8> {
    match glyphs {
        Some(glyphs) => with_glyphs(before, stride, width, height, x, y, glyphs, size, color),
        None => with_chars(before, stride, width, height, x, y, text, color),
    }
}

/// The points of one built-in character.
struct CharShape {
    digit: bool,
    cross: bool,
    segments: [bool; 7],
    ch: Ghost<char>,
}

impl CharShape {
    spec fn wf(self) -> bool {
        &&& self.digit == is_digit(self.ch@)
        &&& self.cross == (self.ch@ == 'x')
        &&& self.segments@ == segments(self.ch@)
    }

    #[verifier::type_invariant]
    spec fn consistent(self) -> bool {
        self.wf()
    }
}

impl Shape for CharShape {
    closed spec fn ink(&self, dx: int, dy: int) -> bool {
        char_ink(self.ch@, dx, dy)
    }

    fn has_ink(&self, dx: i64, dy: i64) -> bool {
        proof {
            use_type_invariant(self);
        }
        let s: [bool; 7] = self.segments;
        if self.digit {
            let inner: bool = 1 <= dx && dx <= 4;
            let upper: bool = 1 <= dy && dy <= 4;
            let lower: bool = 5 <= dy && dy <= 8;
            (inner && dy == 0 && s[0]) || (dx == 0 && upper && s[1]) || (dx == 5 && upper && s[2])
                || (inner && dy == 4 && s[3]) || (dx == 0 && lower && s[4]) || (dx == 5 && lower
                && s[5]) || (inner && dy == 9 && s[6])
        } else if self.cross {
            ((dx == 1 || dx == 4) && (dy == 3 || dy == 6)) || ((dx == 2 || dx == 3) && (dy == 4
                || dy == 5))
        } else {
            false
        }
    }
}

/// The points of a built-in character.
fn char_shape(ch: char) -> (r: CharShape)
    ensures
        r.ch@ == ch,
{
    let segments: [bool; 7] = match ch {
        '0' => [true, true, true, true, true, true, false],
        '1' => [false, true, true, false, false, false, false],
        '2' => [true, true, false, true, true, false, true],
        '3' => [true, true, true, true, false, false, true],
        '4' => [false, true, true, false, false, true, true],
        '5' => [true, false, true, true, false, true, true],
        '6' => [true, false, true, true, true, true, true],
        '7' => [true, true, true, false, false, false, false],
        '8' => [true, true, true, true, true, true, true],
        '9' => [true, true, true, true, false, true, true],
        _ => [false, false, false, false, false, false, false],
    };
    let u: u32 = ch as u32;
    assert(segments@ =~= self::segments(ch));
    CharShape { digit: 48 <= u && u <= 57, cross: ch == 'x', segments, ch: Ghost(ch) }
}

/// Draws a built-in character at a place that need not fit into 64 bits.
fn draw_char_at(
    canvas: &mut [u8],
    stride: i64,
    width: u32,
    height: u32,
    x: i128,
    y: i128,
    ch: char,
    color: &[u8; 4],
)
    requires
        4 * width <= stride,
        -MAX_OFFSET <= x <= MAX_OFFSET,
        -MAX_OFFSET <= y <= MAX_OFFSET,
    ensures
        final(canvas)@ == with_char(
            old(canvas)@,
            stride as int,
            width as int,
            height as int,
            x as int,
            y as int,
            ch,
            color@,
        ),
{
    let shape: CharShape = char_shape(ch);
    paint(canvas, stride, width, height, x, y, 6, 10, &shape, color);
    assert(canvas@ =~= with_char(
        old(canvas)@,
        stride as int,
        width as int,
        height as int,
        x as int,
        y as int,
        ch,
        color@,
    ));
}

/// Draws a built-in character.
pub fn draw_char_simple(
    canvas: &mut [u8],
    stride: i64,
    width: u32,
    height: u32,
    x: i64,
    y: i64,
    ch: char,
    color: &[u8; 4],
)
    requires
        4 * width <= stride,
    ensures
        final(canvas)@ == with_char(
            old(canvas)@,
            stride as int,
            width as int,
            height as int,
            x as int,
            y as int,
            ch,
            color@,
        ),
{
    draw_char_at(canvas, stride, width, height, x as i128, y as i128, ch, color);
}

/// Draws a text of built-in characters.
pub fn draw_text_fallback(
    canvas: &mut [u8],
    stride: i64,
    width: u32,
    height: u32,
    x: i64,
    y: i64,
    text: &str,
    color: &[u8; 4],
)
    requires
        4 * width <= stride,
    ensures
        final(canvas)@ == with_chars(
            old(canvas)@,
            stride as int,
            width as int,
            height as int,
            x as int,
            y as int,
            text@,
            color@,
        ),
{
    let chars: Vec<char> = chars_of(text);
    let count: usize = chars.len();
    let mut i: usize = 0;
    let mut cursor: i128 = x as i128;
    assert(chars@.take(0) =~= Seq::<char>::empty());
    while i < count
        invariant
            4 * width <= stride,
            chars@ == text@,
            i <= count == chars@.len(),
            cursor == x + ADVANCE * i,
            canvas@ == with_chars(
                old(canvas)@,
                stride as int,
                width as int,
                height as int,
                x as int,
                y as int,
                chars@.take(i as int),
                color@,
            ),
        decreases chars@.len() - i,
    {
        draw_char_at(canvas, stride, width, height, cursor, y as i128, chars[i], color);
        assert(chars@.take(i + 1).drop_last() =~= chars@.take(i as int));
        cursor = cursor + ADVANCE as i128;
        i = i + 1;
    }
    assert(chars@.take(chars@.len() as int) =~= chars@);
}

/// A canvas with one point laid over it.
spec fn with_point(
    before: Seq<u8>,
    stride: int,
    width: int,
    height: int,
    x: int,
    y: int,
    alpha: u8,
    color: Seq<u8>,
) -> Seq<u8> {
    Seq::new(
        before.len(),
        |i: int|
            if on_canvas(i, before.len() as int, stride, width, height) && column_of(i, stride) == x
                && row_of(i, stride) == y {
                shaded(before[i], (i % stride) % 4, color, alpha)
            } else {
                before[i]
            },
    )
}

/// Lays a point over the canvas, where it lies on it.
fn blend(
    canvas: &mut [u8],
    stride: i64,
    width: u32,
    height: u32,
    x: i128,
    y: i128,
    alpha: u8,
    color: &[u8; 4],
)
    requires
        4 * width <= stride,
    ensures
        final(canvas)@ == with_point(
            old(canvas)@,
            stride as int,
            width as int,
            height as int,
            x as int,
            y as int,
            alpha,
            color@,
        ),
{
    let ghost before = canvas@;
    let ghost st = stride as int;
    let ghost wanted = with_point(
        before,
        st,
        width as int,
        height as int,
        x as int,
        y as int,
        alpha,
        color@,
    );
    let count: usize = canvas.len();
    if 0 <= x && x < width as i128 && 0 <= y && y < height as i128 {
        assert(0 <= y * stride <= 0xffff_ffff * 0x7fff_ffff_ffff_ffff) by (nonlinear_arith)
            requires
                0 <= y <= 0xffff_ffff,
                0 <= stride <= 0x7fff_ffff_ffff_ffff,
        ;
        let index: i128 = y * stride as i128 + 4 * x;
        if index + 3 < count as i128 {
            let i: usize = index as usize;
            canvas[i] = mix(color[0], canvas[i], alpha);
            canvas[i + 1] = mix(color[1], canvas[i + 1], alpha);
            canvas[i + 2] = mix(color[2], canvas[i + 2], alpha);
            canvas[i + 3] = 255;
        }
        assert forall|j: int| 0 <= j < before.len() implies #[trigger] canvas@[j] == wanted[j] by {
            lemma_byte_of_point(j, st, x as int, y as int);
        }
    } else {
        assert forall|j: int| 0 <= j < before.len() implies #[trigger] canvas@[j] == wanted[j] by {
            if st > 0 {
                assert(0 <= j / st && 0 <= j % st) by (nonlinear_arith)
                    requires
                        0 <= j,
                        st > 0,
                ;
            }
        }
    }
    assert(canvas@ =~= wanted);
}

/// Lays a colour channel over another one.
fn mix(over: u8, under: u8, alpha: u8) -> (r: u8)
    ensures
        r == mixed(over, under, alpha),
        255 * r <= over * alpha + under * (255 - alpha) < 255 * r + 255,
{
    assert(0 <= over * alpha <= 255 * alpha) by (nonlinear_arith)
        requires
            0 <= over <= 255,
            0 <= alpha,
    ;
    assert(0 <= under * (255 - alpha) <= 255 * (255 - alpha)) by (nonlinear_arith)
        requires
            0 <= under <= 255,
            0 <= alpha <= 255,
    ;
    let sum: u32 = over as u32 * alpha as u32 + under as u32 * (255 - alpha as u32);
    (sum / 255) as u8
}

/// Whether the rows above `dy`, and of row `dy` the points before `dx`, hold a
/// point.
spec fn visited(x: int, y: int, dx: int, dy: int) -> bool {
    y < dy || y == dy && x < dx
}

/// A canvas on which a glyph was drawn up to a point of its bitmap.
spec fn with_part(
    before: Seq<u8>,
    stride: int,
    width: int,
    height: int,
    left: int,
    top: int,
    glyph: Glyph,
    color: Seq<u8>,
    dx: int,
    dy: int,
) -> Seq<u8> {
    Seq::new(
        before.len(),
        |i: int|
            {
                let x = column_of(i, stride) - left;
                let y = row_of(i, stride) - top;
                if on_canvas(i, before.len() as int, stride, width, height) && glyph.covers(x, y)
                    && visited(x, y, dx, dy) {
                    shaded(before[i], (i % stride) % 4, color, glyph.coverage(x, y))
                } else {
                    before[i]
                }
            },
    )
}

/// Draws a glyph with its bitmap at the given place.
fn draw_glyph(
    canvas: &mut [u8],
    stride: i64,
    width: u32,
    height: u32,
    left: i128,
    top: i128,
    glyph: &Glyph,
    color: &[u8; 4],
)
    requires
        4 * width <= stride,
        glyph.wf(),
        -MAX_OFFSET <= left <= MAX_OFFSET,
        -MAX_OFFSET <= top <= MAX_OFFSET,
    ensures
        final(canvas)@ == with_glyph(
            old(canvas)@,
            stride as int,
            width as int,
            height as int,
            left as int,
            top as int,
            *glyph,
            color@,
        ),
{
    let ghost before = canvas@;
    let ghost st = stride as int;
    let ghost w = width as int;
    let ghost h = height as int;
    let ghost l = left as int;
    let ghost t = top as int;
    let total: usize = glyph.bitmap.len();
    let mut dy: u32 = 0;
    let mut index: usize = 0;
    assert(0int == 0 * glyph.width) by (nonlinear_arith);
    assert(canvas@ =~= with_part(before, st, w, h, l, t, *glyph, color@, 0, 0));
    while dy < glyph.height
        invariant
            4 * width <= stride,
            dy <= glyph.height,
            glyph.wf(),
            total == glyph.bitmap@.len(),
            -MAX_OFFSET <= left <= MAX_OFFSET,
            -MAX_OFFSET <= top <= MAX_OFFSET,
            st == stride as int,
            w == width as int,
            h == height as int,
            l == left as int,
            t == top as int,
            index == dy * glyph.width,
            canvas@ == with_part(before, st, w, h, l, t, *glyph, color@, 0, dy as int),
        decreases glyph.height - dy,
    {
        let mut dx: u32 = 0;
        assert(dy * glyph.width + glyph.width <= glyph.height * glyph.width) by (nonlinear_arith)
            requires
                0 <= dy < glyph.height,
                0 <= glyph.width,
        ;
        while dx < glyph.width
            invariant
                4 * width <= stride,
                dx <= glyph.width,
                dy < glyph.height,
                glyph.wf(),
                total == glyph.bitmap@.len(),
                dy * glyph.width + glyph.width <= total,
                -MAX_OFFSET <= left <= MAX_OFFSET,
                -MAX_OFFSET <= top <= MAX_OFFSET,
                st == stride as int,
                w == width as int,
                h == height as int,
                l == left as int,
                t == top as int,
                index == dy * glyph.width + dx,
                canvas@ == with_part(before, st, w, h, l, t, *glyph, color@, dx as int, dy as int),
            decreases glyph.width - dx,
        {
            let alpha: u8 = glyph.bitmap[index];
            let x: i128 = left + dx as i128;
            let y: i128 = top + dy as i128;
            if alpha > 0 {
                blend(canvas, stride, width, height, x, y, alpha, color);
            }
            assert(alpha == glyph.coverage(dx as int, dy as int));
            assert(canvas@ =~= with_part(
                before,
                st,
                w,
                h,
                l,
                t,
                *glyph,
                color@,
                dx + 1,
                dy as int,
            ));
            index = index + 1;
            dx = dx + 1;
        }
        assert((dy + 1) * glyph.width == dy * glyph.width + glyph.width) by (nonlinear_arith);
        dy = dy + 1;
        assert(canvas@ =~= with_part(before, st, w, h, l, t, *glyph, color@, 0, dy as int));
    }
    assert(canvas@ =~= with_glyph(before, st, w, h, l, t, *glyph, color@));
}

/// The glyphs are complete, and they are those of the text, one for each of its
/// characters.
pub open spec fn spell(glyphs: Seq<Glyph>, text: Seq<char>) -> bool {
    &&& glyphs.len() == text.len()
    &&& forall|i: int|
        0 <= i < glyphs.len() ==> (#[trigger] glyphs[i]).wf() && glyphs[i].ch == text[i]
}

/// Draws a text with its glyphs, the first one at `x`, in a line whose top is
/// at `y`.
pub fn draw_text_with_font(
    canvas: &mut [u8],
    stride: i64,
    width: u32,
    height: u32,
    x: i64,
    y: i64,
    text: &str,
    glyphs: &Vec<Glyph>,
    size: u16,
    color: &[u8; 4],
)
    requires
        4 * width <= stride,
        spell(glyphs@, text@),
    ensures
        final(canvas)@ == with_glyphs(
            old(canvas)@,
            stride as int,
            width as int,
            height as int,
            x as int,
            y as int,
            glyphs@,
            size as int,
            color@,
        ),
{
    let count: usize = glyphs.len();
    let mut cursor: i128 = x as i128;
    let mut i: usize = 0;
    assert(glyphs@.take(0) =~= Seq::<Glyph>::empty());
    while i < count
        invariant
            4 * width <= stride,
            i <= count == glyphs@.len(),
            spell(glyphs@, text@),
            cursor == x + advance_of(glyphs@.take(i as int)),
            -0x8000_0000 * i <= cursor - x <= 0x7fff_ffff * i,
            canvas@ == with_glyphs(
                old(canvas)@,
                stride as int,
                width as int,
                height as int,
                x as int,
                y as int,
                glyphs@.take(i as int),
                size as int,
                color@,
            ),
        decreases glyphs@.len() - i,
    {
        let glyph: &Glyph = &glyphs[i];
        assert(glyphs@[i as int].wf());
        let left: i128 = cursor + glyph.xmin as i128;
        let top: i128 = y as i128 + size as i128 - glyph.height as i128 - glyph.ymin as i128;
        draw_glyph(canvas, stride, width, height, left, top, glyph, color);
        assert(glyphs@.take(i + 1).drop_last() =~= glyphs@.take(i as int));
        cursor = cursor + glyph.advance as i128;
        i = i + 1;
    }
    assert(glyphs@.take(glyphs@.len() as int) =~= glyphs@);
}

/// The glyphs of a text that may be missing.
pub open spec fn glyphs_of(glyphs: Option<Vec<Glyph>>) -> Option<Seq<Glyph>> {
    match glyphs {
        Some(glyphs) => Some(glyphs@),
        None => None,
    }
}

/// The glyphs, where there are any, are those of the text.
pub open spec fn glyphs_spell(glyphs: Option<Vec<Glyph>>, text: Seq<char>) -> bool {
    glyphs matches Some(glyphs) ==> spell(glyphs@, text)
}

/// Draws a text: its glyphs, where a font gave them, and otherwise built-in
/// characters.
pub fn draw_text(
    canvas: &mut [u8],
    stride: i64,
    width: u32,
    height: u32,
    x: i64,
    y: i64,
    text: &str,
    glyphs: &Option<Vec<Glyph>>,
    size: u16,
    color: &[u8; 4],
)
    requires
        4 * width <= stride,
        glyphs_spell(*glyphs, text@),
    ensures
        final(canvas)@ == with_text(
            old(canvas)@,
            stride as int,
            width as int,
            height as int,
            x as int,
            y as int,
            text@,
            glyphs_of(*glyphs),
            size as int,
            color@,
        ),
{
    match glyphs {
        Some(glyphs) => {
            draw_text_with_font(canvas, stride, width, height, x, y, text, glyphs, size, color);
        },
        None => {
            draw_text_fallback(canvas, stride, width, height, x, y, text, color);
        },
    }
}

/// An eight lights all segments, so every digit lights a part of what it
/// lights: a point that drawing a digit gives its colour has it after drawing an
/// eight in the same place, too.
pub proof fn digits_are_parts_of_eight(
    before: Seq<u8>,
    stride: int,
    width: int,
    height: int,
    left: int,
    top: int,
    digit: char,
    color: Seq<u8>,
    x: int,
    y: int,
)
    requires
        is_digit(digit),
        holds_point(before, stride, width, height, x, y),
        color.len() == 4,
        pixel_at(before, stride, x, y) != color,
    ensures
        forall|dx: int, dy: int| #[trigger] char_ink(digit, dx, dy) ==> char_ink('8', dx, dy),
        pixel_at(
            with_char(before, stride, width, height, left, top, digit, color),
            stride,
            x,
            y,
        ) == color ==> pixel_at(
            with_char(before, stride, width, height, left, top, '8', color),
            stride,
            x,
            y,
        ) == color,
{
    painted_point(
        before,
        stride,
        width,
        height,
        |a: int, b: int| in_box(a, b, left, top, 6, 10) && char_ink(digit, a - left, b - top),
        color,
        x,
        y,
    );
    painted_point(
        before,
        stride,
        width,
        height,
        |a: int, b: int| in_box(a, b, left, top, 6, 10) && char_ink('8', a - left, b - top),
        color,
        x,
        y,
    );
}

/// Drawing a text is drawing its parts one after the other, the second one as
/// many times eight pixels further as the first one has characters.  An empty
/// text changes nothing, and a single character is drawn as such.
pub proof fn text_is_drawn_in_parts(
    before: Seq<u8>,
    stride: int,
    width: int,
    height: int,
    left: int,
    top: int,
    a: Seq<char>,
    b: Seq<char>,
    color: Seq<u8>,
)
    ensures
        with_chars(before, stride, width, height, left, top, a + b, color) == with_chars(
            with_chars(before, stride, width, height, left, top, a, color),
            stride,
            width,
            height,
            left + 8 * a.len(),
            top,
            b,
            color,
        ),
        a.len() == 0 ==> with_chars(before, stride, width, height, left, top, a, color) == before,
        a.len() == 1 ==> with_chars(before, stride, width, height, left, top, a, color)
            == with_char(before, stride, width, height, left, top, a[0], color),
    decreases b.len(),
{
    reveal_with_fuel(with_chars, 2);
    if b.len() == 0 {
        assert(a + b =~= a);
    } else {
        let rest = b.drop_last();
        text_is_drawn_in_parts(before, stride, width, height, left, top, a, rest, color);
        assert((a + b).drop_last() =~= a + rest);
        assert((a + b).last() == b.last());
    }
}

/// Laying a channel over another one gives their mean, weighted by the opacity
/// and rounded down: all of the upper one where it is opaque, all of the lower
/// one where it is not there, and otherwise something between the two.
pub proof fn mixing_weighs_by_opacity(over: u8, under: u8, alpha: u8)
    ensures
        255 * mixed(over, under, alpha) <= over * alpha + under * (255 - alpha) < 255 * mixed(
            over,
            under,
            alpha,
        ) + 255,
        alpha == 255 ==> mixed(over, under, alpha) == over,
        alpha == 0 ==> mixed(over, under, alpha) == under,
        over <= under ==> over <= mixed(over, under, alpha) <= under,
        under <= over ==> under <= mixed(over, under, alpha) <= over,
{
    let sum = over * alpha + under * (255 - alpha);
    assert(0 <= sum <= 255 * 255) by (nonlinear_arith)
        requires
            0 <= over <= 255,
            0 <= under <= 255,
            0 <= alpha <= 255,
            sum == over * alpha + under * (255 - alpha),
    ;
    assert(over <= under ==> 255 * over <= sum <= 255 * under) by (nonlinear_arith)
        requires
            0 <= alpha <= 255,
            sum == over * alpha + under * (255 - alpha),
    ;
    assert(under <= over ==> 255 * under <= sum <= 255 * over) by (nonlinear_arith)
        requires
            0 <= alpha <= 255,
            sum == over * alpha + under * (255 - alpha),
    ;
    assert(alpha == 255 ==> sum == 255 * over) by (nonlinear_arith)
        requires
            sum == over * alpha + under * (255 - alpha),
    ;
    assert(alpha == 0 ==> sum == 255 * under) by (nonlinear_arith)
        requires
            sum == over * alpha + under * (255 - alpha),
    ;
}

/// What a glyph does to a point of the canvas: where its bitmap covers it, the
/// colour is laid over it as far as it is covered, and it becomes opaque;
/// everywhere else it stays as it was.
pub proof fn glyph_covers_its_points(
    before: Seq<u8>,
    stride: int,
    width: int,
    height: int,
    left: int,
    top: int,
    glyph: Glyph,
    color: Seq<u8>,
    x: int,
    y: int,
)
    requires
        holds_point(before, stride, width, height, x, y),
        color.len() == 4,
    ensures
        ({
            let was = pixel_at(before, stride, x, y);
            let is = pixel_at(
                with_glyph(before, stride, width, height, left, top, glyph, color),
                stride,
                x,
                y,
            );
            let alpha = glyph.bitmap@[(y - top) * glyph.width + (x - left)];
            if left <= x < left + glyph.width && top <= y < top + glyph.height && alpha > 0 {
                &&& is.len() == 4
                &&& is[3] == 255
                &&& forall|k: int|
                    0 <= k < 3 ==> 255 * #[trigger] is[k] <= color[k] * alpha + was[k] * (255
                        - alpha) < 255 * is[k] + 255
            } else {
                is == was
            }
        }),
{
    let at = y * stride + 4 * x;
    assert(0 <= y * stride) by (nonlinear_arith)
        requires
            0 <= y,
            0 <= stride,
    ;
    let was = pixel_at(before, stride, x, y);
    let is = pixel_at(
        with_glyph(before, stride, width, height, left, top, glyph, color),
        stride,
        x,
        y,
    );
    let alpha = glyph.bitmap@[(y - top) * glyph.width + (x - left)];
    assert forall|k: int| 0 <= k < 4 implies #[trigger] is[k] == (if glyph.covers(
        x - left,
        y - top,
    ) {
        shaded(was[k], k, color, alpha)
    } else {
        was[k]
    }) by {
        lemma_byte_of_point(at + k, stride, x, y);
    }
    if glyph.covers(x - left, y - top) {
        assert forall|k: int| 0 <= k < 3 implies 255 * #[trigger] is[k] <= color[k] * alpha + was[k]
            * (255 - alpha) < 255 * is[k] + 255 by {
            mixing_weighs_by_opacity(color[k], was[k], alpha);
        }
    } else {
        assert(is =~= was);
    }
}

/// Drawing a run of glyphs is drawing its parts one after the other, the second
/// one further by the advances of the glyphs of the first one.  A single glyph
/// stands with its bitmap as far to the right as its origin says, and with the
/// lower edge of it as far above the base line, which lies below the top of the
/// line by the size of the text.
pub proof fn glyphs_are_drawn_in_parts(
    before: Seq<u8>,
    stride: int,
    width: int,
    height: int,
    x: int,
    y: int,
    a: Seq<Glyph>,
    b: Seq<Glyph>,
    size: int,
    color: Seq<u8>,
)
    ensures
        with_glyphs(before, stride, width, height, x, y, a + b, size, color) == with_glyphs(
            with_glyphs(before, stride, width, height, x, y, a, size, color),
            stride,
            width,
            height,
            x + advance_of(a),
            y,
            b,
            size,
            color,
        ),
        advance_of(a + b) == advance_of(a) + advance_of(b),
        a.len() == 0 ==> with_glyphs(before, stride, width, height, x, y, a, size, color) == before
            && advance_of(a) == 0,
        a.len() == 1 ==> advance_of(a) == a[0].advance && with_glyphs(
            before,
            stride,
            width,
            height,
            x,
            y,
            a,
            size,
            color,
        ) == with_glyph(
            before,
            stride,
            width,
            height,
            x + a[0].xmin,
            y + size - a[0].ymin - a[0].height,
            a[0],
            color,
        ),
    decreases b.len(),
{
    reveal_with_fuel(with_glyphs, 2);
    reveal_with_fuel(advance_of, 2);
    if b.len() == 0 {
        assert(a + b =~= a);
    } else {
        let rest = b.drop_last();
        glyphs_are_drawn_in_parts(before, stride, width, height, x, y, a, rest, size, color);
        assert((a + b).drop_last() =~= a + rest);
        assert((a + b).last() == b.last());
    }
}

/// A text is drawn with the glyphs of a font wherever there are any, and with the
/// built-in characters only where there are none.
pub proof fn glyphs_come_before_built_in_characters(
    before: Seq<u8>,
    stride: int,
    width: int,
    height: int,
    x: int,
    y: int,
    text: Seq<char>,
    glyphs: Seq<Glyph>,
    size: int,
    color: Seq<u8>,
)
    ensures
        with_text(before, stride, width, height, x, y, text, Some(glyphs), size, color)
            == with_glyphs(before, stride, width, height, x, y, glyphs, size, color),
        with_text(before, stride, width, height, x, y, text, None, size, color) == with_chars(
            before,
            stride,
            width,
            height,
            x,
            y,
            text,
            color,
        ),
{
}

/// Which digits light each of the seven segments, and where the segments are.
pub proof fn segments_of_digits(ch: char, dx: int, dy: int)
    requires
        is_digit(ch),
    ensures
        ({
            let across = 1 <= dx <= 4;
            let upper = 1 <= dy <= 4;
            let lower = 5 <= dy <= 8;
            char_ink(ch, dx, dy) <==> {
                ||| across && dy == 0 && ch != '1' && ch != '4'
                ||| dx == 0 && upper && ch != '5' && ch != '6'
                ||| dx == 5 && upper && ch != '2'
                ||| across && dy == 4 && ch != '1' && ch != '4' && ch != '7'
                ||| dx == 0 && lower && (ch == '0' || ch == '2' || ch == '6' || ch == '8')
                ||| dx == 5 && lower && ch != '1' && ch != '2' && ch != '3' && ch != '7'
                ||| across && dy == 9 && ch != '0' && ch != '1' && ch != '7'
            }
        }),
{
}

/// The ten digits look different from one another, the letter `x` looks like none
/// of them, and no other character shows.
pub proof fn characters_look_different(a: char, b: char)
    ensures
        is_digit(a) && is_digit(b) && a != b ==> exists|dx: int, dy: int| #[trigger]
            char_ink(a, dx, dy) != char_ink(b, dx, dy),
        forall|dx: int, dy: int|
            !is_digit(a) && a != 'x' ==> !#[trigger] char_ink(a, dx, dy),
        forall|dx: int, dy: int| #[trigger]
            char_ink('x', dx, dy) <==> 1 <= dx <= 4 && 3 <= dy <= 6 && (dy - 3 == dx - 1 || dy - 3 == 4
                - dx),
{
    if is_digit(a) && is_digit(b) && a != b {
        lemma_segment_points(a);
        lemma_segment_points(b);
        assert(char_ink(a, 1, 0) != char_ink(b, 1, 0) || char_ink(a, 0, 2) != char_ink(b, 0, 2)
            || char_ink(a, 5, 2) != char_ink(b, 5, 2) || char_ink(a, 1, 4) != char_ink(b, 1, 4)
            || char_ink(a, 0, 6) != char_ink(b, 0, 6) || char_ink(a, 5, 6) != char_ink(b, 5, 6)
            || char_ink(a, 1, 9) != char_ink(b, 1, 9));
    }
}

/// One point of each segment.
proof fn lemma_segment_points(ch: char)
    requires
        is_digit(ch),
    ensures
        char_ink(ch, 1, 0) == segments(ch)[0],
        char_ink(ch, 0, 2) == segments(ch)[1],
        char_ink(ch, 5, 2) == segments(ch)[2],
        char_ink(ch, 1, 4) == segments(ch)[3],
        char_ink(ch, 0, 6) == segments(ch)[4],
        char_ink(ch, 5, 6) == segments(ch)[5],
        char_ink(ch, 1, 9) == segments(ch)[6],
{
}

/// What a built-in character does to a point of the canvas: it has the colour
/// where the character has ink, in a box six pixels wide and ten pixels high, and
/// is otherwise as it was.
pub proof fn character_colors_its_points(
    before: Seq<u8>,
    stride: int,
    width: int,
    height: int,
    left: int,
    top: int,
    ch: char,
    color: Seq<u8>,
    x: int,
    y: int,
)
    requires
        holds_point(before, stride, width, height, x, y),
        color.len() == 4,
    ensures
        pixel_at(with_char(before, stride, width, height, left, top, ch, color), stride, x, y) == (
        if left <= x < left + 6 && top <= y < top + 10 && char_ink(ch, x - left, y - top) {
            color
        } else {
            pixel_at(before, stride, x, y)
        }),
{
    painted_point(
        before,
        stride,
        width,
        height,
        |a: int, b: int| in_box(a, b, left, top, 6, 10) && char_ink(ch, a - left, b - top),
        color,
        x,
        y,
    );
}

/// A text of built-in characters has ink at a point: one of its characters, each
/// eight pixels further than the one before, has ink there.
pub open spec fn text_ink(text: Seq<char>, dx: int, dy: int) -> bool {
    exists|k: int|
        0 <= k < text.len() && 0 <= dx - 8 * k < 6 && 0 <= dy < 10 && char_ink(
            #[trigger] text[k],
            dx - 8 * k,
            dy,
        )
}

/// What a text of built-in characters does to a point of the canvas: it has the
/// colour where one of the characters has ink, and is otherwise as it was.
pub proof fn text_colors_its_points(
    before: Seq<u8>,
    stride: int,
    width: int,
    height: int,
    left: int,
    top: int,
    text: Seq<char>,
    color: Seq<u8>,
    x: int,
    y: int,
)
    requires
        holds_point(before, stride, width, height, x, y),
        color.len() == 4,
    ensures
        with_chars(before, stride, width, height, left, top, text, color).len() == before.len(),
        pixel_at(with_chars(before, stride, width, height, left, top, text, color), stride, x, y)
            == (if text_ink(text, x - left, y - top) {
            color
        } else {
            pixel_at(before, stride, x, y)
        }),
    decreases text.len(),
{
    if text.len() > 0 {
        let first = text.drop_last();
        let n = text.len() - 1;
        text_colors_its_points(
            before,
            stride,
            width,
            height,
            left,
            top,
            first,
            color,
            x,
            y,
        );
        let drawn = with_chars(before, stride, width, height, left, top, first, color);
        character_colors_its_points(
            drawn,
            stride,
            width,
            height,
            left + 8 * n,
            top,
            text.last(),
            color,
            x,
            y,
        );
        let dx = x - left;
        let dy = y - top;
        if text_ink(first, dx, dy) {
            let k = choose|k: int|
                0 <= k < first.len() && 0 <= dx - 8 * k < 6 && 0 <= dy < 10 && char_ink(
                    #[trigger] first[k],
                    dx - 8 * k,
                    dy,
                );
            assert(text[k] == first[k]);
        }
        if text_ink(text, dx, dy) {
            let k = choose|k: int|
                0 <= k < text.len() && 0 <= dx - 8 * k < 6 && 0 <= dy < 10 && char_ink(
                    #[trigger] text[k],
                    dx - 8 * k,
                    dy,
                );
            if k < n {
                assert(text[k] == first[k]);
            }
        }
        assert(text[n] == text.last());
    }
}

/// Glyphs leave every point alone that lies in none of their bitmaps.
pub proof fn glyphs_spare_other_points(
    before: Seq<u8>,
    stride: int,
    width: int,
    height: int,
    x: int,
    y: int,
    glyphs: Seq<Glyph>,
    size: int,
    color: Seq<u8>,
    i: int,
)
    requires
        0 <= i < before.len(),
        forall|k: int|
            0 <= k < glyphs.len() ==> y + size - (#[trigger] glyphs[k]).ymin <= row_of(i, stride)
                || row_of(i, stride) < y + size - glyphs[k].ymin - glyphs[k].height,
    ensures
        with_glyphs(before, stride, width, height, x, y, glyphs, size, color).len() == before.len(),
        with_glyphs(before, stride, width, height, x, y, glyphs, size, color)[i] == before[i],
    decreases glyphs.len(),
{
    if glyphs.len() > 0 {
        let first = glyphs.drop_last();
        assert(glyphs.last() == glyphs[glyphs.len() - 1]);
        assert forall|k: int| 0 <= k < first.len() implies y + size - (#[trigger] first[k]).ymin
            <= row_of(i, stride) || row_of(i, stride) < y + size - first[k].ymin
            - first[k].height by {
            assert(first[k] == glyphs[k]);
        }
        glyphs_spare_other_points(before, stride, width, height, x, y, first, size, color, i);
    }
}

/// The glyphs of a text are taken as they are.
pub proof fn glyphs_are_taken_as_given(glyphs: Vec<Glyph>)
    ensures
        glyphs_of(Some(glyphs)) == Some(glyphs@),
        glyphs_of(None) is None,
{
}

} // verus!
