//! The data that the capture, stitching and display parts share.

use crate::text::{
    chars_of, decimal, decimal_denotes, fields, int_of, is_digit, is_space, only_integers_are_read,
    parse_int, reading_gives_integer_back, signed_decimal, split_fields, split_words, string_of,
    texts, trim_to_string, trimmed, two_fields, two_words, white_space_does_not_matter, words,
    IntError,
};
use vstd::prelude::*;

verus! {

/// The screen region that the user selected.
#[derive(Debug, Clone, Copy, PartialEq, Eq, Structural)]
pub struct CaptureRegion {
    pub x: i32,
    pub y: i32,
    pub width: u32,
    pub height: u32,
}

/// Why the output of a region selection tool is not a region.
#[derive(Debug, Clone)]
pub enum SlurpError {
    /// The text does not consist of two words; holds the trimmed text.
    Format(String),
    /// The first word is not a pair separated by a comma; holds the word.
    Coordinates(String),
    /// The second word is not a pair separated by an `x`; holds the word.
    Dimensions(String),
    /// One of the four parts is not an integer of its range.
    Number(IntError),
}

/// The contents of a [`SlurpError`].
pub enum SlurpFault {
    Format(Seq<char>),
    Coordinates(Seq<char>),
    Dimensions(Seq<char>),
    Number(IntError),
}

impl SlurpFault {
    /// The error in words.
    pub open spec fn words(self) -> Seq<char> {
        match self {
            SlurpFault::Format(text) => "Invalid slurp output format: "@ + text,
            SlurpFault::Coordinates(text) => "Invalid coordinates format: "@ + text,
            SlurpFault::Dimensions(text) => "Invalid dimensions format: "@ + text,
            SlurpFault::Number(IntError::Empty) => "cannot parse integer from empty string"@,
            SlurpFault::Number(IntError::InvalidDigit) => "invalid digit found in string"@,
            SlurpFault::Number(IntError::PosOverflow) => "number too large to fit in target type"@,
            SlurpFault::Number(IntError::NegOverflow) => "number too small to fit in target type"@,
        }
    }
}

impl SlurpError {
    pub open spec fn fault(self) -> SlurpFault {
        match self {
            SlurpError::Format(text) => SlurpFault::Format(text@),
            SlurpError::Coordinates(text) => SlurpFault::Coordinates(text@),
            SlurpError::Dimensions(text) => SlurpFault::Dimensions(text@),
            SlurpError::Number(error) => SlurpFault::Number(error),
        }
    }

    /// The error in words.
    pub fn message(&self) -> (r: String)
        ensures
            r@ == self.fault().words(),
    {
        match self {
            SlurpError::Format(text) => {
                "Invalid slurp output format: ".to_string().concat(text.as_str())
            },
            SlurpError::Coordinates(text) => {
                "Invalid coordinates format: ".to_string().concat(text.as_str())
            },
            SlurpError::Dimensions(text) => {
                "Invalid dimensions format: ".to_string().concat(text.as_str())
            },
            SlurpError::Number(IntError::Empty) => {
                "cannot parse integer from empty string".to_string()
            },
            SlurpError::Number(IntError::InvalidDigit) => {
                "invalid digit found in string".to_string()
            },
            SlurpError::Number(IntError::PosOverflow) => {
                "number too large to fit in target type".to_string()
            },
            SlurpError::Number(IntError::NegOverflow) => {
                "number too small to fit in target type".to_string()
            },
        }
    }
}

/// The region that a text of the form `x,y wxh` denotes.
pub open spec fn slurp_region(text: Seq<char>) -> Result<CaptureRegion, SlurpFault> {
    let parts = words(text);
    if parts.len() != 2 {
        Err(SlurpFault::Format(trimmed(text)))
    } else {
        let coords = fields(parts[0], ',');
        let dims = fields(parts[1], 'x');
        if coords.len() != 2 {
            Err(SlurpFault::Coordinates(parts[0]))
        } else if dims.len() != 2 {
            Err(SlurpFault::Dimensions(parts[1]))
        } else {
            match (
                int_of(coords[0], true, i32::MIN as int, i32::MAX as int),
                int_of(coords[1], true, i32::MIN as int, i32::MAX as int),
                int_of(dims[0], false, 0, u32::MAX as int),
                int_of(dims[1], false, 0, u32::MAX as int),
            ) {
                (Ok(x), Ok(y), Ok(width), Ok(height)) => Ok(
                    CaptureRegion {
                        x: x as i32,
                        y: y as i32,
                        width: width as u32,
                        height: height as u32,
                    },
                ),
                (Err(e), _, _, _) => Err(SlurpFault::Number(e)),
                (_, Err(e), _, _) => Err(SlurpFault::Number(e)),
                (_, _, Err(e), _) => Err(SlurpFault::Number(e)),
                (_, _, _, Err(e)) => Err(SlurpFault::Number(e)),
            }
        }
    }
}

/// A region in the form `x,y wxh`.
pub open spec fn slurp_text(region: CaptureRegion) -> Seq<char> {
    signed_decimal(region.x as int) + seq![','] + signed_decimal(region.y as int) + seq![' ']
        + decimal(region.width as nat) + seq!['x'] + decimal(region.height as nat)
}

impl CaptureRegion {
    /// Reads a region in the form `x,y wxh`.
    pub fn from_slurp(output: &str) -> (r: Result<CaptureRegion, SlurpError>)
        ensures
            match r {
                Ok(region) => slurp_region(output@) == Ok::<CaptureRegion, SlurpFault>(region),
                Err(e) => slurp_region(output@) == Err::<CaptureRegion, SlurpFault>(e.fault()),
            },
    {
        let text: Vec<char> = chars_of(output);
        let parts: Vec<Vec<char>> = split_words(text.as_slice());
        assert(texts(parts@).len() == parts@.len());
        if parts.len() != 2 {
            return Err(SlurpError::Format(trim_to_string(text.as_slice())));
        }
        assert(parts@[0]@ == texts(parts@)[0]);
        assert(parts@[1]@ == texts(parts@)[1]);
        let coords: Vec<Vec<char>> = split_fields(parts[0].as_slice(), ',');
        assert(texts(coords@).len() == coords@.len());
        if coords.len() != 2 {
            return Err(SlurpError::Coordinates(string_of(parts[0].as_slice())));
        }
        let dims: Vec<Vec<char>> = split_fields(parts[1].as_slice(), 'x');
        assert(texts(dims@).len() == dims@.len());
        if dims.len() != 2 {
            return Err(SlurpError::Dimensions(string_of(parts[1].as_slice())));
        }
        assert(coords@[0]@ == texts(coords@)[0]);
        assert(coords@[1]@ == texts(coords@)[1]);
        assert(dims@[0]@ == texts(dims@)[0]);
        assert(dims@[1]@ == texts(dims@)[1]);
        let x: i32 = match parse_int(coords[0].as_slice(), true, i32::MIN as i64, i32::MAX as i64) {
            Ok(n) => n as i32,
            Err(e) => return Err(SlurpError::Number(e)),
        };
        let y: i32 = match parse_int(coords[1].as_slice(), true, i32::MIN as i64, i32::MAX as i64) {
            Ok(n) => n as i32,
            Err(e) => return Err(SlurpError::Number(e)),
        };
        let width: u32 = match parse_int(dims[0].as_slice(), false, 0, u32::MAX as i64) {
            Ok(n) => n as u32,
            Err(e) => return Err(SlurpError::Number(e)),
        };
        let height: u32 = match parse_int(dims[1].as_slice(), false, 0, u32::MAX as i64) {
            Ok(n) => n as u32,
            Err(e) => return Err(SlurpError::Number(e)),
        };
        Ok(CaptureRegion { x, y, width, height })
    }
}

/// What the input side tells the worker.
#[derive(Debug, Clone, PartialEq, Eq)]
pub enum InputEvent {
    /// The wheel turned: down where `direction` is positive, up where it is
    /// negative.
    ScrollDetected { direction: i32 },
    /// The input side stops.
    Shutdown,
}

/// What the worker tells the display.
#[derive(Debug, PartialEq, Eq)]
pub enum WorkerEvent {
    /// A new stitched image, in RGBA bytes.
    ImageUpdated { data: Vec<u8>, width: u32, height: u32 },
    /// A message for the status line.
    Status(String),
    /// Something went wrong.
    Error(String),
    /// No more images will come.
    CaptureComplete,
}

/// What the display tells the worker.
#[derive(Debug, Clone, PartialEq, Eq)]
pub enum GuiCommand {
    /// Start anew with the given region.
    StartCapture(CaptureRegion),
    /// The stitched image is about to be saved.
    RequestSave,
    /// Stop.
    Shutdown,
}

/// The unit of the ratios in [`StitchParams`]: this many parts make a whole.
pub const RATIO_ONE: u32 = 1_000_000;

/// The parameters of the stitching algorithm; ratios and scores count
/// millionths.
#[derive(Debug, Clone, Copy, PartialEq, Eq, Structural)]
pub struct StitchParams {
    /// The part of a frame to ignore at its top (navigation bars).
    pub ignore_y_top: u32,
    /// The part of a frame to ignore at its bottom (status bars).
    pub ignore_y_bottom: u32,
    /// The least score of a match that counts.
    pub match_confidence: i32,
    /// The part of the frame height that the template takes.
    pub template_ratio: u32,
    /// How far, in pixels, a match may lie from the previous one.
    pub max_search_range: i32,
}

/// The parameters that a capture uses.
pub open spec fn default_params() -> StitchParams {
    StitchParams {
        ignore_y_top: 150_000,
        ignore_y_bottom: 150_000,
        match_confidence: 500_000,
        template_ratio: 200_000,
        max_search_range: 500,
    }
}

impl Default for StitchParams {
    fn default() -> (r: StitchParams)
        ensures
            r == default_params(),
            r.ignore_y_top == 150_000,
            r.ignore_y_bottom == 150_000,
            r.match_confidence == 500_000,
            r.template_ratio == 200_000,
            r.max_search_range == 500,
    {
        StitchParams {
            ignore_y_top: 150_000,
            ignore_y_bottom: 150_000,
            match_confidence: 500_000,
            template_ratio: 200_000,
            max_search_range: 500,
        }
    }
}

/// A captured frame: rows of BGRA pixels, `stride` bytes apart.
#[derive(Debug, Clone, PartialEq, Eq)]
pub struct RawFrame {
    pub data: Vec<u8>,
    pub width: u32,
    pub height: u32,
    pub stride: u32,
}

/// The pixels of `data` with their first and third byte exchanged; what does
/// not fill a pixel is dropped.
pub open spec fn swapped(data: Seq<u8>) -> Seq<u8> {
    Seq::new(
        (data.len() / 4 * 4) as nat,
        |i: int|
            if i % 4 == 0 {
                data[i + 2]
            } else if i % 4 == 2 {
                data[i - 2]
            } else {
                data[i]
            },
    )
}

/// The bytes of one more pixel.
proof fn lemma_swapped_pixel(data: Seq<u8>, i: int)
    requires
        0 <= i,
        i % 4 == 0,
        i + 4 <= data.len(),
    ensures
        i + 4 <= swapped(data).len(),
        swapped(data).take(i + 4) == swapped(data).take(i).push(data[i + 2]).push(data[i + 1]).push(
            data[i],
        ).push(data[i + 3]),
{
    let all = swapped(data);
    assert(i + 4 <= all.len());
    assert(all[i] == data[i + 2]);
    assert(all[i + 1] == data[i + 1]);
    assert(all[i + 2] == data[i]);
    assert(all[i + 3] == data[i + 3]);
    assert(all.take(i + 1) =~= all.take(i).push(all[i]));
    assert(all.take(i + 2) =~= all.take(i + 1).push(all[i + 1]));
    assert(all.take(i + 3) =~= all.take(i + 2).push(all[i + 2]));
    assert(all.take(i + 4) =~= all.take(i + 3).push(all[i + 3]));
}

/// Exchanges the first and the third byte of each pixel.
pub fn swap_red_blue(data: &[u8]) -> (r: Vec<u8>)
    ensures
        r@ == swapped(data@),
        r@.len() == data@.len() / 4 * 4,
        forall|p: int|
            #![trigger r@[4 * p]]
            0 <= p < data@.len() / 4 ==> r@[4 * p] == data@[4 * p + 2] && r@[4 * p + 1] == data@[4 * p
                + 1] && r@[4 * p + 2] == data@[4 * p] && r@[4 * p + 3] == data@[4 * p + 3],
{
    let total: usize = data.len();
    let mut out: Vec<u8> = Vec::new();
    let mut i: usize = 0;
    assert(out@ =~= swapped(data@).take(0));
    while total - i >= 4
        invariant
            total == data@.len(),
            i <= total,
            i % 4 == 0,
            out@ == swapped(data@).take(i as int),
        decreases total - i,
    {
        proof {
            lemma_swapped_pixel(data@, i as int);
        }
        out.push(data[i + 2]);
        out.push(data[i + 1]);
        out.push(data[i]);
        out.push(data[i + 3]);
        i = i + 4;
    }
    assert(out@ =~= swapped(data@));
    out
}

impl RawFrame {
    /// The bytes of the frame in RGBA order.
    pub fn to_rgba(&self) -> (r: Vec<u8>)
        ensures
            r@ == swapped(self.data@),
    {
        swap_red_blue(self.data.as_slice())
    }
}

/// Exchanging the channels twice gives the pixels back.
pub proof fn swapped_twice(data: Seq<u8>)
    requires
        data.len() % 4 == 0,
    ensures
        swapped(swapped(data)) == data,
{
    assert(swapped(swapped(data)) =~= data);
}

/// A signed decimal consists of digits and at most one minus sign.
proof fn lemma_signed_decimal_chars(n: int)
    ensures
        signed_decimal(n).len() > 0,
        forall|i: int|
            0 <= i < signed_decimal(n).len() ==> is_digit(#[trigger] signed_decimal(n)[i])
                || signed_decimal(n)[i] == '-',
{
    let body = if n < 0 {
        decimal((-n) as nat)
    } else {
        decimal(n as nat)
    };
    decimal_denotes(
        if n < 0 {
            (-n) as nat
        } else {
            n as nat
        },
    );
    assert forall|i: int| 0 <= i < signed_decimal(n).len() implies is_digit(
        #[trigger] signed_decimal(n)[i],
    ) || signed_decimal(n)[i] == '-' by {
        if n < 0 && i > 0 {
            assert(signed_decimal(n)[i] == body[i - 1]);
        }
    }
}

/// Every region is read back from its own text.
pub proof fn slurp_text_is_read_back(region: CaptureRegion)
    ensures
        slurp_region(slurp_text(region)) == Ok::<CaptureRegion, SlurpFault>(region),
{
    let x = signed_decimal(region.x as int);
    let y = signed_decimal(region.y as int);
    let w = decimal(region.width as nat);
    let h = decimal(region.height as nat);
    let first = x + seq![','] + y;
    let second = w + seq!['x'] + h;
    lemma_signed_decimal_chars(region.x as int);
    lemma_signed_decimal_chars(region.y as int);
    decimal_denotes(region.width as nat);
    decimal_denotes(region.height as nat);
    assert(slurp_text(region) =~= first + seq![' '] + second);
    assert forall|i: int| 0 <= i < first.len() implies !is_space(#[trigger] first[i]) by {
        if i < x.len() {
            assert(first[i] == x[i]);
        } else if i > x.len() {
            assert(first[i] == y[i - x.len() - 1]);
        }
    }
    assert forall|i: int| 0 <= i < second.len() implies !is_space(#[trigger] second[i]) by {
        if i < w.len() {
            assert(second[i] == w[i]);
        } else if i > w.len() {
            assert(second[i] == h[i - w.len() - 1]);
        }
    }
    two_words(first, second);
    two_fields(x, y, ',');
    two_fields(w, h, 'x');
    reading_gives_integer_back(region.x as int, true, i32::MIN as int, i32::MAX as int);
    reading_gives_integer_back(region.y as int, true, i32::MIN as int, i32::MAX as int);
    reading_gives_integer_back(region.width as int, false, 0, u32::MAX as int);
    reading_gives_integer_back(region.height as int, false, 0, u32::MAX as int);
}

/// Exchanging the channels turns blue, green, red and alpha into red, green, blue
/// and alpha, pixel by pixel.
pub proof fn channels_are_exchanged(data: Seq<u8>, p: int)
    requires
        0 <= p,
        4 * p + 4 <= data.len(),
    ensures
        swapped(data).len() <= data.len() < swapped(data).len() + 4,
        swapped(data).len() % 4 == 0,
        swapped(data)[4 * p] == data[4 * p + 2],
        swapped(data)[4 * p + 1] == data[4 * p + 1],
        swapped(data)[4 * p + 2] == data[4 * p],
        swapped(data)[4 * p + 3] == data[4 * p + 3],
{
}

/// A text of two pairs, the first one joined by a comma and the second one by an
/// `x`, with white space between them and perhaps around them, is read as the
/// region of the four numbers, if all four can be read; otherwise the first one
/// that cannot be read says why.
pub proof fn regions_are_read_from_pairs(
    front: Seq<char>,
    x: Seq<char>,
    y: Seq<char>,
    gap: Seq<char>,
    width: Seq<char>,
    height: Seq<char>,
    back: Seq<char>,
)
    requires
        forall|i: int| 0 <= i < front.len() ==> is_space(#[trigger] front[i]),
        forall|i: int| 0 <= i < gap.len() ==> is_space(#[trigger] gap[i]),
        forall|i: int| 0 <= i < back.len() ==> is_space(#[trigger] back[i]),
        forall|i: int| 0 <= i < x.len() ==> !is_space(#[trigger] x[i]) && x[i] != ',',
        forall|i: int| 0 <= i < y.len() ==> !is_space(#[trigger] y[i]) && y[i] != ',',
        forall|i: int| 0 <= i < width.len() ==> !is_space(#[trigger] width[i]) && width[i] != 'x',
        forall|i: int|
            0 <= i < height.len() ==> !is_space(#[trigger] height[i]) && height[i] != 'x',
        gap.len() > 0,
    ensures
        ({
            let text = front + (x + seq![','] + y) + gap + (width + seq!['x'] + height) + back;
            let a = int_of(x, true, -0x8000_0000, 0x7fff_ffff);
            let b = int_of(y, true, -0x8000_0000, 0x7fff_ffff);
            let c = int_of(width, false, 0, 0xffff_ffff);
            let d = int_of(height, false, 0, 0xffff_ffff);
            match slurp_region(text) {
                Ok(r) => a == Ok::<int, IntError>(r.x as int) && b == Ok::<int, IntError>(
                    r.y as int,
                ) && c == Ok::<int, IntError>(r.width as int) && d == Ok::<int, IntError>(
                    r.height as int,
                ),
                Err(SlurpFault::Number(e)) => a == Err::<int, IntError>(e) || a is Ok && b == Err::<
                    int,
                    IntError,
                >(e) || a is Ok && b is Ok && c == Err::<int, IntError>(e) || a is Ok && b is Ok
                    && c is Ok && d == Err::<int, IntError>(e),
                _ => false,
            }
        }),
{
    let first = x + seq![','] + y;
    let second = width + seq!['x'] + height;
    assert forall|i: int| 0 <= i < first.len() implies !is_space(#[trigger] first[i]) by {
        if i < x.len() {
            assert(first[i] == x[i]);
        } else if i > x.len() {
            assert(first[i] == y[i - x.len() - 1]);
        }
    }
    assert forall|i: int| 0 <= i < second.len() implies !is_space(#[trigger] second[i]) by {
        if i < width.len() {
            assert(second[i] == width[i]);
        } else if i > width.len() {
            assert(second[i] == height[i - width.len() - 1]);
        }
    }
    white_space_does_not_matter(front, first, gap, second, back);
    two_fields(x, y, ',');
    two_fields(width, height, 'x');
    only_integers_are_read(x, true, -0x8000_0000, 0x7fff_ffff);
    only_integers_are_read(y, true, -0x8000_0000, 0x7fff_ffff);
    only_integers_are_read(width, false, 0, 0xffff_ffff);
    only_integers_are_read(height, false, 0, 0xffff_ffff);
}

/// A text that is not read as a region is refused for the first thing that is
/// wrong with it: that it does not have two words, that the first one does not
/// have two fields between commas, that the second one does not have two fields
/// between the letter `x`, or that a field is no number.
pub proof fn other_texts_are_refused(text: Seq<char>)
    ensures
        ({
            let parts = words(text);
            match slurp_region(text) {
                Ok(_) => parts.len() == 2 && fields(parts[0], ',').len() == 2 && fields(
                    parts[1],
                    'x',
                ).len() == 2,
                Err(SlurpFault::Format(t)) => parts.len() != 2 && t == trimmed(text),
                Err(SlurpFault::Coordinates(t)) => parts.len() == 2 && fields(parts[0], ',').len()
                    != 2 && t == parts[0],
                Err(SlurpFault::Dimensions(t)) => parts.len() == 2 && fields(parts[0], ',').len()
                    == 2 && fields(parts[1], 'x').len() != 2 && t == parts[1],
                Err(SlurpFault::Number(_)) => parts.len() == 2 && fields(parts[0], ',').len() == 2
                    && fields(parts[1], 'x').len() == 2,
            }
        }),
{
}

} // verus!
