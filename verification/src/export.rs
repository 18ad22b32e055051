//! Export of the stitched image: what is saved, under which name, and what
//! runs afterwards.

use crate::text::{
    chars_of, decimal, decimal_denotes, digit_char, digits_value, is_digit, string_of,
};
use vstd::prelude::*;

verus! {

/// Why an image cannot be exported.
#[derive(Debug, Clone, Copy, PartialEq, Eq, Structural)]
pub enum ExportError {
    /// There is no image yet.
    NoImage,
    /// The data does not hold as many pixels as the image should have.
    Buffer,
}

impl ExportError {
    /// The error in words.
    pub open spec fn words(self) -> Seq<char> {
        match self {
            ExportError::NoImage => "No image to save"@,
            ExportError::Buffer => "Failed to create image buffer"@,
        }
    }

    /// The error in words.
    pub fn message(&self) -> (r: String)
        ensures
            r@ == self.words(),
    {
        match self {
            ExportError::NoImage => "No image to save".to_string(),
            ExportError::Buffer => "Failed to create image buffer".to_string(),
        }
    }
}

/// The data holds an RGBA image of the given size, and a row of it can be
/// counted.
pub open spec fn image_fits(data: Seq<u8>, width: int, height: int) -> bool {
    4 * width <= usize::MAX && 4 * width * height <= data.len()
}

/// The bytes of an RGBA image, by `image::RgbaImage::from_raw`, which accepts
/// them where they hold the pixels of the image, and `into_raw`, which gives
/// them back unchanged.
#[verifier::external_body]
fn rgba_image(width: u32, height: u32, data: Vec<u8>) -> (r: Option<Vec<u8>>)
    ensures
        r is Some <==> image_fits(data@, width as int, height as int),
        r matches Some(bytes) ==> bytes@ == data@,
{
    image::RgbaImage::from_raw(width, height, data).map(|image| image.into_raw())
}

/// The bytes to save of an image.
pub fn bytes_for_export(bytes: &Vec<u8>, width: u32, height: u32) -> (r: Result<
    Vec<u8>,
    ExportError,
>)
    ensures
        if image_fits(bytes@, width as int, height as int) {
            r matches Ok(out) && out@ == bytes@
        } else {
            r == Err::<Vec<u8>, ExportError>(ExportError::Buffer)
        },
{
    let mut copy: Vec<u8> = Vec::new();
    copy.extend_from_slice(bytes.as_slice());
    assert(copy@ =~= bytes@);
    match rgba_image(width, height, copy) {
        Some(out) => Ok(out),
        None => Err(ExportError::Buffer),
    }
}

/// The bytes to save of an image that may be missing.
pub fn image_for_export(data: &Option<Vec<u8>>, width: u32, height: u32) -> (r: Result<
    Vec<u8>,
    ExportError,
>)
    ensures
        match *data {
            None => r == Err::<Vec<u8>, ExportError>(ExportError::NoImage),
            Some(bytes) => if image_fits(bytes@, width as int, height as int) {
                r matches Ok(out) && out@ == bytes@
            } else {
                r == Err::<Vec<u8>, ExportError>(ExportError::Buffer)
            },
        },
{
    match data {
        None => Err(ExportError::NoImage),
        Some(bytes) => bytes_for_export(bytes, width, height),
    }
}

/// A moment on the local calendar and clock.
#[derive(Debug, Clone, Copy, PartialEq, Eq, Structural)]
pub struct LocalTime {
    pub year: i32,
    pub month: u32,
    pub day: u32,
    pub hour: u32,
    pub minute: u32,
    pub second: u32,
}

/// How many days a month has.
pub open spec fn days_in_month(year: int, month: int) -> int {
    if month == 2 {
        if year % 4 == 0 && (year % 100 != 0 || year % 400 == 0) {
            29
        } else {
            28
        }
    } else if month == 4 || month == 6 || month == 9 || month == 11 {
        30
    } else {
        31
    }
}

/// The first year of the calendar.
pub const MIN_YEAR: i32 = -262143;

/// The last year of the calendar.
pub const MAX_YEAR: i32 = 262142;

/// How the name of a file shows its time: year, month and day, an underscore,
/// and hour, minute and second.
pub const STAMP_PATTERN: &'static str = "%Y%m%d_%H%M%S";

impl LocalTime {
    /// The moment exists.
    pub open spec fn exists_on_calendar(self) -> bool {
        &&& MIN_YEAR <= self.year <= MAX_YEAR
        &&& 1 <= self.month <= 12
        &&& 1 <= self.day <= days_in_month(self.year as int, self.month as int)
        &&& self.hour < 24
        &&& self.minute < 60
        &&& self.second < 60
    }

    /// The moment as year, month and day, an underscore, and hour, minute and
    /// second.
    pub open spec fn stamp(self) -> Seq<char> {
        year_text(self.year as int) + two_digits(self.month as nat) + two_digits(self.day as nat)
            + "_"@ + two_digits(self.hour as nat) + two_digits(self.minute as nat) + two_digits(
            self.second as nat,
        )
    }
}

/// A number below a hundred with two digits.
pub open spec fn two_digits(n: nat) -> Seq<char> {
    seq![digit_char(n / 10), digit_char(n % 10)]
}

/// A number with at least four digits.
pub open spec fn four_digits(n: nat) -> Seq<char> {
    if n < 10000 {
        two_digits(n / 100) + two_digits(n % 100)
    } else {
        decimal(n)
    }
}

/// A year with at least four digits, and with a sign where it is negative or
/// has more than four.
pub open spec fn year_text(year: int) -> Seq<char> {
    if year < 0 {
        seq!['-'] + four_digits((-year) as nat)
    } else if year > 9999 {
        seq!['+'] + four_digits(year as nat)
    } else {
        four_digits(year as nat)
    }
}

/// A moment in words, by `chrono::NaiveDateTime::format` with the pattern
/// [`STAMP_PATTERN`], where `NaiveDate::from_ymd_opt` and `and_hms_opt` find the
/// moment on the calendar; nothing where they do not.
#[verifier::external_body]
fn format_moment(time: &LocalTime, pattern: &str) -> (r: Option<String>)
    requires
        pattern@ == STAMP_PATTERN@,
    ensures
        match r {
            Some(text) => time.exists_on_calendar() && text@ == time.stamp(),
            None => !time.exists_on_calendar(),
        },
{
    let day = chrono::NaiveDate::from_ymd_opt(time.year, time.month, time.day)?;
    let moment = day.and_hms_opt(time.hour, time.minute, time.second)?;
    Some(moment.format(pattern).to_string())
}

/// The name of a file that is saved at the given moment; none where the moment
/// does not exist.
pub fn file_name(time: &LocalTime) -> (r: Option<String>)
    ensures
        match r {
            Some(name) => time.exists_on_calendar() && name@ == "longshot_"@ + time.stamp()
                + ".png"@,
            None => !time.exists_on_calendar(),
        },
{
    match format_moment(time, STAMP_PATTERN) {
        None => None,
        Some(stamp) => {
            Some("longshot_".to_string().concat(stamp.as_str()).concat(".png"))
        },
    }
}

/// Where an image is saved; `P` is the type of a path.
#[derive(Debug, Clone, PartialEq, Eq)]
pub enum SaveTarget<P> {
    /// The file that the user named.
    File(P),
    /// A file in a directory, under a name of its own.
    InDirectory(P),
    /// A file in the current directory, under a name of its own.
    InCurrent,
}

/// The place that the options and the environment give: the file that the user
/// named, or else the first that there is of the directory that the user named,
/// the directory for pictures, the home directory and the current directory.
pub open spec fn target_of<P>(
    output: Option<P>,
    save_dir: Option<P>,
    pictures: Option<P>,
    home: Option<P>,
) -> SaveTarget<P> {
    match (output, save_dir, pictures, home) {
        (Some(file), _, _, _) => SaveTarget::File(file),
        (None, Some(dir), _, _) => SaveTarget::InDirectory(dir),
        (None, None, Some(dir), _) => SaveTarget::InDirectory(dir),
        (None, None, None, Some(dir)) => SaveTarget::InDirectory(dir),
        (None, None, None, None) => SaveTarget::InCurrent,
    }
}

/// Where to save an image.
pub fn save_target<P>(
    output: Option<P>,
    save_dir: Option<P>,
    pictures: Option<P>,
    home: Option<P>,
) -> (r: SaveTarget<P>)
    ensures
        r == target_of(output, save_dir, pictures, home),
        output matches Some(file) ==> r == SaveTarget::File(file),
        r is InCurrent <==> output is None && save_dir is None && pictures is None && home is None,
{
    match output {
        Some(file) => SaveTarget::File(file),
        None => match save_dir {
            Some(dir) => SaveTarget::InDirectory(dir),
            None => match pictures {
                Some(dir) => SaveTarget::InDirectory(dir),
                None => match home {
                    Some(dir) => SaveTarget::InDirectory(dir),
                    None => SaveTarget::InCurrent,
                },
            },
        },
    }
}

/// A command with every `{}` in it, from the left, replaced by a path.
pub open spec fn expanded(command: Seq<char>, path: Seq<char>) -> Seq<char>
    decreases command.len(),
{
    if command.len() == 0 {
        seq![]
    } else if command.len() >= 2 && command[0] == '{' && command[1] == '}' {
        path + expanded(command.skip(2), path)
    } else {
        seq![command[0]] + expanded(command.skip(1), path)
    }
}

/// The command to run after saving: every `{}` stands for the path of the
/// file.
pub fn expand_command(command: &str, path: &str) -> (r: String)
    ensures
        r@ == expanded(command@, path@),
{
    let text: Vec<char> = chars_of(command);
    let target: Vec<char> = chars_of(path);
    let mut out: Vec<char> = Vec::new();
    let mut i: usize = 0;
    assert(text@.skip(0) =~= text@);
    while i < text.len()
        invariant
            text@ == command@,
            target@ == path@,
            i <= text@.len(),
            out@ + expanded(text@.skip(i as int), path@) == expanded(command@, path@),
        decreases text@.len() - i,
    {
        let ghost rest = text@.skip(i as int);
        let ghost before = out@;
        if text[i] == '{' && text.len() - i >= 2 && text[i + 1] == '}' {
            out.extend_from_slice(target.as_slice());
            assert(rest.skip(2) =~= text@.skip(i + 2));
            assert(out@ =~= before + path@);
            assert(out@ + expanded(rest.skip(2), path@) =~= before + expanded(rest, path@));
            i = i + 2;
        } else {
            out.push(text[i]);
            assert(rest.skip(1) =~= text@.skip(i + 1));
            assert(out@ + expanded(rest.skip(1), path@) =~= before + expanded(rest, path@));
            i = i + 1;
        }
    }
    assert(out@ =~= expanded(command@, path@));
    string_of(out.as_slice())
}

/// A file that the user named takes precedence over every directory, and a
/// directory that the user named over those of the environment.
pub proof fn users_choice_comes_first<P>(
    file: P,
    dir: P,
    save_dir: Option<P>,
    pictures: Option<P>,
    home: Option<P>,
)
    ensures
        target_of(Some(file), save_dir, pictures, home) == SaveTarget::File(file),
        target_of(None, Some(dir), pictures, home) == SaveTarget::InDirectory(dir),
{
}

/// A command without a placeholder is run as it is.
pub proof fn plain_command_is_kept(command: Seq<char>, path: Seq<char>)
    requires
        forall|i: int| 0 <= i < command.len() - 1 ==> !(#[trigger] command[i] == '{' && command[i
            + 1] == '}'),
    ensures
        expanded(command, path) == command,
    decreases command.len(),
{
    if command.len() > 0 {
        let rest = command.skip(1);
        assert forall|i: int| 0 <= i < rest.len() - 1 implies !(#[trigger] rest[i] == '{' && rest[i
            + 1] == '}') by {
            assert(rest[i] == command[i + 1]);
        }
        plain_command_is_kept(rest, path);
        if command.len() >= 2 {
            assert(!(command[0] == '{' && command[1] == '}'));
        }
        assert(seq![command[0]] + rest =~= command);
    } else {
        assert(expanded(command, path) =~= command);
    }
}

/// A placeholder between two texts that hold none stands for the path.
pub proof fn placeholder_becomes_path(before: Seq<char>, after: Seq<char>, path: Seq<char>)
    requires
        forall|i: int| 0 <= i < before.len() ==> #[trigger] before[i] != '{',
        forall|i: int| 0 <= i < after.len() - 1 ==> !(#[trigger] after[i] == '{' && after[i + 1]
            == '}'),
    ensures
        expanded(before + seq!['{', '}'] + after, path) == before + path + after,
    decreases before.len(),
{
    let whole = before + seq!['{', '}'] + after;
    if before.len() == 0 {
        plain_command_is_kept(after, path);
        assert(whole.skip(2) =~= after);
        assert(path + after =~= before + path + after);
    } else {
        let rest = before.skip(1);
        assert forall|i: int| 0 <= i < rest.len() implies #[trigger] rest[i] != '{' by {
            assert(rest[i] == before[i + 1]);
        }
        placeholder_becomes_path(rest, after, path);
        assert(whole[0] == before[0]);
        assert(whole.skip(1) =~= rest + seq!['{', '}'] + after);
        assert(seq![before[0]] + (rest + path + after) =~= before + path + after);
    }
}

/// Without a file that the user named, the first directory that there is is
/// taken: the one that the user named, the one for pictures, the home directory;
/// without any, the current one.
pub proof fn first_directory_is_taken<P>(
    save_dir: Option<P>,
    pictures: Option<P>,
    home: Option<P>,
    dir: P,
)
    ensures
        target_of(None, None, Some(dir), home) == SaveTarget::InDirectory(dir),
        target_of(None, None, None, Some(dir)) == SaveTarget::InDirectory(dir),
        target_of(None::<P>, None, None, None) == SaveTarget::<P>::InCurrent,
        target_of(None, save_dir, pictures, home) matches SaveTarget::InDirectory(d) ==> save_dir
            == Some(d) || save_dir is None && pictures == Some(d) || save_dir is None && pictures
            is None && home == Some(d),
        !(target_of(None, save_dir, pictures, home) is File),
{
}

/// Texts joined by another one.
pub open spec fn joined(parts: Seq<Seq<char>>, by: Seq<char>) -> Seq<char>
    decreases parts.len(),
{
    if parts.len() == 0 {
        seq![]
    } else if parts.len() == 1 {
        parts[0]
    } else {
        parts[0] + by + joined(parts.skip(1), by)
    }
}

/// The text holds no placeholder.
pub open spec fn is_plain(text: Seq<char>) -> bool {
    forall|i: int| 0 <= i < text.len() - 1 ==> !(#[trigger] text[i] == '{' && text[i + 1] == '}')
}

/// A text without a placeholder in front of one.
proof fn lemma_expanded_after(plain: Seq<char>, rest: Seq<char>, path: Seq<char>)
    requires
        is_plain(plain),
    ensures
        expanded(plain + seq!['{', '}'] + rest, path) == plain + path + expanded(rest, path),
    decreases plain.len(),
{
    let whole = plain + seq!['{', '}'] + rest;
    if plain.len() == 0 {
        assert(whole.skip(2) =~= rest);
        assert(path + expanded(rest, path) =~= plain + path + expanded(rest, path));
    } else {
        let tail = plain.skip(1);
        assert(is_plain(tail)) by {
            assert forall|i: int| 0 <= i < tail.len() - 1 implies !(#[trigger] tail[i] == '{'
                && tail[i + 1] == '}') by {
                assert(tail[i] == plain[i + 1]);
            }
        }
        lemma_expanded_after(tail, rest, path);
        assert(whole[0] == plain[0]);
        if plain.len() >= 2 {
            assert(!(plain[0] == '{' && plain[1] == '}'));
            assert(whole[1] == plain[1]);
        } else {
            assert(whole[1] == '{');
        }
        assert(whole.skip(1) =~= tail + seq!['{', '}'] + rest);
        assert(seq![plain[0]] + (tail + path + expanded(rest, path)) =~= plain + path + expanded(
            rest,
            path,
        ));
    }
}

/// Every placeholder becomes the path, and nothing else changes: a command of
/// texts with placeholders between them becomes the same texts with the path
/// between them.
pub proof fn every_placeholder_becomes_path(parts: Seq<Seq<char>>, path: Seq<char>)
    requires
        parts.len() > 0,
        forall|i: int| 0 <= i < parts.len() ==> is_plain(#[trigger] parts[i]),
    ensures
        expanded(joined(parts, seq!['{', '}']), path) == joined(parts, path),
    decreases parts.len(),
{
    assert(is_plain(parts[0]));
    if parts.len() == 1 {
        plain_command_is_kept(parts[0], path);
    } else {
        let rest = parts.skip(1);
        assert forall|i: int| 0 <= i < rest.len() implies is_plain(#[trigger] rest[i]) by {
            assert(rest[i] == parts[i + 1]);
        }
        every_placeholder_becomes_path(rest, path);
        lemma_expanded_after(parts[0], joined(rest, seq!['{', '}']), path);
    }
}

/// Two digits denote their number.
proof fn lemma_two_digits(n: nat)
    requires
        n < 100,
    ensures
        two_digits(n).len() == 2,
        is_digit(two_digits(n)[0]) && is_digit(two_digits(n)[1]),
        digits_value(two_digits(n)) == n,
{
    let s = two_digits(n);
    assert(s.drop_last() =~= seq![digit_char(n / 10)]);
    assert(s.drop_last().drop_last() =~= Seq::<char>::empty());
    assert(digits_value(s.drop_last().drop_last()) == 0);
    assert(digits_value(s.drop_last()) == n / 10);
}

/// The name of a file saved in one of the years from 0 to 9999 shows the moment:
/// four digits denote the year, and two each the month and the day, and, behind
/// an underscore, the hour, the minute and the second.
pub proof fn stamp_shows_the_moment(time: LocalTime)
    requires
        time.exists_on_calendar(),
        0 <= time.year <= 9999,
    ensures
        ({
            let s = time.stamp();
            &&& s.len() == 15
            &&& forall|i: int| 0 <= i < 15 && i != 8 ==> is_digit(#[trigger] s[i])
            &&& s[8] == '_'
            &&& digits_value(s.subrange(0, 4)) == time.year
            &&& digits_value(s.subrange(4, 6)) == time.month
            &&& digits_value(s.subrange(6, 8)) == time.day
            &&& digits_value(s.subrange(9, 11)) == time.hour
            &&& digits_value(s.subrange(11, 13)) == time.minute
            &&& digits_value(s.subrange(13, 15)) == time.second
        }),
{
    let year = time.year as nat;
    let s = time.stamp();
    reveal_strlit("_");
    lemma_two_digits(year / 100);
    lemma_two_digits(year % 100);
    lemma_two_digits(time.month as nat);
    lemma_two_digits(time.day as nat);
    lemma_two_digits(time.hour as nat);
    lemma_two_digits(time.minute as nat);
    lemma_two_digits(time.second as nat);
    let y = two_digits(year / 100) + two_digits(year % 100);
    assert(s.subrange(0, 4) =~= y);
    assert(y.drop_last() =~= two_digits(year / 100).push(digit_char((year % 100) / 10)));
    assert(y.drop_last().drop_last() =~= two_digits(year / 100));
    assert(digits_value(y.drop_last()) == 10 * (year / 100) + (year % 100) / 10);
    assert(digits_value(y) == year);
    assert(s.subrange(4, 6) =~= two_digits(time.month as nat));
    assert(s.subrange(6, 8) =~= two_digits(time.day as nat));
    assert(s.subrange(9, 11) =~= two_digits(time.hour as nat));
    assert(s.subrange(11, 13) =~= two_digits(time.minute as nat));
    assert(s.subrange(13, 15) =~= two_digits(time.second as nat));
    assert forall|i: int| 0 <= i < 15 && i != 8 implies is_digit(#[trigger] s[i]) by {
        if i < 4 {
            assert(s[i] == s.subrange(0, 4)[i]);
        } else if i < 6 {
            assert(s[i] == s.subrange(4, 6)[i - 4]);
        } else if i < 8 {
            assert(s[i] == s.subrange(6, 8)[i - 6]);
        } else if i < 11 {
            assert(s[i] == s.subrange(9, 11)[i - 9]);
        } else if i < 13 {
            assert(s[i] == s.subrange(11, 13)[i - 11]);
        } else {
            assert(s[i] == s.subrange(13, 15)[i - 13]);
        }
    }
}

/// An image can be exported if and only if its bytes hold four for each of its
/// pixels; more do no harm, and one that is missing does.
pub proof fn exported_image_is_complete(data: Seq<u8>, width: u32, height: u32)
    requires
        4 * width <= usize::MAX,
    ensures
        data.len() >= 4 * width * height <==> image_fits(data, width as int, height as int),
{
}

/// A year has as many days as its months together: one more where it is a leap
/// year.
pub proof fn months_make_a_year(year: int)
    ensures
        ({
            let days = days_in_month(year, 1) + days_in_month(year, 2) + days_in_month(year, 3)
                + days_in_month(year, 4) + days_in_month(year, 5) + days_in_month(year, 6)
                + days_in_month(year, 7) + days_in_month(year, 8) + days_in_month(year, 9)
                + days_in_month(year, 10) + days_in_month(year, 11) + days_in_month(year, 12);
            &&& days == 365 || days == 366
            &&& days == 366 <==> year % 400 == 0 || year % 4 == 0 && year % 100 != 0
            &&& forall|month: int|
                1 <= month <= 12 && month != 2 ==> #[trigger] days_in_month(year, month) == (if month
                    == 4 || month == 6 || month == 9 || month == 11 {
                    30int
                } else {
                    31
                })
        }),
{
}

/// A year outside those that four digits show has a sign, and digits that denote
/// it; without a sign there are four.
pub proof fn years_have_a_sign_outside_four_digits(year: int)
    ensures
        year < 0 ==> year_text(year)[0] == '-' && digits_value(year_text(year).skip(1)) == -year,
        year > 9999 ==> year_text(year)[0] == '+' && digits_value(year_text(year).skip(1)) == year,
        0 <= year <= 9999 ==> year_text(year).len() == 4 && digits_value(year_text(year)) == year,
{
    let n: nat = if year < 0 {
        (-year) as nat
    } else {
        year as nat
    };
    let digits = four_digits(n);
    if n < 10000 {
        lemma_two_digits(n / 100);
        assert(digits.drop_last() =~= two_digits(n / 100).push(digit_char((n % 100) / 10)));
        assert(digits.drop_last().drop_last() =~= two_digits(n / 100));
        assert(digits_value(digits.drop_last()) == 10 * (n / 100) + (n % 100) / 10);
    } else {
        decimal_denotes(n);
    }
    assert(digits_value(digits) == n);
    if year < 0 || year > 9999 {
        assert(year_text(year).skip(1) =~= digits);
    }
}

} // verus!
