//! Text as sequences of characters: decimal numbers, words and fields.

use vstd::prelude::*;

verus! {

/// `String::push`: the string ends with the new character and is otherwise
/// unchanged.
pub assume_specification[ String::push ](s: &mut String, c: char)
    ensures
        final(s)@ == old(s)@.push(c),
;

/// Why a run of characters is not an integer of the wanted range.
#[derive(Debug, Clone, Copy, PartialEq, Eq, Structural)]
pub enum IntError {
    /// There is no character at all.
    Empty,
    /// A sign stands alone, or a character is no decimal digit.
    InvalidDigit,
    /// The digits read so far exceed the largest value.
    PosOverflow,
    /// The digits read so far fall below the smallest value.
    NegOverflow,
}

/// The characters with the Unicode property `White_Space`.
pub open spec fn is_space(c: char) -> bool {
    let u = c as u32;
    ||| 0x09 <= u <= 0x0d
    ||| u == 0x20
    ||| u == 0x85
    ||| u == 0xa0
    ||| u == 0x1680
    ||| 0x2000 <= u <= 0x200a
    ||| u == 0x2028
    ||| u == 0x2029
    ||| u == 0x202f
    ||| u == 0x205f
    ||| u == 0x3000
}

pub open spec fn is_digit(c: char) -> bool {
    '0' as u32 <= c as u32 <= '9' as u32
}

/// The value of one decimal digit.
pub open spec fn digit_value(c: char) -> nat {
    (c as u32 - '0' as u32) as nat
}

/// The digit that stands for a value below ten.
pub open spec fn digit_char(d: nat) -> char {
    ('0' as u32 + d) as char
}

/// The number that a run of digits denotes.
pub open spec fn digits_value(s: Seq<char>) -> nat
    decreases s.len(),
{
    if s.len() == 0 {
        0
    } else {
        digits_value(s.drop_last()) * 10 + digit_value(s.last())
    }
}

/// A number in decimal notation, without leading zeros.
pub open spec fn decimal(n: nat) -> Seq<char>
    decreases n,
{
    if n < 10 {
        seq![digit_char(n)]
    } else {
        decimal(n / 10).push(digit_char(n % 10))
    }
}

/// An integer in decimal notation, with a minus sign where it is negative.
pub open spec fn signed_decimal(n: int) -> Seq<char> {
    if n < 0 {
        seq!['-'] + decimal((-n) as nat)
    } else {
        decimal(n as nat)
    }
}

/// How many digits a text starts with.
pub open spec fn digit_prefix(s: Seq<char>) -> nat
    decreases s.len(),
{
    if s.len() == 0 || !is_digit(s[0]) {
        0
    } else {
        1 + digit_prefix(s.skip(1))
    }
}

/// A text read as an integer between `min` and `max`.
///
/// A leading `+` is skipped, and so is a leading `-` where `signed` holds,
/// which negates the number.  Digits that leave the range are reported before
/// whatever follows them.
pub open spec fn int_of(s: Seq<char>, signed: bool, min: int, max: int) -> Result<int, IntError> {
    if s.len() == 0 {
        Err(IntError::Empty)
    } else {
        let negative = signed && s[0] == '-';
        let body = if negative || s[0] == '+' {
            s.skip(1)
        } else {
            s
        };
        let digits = digit_prefix(body);
        let magnitude = digits_value(body.take(digits as int)) as int;
        let value = if negative {
            -magnitude
        } else {
            magnitude
        };
        if value > max {
            Err(IntError::PosOverflow)
        } else if value < min {
            Err(IntError::NegOverflow)
        } else if digits == 0 || digits < body.len() {
            Err(IntError::InvalidDigit)
        } else {
            Ok(value)
        }
    }
}

/// The maximal runs of characters that are not white space, in order.
pub open spec fn words(s: Seq<char>) -> Seq<Seq<char>>
    decreases s.len(),
{
    if s.len() == 0 {
        seq![]
    } else {
        let before = words(s.drop_last());
        if is_space(s.last()) {
            before
        } else if s.len() > 1 && !is_space(s[s.len() - 2]) {
            before.drop_last().push(before.last().push(s.last()))
        } else {
            before.push(seq![s.last()])
        }
    }
}

/// The pieces of a text between the occurrences of a separator.
pub open spec fn fields(s: Seq<char>, sep: char) -> Seq<Seq<char>>
    decreases s.len(),
{
    if s.len() == 0 {
        seq![Seq::<char>::empty()]
    } else {
        let before = fields(s.drop_last(), sep);
        if s.last() == sep {
            before.push(Seq::<char>::empty())
        } else {
            before.drop_last().push(before.last().push(s.last()))
        }
    }
}

/// A text without the white space at its start.
pub open spec fn trim_front(s: Seq<char>) -> Seq<char>
    decreases s.len(),
{
    if s.len() > 0 && is_space(s[0]) {
        trim_front(s.skip(1))
    } else {
        s
    }
}

/// A text without the white space at its end.
pub open spec fn trim_back(s: Seq<char>) -> Seq<char>
    decreases s.len(),
{
    if s.len() > 0 && is_space(s.last()) {
        trim_back(s.drop_last())
    } else {
        s
    }
}

/// A text without the white space at both ends.
pub open spec fn trimmed(s: Seq<char>) -> Seq<char> {
    trim_back(trim_front(s))
}

/// Whether `s` starts with `prefix`.
pub open spec fn starts_with(s: Seq<char>, prefix: Seq<char>) -> bool {
    prefix.len() <= s.len() && s.take(prefix.len() as int) == prefix
}

/// The characters of a string.
pub fn chars_of(s: &str) -> (r: Vec<char>)
    ensures
        r@ == s@,
{
    let mut r: Vec<char> = Vec::new();
    for c in it: s.chars()
        invariant
            it.seq() == s@,
            r@ == s@.take(it.index()),
    {
        r.push(c);
        assert(s@.take(it.index() + 1) =~= s@.take(it.index()).push(c));
    }
    assert(s@.take(s@.len() as int) =~= s@);
    r
}

/// The string made of the characters of a slice.
pub fn string_of(chars: &[char]) -> (r: String)
    ensures
        r@ == chars@,
{
    let mut r: String = String::new();
    let mut i: usize = 0;
    assert(chars@.take(0) =~= Seq::<char>::empty());
    while i < chars.len()
        invariant
            i <= chars@.len(),
            r@ == chars@.take(i as int),
        decreases chars@.len() - i,
    {
        r.push(chars[i]);
        assert(chars@.take(i + 1) =~= chars@.take(i as int).push(chars@[i as int]));
        i = i + 1;
    }
    assert(chars@.take(chars@.len() as int) =~= chars@);
    r
}

/// Whether two strings hold the same characters.
pub fn same_text(a: &str, b: &str) -> (r: bool)
    ensures
        r == (a@ == b@),
{
    let x: Vec<char> = chars_of(a);
    let y: Vec<char> = chars_of(b);
    if x.len() != y.len() {
        return false;
    }
    let mut i: usize = 0;
    while i < x.len()
        invariant
            x@ == a@,
            y@ == b@,
            x@.len() == y@.len(),
            i <= x@.len(),
            forall|j: int| 0 <= j < i ==> x@[j] == y@[j],
        decreases x@.len() - i,
    {
        if x[i] != y[i] {
            return false;
        }
        i = i + 1;
    }
    assert(x@ =~= y@);
    true
}

/// Whether a string starts with another one.
pub fn has_prefix(s: &str, prefix: &str) -> (r: bool)
    ensures
        r == starts_with(s@, prefix@),
{
    let x: Vec<char> = chars_of(s);
    let y: Vec<char> = chars_of(prefix);
    if y.len() > x.len() {
        return false;
    }
    let mut i: usize = 0;
    while i < y.len()
        invariant
            x@ == s@,
            y@ == prefix@,
            y@.len() <= x@.len(),
            i <= y@.len(),
            forall|j: int| 0 <= j < i ==> x@[j] == y@[j],
        decreases y@.len() - i,
    {
        if x[i] != y[i] {
            assert(s@.take(prefix@.len() as int)[i as int] != prefix@[i as int]);
            return false;
        }
        i = i + 1;
    }
    assert(s@.take(prefix@.len() as int) =~= prefix@);
    true
}

/// Whether a character is white space.
pub fn space(c: char) -> (r: bool)
    ensures
        r == is_space(c),
{
    let u: u32 = c as u32;
    (0x09 <= u && u <= 0x0d) || u == 0x20 || u == 0x85 || u == 0xa0 || u == 0x1680 || (0x2000 <= u
        && u <= 0x200a) || u == 0x2028 || u == 0x2029 || u == 0x202f || u == 0x205f || u == 0x3000
}

/// Appends a number in decimal notation.
pub fn push_decimal(s: &mut String, n: u64)
    ensures
        final(s)@ == old(s)@ + decimal(n as nat),
    decreases n,
{
    if n >= 10 {
        push_decimal(s, n / 10);
    }
    let d: u8 = (n % 10) as u8;
    let c: char = (48u8 + d) as char;
    s.push(c);
    assert(c == digit_char((n % 10) as nat));
    if n < 10 {
        assert(s@ =~= old(s)@ + decimal(n as nat));
    } else {
        assert(s@ =~= old(s)@ + decimal((n / 10) as nat).push(c));
    }
}

/// Appends an integer in decimal notation.
pub fn push_signed(s: &mut String, n: i64)
    ensures
        final(s)@ == old(s)@ + signed_decimal(n as int),
{
    if n < 0 {
        s.push('-');
        let magnitude: u64 = (-(n as i128)) as u64;
        push_decimal(s, magnitude);
        assert(s@ =~= old(s)@ + signed_decimal(n as int));
    } else {
        push_decimal(s, n as u64);
    }
}

proof fn lemma_digits_value_monotone(s: Seq<char>, i: int, j: int)
    requires
        0 <= i <= j <= s.len(),
    ensures
        digits_value(s.take(i)) <= digits_value(s.take(j)),
    decreases j - i,
{
    if i < j {
        lemma_digits_value_monotone(s, i, j - 1);
        assert(s.take(j).drop_last() =~= s.take(j - 1));
    }
}

/// A text whose first `n` characters are digits starts with at least `n`
/// digits, and with exactly `n` where no further digit follows.
proof fn lemma_digit_prefix(s: Seq<char>, n: int)
    requires
        0 <= n <= s.len(),
        forall|j: int| 0 <= j < n ==> is_digit(#[trigger] s[j]),
    ensures
        n <= digit_prefix(s) <= s.len(),
        n == s.len() || !is_digit(s[n]) ==> digit_prefix(s) == n,
    decreases s.len(),
{
    if s.len() > 0 && is_digit(s[0]) {
        let rest = s.skip(1);
        let m = if n > 0 {
            n - 1
        } else {
            0
        };
        assert forall|j: int| 0 <= j < m implies is_digit(#[trigger] rest[j]) by {
            assert(rest[j] == s[j + 1]);
        }
        lemma_digit_prefix(rest, m);
        if n > 0 && n < s.len() {
            assert(rest[m] == s[n]);
        }
    }
}

/// Reads a slice of characters as an integer between `min` and `max`.
pub fn parse_int(s: &[char], signed: bool, min: i64, max: i64) -> (r: Result<i64, IntError>)
    requires
        -0x1_0000_0000 <= min <= 0 <= max <= 0x1_0000_0000,
    ensures
        match r {
            Ok(n) => int_of(s@, signed, min as int, max as int) == Ok::<int, IntError>(n as int),
            Err(e) => int_of(s@, signed, min as int, max as int) == Err::<int, IntError>(e),
        },
{
    if s.len() == 0 {
        return Err(IntError::Empty);
    }
    let negative: bool = signed && s[0] == '-';
    let start: usize = if negative || s[0] == '+' {
        1
    } else {
        0
    };
    let ghost body = s@.skip(start as int);
    proof {
        if start == 0 {
            assert(body =~= s@);
        }
    }
    let limit: i64 = if negative {
        -min
    } else {
        max
    };
    let mut i: usize = start;
    let mut value: i64 = 0;
    assert(body.take(0) =~= Seq::<char>::empty());
    while i < s.len()
        invariant
            start <= i <= s@.len(),
            start <= 1,
            body == s@.skip(start as int),
            0 <= value <= limit <= 0x1_0000_0000,
            value == digits_value(body.take(i - start)),
            forall|j: int| 0 <= j < i - start ==> is_digit(#[trigger] body[j]),
            negative == (signed && s@[0] == '-'),
            start == (if negative || s@[0] == '+' { 1int } else { 0int }),
            limit == (if negative { -min } else { max as int }),
            min <= 0 <= max,
            s@.len() > 0,
            start == 0 ==> body == s@,
        decreases s@.len() - i,
    {
        let u: u32 = s[i] as u32;
        let ghost k = i - start;
        assert(body[k] == s@[i as int]);
        if u < 48 || u > 57 {
            proof {
                lemma_digit_prefix(body, k);
            }
            return Err(IntError::InvalidDigit);
        }
        value = value * 10 + (u - 48) as i64;
        assert(body.take(k + 1).drop_last() =~= body.take(k));
        i = i + 1;
        if value > limit {
            proof {
                lemma_digit_prefix(body, k + 1);
                lemma_digits_value_monotone(body, k + 1, digit_prefix(body) as int);
            }
            return Err(
                if negative {
                    IntError::NegOverflow
                } else {
                    IntError::PosOverflow
                },
            );
        }
    }
    proof {
        lemma_digit_prefix(body, body.len() as int);
    }
    if start == s.len() {
        return Err(IntError::InvalidDigit);
    }
    if negative {
        Ok(-value)
    } else {
        Ok(value)
    }
}

/// The view of a list of words.
pub open spec fn texts(list: Seq<Vec<char>>) -> Seq<Seq<char>> {
    list.map_values(|w: Vec<char>| w@)
}

/// The words of a slice of characters.
pub fn split_words(s: &[char]) -> (r: Vec<Vec<char>>)
    ensures
        texts(r@) == words(s@),
{
    let mut out: Vec<Vec<char>> = Vec::new();
    let mut current: Vec<char> = Vec::new();
    let mut i: usize = 0;
    assert(texts(out@) =~= words(s@.take(0)));
    while i < s.len()
        invariant
            i <= s@.len(),
            current@.len() > 0 <==> i > 0 && !is_space(s@[i - 1]),
            words(s@.take(i as int)) == (if current@.len() > 0 {
                texts(out@).push(current@)
            } else {
                texts(out@)
            }),
        decreases s@.len() - i,
    {
        let c: char = s[i];
        let ghost here = s@.take(i + 1);
        let ghost word = current@;
        let ghost done = texts(out@);
        assert(here.drop_last() =~= s@.take(i as int));
        if space(c) {
            if current.len() > 0 {
                let mut finished: Vec<char> = Vec::new();
                std::mem::swap(&mut finished, &mut current);
                out.push(finished);
                assert(texts(out@) =~= done.push(word));
            }
        } else {
            current.push(c);
            proof {
                if word.len() > 0 {
                    assert(here[here.len() - 2] == s@[i - 1]);
                    assert(done.push(word).drop_last() =~= done);
                } else {
                    assert(current@ =~= seq![c]);
                    if i > 0 {
                        assert(here[here.len() - 2] == s@[i - 1]);
                    }
                }
            }
        }
        i = i + 1;
    }
    assert(s@.take(s@.len() as int) =~= s@);
    if current.len() > 0 {
        let ghost done = texts(out@);
        let ghost word = current@;
        out.push(current);
        assert(texts(out@) =~= done.push(word));
    }
    out
}

/// The fields of a slice of characters.
pub fn split_fields(s: &[char], sep: char) -> (r: Vec<Vec<char>>)
    ensures
        texts(r@) == fields(s@, sep),
{
    let mut out: Vec<Vec<char>> = Vec::new();
    let mut current: Vec<char> = Vec::new();
    let mut i: usize = 0;
    assert(texts(out@).push(current@) =~= fields(s@.take(0), sep));
    while i < s.len()
        invariant
            i <= s@.len(),
            fields(s@.take(i as int), sep) == texts(out@).push(current@),
        decreases s@.len() - i,
    {
        let c: char = s[i];
        let ghost here = s@.take(i + 1);
        let ghost field = current@;
        let ghost done = texts(out@);
        assert(here.drop_last() =~= s@.take(i as int));
        if c == sep {
            let mut finished: Vec<char> = Vec::new();
            std::mem::swap(&mut finished, &mut current);
            out.push(finished);
            assert(texts(out@) =~= done.push(field));
            assert(current@ =~= Seq::<char>::empty());
        } else {
            current.push(c);
            assert(done.push(field).drop_last() =~= done);
        }
        i = i + 1;
    }
    assert(s@.take(s@.len() as int) =~= s@);
    let ghost done = texts(out@);
    let ghost field = current@;
    out.push(current);
    assert(texts(out@) =~= done.push(field));
    out
}

/// A slice of characters without the white space at both ends, as a string.
pub fn trim_to_string(s: &[char]) -> (r: String)
    ensures
        r@ == trimmed(s@),
{
    let mut start: usize = 0;
    assert(s@.skip(0) =~= s@);
    while start < s.len() && space(s[start])
        invariant
            start <= s@.len(),
            trim_front(s@) == trim_front(s@.skip(start as int)),
        decreases s@.len() - start,
    {
        assert(s@.skip(start as int).skip(1) =~= s@.skip(start + 1));
        start = start + 1;
    }
    let ghost front = s@.skip(start as int);
    assert(trim_front(s@) == front);
    let mut end: usize = s.len();
    assert(s@.subrange(start as int, end as int) =~= front);
    while end > start && space(s[end - 1])
        invariant
            start <= end <= s@.len(),
            trim_back(front) == trim_back(s@.subrange(start as int, end as int)),
        decreases end,
    {
        assert(s@.subrange(start as int, end as int).drop_last() =~= s@.subrange(
            start as int,
            end - 1,
        ));
        end = end - 1;
    }
    assert(trim_back(front) == s@.subrange(start as int, end as int));
    let mut r: String = String::new();
    let mut i: usize = start;
    assert(s@.subrange(start as int, start as int) =~= Seq::<char>::empty());
    while i < end
        invariant
            start <= i <= end <= s@.len(),
            r@ == s@.subrange(start as int, i as int),
        decreases end - i,
    {
        r.push(s[i]);
        assert(s@.subrange(start as int, i + 1) =~= s@.subrange(start as int, i as int).push(
            s@[i as int],
        ));
        i = i + 1;
    }
    r
}

/// Decimal notation consists of digits and denotes its number.
pub proof fn decimal_denotes(n: nat)
    ensures
        decimal(n).len() > 0,
        forall|i: int| 0 <= i < decimal(n).len() ==> is_digit(#[trigger] decimal(n)[i]),
        digits_value(decimal(n)) == n,
    decreases n,
{
    if n < 10 {
        let s = decimal(n);
        assert(s.drop_last() =~= Seq::<char>::empty());
        assert(digits_value(s.drop_last()) == 0);
    } else {
        decimal_denotes(n / 10);
        assert(decimal(n).drop_last() =~= decimal(n / 10));
    }
}

/// Reading an integer in decimal notation gives the integer back.
pub proof fn reading_gives_integer_back(n: int, signed: bool, min: int, max: int)
    requires
        min <= n <= max,
        n < 0 ==> signed,
    ensures
        int_of(signed_decimal(n), signed, min, max) == Ok::<int, IntError>(n),
{
    let magnitude: nat = if n < 0 {
        (-n) as nat
    } else {
        n as nat
    };
    let body = decimal(magnitude);
    decimal_denotes(magnitude);
    lemma_digit_prefix(body, body.len() as int);
    assert(body.take(body.len() as int) =~= body);
    let s = signed_decimal(n);
    assert(is_digit(body[0]));
    if n < 0 {
        assert(s[0] == '-');
        assert(s.skip(1) =~= body);
    } else {
        assert(s == body);
    }
}

/// Two words with one space between them are read as these two words.
pub proof fn two_words(a: Seq<char>, b: Seq<char>)
    requires
        a.len() > 0,
        b.len() > 0,
        forall|i: int| 0 <= i < a.len() ==> !is_space(#[trigger] a[i]),
        forall|i: int| 0 <= i < b.len() ==> !is_space(#[trigger] b[i]),
    ensures
        words(a + seq![' '] + b) == seq![a, b],
    decreases b.len(),
{
    let s = a + seq![' '] + b;
    let t = b.drop_last();
    assert(s.drop_last() =~= a + seq![' '] + t);
    if b.len() == 1 {
        let u = a + seq![' '];
        assert(s.drop_last() =~= u);
        assert(u.drop_last() =~= a);
        assert(u.last() == ' ');
        assert(words(u) == words(a));
        lemma_one_word(a);
        assert(s[s.len() - 2] == ' ');
        assert(s.last() == b[0]);
        assert(words(s) =~= seq![a].push(seq![b.last()]));
        assert(b =~= seq![b.last()]);
    } else {
        assert forall|i: int| 0 <= i < t.len() implies !is_space(#[trigger] t[i]) by {
            assert(t[i] == b[i]);
        }
        two_words(a, t);
        assert(s[s.len() - 2] == b[b.len() - 2]);
        assert(s.last() == b.last());
        assert(words(s) =~= seq![a, t].drop_last().push(t.push(b.last())));
        assert(t.push(b.last()) =~= b);
    }
}

proof fn lemma_one_word(s: Seq<char>)
    requires
        s.len() > 0,
        forall|i: int| 0 <= i < s.len() ==> !is_space(#[trigger] s[i]),
    ensures
        words(s) == seq![s],
    decreases s.len(),
{
    let t = s.drop_last();
    assert(s.last() == s[s.len() - 1]);
    if s.len() == 1 {
        assert(words(t) =~= Seq::<Seq<char>>::empty());
        assert(s =~= seq![s.last()]);
    } else {
        assert forall|i: int| 0 <= i < t.len() implies !is_space(#[trigger] t[i]) by {
            assert(t[i] == s[i]);
        }
        lemma_one_word(t);
        assert(!is_space(s[s.len() - 2]));
        assert(t.push(s.last()) =~= s);
    }
    assert(words(s) =~= seq![s]);
}

/// Two texts without the separator, joined by it, are read as these two
/// fields.
pub proof fn two_fields(a: Seq<char>, b: Seq<char>, sep: char)
    requires
        !a.contains(sep),
        !b.contains(sep),
    ensures
        fields(a + seq![sep] + b, sep) == seq![a, b],
    decreases b.len(),
{
    let s = a + seq![sep] + b;
    if b.len() == 0 {
        assert(s.drop_last() =~= a);
        lemma_one_field(a, sep);
        assert(b =~= Seq::<char>::empty());
        assert(fields(s, sep) =~= seq![a, b]);
    } else {
        let t = b.drop_last();
        assert(s.drop_last() =~= a + seq![sep] + t);
        assert(b[b.len() - 1] == b.last());
        if t.contains(sep) {
            let i = t.index_of(sep);
            assert(b[i] == sep);
        }
        two_fields(a, t, sep);
        assert(t.push(b.last()) =~= b);
        assert(fields(s, sep) =~= seq![a, b]);
    }
}

proof fn lemma_one_field(s: Seq<char>, sep: char)
    requires
        !s.contains(sep),
    ensures
        fields(s, sep) == seq![s],
    decreases s.len(),
{
    if s.len() > 0 {
        let t = s.drop_last();
        if t.contains(sep) {
            let i = t.index_of(sep);
            assert(s[i] == sep);
        }
        lemma_one_field(t, sep);
        assert(s[s.len() - 1] == s.last());
        assert(t.push(s.last()) =~= s);
    } else {
        assert(s =~= Seq::<char>::empty());
    }
    assert(fields(s, sep) =~= seq![s]);
}

/// A text starts with another one if and only if it is that text with something
/// behind it.
pub proof fn prefix_and_rest(s: Seq<char>, prefix: Seq<char>, rest: Seq<char>)
    ensures
        starts_with(prefix + rest, prefix),
        starts_with(s, prefix) ==> s == prefix + s.skip(prefix.len() as int),
{
    assert((prefix + rest).take(prefix.len() as int) =~= prefix);
    if starts_with(s, prefix) {
        let n = prefix.len() as int;
        assert(s =~= s.take(n) + s.skip(n));
    }
}

/// Of the characters of ASCII, white space is the space and what moves the
/// cursor: tab, line feed, vertical tab, form feed and carriage return.  Of the
/// others, it is the spaces, separators and blanks that Unicode names so.
pub proof fn white_space_is_blank(c: char)
    ensures
        (c as u32) < 128 ==> (is_space(c) <==> c == ' ' || c == '\t' || c == '\n' || c == '\r' || c
            == '\u{b}' || c == '\u{c}'),
        (c as u32) >= 128 ==> (is_space(c) <==> c == '\u{85}' || c == '\u{a0}' || c == '\u{1680}'
            || '\u{2000}' <= c <= '\u{200a}' || c == '\u{2028}' || c == '\u{2029}' || c == '\u{202f}'
            || c == '\u{205f}' || c == '\u{3000}'),
{
}

/// A further digit makes a number ten times as large and adds its value.
pub proof fn digits_count_tenfold(s: Seq<char>, c: char)
    ensures
        digits_value(s.push(c)) == 10 * digits_value(s) + digit_value(c),
        digits_value(seq![]) == 0,
        is_digit(c) <==> c == '0' || c == '1' || c == '2' || c == '3' || c == '4' || c == '5' || c
            == '6' || c == '7' || c == '8' || c == '9',
        digit_value('0') == 0,
        is_digit(c) && c != '0' ==> digit_value(c) == digit_value((c as u32 - 1) as char) + 1,
{
    assert(s.push(c).drop_last() =~= s);
}

/// Decimal notation has no leading zero, so that of a smaller number is no
/// longer, and different numbers have different ones.
pub proof fn decimal_is_short(n: nat, m: nat)
    ensures
        n > 0 ==> decimal(n)[0] != '0',
        n == 0 ==> decimal(n) == seq!['0'],
        decimal(n) == decimal(m) ==> n == m,
    decreases n,
{
    decimal_denotes(n);
    decimal_denotes(m);
    if n >= 10 {
        decimal_is_short(n / 10, m);
        decimal_denotes(n / 10);
        assert(decimal(n)[0] == decimal(n / 10)[0]);
    }
}

/// A run of digits is read as the number that it denotes, with a sign in front
/// of it or without, if that lies in the range; otherwise it is refused as too
/// large or too small.  Leading zeros do not matter.
pub proof fn digits_are_read(body: Seq<char>, signed: bool, min: int, max: int)
    requires
        body.len() > 0,
        forall|i: int| 0 <= i < body.len() ==> is_digit(#[trigger] body[i]),
        min <= 0 <= max,
    ensures
        ({
            let n = digits_value(body) as int;
            let read = if n <= max {
                Ok::<int, IntError>(n)
            } else {
                Err(IntError::PosOverflow)
            };
            &&& int_of(body, signed, min, max) == read
            &&& int_of(seq!['+'] + body, signed, min, max) == read
            &&& int_of(seq!['-'] + body, true, min, max) == (if -n >= min {
                Ok::<int, IntError>(-n)
            } else {
                Err(IntError::NegOverflow)
            })
        }),
{
    lemma_digit_prefix(body, body.len() as int);
    assert(body.take(body.len() as int) =~= body);
    assert(is_digit(body[0]));
    assert((seq!['+'] + body).skip(1) =~= body);
    assert((seq!['-'] + body).skip(1) =~= body);
}

/// What is read as an integer is a run of digits with at most one sign in front,
/// a minus only where it is allowed, and the integer lies in the range.
pub proof fn only_integers_are_read(s: Seq<char>, signed: bool, min: int, max: int)
    ensures
        int_of(s, signed, min, max) matches Ok(n) ==> {
            &&& min <= n <= max
            &&& s.len() > 0
            &&& forall|i: int| 0 < i < s.len() ==> is_digit(#[trigger] s[i])
            &&& is_digit(s[0]) && n == digits_value(s) || s.len() > 1 && s[0] == '+' && n
                == digits_value(s.skip(1)) || s.len() > 1 && signed && s[0] == '-' && n
                == -digits_value(s.skip(1))
        },
        int_of(s, signed, min, max) == Err::<int, IntError>(IntError::Empty) <==> s.len() == 0,
{
    if int_of(s, signed, min, max) is Ok {
        let body = if signed && s[0] == '-' || s[0] == '+' {
            s.skip(1)
        } else {
            s
        };
        lemma_prefix_digits(body);
        assert(body.take(body.len() as int) =~= body);
        assert(is_digit(body[0]));
        assert forall|i: int| 0 < i < s.len() implies is_digit(#[trigger] s[i]) by {
            if body.len() < s.len() {
                assert(body[i - 1] == s[i]);
            }
        }
    }
}

/// The digits that a text starts with are digits.
proof fn lemma_prefix_digits(s: Seq<char>)
    ensures
        digit_prefix(s) <= s.len(),
        forall|i: int| 0 <= i < digit_prefix(s) ==> is_digit(#[trigger] s[i]),
    decreases s.len(),
{
    if s.len() > 0 && is_digit(s[0]) {
        let rest = s.skip(1);
        lemma_prefix_digits(rest);
        assert forall|i: int| 0 <= i < digit_prefix(s) implies is_digit(#[trigger] s[i]) by {
            if i > 0 {
                assert(rest[i - 1] == s[i]);
            }
        }
    }
}

/// White space at the end of a text adds no word, and a run of other characters
/// behind white space, or alone, adds that run.
pub proof fn words_are_added_at_spaces(s: Seq<char>, space: char, word: Seq<char>)
    requires
        is_space(space),
        word.len() > 0,
        forall|i: int| 0 <= i < word.len() ==> !is_space(#[trigger] word[i]),
    ensures
        words(Seq::<char>::empty()) == Seq::<Seq<char>>::empty(),
        words(s.push(space)) == words(s),
        words(word) == seq![word],
        words(s.push(space) + word) == words(s).push(word),
    decreases word.len(),
{
    assert(s.push(space).drop_last() =~= s);
    lemma_one_word(word);
    let whole = s.push(space) + word;
    let rest = word.drop_last();
    assert(whole.drop_last() =~= s.push(space) + rest);
    assert(whole.last() == word[word.len() - 1]);
    if word.len() == 1 {
        assert(whole.drop_last() =~= s.push(space));
        assert(whole[whole.len() - 2] == space);
        assert(word =~= seq![word.last()]);
    } else {
        assert forall|i: int| 0 <= i < rest.len() implies !is_space(#[trigger] rest[i]) by {
            assert(rest[i] == word[i]);
        }
        words_are_added_at_spaces(s, space, rest);
        assert(whole[whole.len() - 2] == word[word.len() - 2]);
        assert(rest.push(word.last()) =~= word);
        assert(words(s).push(rest).drop_last() =~= words(s));
    }
}

/// Each separator ends a field and begins the next one; a text without a
/// separator is one field.
pub proof fn fields_are_added_at_separators(s: Seq<char>, sep: char, field: Seq<char>)
    requires
        !field.contains(sep),
    ensures
        fields(field, sep) == seq![field],
        fields(s.push(sep) + field, sep) == fields(s, sep).push(field),
    decreases field.len(),
{
    lemma_one_field(field, sep);
    let whole = s.push(sep) + field;
    if field.len() == 0 {
        assert(whole =~= s.push(sep));
        assert(whole.drop_last() =~= s);
        assert(field =~= Seq::<char>::empty());
    } else {
        let rest = field.drop_last();
        if rest.contains(sep) {
            let i = rest.index_of(sep);
            assert(field[i] == sep);
        }
        assert(field[field.len() - 1] == field.last());
        fields_are_added_at_separators(s, sep, rest);
        assert(whole.drop_last() =~= s.push(sep) + rest);
        assert(rest.push(field.last()) =~= field);
        assert(fields(s, sep).push(rest).drop_last() =~= fields(s, sep));
    }
}

/// A text without the white space at its start: what is cut off is white space,
/// and what is left does not start with any.
proof fn lemma_trim_front(s: Seq<char>) -> (cut: Seq<char>)
    ensures
        s == cut + trim_front(s),
        forall|i: int| 0 <= i < cut.len() ==> is_space(#[trigger] cut[i]),
        trim_front(s).len() > 0 ==> !is_space(trim_front(s)[0]),
    decreases s.len(),
{
    if s.len() > 0 && is_space(s[0]) {
        let cut = lemma_trim_front(s.skip(1));
        let all = seq![s[0]] + cut;
        assert(trim_front(s) == trim_front(s.skip(1)));
        assert(s =~= seq![s[0]] + s.skip(1));
        assert(s =~= all + trim_front(s));
        all
    } else {
        assert(s =~= Seq::<char>::empty() + s);
        Seq::empty()
    }
}

proof fn lemma_trim_back(s: Seq<char>) -> (cut: Seq<char>)
    ensures
        s == trim_back(s) + cut,
        forall|i: int| 0 <= i < cut.len() ==> is_space(#[trigger] cut[i]),
        trim_back(s).len() > 0 ==> !is_space(trim_back(s).last()),
    decreases s.len(),
{
    if s.len() > 0 && is_space(s.last()) {
        let cut = lemma_trim_back(s.drop_last());
        let all = cut.push(s.last());
        assert(trim_back(s) == trim_back(s.drop_last()));
        assert(s =~= s.drop_last().push(s.last()));
        assert(s =~= trim_back(s) + all);
        all
    } else {
        assert(s =~= s + Seq::<char>::empty());
        Seq::empty()
    }
}

/// Trimming cuts white space off at both ends, all of it and nothing else.
pub proof fn trimming_cuts_white_space(s: Seq<char>)
    ensures
        exists|front: Seq<char>, back: Seq<char>|
            #![trigger front + trimmed(s) + back]
            s == front + trimmed(s) + back && (forall|i: int|
                0 <= i < front.len() ==> is_space(#[trigger] front[i])) && (forall|i: int|
                0 <= i < back.len() ==> is_space(#[trigger] back[i])),
        trimmed(s).len() > 0 ==> !is_space(trimmed(s)[0]) && !is_space(trimmed(s).last()),
{
    let front = lemma_trim_front(s);
    let back = lemma_trim_back(trim_front(s));
    assert(s =~= front + trimmed(s) + back);
    if trimmed(s).len() > 0 {
        assert(trim_front(s)[0] == trimmed(s)[0]);
    }
}

/// White space at the end of a text does not change its words.
proof fn lemma_words_before_spaces(s: Seq<char>, spaces: Seq<char>)
    requires
        forall|i: int| 0 <= i < spaces.len() ==> is_space(#[trigger] spaces[i]),
    ensures
        words(s + spaces) == words(s),
    decreases spaces.len(),
{
    if spaces.len() == 0 {
        assert(s + spaces =~= s);
    } else {
        let rest = spaces.drop_last();
        assert forall|i: int| 0 <= i < rest.len() implies is_space(#[trigger] rest[i]) by {
            assert(rest[i] == spaces[i]);
        }
        assert(is_space(spaces[spaces.len() - 1]));
        lemma_words_before_spaces(s, rest);
        assert((s + spaces).drop_last() =~= s + rest);
    }
}

/// However much white space stands before, between and behind two words, they
/// are read as these two words.
pub proof fn white_space_does_not_matter(
    front: Seq<char>,
    a: Seq<char>,
    gap: Seq<char>,
    b: Seq<char>,
    back: Seq<char>,
)
    requires
        forall|i: int| 0 <= i < front.len() ==> is_space(#[trigger] front[i]),
        forall|i: int| 0 <= i < gap.len() ==> is_space(#[trigger] gap[i]),
        forall|i: int| 0 <= i < back.len() ==> is_space(#[trigger] back[i]),
        forall|i: int| 0 <= i < a.len() ==> !is_space(#[trigger] a[i]),
        forall|i: int| 0 <= i < b.len() ==> !is_space(#[trigger] b[i]),
        a.len() > 0,
        b.len() > 0,
        gap.len() > 0,
    ensures
        words(front + a + gap + b + back) == seq![a, b],
{
    let none = Seq::<char>::empty();
    let n = front.len() - 1;
    if front.len() == 0 {
        assert(front + a =~= a);
        lemma_one_word(a);
    } else {
        let rest = front.drop_last();
        assert forall|i: int| 0 <= i < rest.len() implies is_space(#[trigger] rest[i]) by {
            assert(rest[i] == front[i]);
        }
        assert(is_space(front[n]));
        lemma_words_before_spaces(none, rest);
        assert(none + rest =~= rest);
        words_are_added_at_spaces(rest, front[n], a);
        assert(rest.push(front[n]) =~= front);
        assert(words(front + a) =~= seq![a]);
    }
    let m = gap.len() - 1;
    let rest = gap.drop_last();
    assert forall|i: int| 0 <= i < rest.len() implies is_space(#[trigger] rest[i]) by {
        assert(rest[i] == gap[i]);
    }
    assert(is_space(gap[m]));
    lemma_words_before_spaces(front + a, rest);
    words_are_added_at_spaces(front + a + rest, gap[m], b);
    assert((front + a + rest).push(gap[m]) =~= front + a + gap);
    assert(words(front + a + gap + b) =~= seq![a, b]);
    lemma_words_before_spaces(front + a + gap + b, back);
}

/// A list of texts has as many texts as entries, each that of its entry.
pub proof fn texts_are_those_of_entries(list: Seq<Vec<char>>, i: int)
    requires
        0 <= i < list.len(),
    ensures
        texts(list).len() == list.len(),
        texts(list)[i] == list[i]@,
{
}

/// A negative integer is written as a minus sign and the number without it, and
/// every other one without a sign.
pub proof fn minus_stands_before_digits(n: int)
    ensures
        n < 0 ==> signed_decimal(n)[0] == '-' && signed_decimal(n).skip(1) == decimal((-n) as nat),
        n >= 0 ==> signed_decimal(n) == decimal(n as nat),
{
    if n < 0 {
        assert(signed_decimal(n).skip(1) =~= decimal((-n) as nat));
    }
}

/// Digits with something else behind them are refused for what is behind them,
/// unless the digits already leave the range; a sign that stands alone is
/// refused, too.
pub proof fn other_characters_are_refused(
    digits: Seq<char>,
    rest: Seq<char>,
    signed: bool,
    min: int,
    max: int,
)
    requires
        forall|i: int| 0 <= i < digits.len() ==> is_digit(#[trigger] digits[i]),
        rest.len() > 0,
        !is_digit(rest[0]),
        digits.len() > 0 || rest[0] != '+' && rest[0] != '-',
        min <= 0 <= max,
    ensures
        int_of(digits + rest, signed, min, max) == Err::<int, IntError>(
            if digits_value(digits) > max {
                IntError::PosOverflow
            } else {
                IntError::InvalidDigit
            },
        ),
        int_of(seq!['-'] + digits + rest, true, min, max) == Err::<int, IntError>(
            if -digits_value(digits) < min {
                IntError::NegOverflow
            } else {
                IntError::InvalidDigit
            },
        ),
        int_of(seq!['+'], signed, min, max) == Err::<int, IntError>(IntError::InvalidDigit),
        int_of(seq!['-'], signed, min, max) == Err::<int, IntError>(IntError::InvalidDigit),
{
    let body = digits + rest;
    let n = digits.len() as int;
    assert forall|j: int| 0 <= j < n implies is_digit(#[trigger] body[j]) by {
        assert(body[j] == digits[j]);
    }
    assert(body[n] == rest[0]);
    lemma_digit_prefix(body, n);
    assert(body.take(n) =~= digits);
    if n > 0 {
        assert(is_digit(body[0]));
    }
    let negative = seq!['-'] + digits + rest;
    assert(negative.skip(1) =~= body);
    let none = Seq::<char>::empty();
    assert(seq!['+'].skip(1) =~= none);
    assert(seq!['-'].skip(1) =~= none);
    assert(none.take(0) =~= none);
    assert(seq!['-'].take(0) =~= none);
}

} // verus!
