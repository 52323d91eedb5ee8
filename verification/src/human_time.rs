//! Spans of time as people write them.
use vstd::prelude::*;

use crate::duration;
use crate::duration::Duration;
use crate::text;

verus! {

/// What `humantime::parse_duration` makes of a text: seconds and nanoseconds, or what is wrong
/// with it.
pub uninterp spec fn parsed_duration(text: Seq<char>) -> Result<(u64, u32), Seq<char>>;

/// What `humantime::format_duration` writes for seconds and nanoseconds.
pub uninterp spec fn formatted_duration(secs: u64, nanos: u32) -> Seq<char>;

/// Where to read about the notation.
pub const HELP_URL: &'static str =
    "https://github.com/IohannRabeson/tmignore-rs?tab=readme-ov-file#debounce_duration";

/// A letter of a unit of time.
pub open spec fn is_unit_letter(c: char) -> bool {
    'a' <= c <= 'z' || 'A' <= c <= 'Z' || c == 'µ'
}

/// A unit of time begins at this place.
pub open spec fn starts_unit(text: Seq<char>, i: int) -> bool {
    is_unit_letter(text[i]) && (i == 0 || !is_unit_letter(text[i - 1]))
}

/// The place stands in a fraction: there is a point between the last letter before it and it.
pub open spec fn in_fraction(text: Seq<char>, i: int) -> bool
    decreases i,
{
    i > 0 && !is_unit_letter(text[i - 1]) && (text[i - 1] == '.' || in_fraction(text, i - 1))
}

/// The digit that a character is.
pub open spec fn digit(c: char) -> nat {
    (c as int - '0' as int) as nat
}

/// The whole number that the digits behind the last letter before a place write.
pub open spec fn whole_before(text: Seq<char>, i: int) -> nat
    decreases i,
{
    if i <= 0 || is_unit_letter(text[i - 1]) {
        0
    } else if '0' <= text[i - 1] <= '9' && !in_fraction(text, i - 1) {
        whole_before(text, i - 1) * 10 + digit(text[i - 1])
    } else {
        whole_before(text, i - 1)
    }
}

/// The number that the digits of the fraction before a place write.
pub open spec fn part_before(text: Seq<char>, i: int) -> nat
    decreases i,
{
    if i <= 0 || is_unit_letter(text[i - 1]) {
        0
    } else if '0' <= text[i - 1] <= '9' && in_fraction(text, i - 1) {
        part_before(text, i - 1) * 10 + digit(text[i - 1])
    } else {
        part_before(text, i - 1)
    }
}

/// By what that number is to be divided.
pub open spec fn scale_before(text: Seq<char>, i: int) -> nat
    decreases i,
{
    if i <= 0 || is_unit_letter(text[i - 1]) {
        1
    } else if '0' <= text[i - 1] <= '9' && in_fraction(text, i - 1) {
        scale_before(text, i - 1) * 10
    } else {
        scale_before(text, i - 1)
    }
}

/// The character stands at the place.
pub open spec fn has_at(text: Seq<char>, i: int, c: char) -> bool {
    i < text.len() && text[i] == c
}

/// The nanoseconds in the unit of time that begins at a place.
pub open spec fn unit_nanos(text: Seq<char>, i: int) -> nat {
    if text[i] == 'n' {
        1
    } else if text[i] == 'u' || text[i] == 'µ' {
        1_000
    } else if text[i] == 'm' && (has_at(text, i + 1, 's') || has_at(text, i + 1, 'i') && has_at(
        text,
        i + 2,
        'l',
    )) {
        1_000_000
    } else if text[i] == 's' {
        1_000_000_000
    } else if text[i] == 'M' || text[i] == 'm' && has_at(text, i + 1, 'o') {
        2_630_016_000_000_000
    } else if text[i] == 'm' {
        60_000_000_000
    } else if text[i] == 'h' {
        3_600_000_000_000
    } else if text[i] == 'd' {
        86_400_000_000_000
    } else if text[i] == 'w' {
        604_800_000_000_000
    } else {
        31_557_600_000_000_000
    }
}

/// The nanoseconds of the whole number before the unit that begins at a place. A number that does
/// not fit is none.
pub open spec fn whole_nanos(text: Seq<char>, i: int) -> nat {
    if whole_before(text, i) <= u64::MAX {
        whole_before(text, i) * unit_nanos(text, i)
    } else {
        0
    }
}

/// The nanoseconds of the fraction before the unit that begins at a place. A fraction with too many
/// digits is none.
pub open spec fn part_nanos(text: Seq<char>, i: int) -> nat {
    if scale_before(text, i) <= u64::MAX {
        part_before(text, i) * unit_nanos(text, i) / scale_before(text, i)
    } else {
        0
    }
}

/// What the numbers before a place add up to, in nanoseconds.
pub open spec fn nanos_before(text: Seq<char>, i: int) -> nat
    decreases i,
{
    if i <= 0 {
        0
    } else if starts_unit(text, i - 1) {
        nanos_before(text, i - 1) + whole_nanos(text, i - 1) + part_nanos(text, i - 1)
    } else {
        nanos_before(text, i - 1)
    }
}

/// The nanoseconds of the shortest span that is too long: it has a second more than the greatest
/// number of seconds.
pub const TOO_LONG: u128 = 18_446_744_073_709_551_616_000_000_000;

/// At most a second more, and the nanoseconds are just too many.
pub open spec fn fills_up(nanos: nat, more: nat) -> bool {
    0 < more <= duration::NANOS_PER_SEC && nanos + more == TOO_LONG
}

/// With the number before the unit that begins at a place the nanoseconds are just too many: with
/// its whole part, if the unit is shorter than a second, or with its fraction.
pub open spec fn fills_up_at(text: Seq<char>, i: int) -> bool {
    ||| unit_nanos(text, i) < duration::NANOS_PER_SEC && fills_up(
        nanos_before(text, i),
        whole_nanos(text, i),
    )
    ||| fills_up(nanos_before(text, i) + whole_nanos(text, i), part_nanos(text, i))
}

/// Nowhere in the text do nanoseconds complete the greatest number of seconds to just one more.
pub open spec fn is_readable(text: Seq<char>) -> bool {
    forall|i: int| 0 <= i < text.len() && #[trigger] starts_unit(text, i) ==> !fills_up_at(text, i)
}

/// `humantime::parse_duration`: the span that a text stands for, or the text of the error; it
/// depends on the text alone. The nanoseconds are less than a second. The function adds the numbers
/// up from the left, and panics where the seconds so far are the greatest number of them and the
/// nanoseconds become just a whole second, which happens in none of the admitted texts.
#[verifier::external_body]
fn parse_duration(text: &str) -> (res: Result<(u64, u32), String>)
    requires
        is_readable(text@),
    ensures
        match res {
            Ok(span) => parsed_duration(text@) == Ok::<(u64, u32), Seq<char>>(span) && span.1
                < duration::NANOS_PER_SEC,
            Err(message) => parsed_duration(text@) == Err::<(u64, u32), Seq<char>>(message@),
        },
{
    match humantime::parse_duration(text) {
        Ok(span) => Ok((span.as_secs(), span.subsec_nanos())),
        Err(error) => Err(error.to_string()),
    }
}

/// `humantime::format_duration`: a text for a span, which depends on the span alone, and from
/// which `humantime::parse_duration` makes the same span again. The numbers in it add up to the
/// span, which is not too long, so that it is readable.
#[verifier::external_body]
fn format_duration(secs: u64, nanos: u32) -> (text: String)
    requires
        nanos < duration::NANOS_PER_SEC,
    ensures
        text@ == formatted_duration(secs, nanos),
        (parsed_duration(text@) == Ok::<(u64, u32), Seq<char>>((secs, nanos))),
        is_readable(text@),
{
    humantime::format_duration(std::time::Duration::new(secs, nanos)).to_string()
}

/// What is said of a text that is no span.
pub open spec fn invalid_duration(error: Seq<char>) -> Seq<char> {
    "Invalid duration: "@ + error + ". See "@ + HELP_URL@ + " for help."@
}

/// What the text stands for, from what was made of it.
pub fn from_parsed(parsed: Result<(u64, u32), String>) -> (res: Result<Duration, String>)
    requires
        parsed matches Ok(span) ==> span.1 < duration::NANOS_PER_SEC,
    ensures
        match parsed {
            Ok(span) => res is Ok && res->Ok_0@ == duration::in_nanos(
                span.0 as int,
                span.1 as int,
            ),
            Err(error) => res is Err && res->Err_0@ == invalid_duration(error@),
        },
{
    match parsed {
        Ok(span) => Ok(Duration::new(span.0, span.1)),
        Err(error) => Err(
            "Invalid duration: ".to_owned().concat(error.as_str()).concat(". See ").concat(
                HELP_URL,
            ).concat(" for help."),
        ),
    }
}

/// The first whole number that does not fit.
const TOO_LARGE: u128 = 0x1_0000_0000_0000_0000;

/// The greatest number of nanoseconds in a unit.
const LONGEST_UNIT: u64 = 31_557_600_000_000_000;

/// The number, or the limit where that is less.
spec fn capped(n: nat, limit: nat) -> nat {
    if n < limit {
        n
    } else {
        limit
    }
}

fn add_digit(number: u128, c: char) -> (res: u128)
    requires
        number <= TOO_LARGE,
        '0' <= c <= '9',
    ensures
        forall|n: nat|
            number == #[trigger] capped(n, TOO_LARGE as nat) ==> res == capped(
                n * 10 + digit(c),
                TOO_LARGE as nat,
            ),
{
    let more: u128 = number * 10 + (text::scalar_value(c) - 48) as u128;
    if more < TOO_LARGE {
        more
    } else {
        TOO_LARGE
    }
}

fn add_nanos(nanos: u128, more: u128) -> (res: u128)
    requires
        nanos <= TOO_LONG + 1,
        more <= TOO_LARGE * LONGEST_UNIT,
    ensures
        forall|n: nat|
            nanos == #[trigger] capped(n, (TOO_LONG + 1) as nat) ==> res == capped(
                n + more as nat,
                (TOO_LONG + 1) as nat,
            ),
{
    if nanos + more <= TOO_LONG {
        nanos + more
    } else {
        TOO_LONG + 1
    }
}

fn is_filled_up(nanos: u128, more: u128) -> (res: bool)
    requires
        nanos <= TOO_LONG + 1,
    ensures
        forall|n: nat|
            nanos == #[trigger] capped(n, (TOO_LONG + 1) as nat) ==> res == fills_up(
                n,
                more as nat,
            ),
{
    0 < more && more <= duration::NANOS_PER_SEC as u128 && nanos + more == TOO_LONG
}

fn is_letter(c: char) -> (res: bool)
    ensures
        res == is_unit_letter(c),
{
    ('a' <= c && c <= 'z') || ('A' <= c && c <= 'Z') || c == 'µ'
}

fn is_at(chars: &Vec<char>, i: usize, ahead: usize, c: char) -> (res: bool)
    requires
        i < chars@.len(),
    ensures
        res == has_at(chars@, i + ahead, c),
{
    chars.len() - i > ahead && chars[i + ahead] == c
}

fn unit_at(chars: &Vec<char>, i: usize) -> (nanos: u64)
    requires
        i < chars@.len(),
    ensures
        nanos == unit_nanos(chars@, i as int),
        nanos <= LONGEST_UNIT,
{
    let c = chars[i];
    if c == 'n' {
        1
    } else if c == 'u' || c == 'µ' {
        1_000
    } else if c == 'm' && (is_at(chars, i, 1, 's') || is_at(chars, i, 1, 'i') && is_at(
        chars,
        i,
        2,
        'l',
    )) {
        1_000_000
    } else if c == 's' {
        1_000_000_000
    } else if c == 'M' || c == 'm' && is_at(chars, i, 1, 'o') {
        2_630_016_000_000_000
    } else if c == 'm' {
        60_000_000_000
    } else if c == 'h' {
        3_600_000_000_000
    } else if c == 'd' {
        86_400_000_000_000
    } else if c == 'w' {
        604_800_000_000_000
    } else {
        31_557_600_000_000_000
    }
}

/// `part` units of `unit` nanoseconds, divided by `scale`; none where that does not fit.
fn nanos_in(part: u128, unit: u64, scale: u128) -> (nanos: u128)
    requires
        part <= TOO_LARGE,
        unit <= LONGEST_UNIT,
        scale > 0,
    ensures
        nanos <= TOO_LARGE * LONGEST_UNIT,
        part < TOO_LARGE && scale < TOO_LARGE ==> nanos == part as nat * unit as nat / scale as nat,
        !(part < TOO_LARGE && scale < TOO_LARGE) ==> nanos == 0,
{
    if part < TOO_LARGE && scale < TOO_LARGE {
        assert(part * unit <= TOO_LARGE * LONGEST_UNIT) by (nonlinear_arith)
            requires
                part <= TOO_LARGE,
                unit <= LONGEST_UNIT,
        ;
        let all: u128 = part * unit as u128;
        assert(all as int / scale as int <= all) by (nonlinear_arith)
            requires
                scale > 0,
        ;
        all / scale
    } else {
        0
    }
}

fn can_read(text: &str) -> (res: bool)
    ensures
        res == is_readable(text@),
{
    let chars = text::to_chars(text);
    let mut whole: u128 = 0;
    let mut part: u128 = 0;
    let mut scale: u128 = 1;
    let mut nanos: u128 = 0;
    let mut fraction = false;
    let mut in_unit = false;
    let mut i: usize = 0;
    while i < chars.len()
        invariant
            i <= chars@.len(),
            chars@ == text@,
            whole == capped(whole_before(chars@, i as int), TOO_LARGE as nat),
            part == capped(part_before(chars@, i as int), TOO_LARGE as nat),
            scale == capped(scale_before(chars@, i as int), TOO_LARGE as nat),
            part_before(chars@, i as int) < scale_before(chars@, i as int),
            nanos == capped(nanos_before(chars@, i as int), (TOO_LONG + 1) as nat),
            fraction == in_fraction(chars@, i as int),
            in_unit == (i > 0 && is_unit_letter(chars@[i - 1])),
            forall|j: int|
                0 <= j < i && #[trigger] starts_unit(chars@, j) ==> !fills_up_at(chars@, j),
        decreases chars@.len() - i,
    {
        let c = chars[i];
        let letter = is_letter(c);
        if letter {
            if !in_unit {
                let unit: u64 = unit_at(&chars, i);
                let by_whole: u128 = nanos_in(whole, unit, 1);
                let by_part: u128 = nanos_in(part, unit, scale);
                let with_whole: u128 = add_nanos(nanos, by_whole);
                assert(starts_unit(chars@, i as int));
                assert(by_whole == whole_nanos(chars@, i as int));
                assert(by_part == part_nanos(chars@, i as int));
                if unit < duration::NANOS_PER_SEC as u64 && is_filled_up(nanos, by_whole)
                    || is_filled_up(with_whole, by_part) {
                    assert(fills_up_at(chars@, i as int));
                    return false;
                }
                nanos = add_nanos(with_whole, by_part);
            }
            whole = 0;
            part = 0;
            scale = 1;
            fraction = false;
        } else if '0' <= c && c <= '9' {
            if fraction {
                part = add_digit(part, c);
                scale = add_digit(scale, '0');
            } else {
                whole = add_digit(whole, c);
            }
        } else if c == '.' {
            fraction = true;
        }
        in_unit = letter;
        i = i + 1;
    }
    true
}

/// What a text is read as: the span in nanoseconds, or what is wrong with it. Nothing is said of a
/// text that is not readable.
pub open spec fn read_duration(text: Seq<char>) -> Option<Result<int, Seq<char>>> {
    if is_readable(text) {
        Some(
            match parsed_duration(text) {
                Ok(span) => Ok(duration::in_nanos(span.0 as int, span.1 as int)),
                Err(error) => Err(invalid_duration(error)),
            },
        )
    } else {
        None
    }
}

/// What a span that was read, or an error, is.
pub open spec fn read_view(read: Result<Duration, String>) -> Result<int, Seq<char>> {
    match read {
        Ok(span) => Ok(span@),
        Err(message) => Err(message@),
    }
}

/// The span that a text stands for. Nothing is said of a text that is not readable.
pub fn deserialize_human_time(text: &str) -> (res: Option<Result<Duration, String>>)
    ensures
        match res {
            Some(read) => read_duration(text@) == Some(read_view(read)),
            None => read_duration(text@) is None,
        },
{
    if can_read(text) {
        Some(from_parsed(parse_duration(text)))
    } else {
        None
    }
}

/// The text for a span. Whatever the span, the text is read as that span again.
pub fn serialize_human_time(span: &Duration) -> (text: String)
    ensures
        text@ == formatted_duration(
            (span@ / (duration::NANOS_PER_SEC as int)) as u64,
            (span@ % (duration::NANOS_PER_SEC as int)) as u32,
        ),
        read_duration(text@) == Some(Ok::<int, Seq<char>>(span@)),
{
    let secs: u64 = span.secs();
    let nanos: u32 = span.nanos();
    format_duration(secs, nanos)
}

} // verus!
