//! Instants written as text.

use vstd::prelude::*;

use crate::numbers::{decimal, digit_char};

verus! {

/// The epoch milliseconds of an RFC 3339 timestamp; none where the text is not
/// such a timestamp.
pub uninterp spec fn rfc3339_millis(text: Seq<char>) -> Option<i64>;

/// `chrono::DateTime::parse_from_rfc3339`, then `timestamp_millis` on the
/// instant that it gives: the milliseconds depend on the text alone.
#[verifier::external_body]
pub(crate) fn iso_to_ms(s: &str) -> (r: Option<i64>)
    ensures
        r == rfc3339_millis(s@),
{
    match chrono::DateTime::parse_from_rfc3339(s) {
        Ok(d) => Some(d.timestamp_millis()),
        Err(_) => None,
    }
}

/// Reads an optional timestamp.
pub fn optional_millis(s: &Option<String>) -> (r: Option<i64>)
    ensures
        r == (match s {
            Some(text) => rfc3339_millis(text@),
            None => None,
        }),
{
    match s {
        Some(text) => iso_to_ms(text.as_str()),
        None => None,
    }
}

// ---- the calendar -----------------------------------------------------------

/// How many leap years there are from the year 1 up to a year; fewer than none
/// where it comes before.
pub open spec fn leap_years(y: int) -> int {
    y / 4 - y / 100 + y / 400
}

/// Whether a year of the proleptic Gregorian calendar is a leap year.
pub open spec fn is_leap(y: int) -> bool {
    y % 4 == 0 && (y % 100 != 0 || y % 400 == 0)
}

/// The day on which a year begins, with January 1, 1970 as day zero.
pub open spec fn year_start(y: int) -> int {
    365 * (y - 1970) + leap_years(y - 1) - leap_years(1969)
}

/// How many days of a year come before a month; the thirteenth stands for the
/// next year.
pub open spec fn month_start(y: int, m: int) -> int {
    let common = if m <= 1 {
        0int
    } else if m == 2 {
        31
    } else if m == 3 {
        59
    } else if m == 4 {
        90
    } else if m == 5 {
        120
    } else if m == 6 {
        151
    } else if m == 7 {
        181
    } else if m == 8 {
        212
    } else if m == 9 {
        243
    } else if m == 10 {
        273
    } else if m == 11 {
        304
    } else if m == 12 {
        334
    } else {
        365
    };
    if m > 2 && is_leap(y) {
        common + 1
    } else {
        common
    }
}

/// Whether a year, a month and a day of it are the date of a day, with January 1,
/// 1970 as day zero.
pub open spec fn is_date(y: int, m: int, d: int, day: int) -> bool {
    &&& 1 <= m <= 12
    &&& 1 <= d <= month_start(y, m + 1) - month_start(y, m)
    &&& day == year_start(y) + month_start(y, m) + d - 1
}

/// Two digits.
pub open spec fn two_digits(n: int) -> Seq<char> {
    seq![digit_char(n / 10), digit_char(n % 10)]
}

/// Four digits.
pub open spec fn four_digits(n: int) -> Seq<char> {
    two_digits(n / 100) + two_digits(n % 100)
}

/// A year: four digits, and with a sign where it has more or is negative.
pub open spec fn year_text(y: int) -> Seq<char> {
    if 0 <= y <= 9999 {
        four_digits(y)
    } else if y > 9999 {
        seq!['+'] + decimal(y as nat)
    } else if y >= -9999 {
        seq!['-'] + four_digits(-y)
    } else {
        seq!['-'] + decimal((-y) as nat)
    }
}

/// The text of a minute of a date.
pub open spec fn date_text(y: int, m: int, d: int, minute: int) -> Seq<char> {
    year_text(y) + seq!['-'] + two_digits(m) + seq!['-'] + two_digits(d) + seq![' '] + two_digits(
        minute / 60,
    ) + seq![':'] + two_digits(minute % 60)
}

/// Whether a text tells the minute of a local time, in seconds since the local
/// start of 1970.
pub open spec fn is_minute_text(s: Seq<char>, local_secs: int) -> bool {
    exists|y: int, m: int, d: int| #[trigger]
        is_date(y, m, d, local_secs / 86_400) && s == date_text(
            y,
            m,
            d,
            local_secs % 86_400 / 60,
        )
}

/// The first instant that has a date: the start of the year -262143.
pub const FIRST_INSTANT_MS: i64 = -8_334_601_228_800_000;

/// The last instant that has a date: the end of the year 262142.
pub const LAST_INSTANT_MS: i64 = 8_210_266_876_799_999;

/// Whether an instant has a date.
pub open spec fn has_date(ms: i64) -> bool {
    FIRST_INSTANT_MS <= ms <= LAST_INSTANT_MS
}

/// Whether a text tells the minute of an instant on a clock that is less than a
/// day ahead or behind.
pub open spec fn tells_minute(s: Seq<char>, ms: i64) -> bool {
    exists|offset: int|
        -86_400 < offset < 86_400 && #[trigger] is_minute_text(s, ms as int / 1000 + offset)
}

/// Whether a text is the label of an instant: its minute, or a dash where it has
/// no date.
pub open spec fn is_label_of(s: Seq<char>, ms: i64) -> bool {
    if has_date(ms) {
        tells_minute(s, ms)
    } else {
        s == "\u{2014}"@
    }
}

proof fn lemma_year_length(y: int)
    ensures
        year_start(y + 1) - year_start(y) == month_start(y, 13),
{
}

proof fn lemma_year_order(a: int, b: int)
    requires
        a <= b,
    ensures
        year_start(a) <= year_start(b),
    decreases b - a,
{
    if a < b {
        lemma_year_order(a, b - 1);
        lemma_year_length(b - 1);
    }
}

proof fn lemma_within_year(y: int, m: int, d: int, day: int)
    requires
        is_date(y, m, d, day),
    ensures
        year_start(y) <= day < year_start(y + 1),
{
    lemma_year_length(y);
}

/// Every day has at most one date.
pub proof fn dates_are_unique(
    y1: int,
    m1: int,
    d1: int,
    y2: int,
    m2: int,
    d2: int,
    day: int,
)
    requires
        is_date(y1, m1, d1, day),
        is_date(y2, m2, d2, day),
    ensures
        y1 == y2,
        m1 == m2,
        d1 == d2,
{
    lemma_within_year(y1, m1, d1, day);
    lemma_within_year(y2, m2, d2, day);
    if y1 < y2 {
        lemma_year_order(y1 + 1, y2);
    } else if y2 < y1 {
        lemma_year_order(y2 + 1, y1);
    }
}

/// The label of an instant that has a date has at least sixteen characters. In
/// the years 0 to 9999 it has sixteen, with the year, the month, the day, the
/// hour and the minute each in its place.
pub proof fn labels_have_their_shape(s: Seq<char>, ms: i64)
    requires
        has_date(ms),
        tells_minute(s, ms),
    ensures
        s.len() >= 16,
        -62_167_132_800_000 <= ms < 253_402_214_400_000 ==> {
            &&& s.len() == 16
            &&& s[4] == '-' && s[7] == '-' && s[10] == ' ' && s[13] == ':'
        },
{
    let offset = choose|offset: int|
        -86_400 < offset < 86_400 && #[trigger] is_minute_text(s, ms as int / 1000 + offset);
    let local = ms as int / 1000 + offset;
    let (y, m, d) = choose|y: int, m: int, d: int| #[trigger]
        is_date(y, m, d, local / 86_400) && s == date_text(y, m, d, local % 86_400 / 60);
    lemma_date_text(y, m, d, local % 86_400 / 60);
    if -62_167_132_800_000 <= ms < 253_402_214_400_000 {
        assert(-719_528 <= local / 86_400 < 2_932_897);
        lemma_four_digit_year(y, m, d, local / 86_400);
    }
}

proof fn lemma_four_digit_year(y: int, m: int, d: int, day: int)
    requires
        is_date(y, m, d, day),
        -719_528 <= day < 2_932_897,
    ensures
        0 <= y <= 9999,
{
    lemma_within_year(y, m, d, day);
    if y < 0 {
        lemma_year_order(y + 1, 0);
    }
    if y > 9999 {
        lemma_year_order(10_000, y);
    }
}

proof fn lemma_date_text(y: int, m: int, d: int, minute: int)
    ensures
        date_text(y, m, d, minute).len() >= 16,
        0 <= y <= 9999 ==> ({
            let s = date_text(y, m, d, minute);
            s.len() == 16 && s[4] == '-' && s[7] == '-' && s[10] == ' ' && s[13] == ':'
        }),
{
    lemma_long_decimal(y);
}

proof fn lemma_long_decimal(y: int)
    ensures
        year_text(y).len() >= 4,
        0 <= y <= 9999 ==> year_text(y).len() == 4,
{
    reveal_with_fuel(decimal, 5);
}

} // verus!
