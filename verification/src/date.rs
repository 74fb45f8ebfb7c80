//! Calendar dates and points in time.

use crate::text::{digit, digits_value, outcome, padded};
use chrono::{DateTime, Datelike, NaiveDate, Utc};
use vstd::prelude::*;

verus! {

/// The first year that a date has.
pub const MIN_YEAR: i32 = -262_143;

/// The last year that a date has.
pub const MAX_YEAR: i32 = 262_142;

/// Whether a year has a 29th of February.
pub open spec fn leap_year(year: int) -> bool {
    year % 4 == 0 && (year % 100 != 0 || year % 400 == 0)
}

/// The number of days in a month of a year.
pub open spec fn days_in_month(year: int, month: int) -> int {
    if month == 2 {
        if leap_year(year) {
            29
        } else {
            28
        }
    } else if month == 4 || month == 6 || month == 9 || month == 11 {
        30
    } else {
        31
    }
}

/// A day of the Gregorian calendar.
#[derive(Debug, Clone, Copy, PartialEq, Eq, Structural)]
pub struct Date {
    pub year: i32,
    pub month: u32,
    pub day: u32,
}

impl Date {
    /// Whether the calendar has this day.
    pub open spec fn valid(self) -> bool {
        &&& MIN_YEAR <= self.year <= MAX_YEAR
        &&& 1 <= self.month <= 12
        &&& 1 <= self.day <= days_in_month(self.year as int, self.month as int)
    }
}

/// A point in time: seconds since the start of 1970 in UTC, and the
/// nanoseconds that follow them.
#[derive(Debug, Clone, Copy, PartialEq, Eq, Structural)]
pub struct Timestamp {
    pub seconds: i64,
    pub nanoseconds: u32,
}

/// The date of a year, month and day, where the calendar has it.
pub open spec fn calendar_date(year: i32, month: u32, day: u32) -> Option<Date> {
    let date = Date { year, month, day };
    if date.valid() {
        Some(date)
    } else {
        None
    }
}

/// Looks a day up with `NaiveDate::from_ymd_opt`, which gives nothing where the
/// calendar lacks the day or the year is out of range.
#[verifier::external_body]
pub(crate) fn date_from_parts(year: i32, month: u32, day: u32) -> (result: Option<Date>)
    ensures
        result == calendar_date(year, month, day),
{
    NaiveDate::from_ymd_opt(year, month, day).map(
        |date: NaiveDate| Date { year: date.year(), month: date.month(), day: date.day() },
    )
}

/// Whether a text is four digits, two digits and two digits with hyphens between them.
pub open spec fn dashed_date(text: Seq<char>) -> bool {
    &&& text.len() == 10
    &&& forall|i: int|
        0 <= i < 10 && i != 4 && i != 7 ==> digit(#[trigger] text[i])
    &&& text[4] == '-'
    &&& text[7] == '-'
}

/// The date that a text with hyphens names, where the calendar has it.
pub open spec fn date_of_dashed(text: Seq<char>) -> Option<Date> {
    calendar_date(
        digits_value(text.subrange(0, 4)) as i32,
        digits_value(text.subrange(5, 7)) as u32,
        digits_value(text.subrange(8, 10)) as u32,
    )
}

/// What `NaiveDate::parse_from_str` makes of a text with the format
/// `%Y-%m-%d`: the date, or the text of its error.
pub uninterp spec fn date_of(text: Seq<char>) -> Result<Date, Seq<char>>;

/// Reads a date with `NaiveDate::parse_from_str` and the format `%Y-%m-%d`. The
/// outcome goes by the text alone, the calendar has the date, and a year of four
/// digits with a month and a day of two is read as it stands. Nothing may follow
/// the day.
#[verifier::external_body]
pub(crate) fn parse_date(text: &str) -> (result: Result<Date, String>)
    ensures
        outcome(result) == date_of(text@),
        result matches Ok(date) ==> date.valid(),
        result is Ok ==> text@.len() > 0 && digit(text@.last()),
        text@.len() > 10 && dashed_date(text@.take(10)) ==> result is Err,
        dashed_date(text@) ==> (match result {
            Ok(date) => date_of_dashed(text@) == Some(date),
            Err(_) => date_of_dashed(text@) is None,
        }),
{
    match NaiveDate::parse_from_str(text, "%Y-%m-%d") {
        Ok(date) => Ok(Date { year: date.year(), month: date.month(), day: date.day() }),
        Err(error) => Err(error.to_string()),
    }
}

/// The number of days of a year before a month.
pub open spec fn days_before_month(year: int, month: int) -> int
    decreases month,
{
    if month <= 1 {
        0
    } else {
        days_before_month(year, month - 1) + days_in_month(year, month - 1)
    }
}

/// The number of days from the first of January 1970 to a date.
pub open spec fn days_since_1970(date: Date) -> int {
    let years = date.year - 1;
    365 * years + years / 4 - years / 100 + years / 400 + days_before_month(
        date.year as int,
        date.month as int,
    ) + date.day - 1 - 719_162
}

/// Whether two digits that are less than a limit start at a place of a text.
pub open spec fn two_digits_below(text: Seq<char>, start: int, limit: int) -> bool {
    &&& digit(text[start])
    &&& digit(text[start + 1])
    &&& digits_value(text.subrange(start, start + 2)) < limit
}

/// Whether a text is a date, `T`, hours, minutes and seconds with colons between
/// them, and `Z` or a sign and the hours and minutes of an offset.
pub open spec fn plain_timestamp(text: Seq<char>) -> bool {
    &&& text.len() == 20 && text[19] == 'Z' || text.len() == 25 && (text[19] == '+' || text[19]
        == '-') && two_digits_below(text, 20, 24) && text[22] == ':' && two_digits_below(
        text,
        23,
        60,
    )
    &&& dashed_date(text.take(10))
    &&& date_of_dashed(text.take(10)) is Some
    &&& text[10] == 'T'
    &&& two_digits_below(text, 11, 24)
    &&& text[13] == ':'
    &&& two_digits_below(text, 14, 60)
    &&& text[16] == ':'
    &&& two_digits_below(text, 17, 60)
}

/// The seconds that hours and minutes with a colon between them make.
pub open spec fn clock_seconds(text: Seq<char>) -> int {
    (digits_value(text.subrange(0, 2)) * 3600 + digits_value(text.subrange(3, 5)) * 60) as int
}

/// The seconds from the start of 1970 in UTC to a point in time that is written plainly.
pub open spec fn plain_seconds(text: Seq<char>) -> int {
    let offset = if text[19] == 'Z' {
        0
    } else if text[19] == '-' {
        -clock_seconds(text.subrange(20, 25))
    } else {
        clock_seconds(text.subrange(20, 25))
    };
    days_since_1970(date_of_dashed(text.take(10))->0) * 86_400 + clock_seconds(
        text.subrange(11, 16),
    ) + digits_value(text.subrange(17, 19)) - offset
}

/// What `DateTime::parse_from_rfc3339` makes of a text: the point in time, or
/// the text of its error.
pub uninterp spec fn timestamp_of(text: Seq<char>) -> Result<Timestamp, Seq<char>>;

/// Reads a date with a time and an offset with `DateTime::parse_from_rfc3339`. The
/// outcome goes by the text alone. One that is written plainly, without parts of a
/// second, is read as it stands.
#[verifier::external_body]
pub(crate) fn parse_timestamp(text: &str) -> (result: Result<Timestamp, String>)
    ensures
        outcome(result) == timestamp_of(text@),
        plain_timestamp(text@) ==> result is Ok && result->Ok_0.seconds == plain_seconds(text@)
            && result->Ok_0.nanoseconds == 0,
{
    match DateTime::parse_from_rfc3339(text) {
        Ok(time) => Ok(
            Timestamp {
                seconds: time.with_timezone(&Utc).timestamp(),
                nanoseconds: time.with_timezone(&Utc).timestamp_subsec_nanos(),
            },
        ),
        Err(error) => Err(error.to_string()),
    }
}

/// A date as it is written: year, month and day with hyphens between them. The
/// year has four digits, and more and a sign where it has to.
pub open spec fn date_text(date: Date) -> Seq<char> {
    let year = if 0 <= date.year <= 9999 {
        padded(date.year as nat, 4)
    } else if date.year < 0 {
        seq!['-'] + padded((-date.year) as nat, 4)
    } else {
        seq!['+'] + padded(date.year as nat, 4)
    };
    year + seq!['-'] + padded(date.month as nat, 2) + seq!['-'] + padded(date.day as nat, 2)
}

/// Writes a date with `to_string` of `NaiveDate`.
#[verifier::external_body]
pub(crate) fn write_date(date: Date) -> (result: String)
    requires
        date.valid(),
    ensures
        result@ == date_text(date),
{
    NaiveDate::from_ymd_opt(date.year, date.month, date.day).unwrap().to_string()
}

/// The year of the present day in UTC, from `Utc::now`, which takes the time since
/// the start of 1970. It lies in the range that a date has.
#[verifier::external_body]
pub(crate) fn current_year() -> (result: i32)
    ensures
        1970 <= result <= MAX_YEAR,
{
    Utc::now().year()
}

/// Whether a year is one that the clock tells.
pub closed spec fn told_by_the_clock(year: int) -> bool {
    exists|told: i32| year == told && #[trigger] call_ensures(current_year, (), told)
}

/// Asks a clock for a year.
fn ask<Clock: Fn() -> i32>(clock: Clock) -> (result: i32)
    requires
        call_requires(clock, ()),
    ensures
        call_ensures(clock, (), result),
{
    clock()
}

/// The year that the clock tells.
pub(crate) fn present_year() -> (result: i32)
    ensures
        1970 <= result <= MAX_YEAR,
        told_by_the_clock(result as int),
{
    ask(current_year)
}

} // verus!
