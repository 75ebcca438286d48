//! Moments in UTC, to the millisecond. Which moments exist is left to the
//! `time` crate.

use vstd::prelude::*;
use crate::text::{decimal_text, pad_left, push_padded_decimal, Fill};

verus! {

/// A moment in UTC, given by its calendar date and its time of day.
#[derive(Debug, Clone, Copy, PartialEq, Eq, Structural, Hash)]
pub struct Timestamp {
    pub year: i32,
    pub month: u8,
    pub day: u8,
    pub hour: u8,
    pub minute: u8,
    pub second: u8,
    pub millisecond: u16,
}

/// Leap years of the proleptic Gregorian calendar.
pub open spec fn is_leap_year(year: int) -> bool {
    year % 4 == 0 && (year % 100 != 0 || year % 400 == 0)
}

/// The number of days of a month, the months counted from 1.
pub open spec fn days_in_month(year: int, month: int) -> int {
    if month == 2 {
        if is_leap_year(year) {
            29int
        } else {
            28int
        }
    } else if month == 4 || month == 6 || month == 9 || month == 11 {
        30int
    } else {
        31int
    }
}

/// The text of a moment as a log line carries it, `MM-DD HH:MM:SS.mmm`: every
/// number padded with zeros to its width, and no year.
pub open spec fn stamp_text(t: Timestamp) -> Seq<char> {
    pad_left(decimal_text(t.month as nat), 2, '0') + seq!['-'] + pad_left(
        decimal_text(t.day as nat),
        2,
        '0',
    ) + seq![' '] + pad_left(decimal_text(t.hour as nat), 2, '0') + seq![':'] + pad_left(
        decimal_text(t.minute as nat),
        2,
        '0',
    ) + seq![':'] + pad_left(decimal_text(t.second as nat), 2, '0') + seq!['.'] + pad_left(
        decimal_text(t.millisecond as nat),
        3,
        '0',
    )
}

/// The years that the calendar has: those of at most four digits.
pub open spec fn is_year(year: int) -> bool {
    -9999 <= year <= 9999
}

/// Whether the three numbers give a day of the calendar.
pub open spec fn is_date(year: int, month: int, day: int) -> bool {
    &&& is_year(year)
    &&& 1 <= month <= 12
    &&& 1 <= day <= days_in_month(year, month)
}

/// Whether the four numbers give a time of day.
pub open spec fn is_time_of_day(hour: int, minute: int, second: int, millisecond: int) -> bool {
    &&& 0 <= hour < 24
    &&& 0 <= minute < 60
    &&& 0 <= second < 60
    &&& 0 <= millisecond < 1000
}

/// Whether the seven numbers give a day of the calendar and a time of that
/// day.
pub open spec fn is_moment(
    year: int,
    month: int,
    day: int,
    hour: int,
    minute: int,
    second: int,
    millisecond: int,
) -> bool {
    is_date(year, month, day) && is_time_of_day(hour, minute, second, millisecond)
}

/// `time::Date::from_calendar_date`, the month made by
/// `time::Month::try_from`: whether `time` has a date for the three numbers.
/// It has one for the years from -9999 to 9999, the months from 1 to 12 and
/// the days that the month has in the proleptic Gregorian calendar.
#[verifier::external_body]
fn date_exists(year: i32, month: u8, day: u8) -> (r: bool)
    ensures
        r == is_date(year as int, month as int, day as int),
{
    match time::Month::try_from(month) {
        Ok(month) => time::Date::from_calendar_date(year, month, day).is_ok(),
        Err(_) => false,
    }
}

/// `time::Time::from_hms_milli`: whether `time` has a time of day for the
/// four numbers. It has one for hours below 24, minutes and seconds below 60
/// and milliseconds below 1000.
#[verifier::external_body]
fn time_of_day_exists(hour: u8, minute: u8, second: u8, millisecond: u16) -> (r: bool)
    ensures
        r == is_time_of_day(hour as int, minute as int, second as int, millisecond as int),
{
    time::Time::from_hms_milli(hour, minute, second, millisecond).is_ok()
}

/// `time::UtcDateTime::now` and `year`: the year of the present moment in
/// UTC. Which year that is the clock of the machine says; `time` keeps the
/// year of every date it makes from -9999 to 9999.
#[verifier::external_body]
pub(crate) fn current_year() -> (year: i32)
    ensures
        is_year(year as int),
{
    time::UtcDateTime::now().year()
}

impl Timestamp {
    /// Whether the moment exists.
    pub open spec fn is_valid(self) -> bool {
        is_moment(
            self.year as int,
            self.month as int,
            self.day as int,
            self.hour as int,
            self.minute as int,
            self.second as int,
            self.millisecond as int,
        )
    }

    /// The moment with the given date and time of day, if there is one.
    pub fn new(
        year: i32,
        month: u8,
        day: u8,
        hour: u8,
        minute: u8,
        second: u8,
        millisecond: u16,
    ) -> (r: Option<Timestamp>)
        ensures
            r == (if is_moment(
                year as int,
                month as int,
                day as int,
                hour as int,
                minute as int,
                second as int,
                millisecond as int,
            ) {
                Some(Timestamp { year, month, day, hour, minute, second, millisecond })
            } else {
                None
            }),
    {
        if date_exists(year, month, day) && time_of_day_exists(hour, minute, second, millisecond) {
            Some(Timestamp { year, month, day, hour, minute, second, millisecond })
        } else {
            None
        }
    }

    /// Appends the moment as a log line carries it.
    pub fn push_stamp(&self, out: &mut String)
        ensures
            final(out)@ == old(out)@ + stamp_text(*self),
    {
        proof {
            reveal_strlit("-");
            reveal_strlit(" ");
            reveal_strlit(":");
            reveal_strlit(".");
        }
        push_padded_decimal(out, self.month as u64, 2, Fill::Zero);
        out.append("-");
        push_padded_decimal(out, self.day as u64, 2, Fill::Zero);
        out.append(" ");
        push_padded_decimal(out, self.hour as u64, 2, Fill::Zero);
        out.append(":");
        push_padded_decimal(out, self.minute as u64, 2, Fill::Zero);
        out.append(":");
        push_padded_decimal(out, self.second as u64, 2, Fill::Zero);
        out.append(".");
        push_padded_decimal(out, self.millisecond as u64, 3, Fill::Zero);
        assert(out@ =~= old(out)@ + stamp_text(*self));
    }
}

} // verus!
