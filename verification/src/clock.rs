//! Calendar dates and the local time of day.
use chrono::{Datelike, Timelike};
use vstd::prelude::*;

verus! {

/// A calendar date (proleptic Gregorian) in the local time zone.
#[derive(Clone, Copy, Debug, PartialEq, Eq, Structural)]
pub struct Date {
    pub year: i32,
    pub month: u32,
    pub day: u32,
}

/// A local date and time of day, to the minute.
#[derive(Clone, Copy, Debug, PartialEq, Eq, Structural)]
pub struct Moment {
    pub date: Date,
    pub hour: u32,
    pub minute: u32,
}

/// Leap years of the Gregorian calendar.
pub open spec fn is_leap_year(year: int) -> bool {
    (year % 4 == 0 && year % 100 != 0) || year % 400 == 0
}

/// The number of days of a month.
pub open spec fn days_in_month(year: int, month: int) -> int {
    if month == 2 {
        if is_leap_year(year) {
            29
        } else {
            28
        }
    } else if month == 4 || month == 6 || month == 9 || month == 11 {
        30
    } else {
        31
    }
}

/// Dates that exist, within the years that the calendar library represents
/// (-262143 to 262142).
pub open spec fn is_valid_date(d: Date) -> bool {
    &&& -262143 <= d.year <= 262142
    &&& 1 <= d.month <= 12
    &&& 1 <= d.day <= days_in_month(d.year as int, d.month as int)
}

/// Whether `d` is a date that exists.
pub fn is_valid_date_exec(d: Date) -> (r: bool)
    ensures
        r == is_valid_date(d),
{
    if d.year < -262143 || d.year > 262142 || d.month < 1 || d.month > 12 || d.day < 1 {
        return false;
    }
    let leap = (d.year % 4 == 0 && d.year % 100 != 0) || d.year % 400 == 0;
    let days: u32 = if d.month == 2 {
        if leap {
            29
        } else {
            28
        }
    } else if d.month == 4 || d.month == 6 || d.month == 9 || d.month == 11 {
        30
    } else {
        31
    };
    d.day <= days
}

/// Moments that exist.
pub open spec fn is_valid_moment(m: Moment) -> bool {
    &&& is_valid_date(m.date)
    &&& m.hour < 24
    &&& m.minute < 60
}

/// Reads the clock: the current local date and time.
///
/// Calls `chrono::Local::now()`; the contract claims only that the date is a
/// valid calendar date and that the hour is below 24 and the minute below 60,
/// as chrono documents for `Datelike` and `Timelike`.  Which moment comes back
/// depends on the time and is not stated.
#[verifier::external_body]
pub(crate) fn now() -> (m: Moment)
    ensures
        is_valid_moment(m),
{
    let t = chrono::Local::now();
    Moment {
        date: Date { year: t.year(), month: t.month(), day: t.day() },
        hour: t.hour(),
        minute: t.minute(),
    }
}

} // verus!
