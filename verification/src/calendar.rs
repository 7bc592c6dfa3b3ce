//! UTC calendar days.
//!
//! A day is counted from 1970-01-01, which is day 0; days before it are
//! negative.

use vstd::prelude::*;

verus! {

/// Seconds in one UTC calendar day (a UNIX timestamp counts no leap seconds).
pub const SECONDS_PER_DAY: i64 = 86_400;

/// The day on which the instant `timestamp` (seconds since 1970-01-01T00:00:00Z)
/// falls: the timestamp divided by the length of a day, rounded down.
pub open spec fn day_of(timestamp: i64) -> i64 {
    (timestamp as int / SECONDS_PER_DAY as int) as i64
}

/// Truncates a UNIX timestamp to its UTC calendar day.
pub fn day_of_timestamp(timestamp: i64) -> (day: i64)
    ensures
        day == day_of(timestamp),
        day as int == timestamp as int / SECONDS_PER_DAY as int,
{
    let quotient: i64 = timestamp / SECONDS_PER_DAY;
    let remainder: i64 = timestamp % SECONDS_PER_DAY;
    if remainder < 0 {
        quotient - 1
    } else {
        quotient
    }
}

/// The text that the chrono crate gives for the calendar date `day` days after
/// 1970-01-01, or `None` where chrono has no date that far out. Within the
/// years 0 to 9999 the text has the shape `YYYY-MM-DD`.
pub uninterp spec fn calendar_date_text(day: i32) -> Option<Seq<char>>;

/// Calls `chrono::NaiveDate::from_epoch_days` and, on the date it returns,
/// `to_string`. Trusted: the result is the one that those two calls give for
/// `day`, which the library knows only by the name `calendar_date_text`.
#[verifier::external_body]
fn epoch_day_text(day: i32) -> (text: Option<String>)
    ensures
        text is Some <==> calendar_date_text(day) is Some,
        text matches Some(t) ==> calendar_date_text(day) == Some(t@),
{
    match chrono::NaiveDate::from_epoch_days(day) {
        Some(date) => Some(date.to_string()),
        None => None,
    }
}

/// What `day_text` returns: the calendar text of a day that fits the range
/// of day numbers that dates are made from, and nothing for any other day.
pub open spec fn day_text_of(day: i64) -> Option<Seq<char>> {
    if i32::MIN <= day <= i32::MAX {
        calendar_date_text(day as i32)
    } else {
        None
    }
}

/// Renders a day as its calendar date, `YYYY-MM-DD` for the years 0 to 9999.
pub fn day_text(day: i64) -> (text: Option<String>)
    ensures
        text is Some <==> day_text_of(day) is Some,
        text matches Some(t) ==> day_text_of(day) == Some(t@),
{
    if day < i32::MIN as i64 || day > i32::MAX as i64 {
        None
    } else {
        epoch_day_text(day as i32)
    }
}

} // verus!
