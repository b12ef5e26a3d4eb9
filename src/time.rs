//! Points in time as Unix seconds, checked and read through `chrono`.

use chrono::{DateTime, NaiveDate, NaiveTime, Utc};
use vstd::prelude::*;

verus! {

/// Unix seconds of the first instant `DateTime::from_timestamp` accepts:
/// the start of the second day of year -262143.
pub const MIN_UTC_SECONDS: i64 = -8334601228800;

/// Unix seconds of the last whole second `DateTime::from_timestamp`
/// accepts: the end of year 262142.
pub const MAX_UTC_SECONDS: i64 = 8210266876799;

/// Whether `chrono` can represent the instant `secs` seconds after the Unix
/// epoch: it lies between the two bounds above.
pub open spec fn utc_representable(secs: int) -> bool {
    MIN_UTC_SECONDS <= secs <= MAX_UTC_SECONDS
}

/// Relies on `chrono::DateTime::from_timestamp`: `Some` exactly when the
/// instant lies in the range of days that `NaiveDate` accepts, whose ends
/// are the two bounds above.
#[verifier::external_body]
pub(crate) fn timestamp_in_range(secs: i64) -> (r: bool)
    ensures
        r == utc_representable(secs as int),
{
    DateTime::from_timestamp(secs, 0).is_some()
}

/// Relies on `chrono::Utc::now`: the current time, in whole seconds.
#[verifier::external_body]
pub(crate) fn now_unix_seconds() -> i64 {
    Utc::now().timestamp()
}

/// A calendar date: year, month (1 to 12) and day of the month.
#[derive(Clone, Copy, Debug, PartialEq, Eq, Structural)]
pub struct Date {
    pub year: u32,
    pub month: u32,
    pub day: u32,
}

/// Unix seconds at midnight UTC of a date, when `chrono` accepts the date.
pub uninterp spec fn midnight_seconds(year: int, month: int, day: int) -> Option<i64>;

/// Relies on `chrono::NaiveDate::from_ymd_opt`: `None` for a day that is not
/// in the calendar; otherwise the Unix time of its midnight, UTC.
#[verifier::external_body]
pub(crate) fn midnight_utc(date: Date) -> (r: Option<i64>)
    ensures
        r == midnight_seconds(date.year as int, date.month as int, date.day as int),
{
    match i32::try_from(date.year) {
        Ok(y) => match NaiveDate::from_ymd_opt(y, date.month, date.day) {
            Some(d) => Some(d.and_time(NaiveTime::MIN).and_utc().timestamp()),
            None => None,
        },
        Err(_) => None,
    }
}

} // verus!
