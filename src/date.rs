//! Calendar days and their timestamps.
use vstd::prelude::*;

verus! {

/// The earliest year that the date library represents.
pub const MIN_YEAR: i32 = -262143;

/// The latest year that the date library represents.
pub const MAX_YEAR: i32 = 262142;

pub open spec fn is_leap_year(year: int) -> bool {
    year % 4 == 0 && (year % 100 != 0 || year % 400 == 0)
}

/// The number of days in `month` (1 to 12) of `year`, in the proleptic Gregorian calendar.
pub open spec fn days_in_month(year: int, month: int) -> int {
    if month == 2 {
        if is_leap_year(year) {
            29
        } else {
            28
        }
    } else if month == 4 || month == 6 || month == 9 || month == 11 {
        30
    } else {
        31
    }
}

/// `day` of `month` of `year` exists, within the years that the date library represents.
pub open spec fn is_calendar_day(year: int, month: int, day: int) -> bool {
    &&& MIN_YEAR <= year <= MAX_YEAR
    &&& 1 <= month <= 12
    &&& 1 <= day <= days_in_month(year, month)
}

/// The number of days from 1970-01-01 to a day of the proleptic Gregorian calendar
/// (negative before it), counting from March so that a leap day ends the year.
pub open spec fn days_from_civil(year: int, month: int, day: int) -> int {
    let y = if month <= 2 {
        year - 1
    } else {
        year
    };
    let era = y / 400;
    let year_of_era = y - era * 400;
    let shifted_month = if month > 2 {
        month - 3
    } else {
        month + 9
    };
    let day_of_year = (153 * shifted_month + 2) / 5 + day - 1;
    let day_of_era = year_of_era * 365 + year_of_era / 4 - year_of_era / 100 + day_of_year;
    era * 146097 + day_of_era - 719468
}

/// The UNIX timestamp, in seconds, of midnight UTC at the start of a calendar day.
pub open spec fn midnight_stamp(year: int, month: int, day: int) -> int {
    86400 * days_from_civil(year, month, day)
}

/// Relies on chrono's `NaiveDate::from_ymd_opt`, `NaiveDate::and_hms_opt` and
/// `DateTime::timestamp`: a date exists exactly for a real day of the proleptic
/// Gregorian calendar within chrono's year range, and its timestamp at midnight UTC
/// is 86400 seconds for each day since 1970-01-01.
#[verifier::external_body]
pub(crate) fn chrono_midnight(year: i32, month: u32, day: u32) -> (r: Option<i64>)
    ensures
        r is Some <==> is_calendar_day(year as int, month as int, day as int),
        r matches Some(t) ==> t as int == midnight_stamp(year as int, month as int, day as int),
{
    chrono::NaiveDate::from_ymd_opt(year, month, day)
        .and_then(|d| d.and_hms_opt(0, 0, 0))
        .map(|t| t.and_utc().timestamp())
}

} // verus!
