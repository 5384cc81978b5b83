//! Calendar dates as day numbers.
//!
//! Throughout the library a trade date is an `i64` day number in the
//! proleptic Gregorian calendar, with January 1 of year 1 as day 1, so
//! that comparing and stepping dates is plain integer arithmetic. The
//! conversion from a calendar `(year, month, day)` triple is performed
//! by the calendar library behind a trusted wrapper.

use vstd::prelude::*;

verus! {

/// Day number of the calendar date `y-m-d` (January 1 of year 1 is
/// day 1). Named, not defined: the conversion is computed by the
/// calendar library, and depends on its arguments alone.
pub uninterp spec fn day_number_of(y: int, m: int, d: int) -> int;

pub open spec fn is_leap_year(y: int) -> bool {
    (y % 4 == 0 && y % 100 != 0) || y % 400 == 0
}

pub open spec fn days_in_month(y: int, m: int) -> int {
    if m == 2 {
        if is_leap_year(y) {
            29
        } else {
            28
        }
    } else if m == 4 || m == 6 || m == 9 || m == 11 {
        30
    } else {
        31
    }
}

/// The calendar dates that convert to a day number: valid Gregorian
/// dates within the year range the calendar library supports.
pub open spec fn valid_ymd(y: int, m: int, d: int) -> bool {
    &&& -262143 <= y <= 262142
    &&& 1 <= m <= 12
    &&& 1 <= d <= days_in_month(y, m)
}

/// Relies on `chrono::NaiveDate::from_ymd_opt`, which returns a date
/// exactly for valid Gregorian dates within its supported year range
/// (−262143 through 262142), and on `chrono::Datelike::num_days_from_ce`,
/// which counts the days of that date in the proleptic Gregorian
/// calendar with January 1 of year 1 as day 1.
#[verifier::external_body]
pub(crate) fn ymd_to_day_number(y: i32, m: u32, d: u32) -> (r: Option<i64>)
    ensures
        r is Some <==> valid_ymd(y as int, m as int, d as int),
        r matches Some(n) ==> n == day_number_of(y as int, m as int, d as int),
{
    chrono::NaiveDate::from_ymd_opt(y, m, d).map(|nd| chrono::Datelike::num_days_from_ce(&nd) as i64)
}

} // verus!
