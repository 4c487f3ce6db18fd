//! Gregorian calendar rules used by the validator and the generators.
use vstd::prelude::*;

verus! {

/// Whether `year` is a Gregorian leap year.
pub open spec fn is_leap(year: int) -> bool {
    (year % 4 == 0 && year % 100 != 0) || year % 400 == 0
}

/// Number of days in `month` (1 to 12) of `year`.
pub open spec fn month_length(month: int, year: int) -> int {
    if month == 2 {
        if is_leap(year) {
            29
        } else {
            28
        }
    } else if month == 4 || month == 6 || month == 9 || month == 11 {
        30
    } else {
        31
    }
}

/// Leap-year test with the 100/400 exception.
pub fn is_leap_year(year: usize) -> (r: bool)
    ensures
        r == is_leap(year as int),
{
    ((year % 4 == 0) && (year % 100 != 0)) || (year % 400 == 0)
}

/// Days in the given month; the month must be a real month number.
pub fn days_in_month(month: usize, year: usize) -> (r: usize)
    requires
        1 <= month <= 12,
    ensures
        r == month_length(month as int, year as int),
        28 <= r <= 31,
{
    match month {
        2 => {
            if is_leap_year(year) {
                29
            } else {
                28
            }
        },
        4 | 6 | 9 | 11 => 30,
        _ => 31,
    }
}

} // verus!
