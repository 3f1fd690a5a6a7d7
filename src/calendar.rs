use vstd::prelude::*;

verus! {

/// chrono's `NaiveDate`, carried through as an opaque expiration date.
#[verifier::external_type_specification]
#[verifier::external_body]
pub struct ExNaiveDate(chrono::NaiveDate);

/// Relies on chrono's `NaiveDate` being `Copy`: its `clone` returns the same date.
pub assume_specification[ <chrono::NaiveDate as core::clone::Clone>::clone ](d: &chrono::NaiveDate) -> (r:
    chrono::NaiveDate)
    ensures
        r == *d,
;

/// Whether `year` is a leap year of the proleptic Gregorian calendar.
pub open spec fn is_leap_year(year: int) -> bool {
    (year % 4 == 0 && year % 100 != 0) || year % 400 == 0
}

/// Number of days in `month` (1 to 12) of `year`.
pub open spec fn days_in_month(year: int, month: int) -> int {
    if month == 2 {
        if is_leap_year(year) {
            29
        } else {
            28
        }
    } else if month == 4 || month == 6 || month == 9 || month == 11 {
        30
    } else {
        31
    }
}

/// Whether (year, month, day) names a calendar day that chrono can represent:
/// years from -262143 to 262142.
pub open spec fn valid_ymd(year: int, month: int, day: int) -> bool {
    -262143 <= year <= 262142 && 1 <= month <= 12 && 1 <= day <= days_in_month(year, month)
}

/// Relies on chrono's `NaiveDate::from_ymd_opt`: it returns a date exactly when the
/// year is in its range and the month and day exist in that year.
pub assume_specification[ chrono::NaiveDate::from_ymd_opt ](year: i32, month: u32, day: u32) -> (r:
    Option<chrono::NaiveDate>)
    ensures
        r.is_some() <==> valid_ymd(year as int, month as int, day as int),
;

} // verus!
