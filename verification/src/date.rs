//! A calendar date held as plain year/month/day values, and the signed
//! whole-day difference between two dates, obtained from `chrono`.
//!
//! Dates read from the log are stored as given: range validation of the
//! components is deliberately not done at parse time, so a `Date` value may
//! name a day that does not exist. Only the day-difference operation asks for
//! a real calendar date, and `chrono_valid` says exactly which those are.

use vstd::prelude::*;

verus! {

/// A calendar date, as the three numbers the log spells out.
#[derive(Clone, Copy, Debug, PartialEq, Eq, Structural)]
pub struct Date {
    pub year: i64,
    pub month: i64,
    pub day: i64,
}

/// The mathematical value of a `Date`.
pub ghost struct DateV {
    pub year: int,
    pub month: int,
    pub day: int,
}

impl View for Date {
    type V = DateV;

    open spec fn view(&self) -> DateV {
        DateV { year: self.year as int, month: self.month as int, day: self.day as int }
    }
}

impl Date {
    /// Build a date from its three components, stored as given.
    pub fn new(year: i64, month: i64, day: i64) -> (r: Date)
        ensures
            r@ == (DateV { year: year as int, month: month as int, day: day as int }),
    {
        Date { year, month, day }
    }
}

/// Whether `year` is a Gregorian leap year.
pub open spec fn is_leap_year(year: int) -> bool {
    (year % 4 == 0 && year % 100 != 0) || year % 400 == 0
}

/// How many days the given month of the given year has.
pub open spec fn days_in_month(year: int, month: int) -> int {
    if month == 2 {
        if is_leap_year(year) {
            29
        } else {
            28
        }
    } else if month == 4 || month == 6 || month == 9 || month == 11 {
        30
    } else {
        31
    }
}

/// The dates `chrono::NaiveDate` can represent: real calendar dates whose
/// year lies in its documented range.
pub open spec fn chrono_valid(d: DateV) -> bool {
    &&& -262143 <= d.year <= 262142
    &&& 1 <= d.month <= 12
    &&& 1 <= d.day <= days_in_month(d.year, d.month)
}

/// The signed number of whole days from the first date to the second, as the
/// calendar (through `chrono`) defines it.
pub uninterp spec fn days_between_of(
    y1: int,
    m1: int,
    d1: int,
    y2: int,
    m2: int,
    d2: int,
) -> int;

/// The same difference, spoken of dates.
pub open spec fn spec_days_between(then: DateV, now: DateV) -> int {
    days_between_of(then.year, then.month, then.day, now.year, now.month, now.day)
}

/// Relies on `chrono::NaiveDate`: `from_ymd_opt` returns a date exactly for
/// the valid year/month/day triples in its year range, and
/// `signed_duration_since` followed by `num_days` is the exact signed
/// whole-day difference of two such dates (zero when they are equal).
#[verifier::external_body]
pub(crate) fn chrono_days_between(then: &Date, now: &Date) -> (r: Option<i64>)
    ensures
        r is Some == (chrono_valid(then@) && chrono_valid(now@)),
        r matches Some(d) ==> d == days_between_of(
            then.year as int,
            then.month as int,
            then.day as int,
            now.year as int,
            now.month as int,
            now.day as int,
        ),
        (then@ == now@ && r is Some) ==> r == Some(0i64),
{
    let ty = i32::try_from(then.year).ok()?;
    let ny = i32::try_from(now.year).ok()?;
    let tm = u32::try_from(then.month).ok()?;
    let nm = u32::try_from(now.month).ok()?;
    let td = u32::try_from(then.day).ok()?;
    let nd = u32::try_from(now.day).ok()?;
    let a = chrono::NaiveDate::from_ymd_opt(ty, tm, td)?;
    let b = chrono::NaiveDate::from_ymd_opt(ny, nm, nd)?;
    Some(b.signed_duration_since(a).num_days())
}

} // verus!
