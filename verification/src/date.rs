//! Calendar dates as plain values.
//!
//! Workblocks and archives are grouped by calendar date. A date is held as
//! its year, month and day, so that the day-rollover logic (what is
//! "yesterday"?) is ordinary verified arithmetic.

use vstd::prelude::*;

verus! {

/// A day of the proleptic Gregorian calendar, from year 0 onward.
#[derive(Clone, Copy, Debug, PartialEq, Eq, Hash, Structural)]
pub struct Date {
    pub year: i32,
    pub month: i32,
    pub day: i32,
}

/// A leap year has 366 days: divisible by 4, except centuries not
/// divisible by 400.
pub open spec fn spec_is_leap_year(year: int) -> bool {
    (year % 4 == 0 && year % 100 != 0) || year % 400 == 0
}

/// How many days the given month of the given year has.
pub open spec fn spec_days_in_month(year: int, month: int) -> int {
    if month == 2 {
        if spec_is_leap_year(year) {
            29
        } else {
            28
        }
    } else if month == 4 || month == 6 || month == 9 || month == 11 {
        30
    } else {
        31
    }
}

impl Date {
    /// The date names an existing calendar day of year 0 or later.
    pub open spec fn wf(self) -> bool {
        &&& 0 <= self.year
        &&& 1 <= self.month <= 12
        &&& 1 <= self.day <= spec_days_in_month(self.year as int, self.month as int)
    }

    /// The calendar day before this one. At the very first representable
    /// day (January 1 of year 0) there is no predecessor and the date is
    /// returned unchanged.
    pub open spec fn spec_prev(self) -> Date {
        if self.day > 1 {
            Date { year: self.year, month: self.month, day: (self.day - 1) as i32 }
        } else if self.month > 1 {
            Date {
                year: self.year,
                month: (self.month - 1) as i32,
                day: spec_days_in_month(self.year as int, self.month as int - 1) as i32,
            }
        } else if self.year == 0 {
            self
        } else {
            Date { year: (self.year - 1) as i32, month: 12, day: 31 }
        }
    }
}

/// Whether `year` is a leap year.
pub fn is_leap_year(year: i32) -> (r: bool)
    requires
        0 <= year,
    ensures
        r == spec_is_leap_year(year as int),
{
    (year % 4 == 0 && year % 100 != 0) || year % 400 == 0
}

/// The number of days in the given month.
pub fn days_in_month(year: i32, month: i32) -> (n: i32)
    requires
        0 <= year,
        1 <= month <= 12,
    ensures
        n as int == spec_days_in_month(year as int, month as int),
{
    if month == 2 {
        if is_leap_year(year) {
            29
        } else {
            28
        }
    } else if month == 4 || month == 6 || month == 9 || month == 11 {
        30
    } else {
        31
    }
}

/// The calendar day before `d`.
pub fn prev_day(d: Date) -> (r: Date)
    requires
        d.wf(),
    ensures
        r == d.spec_prev(),
        r.wf(),
{
    if d.day > 1 {
        Date { year: d.year, month: d.month, day: d.day - 1 }
    } else if d.month > 1 {
        let m = d.month - 1;
        Date { year: d.year, month: m, day: days_in_month(d.year, m) }
    } else if d.year == 0 {
        d
    } else {
        Date { year: d.year - 1, month: 12, day: 31 }
    }
}

} // verus!
