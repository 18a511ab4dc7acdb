//! A plain calendar date, with validity and ordering stated over its fields.

use vstd::prelude::*;

verus! {

/// Earliest year a `Date` may carry.
pub const MIN_YEAR: i32 = 1;

/// Latest year a `Date` may carry.
pub const MAX_YEAR: i32 = 9999;

/// A calendar date held as plain fields.
#[derive(Clone, Copy, Debug, PartialEq, Eq, Structural, Hash)]
pub struct Date {
    pub year: i32,
    pub month: u8,
    pub day: u8,
}

/// Whether `y` is a leap year of the Gregorian calendar.
pub open spec fn spec_is_leap_year(y: int) -> bool {
    y % 4 == 0 && (y % 100 != 0 || y % 400 == 0)
}

/// Number of days of month `m` in year `y`.
pub open spec fn spec_days_in_month(y: int, m: int) -> int {
    if m == 2 {
        if spec_is_leap_year(y) {
            29
        } else {
            28
        }
    } else if m == 4 || m == 6 || m == 9 || m == 11 {
        30
    } else {
        31
    }
}

impl Date {
    /// A date is valid when its year is in range and its day exists in its
    /// month, leap years included.
    pub open spec fn valid(self) -> bool {
        &&& MIN_YEAR <= self.year <= MAX_YEAR
        &&& 1 <= self.month <= 12
        &&& 1 <= self.day <= spec_days_in_month(self.year as int, self.month as int)
    }

    /// Strict chronological order: `self` is earlier than `other`.
    pub open spec fn spec_lt(self, other: Date) -> bool {
        ||| self.year < other.year
        ||| (self.year == other.year && self.month < other.month)
        ||| (self.year == other.year && self.month == other.month && self.day < other.day)
    }

    /// Whether `year` is a leap year.
    pub fn is_leap_year(year: i32) -> (r: bool)
        requires
            year >= 1,
        ensures
            r == spec_is_leap_year(year as int),
    {
        year % 4 == 0 && (year % 100 != 0 || year % 400 == 0)
    }

    /// Number of days of `month` in `year`.
    pub fn days_in_month(year: i32, month: u8) -> (r: u8)
        requires
            year >= 1,
            1 <= month <= 12,
        ensures
            r as int == spec_days_in_month(year as int, month as int),
    {
        if month == 2 {
            if Date::is_leap_year(year) {
                29
            } else {
                28
            }
        } else if month == 4 || month == 6 || month == 9 || month == 11 {
            30
        } else {
            31
        }
    }

    /// Builds a date when the fields name a valid calendar day, and reports
    /// failure otherwise.
    pub fn new(year: i32, month: u8, day: u8) -> (r: Option<Date>)
        ensures
            ({
                let d = Date { year, month, day };
                &&& (r matches Some(v) ==> v == d && d.valid())
                &&& (r is None <==> !d.valid())
            }),
    {
        if MIN_YEAR <= year && year <= MAX_YEAR && 1 <= month && month <= 12 && 1 <= day
            && day <= Date::days_in_month(year, month) {
            Some(Date { year, month, day })
        } else {
            None
        }
    }

    /// Strict chronological comparison.
    pub fn lt(&self, other: &Date) -> (r: bool)
        ensures
            r == self.spec_lt(*other),
    {
        self.year < other.year || (self.year == other.year && self.month < other.month) || (
        self.year == other.year && self.month == other.month && self.day < other.day)
    }
}

/// Chronological order is transitive.
pub proof fn lemma_date_lt_transitive(a: Date, b: Date, c: Date)
    requires
        a.spec_lt(b),
        b.spec_lt(c),
    ensures
        a.spec_lt(c),
{
}

} // verus!
