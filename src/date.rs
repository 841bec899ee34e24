use vstd::prelude::*;

use chrono::NaiveDate;

verus! {

/// The earliest year that a calendar date may have.
pub const MIN_YEAR: i32 = -262143;

/// The latest year that a calendar date may have.
pub const MAX_YEAR: i32 = 262142;

pub open spec fn is_leap_year(y: int) -> bool {
    y % 4 == 0 && (y % 100 != 0 || y % 400 == 0)
}

pub open spec fn days_in_month(y: int, m: int) -> int {
    if m == 2 {
        if is_leap_year(y) {
            29
        } else {
            28
        }
    } else if m == 4 || m == 6 || m == 9 || m == 11 {
        30
    } else {
        31
    }
}

/// Whether year, month and day name a day of the proleptic Gregorian calendar
/// within the supported range of years.
pub open spec fn valid_ymd(y: int, m: int, d: int) -> bool {
    MIN_YEAR <= y <= MAX_YEAR && 1 <= m <= 12 && 1 <= d <= days_in_month(y, m)
}

/// What a calendar date is.
pub struct DateView {
    pub year: int,
    pub month: int,
    pub day: int,
}

/// A number for each date that grows with the date.
pub open spec fn day_key(v: DateView) -> int {
    v.year * 512 + v.month * 32 + v.day
}

/// The day before `v`, where the calendar has one.
pub open spec fn day_before(v: DateView) -> Option<DateView> {
    if v.day > 1 {
        Some(DateView { year: v.year, month: v.month, day: v.day - 1 })
    } else if v.month > 1 {
        Some(DateView { year: v.year, month: v.month - 1, day: days_in_month(v.year, v.month - 1) })
    } else if v.year > MIN_YEAR {
        Some(DateView { year: v.year - 1, month: 12, day: 31 })
    } else {
        None
    }
}

/// Relies on `NaiveDate::from_ymd_opt`: `Some` exactly for the valid dates of
/// its range of years.
#[verifier::external_body]
fn calendar_has(year: i32, month: u32, day: u32) -> (r: bool)
    ensures
        r == valid_ymd(year as int, month as int, day as int),
{
    NaiveDate::from_ymd_opt(year, month, day).is_some()
}

/// A calendar date without a time of day.
#[derive(Debug, Clone, Copy, PartialEq, Eq, Hash)]
pub struct Date {
    year: i32,
    month: u32,
    day: u32,
}

impl View for Date {
    type V = DateView;

    closed spec fn view(&self) -> DateView {
        DateView { year: self.year as int, month: self.month as int, day: self.day as int }
    }
}

fn leap_year(y: i32) -> (r: bool)
    requires
        MIN_YEAR <= y <= MAX_YEAR,
    ensures
        r == is_leap_year(y as int),
{
    let shifted: u32 = (y as i64 + 280000) as u32;
    assert(shifted as int % 4 == (y as int) % 4);
    assert(shifted as int % 100 == (y as int) % 100);
    assert(shifted as int % 400 == (y as int) % 400);
    shifted % 4 == 0 && (shifted % 100 != 0 || shifted % 400 == 0)
}

fn month_length(y: i32, m: u32) -> (r: u32)
    requires
        MIN_YEAR <= y <= MAX_YEAR,
    ensures
        r as int == days_in_month(y as int, m as int),
{
    if m == 2 {
        if leap_year(y) {
            29
        } else {
            28
        }
    } else if m == 4 || m == 6 || m == 9 || m == 11 {
        30
    } else {
        31
    }
}

impl Date {
    #[verifier::type_invariant]
    spec fn is_calendar_day(&self) -> bool {
        valid_ymd(self.year as int, self.month as int, self.day as int)
    }

    pub fn from_ymd_opt(year: i32, month: u32, day: u32) -> (r: Option<Date>)
        ensures
            r is Some <==> valid_ymd(year as int, month as int, day as int),
            r matches Some(d) ==> d@ == (DateView { year: year as int, month: month as int, day: day as int }),
    {
        if calendar_has(year, month, day) {
            Some(Date { year, month, day })
        } else {
            None
        }
    }

    pub fn year(&self) -> (r: i32)
        ensures
            r as int == self@.year,
    {
        self.year
    }

    pub fn month(&self) -> (r: u32)
        ensures
            r as int == self@.month,
    {
        self.month
    }

    pub fn day(&self) -> (r: u32)
        ensures
            r as int == self@.day,
    {
        self.day
    }

    /// The day before this one.
    pub fn pred_opt(&self) -> (r: Option<Date>)
        ensures
            r matches Some(d) ==> day_before(self@) == Some(d@),
            r is None ==> day_before(self@) is None,
    {
        proof {
            use_type_invariant(self);
        }
        if self.day > 1 {
            Some(Date { year: self.year, month: self.month, day: self.day - 1 })
        } else if self.month > 1 {
            let d = month_length(self.year, self.month - 1);
            Some(Date { year: self.year, month: self.month - 1, day: d })
        } else if self.year > MIN_YEAR {
            Some(Date { year: self.year - 1, month: 12, day: 31 })
        } else {
            None
        }
    }

    /// Whether this date comes strictly before `other`.
    pub fn is_before(&self, other: &Date) -> (r: bool)
        ensures
            r == (day_key(self@) < day_key(other@)),
    {
        proof {
            use_type_invariant(self);
            use_type_invariant(other);
        }
        self.year < other.year || (self.year == other.year && (self.month < other.month || (
        self.month == other.month && self.day < other.day)))
    }
}

} // verus!
