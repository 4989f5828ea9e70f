//! Calendar dates, ordered chronologically, with quarter lookup.

use chrono::Datelike;
use vstd::prelude::*;

verus! {

/// A calendar date in the proleptic Gregorian calendar.
#[derive(Debug, Clone, Copy, PartialEq, Eq, Structural, PartialOrd, Ord, Hash)]
pub struct Date {
    pub year: i32,
    pub month: u32,
    pub day: u32,
}

pub open spec fn abs_year(y: int) -> int {
    if y < 0 { -y } else { y }
}

pub open spec fn is_leap_year(y: int) -> bool {
    let a = abs_year(y);
    (a % 4 == 0 && a % 100 != 0) || a % 400 == 0
}

pub open spec fn days_in_month(y: int, m: int) -> int {
    if m == 2 {
        if is_leap_year(y) { 29 } else { 28 }
    } else if m == 4 || m == 6 || m == 9 || m == 11 {
        30
    } else {
        31
    }
}

/// Quarter of a month: 1-3 is the first, ..., 10-12 the fourth.
pub open spec fn quarter_of(m: int) -> int {
    (m - 1) / 3 + 1
}

/// What chrono's `NaiveDate::from_str` makes of a text, as (year, month, day).
pub uninterp spec fn iso_date_of(s: Seq<char>) -> Option<(int, int, int)>;

impl Date {
    /// A valid calendar date.
    pub open spec fn wf(&self) -> bool {
        1 <= self.month <= 12 && 1 <= self.day <= days_in_month(self.year as int, self.month as int)
    }

    /// Chronological order: by year, then month, then day.
    pub open spec fn spec_le(&self, o: &Date) -> bool {
        self.year < o.year || (self.year == o.year && (self.month < o.month || (self.month
            == o.month && self.day <= o.day)))
    }

    pub open spec fn spec_lt(&self, o: &Date) -> bool {
        self.spec_le(o) && self != o
    }

    /// The date `year-month-day`, if it exists in the calendar.
    pub fn new(year: i32, month: u32, day: u32) -> (r: Option<Date>)
        ensures
            match r {
                Some(d) => d.wf() && d.year == year && d.month == month && d.day == day,
                None => !(Date { year, month, day }).wf(),
            },
    {
        let a: u32 = if year < 0 {
            (-(year as i64)) as u32
        } else {
            year as u32
        };
        let leap = (a % 4 == 0 && a % 100 != 0) || a % 400 == 0;
        let dim: u32 = if month == 2 {
            if leap { 29 } else { 28 }
        } else if month == 4 || month == 6 || month == 9 || month == 11 {
            30
        } else {
            31
        };
        if 1 <= month && month <= 12 && 1 <= day && day <= dim {
            Some(Date { year, month, day })
        } else {
            None
        }
    }

    /// Whether `self` is on or before `o`.
    pub fn le(&self, o: &Date) -> (r: bool)
        ensures
            r == self.spec_le(o),
    {
        self.year < o.year || (self.year == o.year && (self.month < o.month || (self.month
            == o.month && self.day <= o.day)))
    }

    /// Whether `self` is strictly before `o`.
    pub fn lt(&self, o: &Date) -> (r: bool)
        ensures
            r == self.spec_lt(o),
    {
        self.le(o) && !(self.year == o.year && self.month == o.month && self.day == o.day)
    }
}

/// Quarter of the year that a month falls in.
pub fn quarter(month: u32) -> (r: u32)
    requires
        1 <= month <= 12,
    ensures
        r == quarter_of(month as int),
        1 <= r <= 4,
{
    if month <= 3 {
        1
    } else if month <= 6 {
        2
    } else if month <= 9 {
        3
    } else {
        4
    }
}

/// Relies on chrono's `NaiveDate::from_str`: reads `YYYY-MM-DD` into a valid
/// calendar date, or fails.
#[verifier::external_body]
pub(crate) fn parse_date(s: &str) -> (r: Option<Date>)
    ensures
        match r {
            Some(d) => d.wf() && iso_date_of(s@) == Some(
                (d.year as int, d.month as int, d.day as int),
            ),
            None => iso_date_of(s@) is None,
        },
{
    match s.parse::<chrono::NaiveDate>() {
        Ok(d) => Some(Date { year: d.year(), month: d.month(), day: d.day() }),
        Err(_) => None,
    }
}

/// Relies on chrono's `Local::now`: today's date in the local time zone, a
/// valid calendar date.
#[verifier::external_body]
pub(crate) fn today() -> (r: Date)
    ensures
        r.wf(),
{
    let d = chrono::Local::now().date_naive();
    Date { year: d.year(), month: d.month(), day: d.day() }
}

} // verus!
