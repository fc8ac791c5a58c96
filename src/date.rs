//! Civil calendar dates, and the calendar services borrowed from chrono.

use vstd::prelude::*;
use chrono::{Datelike, NaiveDate};

verus! {

/// The earliest year that chrono's dates reach.
pub const MIN_YEAR: i32 = -262143;

/// The latest year that chrono's dates reach.
pub const MAX_YEAR: i32 = 262142;

/// A calendar date without time of day or time zone.
#[derive(Clone, Copy, Debug, PartialEq, Eq, Structural, Hash)]
pub struct CivilDate {
    pub year: i32,
    pub month: u32,
    pub day: u32,
}

/// Gregorian leap years.
pub open spec fn is_leap_year(y: int) -> bool {
    (y % 4 == 0 && y % 100 != 0) || y % 400 == 0
}

/// The number of days of month `m` in year `y`.
pub open spec fn days_in_month(y: int, m: int) -> int {
    if m == 2 {
        if is_leap_year(y) { 29 } else { 28 }
    } else if m == 4 || m == 6 || m == 9 || m == 11 {
        30
    } else {
        31
    }
}

/// `y-m-d` names a day of the calendar within chrono's range.
pub open spec fn is_valid_date(y: int, m: int, d: int) -> bool {
    MIN_YEAR <= y <= MAX_YEAR && 1 <= m <= 12 && 1 <= d <= days_in_month(y, m)
}

impl CivilDate {
    /// The date as a year, month and day triple.
    pub open spec fn view(&self) -> (int, int, int) {
        (self.year as int, self.month as int, self.day as int)
    }

    /// The date exists on the calendar.
    pub open spec fn wf(&self) -> bool {
        is_valid_date(self.year as int, self.month as int, self.day as int)
    }

    /// Calendar order: `self` is on or before `other`.
    pub open spec fn on_or_before(&self, other: CivilDate) -> bool {
        self.year < other.year || (self.year == other.year && (self.month < other.month || (
        self.month == other.month && self.day <= other.day)))
    }

    /// Whether `self` is on or before `other`.
    pub fn is_on_or_before(&self, other: &CivilDate) -> (r: bool)
        ensures
            r == self.on_or_before(*other),
    {
        self.year < other.year || (self.year == other.year && (self.month < other.month || (
        self.month == other.month && self.day <= other.day)))
    }
}

/// The date chrono reads from `text` under the format `fmt`, as year, month
/// and day, if it reads one.
pub uninterp spec fn parsed_date(text: Seq<char>, fmt: Seq<char>) -> Option<(int, int, int)>;

/// Relies on chrono's `NaiveDate::parse_from_str`: its outcome depends on the
/// text and the format alone, and a date it returns exists on the calendar.
#[verifier::external_body]
pub(crate) fn parse_date_with(text: &Vec<char>, fmt: &str) -> (r: Option<CivilDate>)
    ensures
        match r {
            Some(d) => parsed_date(text@, fmt@) == Some(d@) && d.wf(),
            None => parsed_date(text@, fmt@) is None,
        },
{
    let s: String = text.iter().collect();
    match NaiveDate::parse_from_str(&s, fmt) {
        Ok(d) => Some(CivilDate { year: d.year(), month: d.month(), day: d.day() }),
        Err(_) => None,
    }
}

/// Relies on chrono's `NaiveDate::from_ymd_opt`: a date exactly when the year
/// is in chrono's range and the month and day exist in that year.
#[verifier::external_body]
pub(crate) fn date_from_ymd(year: i32, month: u32, day: u32) -> (r: Option<CivilDate>)
    ensures
        r == (if is_valid_date(year as int, month as int, day as int) {
            Some(CivilDate { year, month, day })
        } else {
            None
        }),
{
    match NaiveDate::from_ymd_opt(year, month, day) {
        Some(d) => Some(CivilDate { year: d.year(), month: d.month(), day: d.day() }),
        None => None,
    }
}

} // verus!
