//! Calendar dates of the proleptic Gregorian calendar, and the few
//! operations on them that the recurrence rules need.
use chrono::Datelike;
use vstd::prelude::*;

verus! {

/// Earliest year that a date can carry (the range of chrono's `NaiveDate`).
pub const MIN_YEAR: i32 = -262143;

/// Latest year that a date can carry (the range of chrono's `NaiveDate`).
pub const MAX_YEAR: i32 = 262142;

/// A calendar date as plain values.
#[derive(Clone, Copy, Debug, PartialEq, Eq, Structural)]
pub struct CalendarDate {
    pub year: i32,
    pub month: u32,
    pub day: u32,
}

pub open spec fn is_leap_year(y: int) -> bool {
    (y % 4 == 0 && y % 100 != 0) || y % 400 == 0
}

pub open spec fn month_length(y: int, m: int) -> int {
    if m == 2 {
        if is_leap_year(y) {
            29
        } else {
            28
        }
    } else if m == 4 || m == 6 || m == 9 || m == 11 {
        30
    } else {
        31
    }
}

/// Days from 0001-01-01 to the first day of year `y`.
pub open spec fn days_before_year(y: int) -> int {
    let p = y - 1;
    365 * p + p / 4 - p / 100 + p / 400
}

/// Days from the first of January to the first day of month `m` of year `y`.
pub open spec fn days_before_month(y: int, m: int) -> int {
    let common: int = if m <= 1 {
        0
    } else if m == 2 {
        31
    } else if m == 3 {
        59
    } else if m == 4 {
        90
    } else if m == 5 {
        120
    } else if m == 6 {
        151
    } else if m == 7 {
        181
    } else if m == 8 {
        212
    } else if m == 9 {
        243
    } else if m == 10 {
        273
    } else if m == 11 {
        304
    } else {
        334
    };
    if m > 2 && is_leap_year(y) {
        common + 1
    } else {
        common
    }
}

/// The day number of a date: 0 for 0001-01-01, counting forwards and backwards.
pub open spec fn day_number(y: int, m: int, d: int) -> int {
    days_before_year(y) + days_before_month(y, m) + d - 1
}

/// Weekday of a day number, 0 for Sunday up to 6 for Saturday (0001-01-01 was a Monday).
pub open spec fn weekday_of_number(n: int) -> int {
    (n + 1) % 7
}

pub open spec fn first_day_number() -> int {
    day_number(MIN_YEAR as int, 1, 1)
}

pub open spec fn last_day_number() -> int {
    day_number(MAX_YEAR as int, 12, 31)
}

/// Whether a day number names a date that a `CalendarDate` can carry.
pub open spec fn day_in_range(n: int) -> bool {
    first_day_number() <= n <= last_day_number()
}

pub open spec fn digit(n: int) -> char {
    if n == 0 {
        '0'
    } else if n == 1 {
        '1'
    } else if n == 2 {
        '2'
    } else if n == 3 {
        '3'
    } else if n == 4 {
        '4'
    } else if n == 5 {
        '5'
    } else if n == 6 {
        '6'
    } else if n == 7 {
        '7'
    } else if n == 8 {
        '8'
    } else {
        '9'
    }
}

/// `YYYY-MM-DD`, for a year of four digits.
pub open spec fn iso_text(y: int, m: int, d: int) -> Seq<char> {
    seq![
        digit(y / 1000),
        digit((y / 100) % 10),
        digit((y / 10) % 10),
        digit(y % 10),
        '-',
        digit(m / 10),
        digit(m % 10),
        '-',
        digit(d / 10),
        digit(d % 10),
    ]
}

/// What chrono's `NaiveDate::parse_from_str(s, "%Y-%m-%d")` reads from `s`, as year, month and day.
pub uninterp spec fn parsed_iso_date(s: Seq<char>) -> Option<(int, int, int)>;

/// Every valid date with a four-digit year, written `YYYY-MM-DD`, reads back as itself.
pub open spec fn reads_back_text(s: Seq<char>, r: Option<CalendarDate>) -> bool {
    forall|d: CalendarDate|
        #![trigger d.text()]
        d.wf() && d.four_digit_year() && s == d.text() ==> r == Some(d)
}

/// What chrono's `NaiveDate::format("%Y-%m-%d")` writes for a date.
pub uninterp spec fn formatted_iso_date(y: int, m: int, d: int) -> Seq<char>;

impl CalendarDate {
    /// A real date within the supported range.
    pub open spec fn wf(self) -> bool {
        &&& MIN_YEAR <= self.year <= MAX_YEAR
        &&& 1 <= self.month <= 12
        &&& 1 <= self.day <= month_length(self.year as int, self.month as int)
    }

    pub open spec fn number(self) -> int {
        day_number(self.year as int, self.month as int, self.day as int)
    }

    pub open spec fn weekday(self) -> int {
        weekday_of_number(self.number())
    }

    pub open spec fn text(self) -> Seq<char> {
        iso_text(self.year as int, self.month as int, self.day as int)
    }

    pub open spec fn four_digit_year(self) -> bool {
        0 <= self.year <= 9999
    }

    /// Calendar order: by year, then month, then day.
    pub open spec fn is_after(self, other: CalendarDate) -> bool {
        self.year > other.year || (self.year == other.year && (self.month > other.month || (
        self.month == other.month && self.day > other.day)))
    }

    /// The date with these parts, if there is one in the supported range.
    pub fn from_ymd(year: i32, month: u32, day: u32) -> (r: Option<CalendarDate>)
        ensures
            r is Some <==> (CalendarDate { year, month, day }).wf(),
            r matches Some(x) ==> x == (CalendarDate { year, month, day }),
    {
        if year < MIN_YEAR || year > MAX_YEAR || month < 1 || month > 12 || day < 1 {
            return None;
        }
        if day > days_in_month(year, month) {
            return None;
        }
        Some(CalendarDate { year, month, day })
    }

    /// Whether `self` falls strictly later than `other`.
    pub fn later_than(&self, other: &CalendarDate) -> (r: bool)
        ensures
            r == self.is_after(*other),
    {
        if self.year != other.year {
            self.year > other.year
        } else if self.month != other.month {
            self.month > other.month
        } else {
            self.day > other.day
        }
    }
}

/// Number of days in a month.
pub fn days_in_month(year: i32, month: u32) -> (r: u32)
    requires
        1 <= month <= 12,
    ensures
        r == month_length(year as int, month as int),
        28 <= r <= 31,
{
    if month == 2 {
        let leap = (year % 4 == 0 && year % 100 != 0) || year % 400 == 0;
        if leap {
            29
        } else {
            28
        }
    } else if month == 4 || month == 6 || month == 9 || month == 11 {
        30
    } else {
        31
    }
}

/// Day numbers of the supported dates stay well within a hundred million of day 0.
pub proof fn lemma_day_number_bounds(d: CalendarDate)
    requires
        d.wf(),
    ensures
        -100_000_000 <= d.number() <= 100_000_000,
        -100_000_000 <= first_day_number(),
        last_day_number() <= 100_000_000,
{
}

/// Relies on chrono's `NaiveDate::from_ymd_opt` and `NaiveDate::checked_add_days`:
/// the date `n` days later, or `None` once that leaves the range of `NaiveDate`.
#[verifier::external_body]
pub(crate) fn add_days(d: CalendarDate, n: u64) -> (r: Option<CalendarDate>)
    requires
        d.wf(),
    ensures
        r is Some <==> day_in_range(d.number() + n),
        r matches Some(x) ==> x.wf() && x.number() == d.number() + n,
{
    let start = chrono::NaiveDate::from_ymd_opt(d.year, d.month, d.day)?;
    let x = start.checked_add_days(chrono::Days::new(n))?;
    Some(CalendarDate { year: x.year(), month: x.month(), day: x.day() })
}

/// Relies on chrono's `Datelike::weekday` and `Weekday::num_days_from_sunday`:
/// 0 for Sunday up to 6 for Saturday.
#[verifier::external_body]
pub(crate) fn weekday_from_sunday(d: CalendarDate) -> (r: Option<u32>)
    requires
        d.wf(),
    ensures
        r == Some(d.weekday() as u32),
{
    let x = chrono::NaiveDate::from_ymd_opt(d.year, d.month, d.day)?;
    Some(x.weekday().num_days_from_sunday())
}

/// Relies on chrono's `NaiveDate::parse_from_str` with the format `%Y-%m-%d`:
/// a valid date or nothing, and `YYYY-MM-DD` of a four-digit year reads back as that date.
#[verifier::external_body]
pub fn parse_iso_date(s: &str) -> (r: Option<CalendarDate>)
    ensures
        r is Some <==> parsed_iso_date(s@) is Some,
        r matches Some(x) ==> x.wf() && parsed_iso_date(s@) == Some(
            (x.year as int, x.month as int, x.day as int),
        ),
        reads_back_text(s@, r),
{
    match chrono::NaiveDate::parse_from_str(s, "%Y-%m-%d") {
        Ok(x) => Some(CalendarDate { year: x.year(), month: x.month(), day: x.day() }),
        Err(_) => None,
    }
}

/// Relies on chrono's `NaiveDate::format` with `%Y-%m-%d`: `YYYY-MM-DD` for a
/// four-digit year.
#[verifier::external_body]
pub fn format_iso_date(d: CalendarDate) -> (r: Option<String>)
    ensures
        d.wf() ==> r is Some,
        r matches Some(s) ==> s@ == formatted_iso_date(d.year as int, d.month as int, d.day as int),
        r matches Some(s) ==> (d.four_digit_year() ==> s@ == d.text()),
{
    let x = chrono::NaiveDate::from_ymd_opt(d.year, d.month, d.day)?;
    Some(x.format("%Y-%m-%d").to_string())
}

} // verus!
