//! Calendar dates in the proleptic Gregorian calendar, counted by Julian day.

use vstd::prelude::*;

verus! {

/// The earliest year a [`Date`] may carry.
pub const MIN_YEAR: i32 = -9999;

/// The latest year a [`Date`] may carry.
pub const MAX_YEAR: i32 = 9999;

/// Julian day of -9999-01-01, the earliest supported date.
pub const MIN_DAY_NUMBER: i64 = -1930999;

/// Julian day of 9999-12-31, the latest supported date.
pub const MAX_DAY_NUMBER: i64 = 5373484;

/// The largest whole number of days that a `time::Duration` can hold.
pub const MAX_SHIFT_DAYS: i64 = 106751991167300;

pub open spec fn is_leap_year(y: int) -> bool {
    y % 4 == 0 && (y % 100 != 0 || y % 400 == 0)
}

pub open spec fn days_in_month(y: int, m: int) -> int {
    if m == 2 {
        if is_leap_year(y) { 29 } else { 28 }
    } else if m == 4 || m == 6 || m == 9 || m == 11 {
        30
    } else {
        31
    }
}

/// `(y, m, d)` names a day of the proleptic Gregorian calendar.
pub open spec fn is_real_date(y: int, m: int, d: int) -> bool {
    1 <= m <= 12 && 1 <= d <= days_in_month(y, m)
}

pub open spec fn year_supported(y: int) -> bool {
    MIN_YEAR <= y <= MAX_YEAR
}

/// Days of year `y` that come before the first of month `m`.
pub open spec fn days_before_month(y: int, m: int) -> int
    decreases m,
{
    if m <= 1 {
        0
    } else {
        days_before_month(y, m - 1) + days_in_month(y, m - 1)
    }
}

/// Days from 0001-01-01 to the first of January of year `y`.
pub open spec fn days_before_year(y: int) -> int {
    let p = y - 1;
    365 * p + p / 4 - p / 100 + p / 400
}

/// The Julian day number: days since -4713-11-24 (0000-12-31 is day 1721425).
pub open spec fn julian_day(y: int, m: int, d: int) -> int {
    days_before_year(y) + days_before_month(y, m) + d + 1721425
}

/// Monday-based number of the weekday of a Julian day: Monday is 1, Sunday 7.
pub open spec fn weekday_of_day_number(jd: int) -> int {
    jd % 7 + 1
}

pub open spec fn day_number_supported(jd: int) -> bool {
    MIN_DAY_NUMBER <= jd <= MAX_DAY_NUMBER
}

/// A calendar date without time of day.
#[derive(Clone, Copy, Debug, PartialEq, Eq, Structural)]
pub struct Date {
    pub year: i32,
    pub month: u8,
    pub day: u8,
}

impl Date {
    /// The date is real and its year is supported.
    pub open spec fn wf(self) -> bool {
        year_supported(self.year as int) && is_real_date(
            self.year as int,
            self.month as int,
            self.day as int,
        )
    }

    pub open spec fn day_number(self) -> int {
        julian_day(self.year as int, self.month as int, self.day as int)
    }

    pub open spec fn weekday_number(self) -> int {
        weekday_of_day_number(self.day_number())
    }

    /// Strictly earlier in the calendar.
    pub open spec fn is_before(self, other: Date) -> bool {
        self.year < other.year || (self.year == other.year && (self.month < other.month || (
        self.month == other.month && self.day < other.day)))
    }
}


/// Why a date could not be produced.
#[derive(Clone, Copy, Debug, PartialEq, Eq, Structural)]
pub enum ResolveError {
    /// The year, month and day name no day of the calendar.
    InvalidCalendarDate,
    /// The date lies outside the supported years.
    OutOfRange,
}

/// What building a date from its parts gives.
pub open spec fn date_from_parts(y: int, m: int, d: int) -> Result<Date, ResolveError> {
    if !year_supported(y) {
        Err(ResolveError::OutOfRange)
    } else if !is_real_date(y, m, d) {
        Err(ResolveError::InvalidCalendarDate)
    } else {
        Ok(Date { year: y as i32, month: m as u8, day: d as u8 })
    }
}

impl Date {
    /// Builds a date, checking that it is real and its year supported.
    pub fn new(year: i32, month: u8, day: u8) -> (r: Result<Date, ResolveError>)
        ensures
            r == date_from_parts(year as int, month as int, day as int),
            r matches Ok(x) ==> x.wf(),
    {
        if year < MIN_YEAR || year > MAX_YEAR {
            Err(ResolveError::OutOfRange)
        } else if calendar_date_exists(year, month, day) {
            Ok(Date { year, month, day })
        } else {
            Err(ResolveError::InvalidCalendarDate)
        }
    }
}


proof fn lemma_days_before_month_bounds(y: int, m: int)
    requires
        1 <= m,
    ensures
        0 <= days_before_month(y, m) <= 31 * (m - 1),
    decreases m,
{
    if m > 1 {
        lemma_days_before_month_bounds(y, m - 1);
    }
}

/// Every supported date has a Julian day well inside `-10^8..10^8`.
pub proof fn lemma_day_number_bounds(d: Date)
    requires
        d.wf(),
    ensures
        -100_000_000 < d.day_number() < 100_000_000,
{
    lemma_days_before_month_bounds(d.year as int, d.month as int);
    let p = d.year as int - 1;
    assert(-4_000_000 <= 365 * p <= 4_000_000) by (nonlinear_arith)
        requires
            -10000 <= p <= 9998,
    ;
}


proof fn lemma_days_before_month_grows(y: int, m1: int, m2: int)
    requires
        1 <= m1 < m2,
    ensures
        days_before_month(y, m2) >= days_before_month(y, m1) + days_in_month(y, m1),
    decreases m2,
{
    if m2 > m1 + 1 {
        lemma_days_before_month_grows(y, m1, m2 - 1);
    }
}

proof fn lemma_year_length(y: int)
    ensures
        days_before_year(y + 1) - days_before_year(y) == if is_leap_year(y) {
            366int
        } else {
            365int
        },
        days_before_month(y, 13) == if is_leap_year(y) {
            366int
        } else {
            365int
        },
{
    reveal_with_fuel(days_before_month, 13);
    let p = y - 1;
    assert(y / 4 - p / 4 == if y % 4 == 0 { 1int } else { 0int });
    assert(y / 100 - p / 100 == if y % 100 == 0 { 1int } else { 0int });
    assert(y / 400 - p / 400 == if y % 400 == 0 { 1int } else { 0int });
}

proof fn lemma_days_before_year_grows(y1: int, y2: int)
    requires
        y1 <= y2,
    ensures
        days_before_year(y2) - days_before_year(y1) >= 365 * (y2 - y1),
    decreases y2 - y1,
{
    if y1 < y2 {
        lemma_days_before_year_grows(y1, y2 - 1);
        lemma_year_length(y2 - 1);
    }
}

/// The Julian day grows with the calendar order.
pub proof fn lemma_day_number_increasing(a: Date, b: Date)
    requires
        a.wf(),
        b.wf(),
        a.is_before(b),
    ensures
        a.day_number() < b.day_number(),
{
    let (ya, ma, da) = (a.year as int, a.month as int, a.day as int);
    let (yb, mb, db) = (b.year as int, b.month as int, b.day as int);
    lemma_days_before_month_bounds(yb, mb);
    if ya < yb {
        lemma_days_before_month_grows(ya, ma, 13);
        lemma_year_length(ya);
        lemma_days_before_year_grows(ya + 1, yb);
    } else if ma < mb {
        lemma_days_before_month_grows(ya, ma, mb);
    }
}

/// Distinct supported dates have distinct Julian days.
pub proof fn lemma_day_number_injective(a: Date, b: Date)
    requires
        a.wf(),
        b.wf(),
        a.day_number() == b.day_number(),
    ensures
        a == b,
{
    if a.is_before(b) {
        lemma_day_number_increasing(a, b);
    } else if b.is_before(a) {
        lemma_day_number_increasing(b, a);
    }
}

/// Relies on `time::Date::from_calendar_date`: it accepts exactly the real
/// dates whose year lies in `MIN_YEAR..=MAX_YEAR` (the crate's default range),
/// after `time::Month::try_from` accepts exactly the months 1 to 12.
#[verifier::external_body]
pub(crate) fn calendar_date_exists(year: i32, month: u8, day: u8) -> (r: bool)
    ensures
        r == (year_supported(year as int) && is_real_date(year as int, month as int, day as int)),
{
    match time::Month::try_from(month) {
        Ok(m) => time::Date::from_calendar_date(year, m, day).is_ok(),
        Err(_) => false,
    }
}

/// Relies on `time::Date::checked_add` with `time::Duration::days`: the result
/// is the date whose Julian day is `days` later, or `None` when that lies
/// outside the supported range. `Duration::days` panics unless
/// `days * 86400` fits in an `i64`.
#[verifier::external_body]
pub(crate) fn checked_add_days(d: Date, days: i64) -> (r: Option<Date>)
    requires
        d.wf(),
        -MAX_SHIFT_DAYS <= days <= MAX_SHIFT_DAYS,
    ensures
        r.is_some() <==> day_number_supported(d.day_number() + days),
        r matches Some(x) ==> x.wf() && x.day_number() == d.day_number() + days,
{
    let month = time::Month::try_from(d.month).unwrap();
    let start = time::Date::from_calendar_date(d.year, month, d.day).unwrap();
    match start.checked_add(time::Duration::days(days)) {
        Some(t) => {
            let (year, month, day) = t.to_calendar_date();
            Some(Date { year, month: month as u8, day })
        },
        None => None,
    }
}

/// Relies on `time::Date::weekday` and `time::Weekday::number_from_monday`:
/// the weekday follows the Julian day modulo 7, Monday being day 0.
#[verifier::external_body]
pub(crate) fn weekday_number(d: Date) -> (r: u8)
    requires
        d.wf(),
    ensures
        r == d.weekday_number(),
{
    let month = time::Month::try_from(d.month).unwrap();
    let date = time::Date::from_calendar_date(d.year, month, d.day).unwrap();
    date.weekday().number_from_monday()
}

} // verus!
