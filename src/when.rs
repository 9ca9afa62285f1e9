//! Symbolic descriptions of "when", and their resolution against a reference date.

use vstd::prelude::*;
use vstd::laws_eq::obeys_concrete_eq;
use crate::date::{
    checked_add_days, date_from_parts, day_number_supported, lemma_day_number_bounds,
    lemma_day_number_injective, weekday_number,
    Date, ResolveError, MAX_SHIFT_DAYS,
};

verus! {

#[derive(Clone, Copy, Debug, PartialEq, Eq, Structural)]
pub enum Weekday {
    Monday,
    Tuesday,
    Wednesday,
    Thursday,
    Friday,
    Saturday,
    Sunday,
}

impl Weekday {
    /// Monday-based number: Monday is 1, Sunday 7.
    pub open spec fn index(self) -> int {
        match self {
            Weekday::Monday => 1,
            Weekday::Tuesday => 2,
            Weekday::Wednesday => 3,
            Weekday::Thursday => 4,
            Weekday::Friday => 5,
            Weekday::Saturday => 6,
            Weekday::Sunday => 7,
        }
    }

    pub fn number_from_monday(&self) -> (r: u8)
        ensures
            r == self.index(),
    {
        match self {
            Weekday::Monday => 1,
            Weekday::Tuesday => 2,
            Weekday::Wednesday => 3,
            Weekday::Thursday => 4,
            Weekday::Friday => 5,
            Weekday::Saturday => 6,
            Weekday::Sunday => 7,
        }
    }
}

/// A day of the year, without the year.
#[derive(Clone, Copy, Debug, PartialEq, Eq, Structural)]
pub struct MonthDay {
    pub month: u8,
    pub day: u8,
}

/// A fully specified calendar date.
#[derive(Clone, Copy, Debug, PartialEq, Eq, Structural)]
pub struct CalDate {
    pub year: u16,
    pub month: u8,
    pub day: u8,
}

impl CalDate {
    pub fn to_date(&self) -> (r: Result<Date, ResolveError>)
        ensures
            r == date_from_parts(self.year as int, self.month as int, self.day as int),
    {
        Date::new(self.year as i32, self.month, self.day)
    }
}

/// The first day on or after `today` that has the month and day of `md`: this
/// year's if it is not yet past, else next year's.
pub open spec fn month_day_date(md: MonthDay, today: Date) -> Result<Date, ResolveError> {
    match date_from_parts(today.year as int, md.month as int, md.day as int) {
        Ok(c) => if c.is_before(today) {
            date_from_parts(today.year + 1, md.month as int, md.day as int)
        } else {
            Ok(c)
        },
        Err(e) => Err(e),
    }
}

impl MonthDay {
    pub fn next_occurrence(&self, today: Date) -> (r: Result<Date, ResolveError>)
        requires
            today.wf(),
        ensures
            r == month_day_date(*self, today),
    {
        let this_year = Date::new(today.year, self.month, self.day);
        match this_year {
            Ok(c) => if c.precedes(&today) {
                Date::new(today.year + 1, self.month, self.day)
            } else {
                Ok(c)
            },
            Err(e) => Err(e),
        }
    }
}

impl Date {
    pub fn precedes(&self, other: &Date) -> (r: bool)
        ensures
            r == self.is_before(*other),
    {
        self.year < other.year || (self.year == other.year && (self.month < other.month || (
        self.month == other.month && self.day < other.day)))
    }
}

/// A symbolic description of a date.
#[derive(Clone, Copy, Debug, Eq)]
pub enum When {
    /// The next occurrence of the weekday after today: one to seven days ahead,
    /// seven when today is that weekday.
    NextWeek(Weekday),
    /// The weekday of the current Monday-to-Sunday week, past or future.
    ThisWeek(Weekday),
    /// That many days from today; negative counts go back.
    InExactDays(i64),
    MonthDay(MonthDay),
    AbsoluteDate(CalDate),
}

impl PartialEq for When {
    /// Same variant, same payload.
    fn eq(&self, other: &When) -> (r: bool) {
        match (self, other) {
            (When::NextWeek(a), When::NextWeek(b)) => a == b,
            (When::ThisWeek(a), When::ThisWeek(b)) => a == b,
            (When::InExactDays(a), When::InExactDays(b)) => a == b,
            (When::MonthDay(a), When::MonthDay(b)) => a == b,
            (When::AbsoluteDate(a), When::AbsoluteDate(b)) => a == b,
            _ => false,
        }
    }
}

impl vstd::std_specs::cmp::PartialEqSpecImpl for When {
    open spec fn obeys_eq_spec() -> bool {
        true
    }

    open spec fn eq_spec(&self, other: &When) -> bool {
        *self == *other
    }
}

/// `==` on `When` is equality of values, as the sampler's counting needs.
pub proof fn lemma_when_eq_is_structural()
    ensures
        obeys_concrete_eq::<When>(),
{
    reveal(obeys_concrete_eq);
}

impl Default for When {
    fn default() -> (r: When)
        ensures
            r == When::InExactDays(0),
    {
        When::InExactDays(0)
    }
}

/// The moment against which a `When` is resolved: today's local date and the
/// local offset from UTC, in seconds.
#[derive(Clone, Copy, Debug, PartialEq, Eq, Structural)]
pub struct ReferenceInstant {
    pub date: Date,
    pub offset_seconds: i32,
}

/// A concrete date, with the offset from UTC in effect when it was resolved.
#[derive(Clone, Copy, Debug, PartialEq, Eq, Structural)]
pub struct ResolvedDate {
    pub date: Date,
    pub offset_seconds: i32,
}

/// Days from a day with weekday number `today` to the next `target` one: 1 to 7.
pub open spec fn next_week_shift(target: int, today: int) -> int {
    let d = (target - today + 7) % 7;
    if d == 0 {
        7
    } else {
        d
    }
}

pub open spec fn with_offset(r: Result<Date, ResolveError>, offset_seconds: i32) -> Result<
    ResolvedDate,
    ResolveError,
> {
    match r {
        Ok(d) => Ok(ResolvedDate { date: d, offset_seconds }),
        Err(e) => Err(e),
    }
}

/// `r` is the date `shift` days after `reference`'s, or `OutOfRange` when
/// that lies outside the supported dates.
pub open spec fn shifted_by(
    reference: ReferenceInstant,
    shift: int,
    r: Result<ResolvedDate, ResolveError>,
) -> bool {
    let target = reference.date.day_number() + shift;
    match r {
        Ok(x) => day_number_supported(target) && x.date.wf() && x.date.day_number() == target
            && x.offset_seconds == reference.offset_seconds,
        Err(e) => !day_number_supported(target) && e == ResolveError::OutOfRange,
    }
}

impl When {
    /// Days from today to the date of a relative variant.
    pub open spec fn shift_from(self, today: Date) -> int {
        match self {
            When::NextWeek(w) => next_week_shift(w.index(), today.weekday_number()),
            When::ThisWeek(w) => w.index() - today.weekday_number(),
            When::InExactDays(n) => n as int,
            _ => 0,
        }
    }

    /// `r` is what resolving `self` against `reference` gives.
    pub open spec fn resolves_to(
        self,
        reference: ReferenceInstant,
        r: Result<ResolvedDate, ResolveError>,
    ) -> bool {
        match self {
            When::MonthDay(md) => r == with_offset(
                month_day_date(md, reference.date),
                reference.offset_seconds,
            ),
            When::AbsoluteDate(c) => r == with_offset(
                date_from_parts(c.year as int, c.month as int, c.day as int),
                reference.offset_seconds,
            ),
            _ => shifted_by(reference, self.shift_from(reference.date), r),
        }
    }

    /// Resolves `self` to a concrete date, in the offset of `reference`.
    pub fn get_date(&self, reference: &ReferenceInstant) -> (r: Result<ResolvedDate, ResolveError>)
        requires
            reference.date.wf(),
        ensures
            self.resolves_to(*reference, r),
            r matches Ok(x) ==> x.date.wf() && x.offset_seconds == reference.offset_seconds,
    {
        let today = reference.date;
        match self {
            When::NextWeek(w) => {
                let target = w.number_from_monday() as i64;
                let now = weekday_number(today) as i64;
                let mut diff = (target - now + 7) % 7;
                if diff == 0 {
                    diff = 7;
                }
                shift_days(reference, diff)
            },
            When::ThisWeek(w) => {
                let target = w.number_from_monday() as i64;
                let now = weekday_number(today) as i64;
                shift_days(reference, target - now)
            },
            When::InExactDays(n) => {
                if *n < -MAX_SHIFT_DAYS || *n > MAX_SHIFT_DAYS {
                    proof {
                        lemma_day_number_bounds(today);
                    }
                    Err(ResolveError::OutOfRange)
                } else {
                    shift_days(reference, *n)
                }
            },
            When::MonthDay(md) => match md.next_occurrence(today) {
                Ok(d) => Ok(ResolvedDate { date: d, offset_seconds: reference.offset_seconds }),
                Err(e) => Err(e),
            },
            When::AbsoluteDate(c) => match c.to_date() {
                Ok(d) => Ok(ResolvedDate { date: d, offset_seconds: reference.offset_seconds }),
                Err(e) => Err(e),
            },
        }
    }
}


/// "Next week on `w`" said on a `w` is exactly seven days ahead, never today.
pub proof fn lemma_next_week_on_same_weekday(
    w: Weekday,
    reference: ReferenceInstant,
    r: Result<ResolvedDate, ResolveError>,
)
    requires
        reference.date.wf(),
        reference.date.weekday_number() == w.index(),
        When::NextWeek(w).resolves_to(reference, r),
    ensures
        shifted_by(reference, 7, r),
{
}

/// "Next week on `w`" is one to seven days ahead and falls on a `w`.
pub proof fn lemma_next_week_lands_on_weekday(
    w: Weekday,
    reference: ReferenceInstant,
    r: Result<ResolvedDate, ResolveError>,
)
    requires
        reference.date.wf(),
        When::NextWeek(w).resolves_to(reference, r),
    ensures
        1 <= When::NextWeek(w).shift_from(reference.date) <= 7,
        r matches Ok(x) ==> x.date.weekday_number() == w.index(),
{
    let today = reference.date.day_number();
    let k = When::NextWeek(w).shift_from(reference.date);
    assert((today + k) % 7 + 1 == w.index()) by {
        assert(k % 7 == (w.index() - (today % 7 + 1) + 7) % 7);
    }
}

/// "This week on `w`" moves by the signed difference of the Monday-based
/// weekday numbers, which is at most six days either way.
pub proof fn lemma_this_week_offset(
    w: Weekday,
    reference: ReferenceInstant,
    r: Result<ResolvedDate, ResolveError>,
)
    requires
        reference.date.wf(),
        When::ThisWeek(w).resolves_to(reference, r),
    ensures
        shifted_by(reference, w.index() - reference.date.weekday_number(), r),
        -6 <= w.index() - reference.date.weekday_number() <= 6,
{
}

/// "In `n` days" is today plus `n`, for every `n`, negative ones included.
pub proof fn lemma_in_exact_days(
    n: i64,
    reference: ReferenceInstant,
    r: Result<ResolvedDate, ResolveError>,
)
    requires
        reference.date.wf(),
        When::InExactDays(n).resolves_to(reference, r),
    ensures
        shifted_by(reference, n as int, r),
{
}

/// A month and day never resolves to a past date: this year's date is kept
/// unless it is already past, and then next year's is taken.
pub proof fn lemma_month_day_not_past(
    md: MonthDay,
    reference: ReferenceInstant,
    r: Result<ResolvedDate, ResolveError>,
)
    requires
        reference.date.wf(),
        When::MonthDay(md).resolves_to(reference, r),
    ensures
        r matches Ok(x) ==> !x.date.is_before(reference.date),
        date_from_parts(reference.date.year as int, md.month as int, md.day as int) matches Ok(c)
            ==> if c.is_before(reference.date) {
            r == with_offset(
                date_from_parts(reference.date.year + 1, md.month as int, md.day as int),
                reference.offset_seconds,
            )
        } else {
            r == Ok::<ResolvedDate, ResolveError>(
                ResolvedDate { date: c, offset_seconds: reference.offset_seconds },
            )
        },
{
}

/// The thirtieth of February exists in no year.
pub proof fn lemma_february_thirtieth_invalid(
    reference: ReferenceInstant,
    r: Result<ResolvedDate, ResolveError>,
)
    requires
        reference.date.wf(),
        When::MonthDay(MonthDay { month: 2, day: 30 }).resolves_to(reference, r),
    ensures
        r == Err::<ResolvedDate, ResolveError>(ResolveError::InvalidCalendarDate),
{
}

/// Resolution is a function of the description and the reference: two
/// resolutions of the same pair agree.
pub proof fn lemma_resolution_deterministic(
    w: When,
    reference: ReferenceInstant,
    r1: Result<ResolvedDate, ResolveError>,
    r2: Result<ResolvedDate, ResolveError>,
)
    requires
        reference.date.wf(),
        w.resolves_to(reference, r1),
        w.resolves_to(reference, r2),
    ensures
        r1 == r2,
{
    match w {
        When::MonthDay(_) => {},
        When::AbsoluteDate(_) => {},
        _ => {
            if let (Ok(x1), Ok(x2)) = (r1, r2) {
                lemma_day_number_injective(x1.date, x2.date);
            }
        },
    }
}

fn shift_days(reference: &ReferenceInstant, days: i64) -> (r: Result<ResolvedDate, ResolveError>)
    requires
        reference.date.wf(),
        -MAX_SHIFT_DAYS <= days <= MAX_SHIFT_DAYS,
    ensures
        shifted_by(*reference, days as int, r),
{
    match checked_add_days(reference.date, days) {
        Some(d) => Ok(ResolvedDate { date: d, offset_seconds: reference.offset_seconds }),
        None => Err(ResolveError::OutOfRange),
    }
}

} // verus!
