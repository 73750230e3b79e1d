//! Calendar dates of the proleptic Gregorian calendar and their day arithmetic.
use vstd::prelude::*;

use crate::civil::{
    Civil, days_before_month, is_leap, ordinal_day, epoch_day, epoch_of, is_valid_civil,
    lemma_civil_from_era_day, lemma_days_before_month_values, lemma_epoch_day_march,
    lemma_epoch_order, civil_from_epoch, lemma_civil_from_epoch, precedes,
};
use crate::month::days_in_month;
use crate::year::is_leap_year;

verus! {

/// A valid date of the proleptic Gregorian calendar, with a year that fits in `i32`.
/// Dates compare in calendar order: by year, then month, then day.
#[derive(Debug, Clone, Copy, PartialEq, Eq, PartialOrd, Ord, Structural)]
pub struct CalendarDate {
    year: i32,
    month: u8,
    day: u8,
}

/// Errors when building a date.
#[derive(Debug, Clone, Copy, PartialEq, Eq, Structural)]
pub enum DateError {
    InvalidMonth,
    InvalidDay,
}

impl View for CalendarDate {
    type V = Civil;

    /// The date as (year, month, day).
    closed spec fn view(&self) -> Civil {
        (self.year as int, self.month as int, self.day as int)
    }
}

/// `year` fits in an `i32`, as the year of every `CalendarDate` does.
pub open spec fn year_fits(year: int) -> bool {
    i32::MIN <= year <= i32::MAX
}

/// Day number of the first date that can be held, 1 January of `i32::MIN`.
pub open spec fn min_epoch_day() -> int {
    epoch_day(i32::MIN as int, 1, 1)
}

/// Day number of the last date that can be held, 31 December of `i32::MAX`.
pub open spec fn max_epoch_day() -> int {
    epoch_day(i32::MAX as int, 12, 31)
}

/// The day numbered `e` (counted from 1970-01-01) can be held by a `CalendarDate`.
pub open spec fn epoch_fits(e: int) -> bool {
    min_epoch_day() <= e <= max_epoch_day()
}

impl CalendarDate {
    #[verifier::type_invariant]
    pub open spec fn inv(&self) -> bool {
        &&& is_valid_civil(self@.0, self@.1, self@.2)
        &&& year_fits(self@.0)
    }

    /// Days from 1970-01-01 to this date.
    pub open spec fn epoch(&self) -> int {
        epoch_of(self@)
    }

    /// Builds the date; the month must be in 1..=12 and the day in that month.
    pub fn new(year: i32, month: u8, day: u8) -> (r: Result<Self, DateError>)
        ensures
            r is Ok <==> is_valid_civil(year as int, month as int, day as int),
            r matches Ok(d) ==> d@ == (year as int, month as int, day as int),
            r == Err::<Self, DateError>(DateError::InvalidMonth) <==> !(1 <= month <= 12),
            r == Err::<Self, DateError>(DateError::InvalidDay) <==> 1 <= month <= 12
                && !is_valid_civil(year as int, month as int, day as int),
    {
        let max_day = match days_in_month(year, month) {
            Ok(n) => n,
            Err(_) => return Err(DateError::InvalidMonth),
        };
        if !(1 <= day && day <= max_day) {
            return Err(DateError::InvalidDay);
        }
        Ok(Self { year, month, day })
    }

    pub fn year(&self) -> (r: i32)
        ensures
            r == self@.0,
    {
        self.year
    }

    pub fn month(&self) -> (r: u8)
        ensures
            r == self@.1,
    {
        self.month
    }

    pub fn day(&self) -> (r: u8)
        ensures
            r == self@.2,
    {
        self.day
    }

    /// Whether the date is valid; it always is.
    pub fn is_valid(&self) -> (r: bool)
        ensures
            r == is_valid_civil(self@.0, self@.1, self@.2),
            r,
    {
        proof {
            use_type_invariant(self);
        }
        is_valid_date(self.year, self.month, self.day)
    }

    /// The 1-based ordinal of the date within its year.
    pub fn day_of_year(&self) -> (r: u16)
        ensures
            r == ordinal_day(self@.0, self@.1, self@.2),
    {
        proof {
            use_type_invariant(self);
        }
        day_of_year_unchecked(self.year, self.month, self.day)
    }
}

/// Two dates are equal exactly when they name the same day.
pub proof fn lemma_view_injective(a: CalendarDate, b: CalendarDate)
    ensures
        a@ == b@ <==> a == b,
{
}

/// A date's day number lies between those of the first and last date that can be held.
pub proof fn lemma_date_epoch_fits(d: CalendarDate)
    requires
        d.inv(),
    ensures
        epoch_fits(d.epoch()),
{
    lemma_epoch_order((i32::MIN as int, 1, 1), d@);
    lemma_epoch_order(d@, (i32::MAX as int, 12, 31));
}

/// The day numbers of the first and last date that can be held.
pub proof fn lemma_epoch_bounds()
    ensures
        -784_353_015_833 == min_epoch_day(),
        max_epoch_day() == 784_351_576_776,
{
    lemma_days_before_month_values(i32::MIN as int);
    lemma_days_before_month_values(i32::MAX as int);
}

/// Whether `year`, `month` and `day` name a date.
pub fn is_valid_date(year: i32, month: u8, day: u8) -> (r: bool)
    ensures
        r == is_valid_civil(year as int, month as int, day as int),
{
    match days_in_month(year, month) {
        Ok(days) => 1 <= day && day <= days,
        Err(_) => false,
    }
}

/// Days of a common (non-leap) year before the first day of `month`.
fn days_before_month_common(month: u8) -> (r: u16)
    requires
        1 <= month <= 12,
    ensures
        forall|y: int| !is_leap(y) ==> r == #[trigger] days_before_month(y, month as int),
{
    assert forall|y: int| !is_leap(y) implies days_before_month(y, month as int) == if month
        == 1 {
        0int
    } else if month == 2 {
        31
    } else if month == 3 {
        59
    } else if month == 4 {
        90
    } else if month == 5 {
        120
    } else if month == 6 {
        151
    } else if month == 7 {
        181
    } else if month == 8 {
        212
    } else if month == 9 {
        243
    } else if month == 10 {
        273
    } else if month == 11 {
        304
    } else {
        334
    } by {
        lemma_days_before_month_values(y);
    }
    match month {
        1 => 0,
        2 => 31,
        3 => 59,
        4 => 90,
        5 => 120,
        6 => 151,
        7 => 181,
        8 => 212,
        9 => 243,
        10 => 273,
        11 => 304,
        _ => 334,
    }
}

fn day_of_year_unchecked(year: i32, month: u8, day: u8) -> (r: u16)
    requires
        is_valid_civil(year as int, month as int, day as int),
    ensures
        r == ordinal_day(year as int, month as int, day as int),
{
    proof {
        lemma_days_before_month_values(year as int);
        assert(!is_leap(2023));
        lemma_days_before_month_values(2023);
    }
    let mut ordinal = days_before_month_common(month) + day as u16;
    if is_leap_year(year) && month > 2 {
        ordinal += 1;
    }
    ordinal
}

/// The 1-based ordinal of a date within its year; an error when the date is invalid.
pub fn day_of_year(year: i32, month: u8, day: u8) -> (r: Result<u16, DateError>)
    ensures
        r is Ok <==> is_valid_civil(year as int, month as int, day as int),
        r matches Ok(n) ==> n == ordinal_day(year as int, month as int, day as int),
        r == Err::<u16, DateError>(DateError::InvalidMonth) <==> !(1 <= month <= 12),
        r == Err::<u16, DateError>(DateError::InvalidDay) <==> 1 <= month <= 12
            && !is_valid_civil(year as int, month as int, day as int),
{
    match CalendarDate::new(year, month, day) {
        Ok(d) => Ok(d.day_of_year()),
        Err(e) => Err(e),
    }
}

fn days_from_civil(year: i32, month: u8, day: u8) -> (r: i64)
    requires
        is_valid_civil(year as int, month as int, day as int),
    ensures
        r == epoch_day(year as int, month as int, day as int),
{
    proof {
        lemma_epoch_day_march(year as int, month as int, day as int);
    }
    let year = year as i64 - if month <= 2 { 1 } else { 0 };
    let era = if year >= 0 { year } else { year - 399 } / 400;
    let year_of_era = year - era * 400;
    let month_index = month as i64 + if month > 2 { -3 } else { 9 };
    let day_of_year = (153 * month_index + 2) / 5 + day as i64 - 1;
    let day_of_era = year_of_era * 365 + year_of_era / 4 - year_of_era / 100 + day_of_year;

    assert(era == year / 400);
    assert(year_of_era == year % 400);
    era * 146_097 + day_of_era - 719_468
}

fn civil_from_days(days: i64) -> (r: CalendarDate)
    requires
        epoch_fits(days as int),
    ensures
        r.epoch() == days,
{
    proof {
        lemma_epoch_bounds();
    }
    let days = days + 719_468;
    let era = if days >= 0 { days } else { days - 146_096 } / 146_097;
    let day_of_era = days - era * 146_097;
    assert(era == days / 146_097);
    let year_of_era = (day_of_era - day_of_era / 1_460 + day_of_era / 36_524 - day_of_era / 146_096)
        / 365;
    let year = year_of_era + era * 400;
    let day_of_year = day_of_era - (365 * year_of_era + year_of_era / 4 - year_of_era / 100);
    let month_index = (5 * day_of_year + 2) / 153;
    let day = day_of_year - (153 * month_index + 2) / 5 + 1;
    let month = month_index + if month_index < 10 { 3 } else { -9 };
    let year = year + if month <= 2 { 1 } else { 0 };
    proof {
        lemma_civil_from_era_day(era as int, day_of_era as int);
        let c = (year as int, month as int, day as int);
        if year > i32::MAX {
            lemma_epoch_order((i32::MAX as int, 12, 31), c);
        }
        if year < i32::MIN {
            lemma_epoch_order(c, (i32::MIN as int, 1, 1));
        }
    }
    CalendarDate { year: year as i32, month: month as u8, day: day as u8 }
}

/// Number of days from `start` to `end` (negative when `end` comes first).
pub fn days_between(start: CalendarDate, end: CalendarDate) -> (r: i64)
    ensures
        r == end.epoch() - start.epoch(),
{
    proof {
        use_type_invariant(&start);
        use_type_invariant(&end);
        lemma_date_epoch_fits(start);
        lemma_date_epoch_fits(end);
        lemma_epoch_bounds();
    }
    days_from_civil(end.year, end.month, end.day) - days_from_civil(
        start.year,
        start.month,
        start.day,
    )
}

/// The date `days` days after `date` (before it when `days` is negative); the result must
/// have a year that fits in `i32`.
pub fn add_days(date: CalendarDate, days: i64) -> (r: CalendarDate)
    requires
        epoch_fits(date.epoch() + days),
    ensures
        r.epoch() == date.epoch() + days,
        r@ == civil_from_epoch(date.epoch() + days),
{
    proof {
        use_type_invariant(&date);
        lemma_date_epoch_fits(date);
        lemma_epoch_bounds();
    }
    let r = civil_from_days(days_from_civil(date.year, date.month, date.day) + days);
    proof {
        use_type_invariant(&r);
        lemma_civil_from_epoch(date.epoch() + days);
    }
    r
}

/// Whether `a` comes strictly before `b` in calendar order.
pub(crate) fn comes_before(a: &CalendarDate, b: &CalendarDate) -> (r: bool)
    ensures
        r == precedes(a@, b@),
{
    a.year < b.year || (a.year == b.year && (a.month < b.month || (a.month == b.month && a.day
        < b.day)))
}

/// Calendar order of dates is the order of their day numbers, and dates with the same day
/// number are equal.
pub proof fn lemma_date_order(a: CalendarDate, b: CalendarDate)
    requires
        a.inv(),
        b.inv(),
    ensures
        precedes(a@, b@) <==> a.epoch() < b.epoch(),
        a == b <==> a.epoch() == b.epoch(),
{
    lemma_epoch_order(a@, b@);
}

/// Moving a date by `n` days and then by `-n` days gives the date back.
pub proof fn lemma_shift_undone(a: CalendarDate, b: CalendarDate, c: CalendarDate, n: int)
    requires
        a.inv(),
        c.inv(),
        b.epoch() == a.epoch() + n,
        c.epoch() == b.epoch() - n,
    ensures
        c == a,
{
    lemma_epoch_order(a@, c@);
}

} // verus!
