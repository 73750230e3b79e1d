//! Dates that recur daily, weekly, monthly or yearly.
use vstd::prelude::*;

use crate::civil::{Civil, civil_from_epoch, epoch_of, is_valid_civil, month_length};
use crate::date::{CalendarDate, add_days, epoch_fits, year_fits};
use crate::month::days_in_month;

verus! {

/// How often a date recurs.
#[derive(Debug, Clone, Copy, PartialEq, Eq, Structural)]
pub enum RecurrenceFrequency {
    Daily,
    Weekly,
    Monthly,
    Yearly,
}

/// A start date that recurs `count` times, every `interval` units of `frequency`.
#[derive(Debug, Clone, Copy, PartialEq, Eq, Structural)]
pub struct RecurrenceRule {
    start: CalendarDate,
    frequency: RecurrenceFrequency,
    interval: usize,
    count: usize,
}

/// Errors of the recurrence helpers.
#[derive(Debug, Clone, Copy, PartialEq, Eq, Structural)]
pub enum RecurrenceError {
    InvalidInterval,
    InvalidDate,
    DateOverflow,
}

impl View for RecurrenceRule {
    type V = (CalendarDate, RecurrenceFrequency, usize, usize);

    /// The rule as (start, frequency, interval, count).
    closed spec fn view(&self) -> (CalendarDate, RecurrenceFrequency, usize, usize) {
        (self.start, self.frequency, self.interval, self.count)
    }
}

/// `day`, or the last day of the month when the month is shorter.
pub open spec fn clamp_day(day: int, length: int) -> int {
    if day <= length {
        day
    } else {
        length
    }
}

/// The date `months` months after `c`, its day cut back to the length of the month;
/// `None` when its year does not fit in `i32`.
pub open spec fn months_later(c: Civil, months: int) -> Option<Civil> {
    let total = 12 * c.0 + (c.1 - 1) + months;
    let year = total / 12;
    let month = total % 12 + 1;
    if year_fits(year) {
        Some((year, month, clamp_day(c.2, month_length(year, month))))
    } else {
        None
    }
}

/// The date `years` years after `c`, its day cut back to the length of the month;
/// `None` when its year does not fit in `i32`.
pub open spec fn years_later(c: Civil, years: int) -> Option<Civil> {
    let year = c.0 + years;
    if year_fits(year) {
        Some((year, c.1, clamp_day(c.2, month_length(year, c.1))))
    } else {
        None
    }
}

/// The `index`-th occurrence (0 for the start) of a date recurring every `interval`
/// units of `frequency` from `start`; `None` when a step count or the date overflows.
pub open spec fn occurrence(
    start: Civil,
    frequency: RecurrenceFrequency,
    interval: int,
    index: int,
) -> Option<Civil> {
    let total = interval * index;
    if total > usize::MAX {
        None
    } else {
        match frequency {
            RecurrenceFrequency::Daily => {
                if total > i64::MAX {
                    None
                } else {
                    Some(civil_from_epoch(epoch_of(start) + total))
                }
            },
            RecurrenceFrequency::Weekly => {
                if 7 * total > usize::MAX || 7 * total > i64::MAX {
                    None
                } else {
                    Some(civil_from_epoch(epoch_of(start) + 7 * total))
                }
            },
            RecurrenceFrequency::Monthly => {
                if total > i64::MAX {
                    None
                } else {
                    months_later(start, total)
                }
            },
            RecurrenceFrequency::Yearly => {
                if total > i32::MAX {
                    None
                } else {
                    years_later(start, total)
                }
            },
        }
    }
}

/// Computing the `index`-th occurrence stays within `i64` and lands, by days, on a date a
/// `CalendarDate` can hold (or reports an overflow).
pub open spec fn occurrence_defined(
    start: Civil,
    frequency: RecurrenceFrequency,
    interval: int,
    index: int,
) -> bool {
    let total = interval * index;
    total > usize::MAX || match frequency {
        RecurrenceFrequency::Daily => total > i64::MAX || epoch_fits(epoch_of(start) + total),
        RecurrenceFrequency::Weekly => 7 * total > usize::MAX || 7 * total > i64::MAX
            || epoch_fits(epoch_of(start) + 7 * total),
        RecurrenceFrequency::Monthly => total > i64::MAX || 12 * start.0 + start.1 - 1 + total
            <= i64::MAX,
        RecurrenceFrequency::Yearly => true,
    }
}

/// Each of the first `count` occurrences is computed within bounds, up to the first one
/// that overflows.
pub open spec fn series_defined(
    start: Civil,
    frequency: RecurrenceFrequency,
    interval: int,
    count: int,
) -> bool {
    forall|i: int|
        0 <= i < count && (forall|j: int|
            0 <= j < i ==> #[trigger] occurrence(start, frequency, interval, j) is Some)
            ==> #[trigger] occurrence_defined(start, frequency, interval, i)
}

/// None of the first `count` occurrences overflows.
pub open spec fn series_fits(
    start: Civil,
    frequency: RecurrenceFrequency,
    interval: int,
    count: int,
) -> bool {
    forall|i: int| 0 <= i < count ==> #[trigger] occurrence(start, frequency, interval, i) is Some
}

/// `v` holds, in order, the first `count` occurrences.
pub open spec fn is_series(
    v: Seq<CalendarDate>,
    start: Civil,
    frequency: RecurrenceFrequency,
    interval: int,
    count: int,
) -> bool {
    &&& v.len() == count
    &&& forall|i: int|
        0 <= i < count ==> occurrence(start, frequency, interval, i) == Some(#[trigger] v[i]@)
}

/// What listing `count` occurrences returns: an error for a zero interval, an overflow
/// error when one of them overflows, else all of them in order.
pub open spec fn series_result(
    r: Result<Vec<CalendarDate>, RecurrenceError>,
    start: Civil,
    frequency: RecurrenceFrequency,
    interval: int,
    count: int,
) -> bool {
    if interval == 0 {
        r == Err::<Vec<CalendarDate>, RecurrenceError>(RecurrenceError::InvalidInterval)
    } else if series_fits(start, frequency, interval, count) {
        r matches Ok(v) && is_series(v@, start, frequency, interval, count)
    } else {
        r == Err::<Vec<CalendarDate>, RecurrenceError>(RecurrenceError::DateOverflow)
    }
}

/// What computing one occurrence returns.
pub open spec fn occurrence_result(
    r: Result<CalendarDate, RecurrenceError>,
    start: Civil,
    frequency: RecurrenceFrequency,
    interval: int,
    index: int,
) -> bool {
    match occurrence(start, frequency, interval, index) {
        Some(c) => r matches Ok(d) && d@ == c,
        None => r == Err::<CalendarDate, RecurrenceError>(RecurrenceError::DateOverflow),
    }
}

fn usize_to_i64(x: usize) -> (r: Option<i64>)
    ensures
        r is Some <==> x <= i64::MAX,
        r matches Some(y) ==> y == x,
{
    if (x as u64) > (i64::MAX as u64) {
        None
    } else {
        Some(x as i64)
    }
}

fn add_months_clamped(date: CalendarDate, months: usize) -> (r: Result<
    CalendarDate,
    RecurrenceError,
>)
    requires
        months > i64::MAX || 12 * date@.0 + date@.1 - 1 + months <= i64::MAX,
    ensures
        months > i64::MAX ==> r == Err::<CalendarDate, RecurrenceError>(
            RecurrenceError::DateOverflow,
        ),
        months <= i64::MAX ==> match months_later(date@, months as int) {
            Some(c) => r matches Ok(d) && d@ == c,
            None => r == Err::<CalendarDate, RecurrenceError>(RecurrenceError::DateOverflow),
        },
{
    proof {
        use_type_invariant(&date);
    }
    let months = match usize_to_i64(months) {
        Some(m) => m,
        None => return Err(RecurrenceError::DateOverflow),
    };
    let total_months = date.year() as i64 * 12 + (date.month() - 1) as i64 + months;
    let new_year = total_months.checked_div_euclid(12).unwrap();
    let new_month = total_months.checked_rem_euclid(12).unwrap() + 1;
    if new_year < i32::MIN as i64 || new_year > i32::MAX as i64 {
        return Err(RecurrenceError::DateOverflow);
    }
    let new_year = new_year as i32;
    let new_month = new_month as u8;
    let max_day = match days_in_month(new_year, new_month) {
        Ok(d) => d,
        Err(_) => return Err(RecurrenceError::InvalidDate),
    };
    let new_day = if date.day() <= max_day { date.day() } else { max_day };

    match CalendarDate::new(new_year, new_month, new_day) {
        Ok(d) => Ok(d),
        Err(_) => Err(RecurrenceError::InvalidDate),
    }
}

fn add_years_clamped(date: CalendarDate, years: usize) -> (r: Result<
    CalendarDate,
    RecurrenceError,
>)
    ensures
        years > i32::MAX ==> r == Err::<CalendarDate, RecurrenceError>(
            RecurrenceError::DateOverflow,
        ),
        years <= i32::MAX ==> match years_later(date@, years as int) {
            Some(c) => r matches Ok(d) && d@ == c,
            None => r == Err::<CalendarDate, RecurrenceError>(RecurrenceError::DateOverflow),
        },
{
    proof {
        use_type_invariant(&date);
    }
    if (years as u64) > (i32::MAX as u64) {
        return Err(RecurrenceError::DateOverflow);
    }
    let delta = years as i32;
    let new_year = match date.year().checked_add(delta) {
        Some(y) => y,
        None => return Err(RecurrenceError::DateOverflow),
    };
    let max_day = match days_in_month(new_year, date.month()) {
        Ok(d) => d,
        Err(_) => return Err(RecurrenceError::InvalidDate),
    };
    let new_day = if date.day() <= max_day { date.day() } else { max_day };

    match CalendarDate::new(new_year, date.month(), new_day) {
        Ok(d) => Ok(d),
        Err(_) => Err(RecurrenceError::InvalidDate),
    }
}

fn advance_date(
    start: CalendarDate,
    frequency: RecurrenceFrequency,
    interval: usize,
    occurrence_index: usize,
) -> (r: Result<CalendarDate, RecurrenceError>)
    requires
        occurrence_defined(start@, frequency, interval as int, occurrence_index as int),
    ensures
        occurrence_result(r, start@, frequency, interval as int, occurrence_index as int),
{
    let total = match interval.checked_mul(occurrence_index) {
        Some(t) => t,
        None => return Err(RecurrenceError::DateOverflow),
    };

    match frequency {
        RecurrenceFrequency::Daily => {
            let days = match usize_to_i64(total) {
                Some(d) => d,
                None => return Err(RecurrenceError::DateOverflow),
            };
            Ok(add_days(start, days))
        },
        RecurrenceFrequency::Weekly => {
            let days = match total.checked_mul(7) {
                Some(d) => d,
                None => return Err(RecurrenceError::DateOverflow),
            };
            let days = match usize_to_i64(days) {
                Some(d) => d,
                None => return Err(RecurrenceError::DateOverflow),
            };
            Ok(add_days(start, days))
        },
        RecurrenceFrequency::Monthly => add_months_clamped(start, total),
        RecurrenceFrequency::Yearly => add_years_clamped(start, total),
    }
}

impl RecurrenceRule {
    #[verifier::type_invariant]
    pub open spec fn inv(&self) -> bool {
        self@.2 > 0
    }

    /// A rule; an error when `interval` is 0.
    pub fn new(
        start: CalendarDate,
        frequency: RecurrenceFrequency,
        interval: usize,
        count: usize,
    ) -> (r: Result<Self, RecurrenceError>)
        ensures
            r is Err <==> interval == 0,
            r is Err ==> r == Err::<Self, RecurrenceError>(RecurrenceError::InvalidInterval),
            r matches Ok(x) ==> x@ == (start, frequency, interval, count),
    {
        if interval == 0 {
            return Err(RecurrenceError::InvalidInterval);
        }

        Ok(Self { start, frequency, interval, count })
    }

    /// The occurrences of the rule, in order.
    pub fn dates(&self) -> (r: Result<Vec<CalendarDate>, RecurrenceError>)
        requires
            series_defined(self@.0@, self@.1, self@.2 as int, self@.3 as int),
        ensures
            series_result(r, self@.0@, self@.1, self@.2 as int, self@.3 as int),
    {
        recurring_dates(self.start, self.frequency, self.interval, self.count)
    }
}

/// The date one `interval` of `frequency` after `date`; an error when `interval` is 0 or
/// the date overflows.
pub fn next_date(date: CalendarDate, frequency: RecurrenceFrequency, interval: usize) -> (r:
    Result<CalendarDate, RecurrenceError>)
    requires
        interval == 0 || occurrence_defined(date@, frequency, interval as int, 1),
    ensures
        interval == 0 ==> r == Err::<CalendarDate, RecurrenceError>(
            RecurrenceError::InvalidInterval,
        ),
        interval > 0 ==> occurrence_result(r, date@, frequency, interval as int, 1),
{
    if interval == 0 {
        return Err(RecurrenceError::InvalidInterval);
    }

    advance_date(date, frequency, interval, 1)
}

/// The first `count` occurrences of `start` recurring every `interval` units of
/// `frequency`; an error when `interval` is 0 or one of them overflows.
pub fn recurring_dates(
    start: CalendarDate,
    frequency: RecurrenceFrequency,
    interval: usize,
    count: usize,
) -> (r: Result<Vec<CalendarDate>, RecurrenceError>)
    requires
        series_defined(start@, frequency, interval as int, count as int),
    ensures
        series_result(r, start@, frequency, interval as int, count as int),
{
    if interval == 0 {
        return Err(RecurrenceError::InvalidInterval);
    }

    let mut dates: Vec<CalendarDate> = Vec::with_capacity(count);
    let mut occurrence_index: usize = 0;

    while occurrence_index < count
        invariant
            interval > 0,
            occurrence_index <= count,
            series_defined(start@, frequency, interval as int, count as int),
            dates@.len() == occurrence_index,
            forall|j: int|
                0 <= j < occurrence_index ==> occurrence(start@, frequency, interval as int, j)
                    == Some(#[trigger] dates@[j]@),
        decreases count - occurrence_index,
    {
        assert(forall|j: int|
            0 <= j < occurrence_index ==> #[trigger] occurrence(
                start@,
                frequency,
                interval as int,
                j,
            ) is Some) by {
            assert forall|j: int| 0 <= j < occurrence_index implies #[trigger] occurrence(
                start@,
                frequency,
                interval as int,
                j,
            ) is Some by {
                assert(occurrence(start@, frequency, interval as int, j) == Some(dates@[j]@));
            }
        }
        let next = match advance_date(start, frequency, interval, occurrence_index) {
            Ok(d) => d,
            Err(e) => {
                assert(!series_fits(start@, frequency, interval as int, count as int));
                return Err(e);
            },
        };
        dates.push(next);
        occurrence_index += 1;
    }
    assert forall|i: int| 0 <= i < count implies #[trigger] occurrence(
        start@,
        frequency,
        interval as int,
        i,
    ) is Some by {
        assert(occurrence(start@, frequency, interval as int, i) == Some(dates@[i]@));
    }

    Ok(dates)
}

/// The first occurrence of every recurrence is its start date.
pub proof fn lemma_first_occurrence_is_start(
    start: CalendarDate,
    frequency: RecurrenceFrequency,
    interval: int,
)
    requires
        start.inv(),
    ensures
        occurrence(start@, frequency, interval, 0) == Some(start@),
{
    crate::civil::lemma_civil_from_epoch(epoch_of(start@));
    assert(interval * 0 == 0);
}

/// Stepping a valid date forward by `months` months moves its month count by exactly
/// `months`; the day stays when the target month is long enough and otherwise becomes the
/// last day of the target month (its length taken in the target year); the step fails only
/// when the target year does not fit in `i32`.
pub proof fn lemma_months_later(c: Civil, months: int)
    requires
        is_valid_civil(c.0, c.1, c.2),
        months >= 0,
    ensures
        months_later(c, months) is Some <==> year_fits((12 * c.0 + c.1 - 1 + months) / 12),
        months_later(c, months) matches Some(d) ==> {
            &&& is_valid_civil(d.0, d.1, d.2)
            &&& 12 * d.0 + d.1 == 12 * c.0 + c.1 + months
            &&& d.2 <= c.2
            &&& d.2 == c.2 || d.2 == month_length(d.0, d.1)
            &&& c.2 <= month_length(d.0, d.1) ==> d.2 == c.2
        },
{
}

/// Stepping a valid date forward by `years` years keeps its month, moves its year by
/// exactly `years`, and keeps the day unless the month is shorter in the target year (29
/// February in a common year), where it becomes that month's last day; the step fails only
/// when the target year does not fit in `i32`.
pub proof fn lemma_years_later(c: Civil, years: int)
    requires
        is_valid_civil(c.0, c.1, c.2),
    ensures
        years_later(c, years) is Some <==> year_fits(c.0 + years),
        years_later(c, years) matches Some(d) ==> {
            &&& is_valid_civil(d.0, d.1, d.2)
            &&& d.0 == c.0 + years
            &&& d.1 == c.1
            &&& d.2 <= c.2
            &&& d.2 == c.2 || d.2 == month_length(d.0, d.1)
            &&& c.2 <= month_length(d.0, d.1) ==> d.2 == c.2
        },
{
}

/// A daily occurrence lies `interval * index` days after the start, a weekly one seven
/// times as many days, each on a valid date.
pub proof fn lemma_day_steps(start: Civil, frequency: RecurrenceFrequency, interval: int, index: int)
    ensures
        frequency == RecurrenceFrequency::Daily ==> (occurrence(start, frequency, interval, index) matches Some(d) ==> {
            &&& is_valid_civil(d.0, d.1, d.2)
            &&& epoch_of(d) == epoch_of(start) + interval * index
        }),
        frequency == RecurrenceFrequency::Weekly ==> (occurrence(start, frequency, interval, index) matches Some(d) ==> {
            &&& is_valid_civil(d.0, d.1, d.2)
            &&& epoch_of(d) == epoch_of(start) + 7 * interval * index
        }),
{
    crate::civil::lemma_civil_from_epoch(epoch_of(start) + interval * index);
    crate::civil::lemma_civil_from_epoch(epoch_of(start) + 7 * (interval * index));
    assert(7 * (interval * index) == 7 * interval * index) by (nonlinear_arith);
}

} // verus!
