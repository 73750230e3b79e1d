//! Inclusive ranges of calendar dates.
use vstd::prelude::*;

use crate::civil::{Civil, civil_from_epoch, epoch_of, is_valid_civil, lemma_epoch_order, precedes};
use crate::date::{
    CalendarDate, add_days, comes_before, days_between, lemma_date_epoch_fits, lemma_date_order,
};

verus! {

/// The dates from `start` to `end`, both included; `start` never comes after `end`.
#[derive(Debug, Clone, Copy, PartialEq, Eq, Structural)]
pub struct DateRange {
    start: CalendarDate,
    end: CalendarDate,
}

/// Errors of the range helpers.
#[derive(Debug, Clone, Copy, PartialEq, Eq, Structural)]
pub enum DateRangeError {
    InvalidRange,
}

impl View for DateRange {
    type V = (CalendarDate, CalendarDate);

    /// The range as (start, end).
    closed spec fn view(&self) -> (CalendarDate, CalendarDate) {
        (self.start, self.end)
    }
}

/// The date `c` lies between `start` and `end`, both included.
pub open spec fn between(start: CalendarDate, end: CalendarDate, c: Civil) -> bool {
    !precedes(c, start@) && !precedes(end@, c)
}

/// The later of two dates.
pub open spec fn later_of(a: CalendarDate, b: CalendarDate) -> CalendarDate {
    if precedes(a@, b@) { b } else { a }
}

/// The earlier of two dates.
pub open spec fn earlier_of(a: CalendarDate, b: CalendarDate) -> CalendarDate {
    if precedes(b@, a@) { b } else { a }
}

/// Two ranges share at least one date.
pub open spec fn ranges_meet(a: DateRange, b: DateRange) -> bool {
    !precedes(b@.1@, a@.0@) && !precedes(a@.1@, b@.0@)
}

impl DateRange {
    #[verifier::type_invariant]
    pub open spec fn inv(&self) -> bool {
        !precedes(self@.1@, self@.0@)
    }

    /// The date `c` is in the range.
    pub open spec fn holds(&self, c: Civil) -> bool {
        between(self@.0, self@.1, c)
    }

    /// The range from `start` to `end`; an error when `start` comes after `end`.
    pub fn new(start: CalendarDate, end: CalendarDate) -> (r: Result<Self, DateRangeError>)
        ensures
            r is Err <==> precedes(end@, start@),
            r matches Ok(x) ==> x@ == (start, end),
            r is Err ==> r == Err::<Self, DateRangeError>(DateRangeError::InvalidRange),
    {
        if comes_before(&end, &start) {
            return Err(DateRangeError::InvalidRange);
        }
        Ok(Self { start, end })
    }

    pub fn start(&self) -> (r: CalendarDate)
        ensures
            r == self@.0,
    {
        self.start
    }

    pub fn end(&self) -> (r: CalendarDate)
        ensures
            r == self@.1,
    {
        self.end
    }

    /// Whether `date` is in the range.
    pub fn contains(&self, date: CalendarDate) -> (r: bool)
        ensures
            r == self.holds(date@),
    {
        !comes_before(&date, &self.start) && !comes_before(&self.end, &date)
    }

    /// Number of days from the start to the end; never negative.
    pub fn duration_days(&self) -> (r: i64)
        ensures
            r == self@.1.epoch() - self@.0.epoch(),
            r >= 0,
    {
        proof {
            use_type_invariant(self);
            use_type_invariant(&self.start);
            use_type_invariant(&self.end);
            lemma_date_order(self.start, self.end);
        }
        days_between(self.start, self.end)
    }
}

/// Every date from `start` to `end`, in order; an error when `start` comes after `end`.
pub fn date_range(start: CalendarDate, end: CalendarDate) -> (r: Result<
    Vec<CalendarDate>,
    DateRangeError,
>)
    ensures
        r is Err <==> precedes(end@, start@),
        r is Err ==> r == Err::<Vec<CalendarDate>, DateRangeError>(DateRangeError::InvalidRange),
        r matches Ok(v) ==> {
            &&& v@.len() == end.epoch() - start.epoch() + 1
            &&& forall|i: int| 0 <= i < v@.len() ==> #[trigger] v@[i]@ == civil_from_epoch(start.epoch() + i)
        },
{
    let range = DateRange::new(start, end)?;
    let duration = range.duration_days();
    proof {
        use_type_invariant(&start);
        use_type_invariant(&end);
        lemma_date_epoch_fits(start);
        lemma_date_epoch_fits(end);
        crate::date::lemma_epoch_bounds();
    }
    let mut dates: Vec<CalendarDate> = Vec::new();
    let mut offset: i64 = 0;
    while offset <= duration
        invariant
            0 <= offset <= duration + 1,
            duration == end.epoch() - start.epoch(),
            crate::date::epoch_fits(start.epoch()),
            crate::date::epoch_fits(end.epoch()),
            duration < 2_000_000_000_000,
            dates@.len() == offset,
            forall|i: int| 0 <= i < offset ==> #[trigger] dates@[i]@ == civil_from_epoch(start.epoch() + i),
        decreases duration + 1 - offset,
    {
        dates.push(add_days(start, offset));
        offset += 1;
    }
    Ok(dates)
}

/// Whether the two ranges share at least one date.
pub fn overlaps(a: DateRange, b: DateRange) -> (r: bool)
    ensures
        r == ranges_meet(a, b),
{
    !comes_before(&b.end, &a.start) && !comes_before(&a.end, &b.start)
}

/// The dates that lie in both ranges, as a range; `None` when they share no date.
pub fn intersection(a: DateRange, b: DateRange) -> (r: Option<DateRange>)
    ensures
        r is Some <==> ranges_meet(a, b),
        r matches Some(x) ==> x@ == (later_of(a@.0, b@.0), earlier_of(a@.1, b@.1)),
        r matches Some(x) ==> forall|c: Civil| x.holds(c) <==> a.holds(c) && b.holds(c),
        r is None ==> forall|c: Civil| !(a.holds(c) && b.holds(c)),
{
    proof {
        use_type_invariant(&a);
        use_type_invariant(&b);
    }
    if !overlaps(a, b) {
        return None;
    }
    let start = if comes_before(&a.start, &b.start) { b.start } else { a.start };
    let end = if comes_before(&b.end, &a.end) { b.end } else { a.end };
    match DateRange::new(start, end) {
        Ok(x) => Some(x),
        Err(_) => None,
    }
}

/// A valid date is in a range exactly when its day number lies between those of the
/// range's start and end, both included.
pub proof fn lemma_range_holds(x: DateRange, c: Civil)
    requires
        x@.0.inv(),
        x@.1.inv(),
        is_valid_civil(c.0, c.1, c.2),
    ensures
        x.holds(c) <==> x@.0.epoch() <= epoch_of(c) <= x@.1.epoch(),
{
    lemma_epoch_order(c, x@.0@);
    lemma_epoch_order(x@.1@, c);
}

} // verus!
