//! Business days: Monday through Friday, with no holiday calendar.
use vstd::prelude::*;

use crate::civil::{civil_from_epoch, lemma_civil_from_epoch, precedes};
use crate::date::{
    CalendarDate, add_days, epoch_fits, lemma_date_epoch_fits, lemma_date_order, lemma_epoch_bounds,
};
use crate::weekday::{weekday_for_date, weekday_index};

verus! {

/// How a date that is not a business day is moved to one.
#[derive(Debug, Clone, Copy, PartialEq, Eq, Structural)]
pub enum BusinessDayConvention {
    /// The next business day.
    Following,
    /// The previous business day.
    Preceding,
    /// The next business day, unless it falls in another month; then the previous one.
    ModifiedFollowing,
}

/// Errors of the business-day helpers.
#[derive(Debug, Clone, Copy, PartialEq, Eq, Structural)]
pub enum BusinessDayError {
    InvalidRange,
}

/// The day numbered `e` (from 1970-01-01) falls on Monday to Friday.
pub open spec fn is_business_epoch(e: int) -> bool {
    weekday_index(e) < 5
}

/// The first business day after day `e`.
pub open spec fn next_business_epoch(e: int) -> int {
    let w = weekday_index(e);
    if w == 4 {
        e + 3
    } else if w == 5 {
        e + 2
    } else {
        e + 1
    }
}

/// The last business day before day `e`.
pub open spec fn previous_business_epoch(e: int) -> int {
    let w = weekday_index(e);
    if w == 0 {
        e - 3
    } else if w == 6 {
        e - 2
    } else {
        e - 1
    }
}

/// The `n`-th business day after day `e` (day `e` itself when `n` is 0).
pub open spec fn business_after(e: int, n: nat) -> int
    decreases n,
{
    if n == 0 {
        e
    } else {
        business_after(next_business_epoch(e), (n - 1) as nat)
    }
}

/// The `n`-th business day before day `e` (day `e` itself when `n` is 0).
pub open spec fn business_before(e: int, n: nat) -> int
    decreases n,
{
    if n == 0 {
        e
    } else {
        business_before(previous_business_epoch(e), (n - 1) as nat)
    }
}

/// The day reached from day `e` by moving `days` business days, forward when `days` is
/// positive and backward when it is negative.
pub open spec fn business_target(e: int, days: int) -> int {
    if days >= 0 {
        business_after(e, days as nat)
    } else {
        business_before(e, (-days) as nat)
    }
}

/// Number of business days among the days `a` to `b`, both included.
pub open spec fn business_count(a: int, b: int) -> nat
    decreases b - a + 1,
{
    if b < a {
        0
    } else {
        business_count(a, b - 1) + if is_business_epoch(b) { 1nat } else { 0nat }
    }
}

/// The month of the day numbered `e`.
pub open spec fn month_of_epoch(e: int) -> int {
    civil_from_epoch(e).1
}

/// The day to which `convention` moves day `e`.
pub open spec fn adjusted_epoch(e: int, convention: BusinessDayConvention) -> int {
    if is_business_epoch(e) {
        e
    } else {
        match convention {
            BusinessDayConvention::Following => next_business_epoch(e),
            BusinessDayConvention::Preceding => previous_business_epoch(e),
            BusinessDayConvention::ModifiedFollowing => {
                if month_of_epoch(next_business_epoch(e)) != month_of_epoch(e) {
                    previous_business_epoch(e)
                } else {
                    next_business_epoch(e)
                }
            },
        }
    }
}

/// Every date that adjusting day `e` by `convention` looks at can be held.
pub open spec fn adjust_fits(e: int, convention: BusinessDayConvention) -> bool {
    is_business_epoch(e) || match convention {
        BusinessDayConvention::Following => epoch_fits(next_business_epoch(e)),
        BusinessDayConvention::Preceding => epoch_fits(previous_business_epoch(e)),
        BusinessDayConvention::ModifiedFollowing => {
            &&& epoch_fits(next_business_epoch(e))
            &&& month_of_epoch(next_business_epoch(e)) != month_of_epoch(e) ==> epoch_fits(
                previous_business_epoch(e),
            )
        },
    }
}

/// The next business day is the first business day after `e`, at most three days later.
pub proof fn lemma_next_business(e: int)
    ensures
        e < next_business_epoch(e) <= e + 3,
        is_business_epoch(next_business_epoch(e)),
        forall|k: int| e < k < next_business_epoch(e) ==> !#[trigger] is_business_epoch(k),
{
}

/// The previous business day is the last business day before `e`, at most three days
/// earlier.
pub proof fn lemma_previous_business(e: int)
    ensures
        e - 3 <= previous_business_epoch(e) < e,
        is_business_epoch(previous_business_epoch(e)),
        forall|k: int| previous_business_epoch(e) < k < e ==> !#[trigger] is_business_epoch(k),
{
}

/// Moving `n` business days forward goes at least `n` days forward.
pub proof fn lemma_business_after_bounds(e: int, n: nat)
    ensures
        e + n <= business_after(e, n),
    decreases n,
{
    if n > 0 {
        lemma_business_after_bounds(next_business_epoch(e), (n - 1) as nat);
    }
}

/// Moving `n` business days backward goes at least `n` days backward.
pub proof fn lemma_business_before_bounds(e: int, n: nat)
    ensures
        business_before(e, n) <= e - n,
    decreases n,
{
    if n > 0 {
        lemma_business_before_bounds(previous_business_epoch(e), (n - 1) as nat);
    }
}

proof fn lemma_business_after_step(c: int, r: nat)
    requires
        r > 0,
    ensures
        is_business_epoch(c + 1) ==> business_after(c, r) == business_after(c + 1, (r - 1) as nat),
        !is_business_epoch(c + 1) ==> business_after(c, r) == business_after(c + 1, r),
{
    assert(business_after(c, r) == business_after(next_business_epoch(c), (r - 1) as nat));
    if !is_business_epoch(c + 1) {
        assert(next_business_epoch(c) == next_business_epoch(c + 1));
        assert(business_after(c + 1, r) == business_after(
            next_business_epoch(c + 1),
            (r - 1) as nat,
        ));
    }
}

proof fn lemma_business_before_step(c: int, r: nat)
    requires
        r > 0,
    ensures
        is_business_epoch(c - 1) ==> business_before(c, r) == business_before(c - 1, (r - 1) as nat),
        !is_business_epoch(c - 1) ==> business_before(c, r) == business_before(c - 1, r),
{
    assert(business_before(c, r) == business_before(previous_business_epoch(c), (r - 1) as nat));
    if !is_business_epoch(c - 1) {
        assert(previous_business_epoch(c) == previous_business_epoch(c - 1));
        assert(business_before(c - 1, r) == business_before(
            previous_business_epoch(c - 1),
            (r - 1) as nat,
        ));
    }
}

/// Whether `date` falls on Monday to Friday.
pub fn is_business_day(date: CalendarDate) -> (r: bool)
    ensures
        r == is_business_epoch(date.epoch()),
{
    proof {
        use_type_invariant(&date);
    }
    weekday_for_date(date.year(), date.month(), date.day()).unwrap().is_weekday()
}

/// The first business day after `date`; that day must be one a `CalendarDate` can hold.
pub fn next_business_day(date: CalendarDate) -> (r: CalendarDate)
    requires
        epoch_fits(next_business_epoch(date.epoch())),
    ensures
        r.epoch() == next_business_epoch(date.epoch()),
{
    let ghost e = date.epoch();
    proof {
        use_type_invariant(&date);
        lemma_date_epoch_fits(date);
        lemma_next_business(e);
    }
    let mut current = add_days(date, 1);

    while !is_business_day(current)
        invariant
            e < current.epoch() <= next_business_epoch(e),
            epoch_fits(next_business_epoch(e)),
            epoch_fits(e),
            forall|k: int| e < k < next_business_epoch(e) ==> !#[trigger] is_business_epoch(k),
            is_business_epoch(next_business_epoch(e)),
        decreases next_business_epoch(e) - current.epoch(),
    {
        current = add_days(current, 1);
    }

    current
}

/// The last business day before `date`; that day must be one a `CalendarDate` can hold.
pub fn previous_business_day(date: CalendarDate) -> (r: CalendarDate)
    requires
        epoch_fits(previous_business_epoch(date.epoch())),
    ensures
        r.epoch() == previous_business_epoch(date.epoch()),
{
    let ghost e = date.epoch();
    proof {
        use_type_invariant(&date);
        lemma_date_epoch_fits(date);
        lemma_previous_business(e);
    }
    let mut current = add_days(date, -1);

    while !is_business_day(current)
        invariant
            previous_business_epoch(e) <= current.epoch() < e,
            epoch_fits(previous_business_epoch(e)),
            epoch_fits(e),
            forall|k: int| previous_business_epoch(e) < k < e ==> !#[trigger] is_business_epoch(k),
            is_business_epoch(previous_business_epoch(e)),
        decreases current.epoch() - previous_business_epoch(e),
    {
        current = add_days(current, -1);
    }

    current
}

/// The date reached from `date` by moving `days` business days (backward when negative);
/// that date must be one a `CalendarDate` can hold.
pub fn add_business_days(date: CalendarDate, days: i64) -> (r: CalendarDate)
    requires
        epoch_fits(business_target(date.epoch(), days as int)),
    ensures
        r.epoch() == business_target(date.epoch(), days as int),
{
    if days == 0 {
        return date;
    }
    let ghost e = date.epoch();
    let ghost target = business_target(e, days as int);
    proof {
        use_type_invariant(&date);
        lemma_date_epoch_fits(date);
        lemma_epoch_bounds();
        if days > 0 {
            lemma_business_after_bounds(e, days as nat);
        } else {
            lemma_business_before_bounds(e, (-days) as nat);
        }
    }

    let mut current = date;
    let mut remaining = if days < 0 { -days } else { days };
    let step: i64 = if days > 0 { 1 } else { -1 };

    while remaining > 0
        invariant
            step == 1 || step == -1,
            step == 1 <==> days > 0,
            0 <= remaining,
            epoch_fits(target),
            epoch_fits(e),
            step == 1 ==> e <= current.epoch() && target == business_after(current.epoch(), remaining as nat),
            step == -1 ==> current.epoch() <= e && target == business_before(current.epoch(), remaining as nat),
        decreases if step == 1 { target - current.epoch() } else { current.epoch() - target },
    {
        proof {
            if step == 1 {
                lemma_business_after_step(current.epoch(), remaining as nat);
                lemma_business_after_bounds(current.epoch() + 1, (remaining - 1) as nat);
                lemma_business_after_bounds(current.epoch() + 1, remaining as nat);
            } else {
                lemma_business_before_step(current.epoch(), remaining as nat);
                lemma_business_before_bounds(current.epoch() - 1, (remaining - 1) as nat);
                lemma_business_before_bounds(current.epoch() - 1, remaining as nat);
            }
        }
        current = add_days(current, step);

        if is_business_day(current) {
            remaining -= 1;
        }
    }

    current
}

/// Number of business days from `start` to `end`, both included; an error when `start`
/// comes after `end`. The count must fit in `usize`.
pub fn business_days_between(start: CalendarDate, end: CalendarDate) -> (r: Result<
    usize,
    BusinessDayError,
>)
    requires
        !precedes(end@, start@) ==> business_count(start.epoch(), end.epoch()) <= usize::MAX,
    ensures
        r is Err <==> precedes(end@, start@),
        r matches Ok(n) ==> n == business_count(start.epoch(), end.epoch()),
        r is Err ==> r == Err::<usize, BusinessDayError>(BusinessDayError::InvalidRange),
{
    if crate::date::comes_before(&end, &start) {
        return Err(BusinessDayError::InvalidRange);
    }
    proof {
        use_type_invariant(&start);
        use_type_invariant(&end);
        lemma_date_order(start, end);
        lemma_date_epoch_fits(start);
        lemma_date_epoch_fits(end);
    }

    let mut count: usize = 0;
    let mut current = start;

    loop
        invariant_except_break
            count == business_count(start.epoch(), current.epoch() - 1),
        invariant
            start.epoch() <= current.epoch() <= end.epoch(),
            end.inv(),
            epoch_fits(start.epoch()),
            epoch_fits(end.epoch()),
            business_count(start.epoch(), end.epoch()) <= usize::MAX,
        ensures
            count == business_count(start.epoch(), end.epoch()),
        decreases end.epoch() - current.epoch(),
    {
        proof {
            use_type_invariant(&current);
            lemma_business_count_grows(start.epoch(), current.epoch(), end.epoch());
        }
        if is_business_day(current) {
            count += 1;
        }

        if current == end {
            break;
        }
        proof {
            lemma_date_order(current, end);
        }

        current = add_days(current, 1);
    }

    Ok(count)
}

proof fn lemma_business_count_grows(a: int, b: int, c: int)
    requires
        a <= b <= c,
    ensures
        business_count(a, b) <= business_count(a, c),
    decreases c - b,
{
    if b < c {
        lemma_business_count_grows(a, b, c - 1);
    }
}

/// `date` itself when it is a business day, else the business day `convention` picks;
/// every date the convention looks at must be one a `CalendarDate` can hold.
pub fn adjust_business_day(date: CalendarDate, convention: BusinessDayConvention) -> (r:
    CalendarDate)
    requires
        adjust_fits(date.epoch(), convention),
    ensures
        r.epoch() == adjusted_epoch(date.epoch(), convention),
{
    if is_business_day(date) {
        return date;
    }
    proof {
        use_type_invariant(&date);
        lemma_civil_from_epoch(date.epoch());
    }

    match convention {
        BusinessDayConvention::Following => next_business_day(date),
        BusinessDayConvention::Preceding => previous_business_day(date),
        BusinessDayConvention::ModifiedFollowing => {
            let following = next_business_day(date);
            proof {
                use_type_invariant(&following);
                lemma_civil_from_epoch(following.epoch());
            }

            if following.month() != date.month() {
                previous_business_day(date)
            } else {
                following
            }
        },
    }
}

/// Moving a nonzero number of business days always lands on a business day.
pub proof fn lemma_business_target_is_business(e: int, days: int)
    requires
        days != 0,
    ensures
        is_business_epoch(business_target(e, days)),
{
    if days > 0 {
        lemma_business_after_lands(e, days as nat);
    } else {
        lemma_business_before_lands(e, (-days) as nat);
    }
}

proof fn lemma_business_after_lands(e: int, n: nat)
    requires
        n > 0,
    ensures
        is_business_epoch(business_after(e, n)),
    decreases n,
{
    if n > 1 {
        lemma_business_after_lands(next_business_epoch(e), (n - 1) as nat);
    } else {
        assert(business_after(next_business_epoch(e), 0) == next_business_epoch(e));
        lemma_next_business(e);
    }
}

proof fn lemma_business_before_lands(e: int, n: nat)
    requires
        n > 0,
    ensures
        is_business_epoch(business_before(e, n)),
    decreases n,
{
    if n > 1 {
        lemma_business_before_lands(previous_business_epoch(e), (n - 1) as nat);
    } else {
        assert(business_before(previous_business_epoch(e), 0) == previous_business_epoch(e));
        lemma_previous_business(e);
    }
}

/// Adjusting a day by any convention gives a business day, and leaves a business day
/// unchanged.
pub proof fn lemma_adjusted_is_business(e: int, convention: BusinessDayConvention)
    ensures
        is_business_epoch(adjusted_epoch(e, convention)),
        is_business_epoch(e) ==> adjusted_epoch(e, convention) == e,
{
}

/// The business days among the days `a` to `b` are at most the days in that span.
pub proof fn lemma_business_count_bounded(a: int, b: int)
    requires
        a <= b + 1,
    ensures
        business_count(a, b) <= b - a + 1,
    decreases b - a + 1,
{
    if a <= b {
        lemma_business_count_bounded(a, b - 1);
    }
}

/// A business day stays where it is under every convention; a weekend day moves to the
/// first Monday-to-Friday day after it under Following and to the last one before it under
/// Preceding.
pub proof fn lemma_following_and_preceding(e: int, convention: BusinessDayConvention)
    ensures
        weekday_index(e) < 5 ==> adjusted_epoch(e, convention) == e,
        weekday_index(e) >= 5 ==> {
            let f = adjusted_epoch(e, BusinessDayConvention::Following);
            let p = adjusted_epoch(e, BusinessDayConvention::Preceding);
            &&& e < f && weekday_index(f) < 5
            &&& forall|k: int| e < k < f ==> weekday_index(k) >= 5
            &&& p < e && weekday_index(p) < 5
            &&& forall|k: int| p < k < e ==> weekday_index(k) >= 5
        },
{
}

/// Modified Following moves a weekend day to the following business day, unless that day
/// lies in another month; then it moves it to the preceding business day. So the result
/// stays in the day's month whenever the preceding business day is in that month.
pub proof fn lemma_modified_following(e: int)
    requires
        weekday_index(e) >= 5,
    ensures
        ({
            let r = adjusted_epoch(e, BusinessDayConvention::ModifiedFollowing);
            let following = adjusted_epoch(e, BusinessDayConvention::Following);
            let preceding = adjusted_epoch(e, BusinessDayConvention::Preceding);
            &&& weekday_index(r) < 5
            &&& r == following || r == preceding
            &&& month_of_epoch(following) == month_of_epoch(e) ==> r == following
            &&& month_of_epoch(following) != month_of_epoch(e) ==> r == preceding
            &&& month_of_epoch(preceding) == month_of_epoch(e) ==> month_of_epoch(r)
                == month_of_epoch(e)
        }),
{
}

/// Counting business days adds one for each Monday-to-Friday day of the span, whatever
/// its month or year.
pub proof fn lemma_business_count_step(a: int, b: int)
    requires
        a <= b,
    ensures
        business_count(a, b) == business_count(a, b - 1) + if weekday_index(b) < 5 {
            1int
        } else {
            0int
        },
{
}

/// Any seven consecutive days hold exactly five business days.
pub proof fn lemma_business_count_week(a: int, b: int)
    requires
        a <= b + 1,
    ensures
        business_count(a, b + 7) == business_count(a, b) + 5,
        business_count(a, a + 6) == 5,
{
    lemma_seven_days(a, b);
    lemma_seven_days(a, a - 1);
    assert(business_count(a, a - 1) == 0);
}

spec fn business_indicator(e: int) -> int {
    if weekday_index(e) < 5 {
        1
    } else {
        0
    }
}

proof fn lemma_seven_days(a: int, b: int)
    requires
        a <= b + 1,
    ensures
        business_count(a, b + 7) == business_count(a, b) + 5,
{
    lemma_business_count_step(a, b + 1);
    lemma_business_count_step(a, b + 2);
    lemma_business_count_step(a, b + 3);
    lemma_business_count_step(a, b + 4);
    lemma_business_count_step(a, b + 5);
    lemma_business_count_step(a, b + 6);
    lemma_business_count_step(a, b + 7);
    lemma_week_indicators(b);
}

proof fn lemma_week_indicators(x: int)
    ensures
        business_indicator(x + 1) + business_indicator(x + 2) + business_indicator(x + 3)
            + business_indicator(x + 4) + business_indicator(x + 5) + business_indicator(x + 6)
            + business_indicator(x + 7) == 5,
{
    let r = x % 7;
    let q = x / 7;
    assert(x == 7 * q + r);
    assert(weekday_index(x + 1) == (r + 4) % 7);
    assert(weekday_index(x + 2) == (r + 5) % 7);
    assert(weekday_index(x + 3) == (r + 6) % 7);
    assert(weekday_index(x + 4) == (r + 7) % 7);
    assert(weekday_index(x + 5) == (r + 8) % 7);
    assert(weekday_index(x + 6) == (r + 9) % 7);
    assert(weekday_index(x + 7) == (r + 10) % 7);
}

/// Counting over a span is counting over its two parts.
pub proof fn lemma_business_count_split(a: int, b: int, c: int)
    requires
        a - 1 <= b <= c,
    ensures
        business_count(a, c) == business_count(a, b) + business_count(b + 1, c),
    decreases c - b,
{
    if b < c {
        lemma_business_count_split(a, b, c - 1);
    }
}

/// Moving `n` business days forward from day `e` passes exactly `n` Monday-to-Friday days
/// and stops on the last of them.
pub proof fn lemma_business_after_count(e: int, n: nat)
    ensures
        e <= business_after(e, n),
        business_count(e + 1, business_after(e, n)) == n,
        n > 0 ==> weekday_index(business_after(e, n)) < 5,
    decreases n,
{
    if n > 0 {
        let f = next_business_epoch(e);
        lemma_next_business(e);
        lemma_business_after_count(f, (n - 1) as nat);
        lemma_business_after_lands(e, n);
        lemma_business_count_split(e + 1, f, business_after(f, (n - 1) as nat));
        lemma_business_count_none(e + 1, f - 1);
    }
}

/// Moving `n` business days backward from day `e` passes exactly `n` Monday-to-Friday days
/// and stops on the last of them.
pub proof fn lemma_business_before_count(e: int, n: nat)
    ensures
        business_before(e, n) <= e,
        business_count(business_before(e, n), e - 1) == n,
        n > 0 ==> weekday_index(business_before(e, n)) < 5,
    decreases n,
{
    if n > 0 {
        let p = previous_business_epoch(e);
        lemma_previous_business(e);
        lemma_business_before_count(p, (n - 1) as nat);
        lemma_business_before_lands(e, n);
        let t = business_before(e, n);
        lemma_business_count_split(t, p - 1, e - 1);
        lemma_business_count_split(p, p, e - 1);
        lemma_business_count_none(p + 1, e - 1);
        assert(business_count(p, p) == 1) by {
            assert(business_count(p, p - 1) == 0);
        }
    }
}

proof fn lemma_business_count_none(a: int, b: int)
    requires
        forall|k: int| a <= k <= b ==> !#[trigger] is_business_epoch(k),
    ensures
        business_count(a, b) == 0,
    decreases b - a + 1,
{
    if a <= b {
        lemma_business_count_none(a, b - 1);
    }
}

} // verus!
