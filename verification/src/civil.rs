//! The calendar model: leap years, month lengths, day numbers counted from 1970-01-01,
//! calendar order, and the lemmas that relate them.
use vstd::prelude::*;

verus! {

/// Gregorian leap-year rule: divisible by 4, except centuries not divisible by 400.
pub open spec fn is_leap(year: int) -> bool {
    year % 4 == 0 && (year % 100 != 0 || year % 400 == 0)
}

/// Number of days in `month` of `year`; 0 when `month` is not in 1..=12.
pub open spec fn month_length(year: int, month: int) -> int {
    if month == 2 {
        if is_leap(year) { 29 } else { 28 }
    } else if month == 4 || month == 6 || month == 9 || month == 11 {
        30
    } else if 1 <= month <= 12 {
        31
    } else {
        0
    }
}

/// Number of leap years among the years 1..=n (for negative n, the count shifted by a
/// constant, so that differences still count the leap years in between).
pub open spec fn leap_years_through(n: int) -> int {
    n / 4 - n / 100 + n / 400
}

pub proof fn lemma_leap_count_step(y: int)
    ensures
        leap_years_through(y) - leap_years_through(y - 1) == if is_leap(y) { 1int } else { 0int },
{
    assert(y / 4 - (y - 1) / 4 == if y % 4 == 0 { 1int } else { 0int });
    assert(y / 100 - (y - 1) / 100 == if y % 100 == 0 { 1int } else { 0int });
    assert(y / 400 - (y - 1) / 400 == if y % 400 == 0 { 1int } else { 0int });
    assert(y % 100 == 0 ==> y % 4 == 0);
    assert(y % 400 == 0 ==> y % 100 == 0);
}


/// Days from the start of a 400-year era (a 1 March) to 1 March of its `yoe`-th year.
pub open spec fn era_year_start(yoe: int) -> int {
    365 * yoe + yoe / 4 - yoe / 100
}

proof fn lemma_year_of_era(a: int, b: int, c: int, k: int)
    requires
        0 <= a <= 3,
        0 <= b <= 24,
        0 <= c <= 3,
        0 <= k,
        k < 365 + if c == 3 && (b < 24 || a == 3) { 1int } else { 0int },
    ensures
        ({
            let t = 36524 * a + 1461 * b + 365 * c + k;
            let y = 100 * a + 4 * b + c;
            &&& (t - t / 1460 + t / 36524 - t / 146096) / 365 == y
            &&& era_year_start(y) + k == t
        }),
{
}


/// Days of `year` before the first day of `month`.
pub open spec fn days_before_month(year: int, month: int) -> int
    decreases month,
{
    if month <= 1 {
        0
    } else {
        days_before_month(year, month - 1) + month_length(year, month - 1)
    }
}

/// 1-based ordinal of the day within its year.
pub open spec fn ordinal_day(year: int, month: int, day: int) -> int {
    days_before_month(year, month) + day
}

/// Days from 1 January of year 1 to 1 January of `year`.
pub open spec fn days_before_year(year: int) -> int {
    365 * (year - 1) + leap_years_through(year - 1)
}

/// Days from 1970-01-01 to the given date (negative before it).
pub open spec fn epoch_day(year: int, month: int, day: int) -> int {
    days_before_year(year) + ordinal_day(year, month, day) - 1 - days_before_year(1970)
}

/// Days from 1 March to the first day of the `mp`-th month of a year counted from March.
pub open spec fn march_month_start(mp: int) -> int {
    (153 * mp + 2) / 5
}

/// `epoch_day` written with years that begin on 1 March, grouped in eras of 400 years.
pub open spec fn march_epoch_day(yp: int, mp: int, day: int) -> int {
    146097 * (yp / 400) + era_year_start(yp % 400) + march_month_start(mp) + day - 1 - 719468
}

pub proof fn lemma_days_before_month_values(year: int)
    ensures
        days_before_month(year, 1) == 0,
        days_before_month(year, 2) == 31,
        days_before_month(year, 3) == 59 + if is_leap(year) { 1int } else { 0int },
        days_before_month(year, 4) == days_before_month(year, 3) + 31,
        days_before_month(year, 5) == days_before_month(year, 3) + 61,
        days_before_month(year, 6) == days_before_month(year, 3) + 92,
        days_before_month(year, 7) == days_before_month(year, 3) + 122,
        days_before_month(year, 8) == days_before_month(year, 3) + 153,
        days_before_month(year, 9) == days_before_month(year, 3) + 184,
        days_before_month(year, 10) == days_before_month(year, 3) + 214,
        days_before_month(year, 11) == days_before_month(year, 3) + 245,
        days_before_month(year, 12) == days_before_month(year, 3) + 275,
        days_before_month(year, 13) == days_before_month(year, 3) + 306,
{
    reveal_with_fuel(days_before_month, 13);
}

pub proof fn lemma_epoch_day_march(year: int, month: int, day: int)
    requires
        1 <= month <= 12,
    ensures
        epoch_day(year, month, day) == if month <= 2 {
            march_epoch_day(year - 1, month + 9, day)
        } else {
            march_epoch_day(year, month - 3, day)
        },
{
    lemma_days_before_month_values(year);
    let yp = if month <= 2 { year - 1 } else { year };
    let q = yp / 400;
    let r = yp % 400;
    assert(yp == 400 * q + r);
    assert(yp / 4 == 100 * q + r / 4);
    assert(yp / 100 == 4 * q + r / 100);
    lemma_leap_count_step(year);
}


proof fn lemma_march_month(doy: int, long_year: bool)
    requires
        0 <= doy < 365 + if long_year { 1int } else { 0int },
    ensures
        ({
            let mp = (5 * doy + 2) / 153;
            &&& 0 <= mp <= 11
            &&& march_month_start(mp) <= doy
            &&& doy < march_month_start(mp + 1)
            &&& mp == 11 ==> doy - march_month_start(mp) < if long_year { 29int } else { 28int }
        }),
{
}

pub proof fn lemma_civil_from_era_day(era: int, doe: int)
    requires
        0 <= doe <= 146096,
    ensures
        ({
            let yoe = (doe - doe / 1460 + doe / 36524 - doe / 146096) / 365;
            let doy = doe - era_year_start(yoe);
            let mp = (5 * doy + 2) / 153;
            let d = doy - march_month_start(mp) + 1;
            let m = if mp < 10 { mp + 3 } else { mp - 9 };
            let y = yoe + era * 400 + if m <= 2 { 1int } else { 0int };
            &&& 0 <= yoe <= 399
            &&& 0 <= doy <= 365
            &&& 0 <= mp <= 11
            &&& 1 <= m <= 12
            &&& 1 <= d <= month_length(y, m)
            &&& epoch_day(y, m, d) == 146097 * era + doe - 719468
        }),
{
    let a = if doe == 146096 { 3 } else { doe / 36524 };
    let r1 = doe - 36524 * a;
    let b = r1 / 1461;
    let r2 = r1 - 1461 * b;
    let c = if r2 / 365 > 3 { 3 } else { r2 / 365 };
    let k = r2 - 365 * c;
    assert(0 <= a <= 3);
    assert(0 <= b <= 24);
    assert(k < 365 + if c == 3 && (b < 24 || a == 3) { 1int } else { 0int });
    lemma_year_of_era(a, b, c, k);
    let yoe = 100 * a + 4 * b + c;
    let long_year = c == 3 && (b < 24 || a == 3);
    lemma_march_month(k, long_year);
    let mp = (5 * k + 2) / 153;
    let d = k - march_month_start(mp) + 1;
    let m = if mp < 10 { mp + 3 } else { mp - 9 };
    let y = yoe + era * 400 + if m <= 2 { 1int } else { 0int };
    assert(long_year == is_leap(yoe + era * 400 + 1));
    lemma_epoch_day_march(y, m, d);
    assert((yoe + era * 400) / 400 == era);
    assert((yoe + era * 400) % 400 == yoe);
}


/// A calendar date as (year, month, day).
pub type Civil = (int, int, int);

/// `year`, `month`, `day` name a day of the proleptic Gregorian calendar.
pub open spec fn is_valid_civil(year: int, month: int, day: int) -> bool {
    1 <= month <= 12 && 1 <= day <= month_length(year, month)
}

/// Days from 1970-01-01 to the date `c`.
pub open spec fn epoch_of(c: Civil) -> int {
    epoch_day(c.0, c.1, c.2)
}

/// `a` comes strictly before `b` in calendar order (by year, then month, then day).
pub open spec fn precedes(a: Civil, b: Civil) -> bool {
    a.0 < b.0 || (a.0 == b.0 && (a.1 < b.1 || (a.1 == b.1 && a.2 < b.2)))
}

/// The year after `year` starts `365` days later, or `366` when `year` is a leap year.
pub proof fn lemma_year_length(year: int)
    ensures
        days_before_year(year + 1) - days_before_year(year) == if is_leap(year) { 366int } else { 365int },
{
    lemma_leap_count_step(year);
}

/// Later years start later.
pub proof fn lemma_year_start_increases(y1: int, y2: int)
    requires
        y1 < y2,
    ensures
        days_before_year(y1) + 365 * (y2 - y1) <= days_before_year(y2),
{
    let x = y2 - y1;
    let n1 = y1 - 1;
    let n2 = y2 - 1;
    assert(n2 / 4 - n1 / 4 >= x / 4);
    assert(n2 / 100 - n1 / 100 <= x / 100 + 1);
    assert(n2 / 400 - n1 / 400 >= x / 400);
    assert(x / 4 - x / 100 - 1 + x / 400 >= -1);
    if x / 4 - x / 100 - 1 + x / 400 == -1 {
        assert(x < 4);
        assert(n2 / 100 - n1 / 100 <= 1);
        if n2 / 100 - n1 / 100 == 1 {
            assert(n2 / 4 - n1 / 4 >= 1);
        }
    }
}

/// The days of a year take the ordinals 1 to 365 (366 in a leap year), in calendar order.
pub proof fn lemma_day_of_year_bounds(year: int, month: int, day: int)
    requires
        is_valid_civil(year, month, day),
    ensures
        1 <= ordinal_day(year, month, day),
        ordinal_day(year, month, day) <= if is_leap(year) { 366int } else { 365int },
        ordinal_day(year, month, day) <= days_before_month(year, month + 1),
{
    lemma_days_before_month_values(year);
}

proof fn lemma_day_of_year_ordered(year: int, m1: int, d1: int, m2: int, d2: int)
    requires
        is_valid_civil(year, m1, d1),
        is_valid_civil(year, m2, d2),
        m1 < m2 || (m1 == m2 && d1 < d2),
    ensures
        ordinal_day(year, m1, d1) < ordinal_day(year, m2, d2),
{
    lemma_days_before_month_values(year);
}

/// Calendar order and the order of day numbers agree on valid dates.
pub proof fn lemma_epoch_order(a: Civil, b: Civil)
    requires
        is_valid_civil(a.0, a.1, a.2),
        is_valid_civil(b.0, b.1, b.2),
    ensures
        precedes(a, b) <==> epoch_of(a) < epoch_of(b),
        a == b <==> epoch_of(a) == epoch_of(b),
{
    if precedes(a, b) {
        lemma_order_one_way(a, b);
    }
    if precedes(b, a) {
        lemma_order_one_way(b, a);
    }
}

proof fn lemma_order_one_way(a: Civil, b: Civil)
    requires
        is_valid_civil(a.0, a.1, a.2),
        is_valid_civil(b.0, b.1, b.2),
        precedes(a, b),
    ensures
        epoch_of(a) < epoch_of(b),
{
    if a.0 == b.0 {
        lemma_day_of_year_ordered(a.0, a.1, a.2, b.1, b.2);
    } else {
        lemma_day_of_year_bounds(a.0, a.1, a.2);
        lemma_day_of_year_bounds(b.0, b.1, b.2);
        lemma_year_length(a.0);
        if a.0 + 1 < b.0 {
            lemma_year_start_increases(a.0 + 1, b.0);
        }
    }
}


/// The calendar day after `c`.
pub open spec fn next_civil(c: Civil) -> Civil {
    if c.2 < month_length(c.0, c.1) {
        (c.0, c.1, c.2 + 1)
    } else if c.1 < 12 {
        (c.0, c.1 + 1, 1)
    } else {
        (c.0 + 1, 1, 1)
    }
}

/// Day numbers count calendar days: 1970-01-01 is day 0, and the day after a date has
/// the next day number.
pub proof fn lemma_epoch_counts_days(c: Civil)
    requires
        is_valid_civil(c.0, c.1, c.2),
    ensures
        epoch_day(1970, 1, 1) == 0,
        is_valid_civil(next_civil(c).0, next_civil(c).1, next_civil(c).2),
        epoch_of(next_civil(c)) == epoch_of(c) + 1,
{
    lemma_days_before_month_values(1970);
    lemma_days_before_month_values(c.0);
    lemma_days_before_month_values(c.0 + 1);
    lemma_year_length(c.0);
}

/// The date whose day number, counted from 1970-01-01, is `e`.
pub open spec fn civil_from_epoch(e: int) -> Civil {
    choose|c: Civil| is_valid_civil(c.0, c.1, c.2) && epoch_of(c) == e
}

/// Every day number names exactly one valid date.
pub proof fn lemma_civil_from_epoch(e: int)
    ensures
        is_valid_civil(civil_from_epoch(e).0, civil_from_epoch(e).1, civil_from_epoch(e).2),
        epoch_of(civil_from_epoch(e)) == e,
        forall|c: Civil| #[trigger]
            is_valid_civil(c.0, c.1, c.2) && epoch_of(c) == e ==> c == civil_from_epoch(e),
{
    let z = e + 719468;
    let era = z / 146097;
    let doe = z % 146097;
    lemma_civil_from_era_day(era, doe);
    let yoe = (doe - doe / 1460 + doe / 36524 - doe / 146096) / 365;
    let doy = doe - era_year_start(yoe);
    let mp = (5 * doy + 2) / 153;
    let d = doy - march_month_start(mp) + 1;
    let m = if mp < 10 { mp + 3 } else { mp - 9 };
    let y = yoe + era * 400 + if m <= 2 { 1int } else { 0int };
    let w: Civil = (y, m, d);
    assert(is_valid_civil(w.0, w.1, w.2) && epoch_of(w) == e);
    let c0 = civil_from_epoch(e);
    assert forall|c: Civil| #[trigger]
        is_valid_civil(c.0, c.1, c.2) && epoch_of(c) == e implies c == c0 by {
        lemma_epoch_order(c, c0);
    }
}

} // verus!
