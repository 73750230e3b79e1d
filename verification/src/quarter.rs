//! Calendar quarters: which months they hold and their first and last dates.
use vstd::prelude::*;

use crate::civil::month_length;
use crate::date::CalendarDate;

verus! {

/// A quarter of the calendar year.
#[derive(Debug, Clone, Copy, PartialEq, Eq, Structural)]
pub enum Quarter {
    Q1,
    Q2,
    Q3,
    Q4,
}

/// Errors of the quarter helpers.
#[derive(Debug, Clone, Copy, PartialEq, Eq, Structural)]
pub enum QuarterError {
    InvalidMonth,
}

/// The number of a quarter, 1 to 4.
pub open spec fn quarter_number(q: Quarter) -> int {
    match q {
        Quarter::Q1 => 1,
        Quarter::Q2 => 2,
        Quarter::Q3 => 3,
        Quarter::Q4 => 4,
    }
}

/// First month of quarter `q`.
pub open spec fn first_month(q: Quarter) -> int {
    3 * quarter_number(q) - 2
}

/// Last month of quarter `q`.
pub open spec fn last_month(q: Quarter) -> int {
    3 * quarter_number(q)
}

impl Quarter {
    pub fn number(&self) -> (r: u8)
        ensures
            r == quarter_number(*self),
    {
        match self {
            Self::Q1 => 1,
            Self::Q2 => 2,
            Self::Q3 => 3,
            Self::Q4 => 4,
        }
    }

    pub fn start_month(&self) -> (r: u8)
        ensures
            r == first_month(*self),
    {
        match self {
            Self::Q1 => 1,
            Self::Q2 => 4,
            Self::Q3 => 7,
            Self::Q4 => 10,
        }
    }

    pub fn end_month(&self) -> (r: u8)
        ensures
            r == last_month(*self),
    {
        match self {
            Self::Q1 => 3,
            Self::Q2 => 6,
            Self::Q3 => 9,
            Self::Q4 => 12,
        }
    }
}

/// The quarter that holds `month`; an error when `month` is not in 1..=12.
pub fn quarter_for_month(month: u8) -> (r: Result<Quarter, QuarterError>)
    ensures
        r is Ok <==> 1 <= month <= 12,
        r matches Ok(q) ==> first_month(q) <= month <= last_month(q),
        r is Err ==> r == Err::<Quarter, QuarterError>(QuarterError::InvalidMonth),
{
    match month {
        1..=3 => Ok(Quarter::Q1),
        4..=6 => Ok(Quarter::Q2),
        7..=9 => Ok(Quarter::Q3),
        10..=12 => Ok(Quarter::Q4),
        _ => Err(QuarterError::InvalidMonth),
    }
}

/// The first day of `quarter` in `year`.
pub fn quarter_start_date(year: i32, quarter: Quarter) -> (r: CalendarDate)
    ensures
        r@ == (year as int, first_month(quarter), 1int),
{
    CalendarDate::new(year, quarter.start_month(), 1).unwrap()
}

/// The last day of `quarter` in `year`.
pub fn quarter_end_date(year: i32, quarter: Quarter) -> (r: CalendarDate)
    ensures
        r@ == (year as int, last_month(quarter), month_length(year as int, last_month(quarter))),
{
    let (month, day) = match quarter {
        Quarter::Q1 => (3, 31),
        Quarter::Q2 => (6, 30),
        Quarter::Q3 => (9, 30),
        Quarter::Q4 => (12, 31),
    };

    CalendarDate::new(year, month, day).unwrap()
}

/// Whether `month` belongs to `quarter`; an error when `month` is not in 1..=12.
pub fn month_in_quarter(month: u8, quarter: Quarter) -> (r: Result<bool, QuarterError>)
    ensures
        r is Ok <==> 1 <= month <= 12,
        r matches Ok(b) ==> b == (first_month(quarter) <= month <= last_month(quarter)),
        r is Err ==> r == Err::<bool, QuarterError>(QuarterError::InvalidMonth),
{
    let q = quarter_for_month(month)?;
    Ok(q == quarter)
}

/// The quarters split the twelve months: each month is in exactly one of them.
pub proof fn lemma_quarters_partition_months(month: int, a: Quarter, b: Quarter)
    requires
        first_month(a) <= month <= last_month(a),
        first_month(b) <= month <= last_month(b),
    ensures
        a == b,
        1 <= month <= 12,
{
}

} // verus!
