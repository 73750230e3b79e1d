//! Leap years, year lengths and the first and last day of a year.
use vstd::prelude::*;

use crate::civil::{is_leap, days_before_year, lemma_year_length};
use crate::date::CalendarDate;

verus! {

/// A Gregorian calendar year.
#[derive(Debug, Clone, Copy, PartialEq, Eq)]
pub struct CalendarYear {
    year: i32,
}

impl View for CalendarYear {
    type V = int;

    closed spec fn view(&self) -> int {
        self.year as int
    }
}

/// Errors of the year helpers.
#[derive(Debug, Clone, Copy, PartialEq, Eq)]
pub enum YearError {
    InvalidDate,
}

/// Whether `year` is a Gregorian leap year.
pub fn is_leap_year(year: i32) -> (r: bool)
    ensures
        r == is_leap(year as int),
{
    year % 4 == 0 && (year % 100 != 0 || year % 400 == 0)
}

/// Number of days in `year`: 366 in a leap year, 365 otherwise.
pub fn days_in_year(year: i32) -> (r: u16)
    ensures
        r == if is_leap(year as int) { 366int } else { 365int },
        r == days_before_year(year + 1) - days_before_year(year as int),
{
    proof {
        lemma_year_length(year as int);
    }
    if is_leap_year(year) {
        366
    } else {
        365
    }
}

impl CalendarYear {
    pub fn new(year: i32) -> (r: Self)
        ensures
            r@ == year,
    {
        Self { year }
    }

    pub fn year(&self) -> (r: i32)
        ensures
            r == self@,
    {
        self.year
    }

    pub fn is_leap_year(&self) -> (r: bool)
        ensures
            r == is_leap(self@),
    {
        is_leap_year(self.year)
    }

    pub fn days_in_year(&self) -> (r: u16)
        ensures
            r == if is_leap(self@) { 366int } else { 365int },
    {
        days_in_year(self.year)
    }
}

/// 1 January of `year`; it always exists.
pub fn first_day_of_year(year: i32) -> (r: Result<CalendarDate, YearError>)
    ensures
        r matches Ok(d) && d@ == (year as int, 1int, 1int),
{
    match CalendarDate::new(year, 1, 1) {
        Ok(d) => Ok(d),
        Err(_) => Err(YearError::InvalidDate),
    }
}

/// 31 December of `year`; it always exists.
pub fn last_day_of_year(year: i32) -> (r: Result<CalendarDate, YearError>)
    ensures
        r matches Ok(d) && d@ == (year as int, 12int, 31int),
{
    match CalendarDate::new(year, 12, 31) {
        Ok(d) => Ok(d),
        Err(_) => Err(YearError::InvalidDate),
    }
}

} // verus!
