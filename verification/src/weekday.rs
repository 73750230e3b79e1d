//! Days of the week of Gregorian dates.
use vstd::prelude::*;

use crate::civil::{epoch_day, is_valid_civil};
use crate::date::{CalendarDate, days_between};

verus! {

/// A day of the week.
#[derive(Debug, Clone, Copy, PartialEq, Eq, Structural)]
pub enum Weekday {
    Monday,
    Tuesday,
    Wednesday,
    Thursday,
    Friday,
    Saturday,
    Sunday,
}

/// Errors of the weekday helpers.
#[derive(Debug, Clone, Copy, PartialEq, Eq, Structural)]
pub enum WeekdayError {
    InvalidDate,
}

/// Position of a weekday in the week, 1 for Monday to 7 for Sunday.
pub open spec fn weekday_number(w: Weekday) -> int {
    match w {
        Weekday::Monday => 1,
        Weekday::Tuesday => 2,
        Weekday::Wednesday => 3,
        Weekday::Thursday => 4,
        Weekday::Friday => 5,
        Weekday::Saturday => 6,
        Weekday::Sunday => 7,
    }
}

/// Saturday and Sunday make the weekend.
pub open spec fn weekend(w: Weekday) -> bool {
    weekday_number(w) >= 6
}

/// Position in the week (0 for Monday to 6 for Sunday) of the day numbered `e` from
/// 1970-01-01, which was a Thursday.
pub open spec fn weekday_index(e: int) -> int {
    (e + 3) % 7
}

impl Weekday {
    pub fn number_from_monday(&self) -> (r: u8)
        ensures
            r == weekday_number(*self),
    {
        match self {
            Self::Monday => 1,
            Self::Tuesday => 2,
            Self::Wednesday => 3,
            Self::Thursday => 4,
            Self::Friday => 5,
            Self::Saturday => 6,
            Self::Sunday => 7,
        }
    }

    /// Position in a week that starts on Sunday: 1 for Sunday to 7 for Saturday.
    pub fn number_from_sunday(&self) -> (r: u8)
        ensures
            r == weekday_number(*self) % 7 + 1,
    {
        match self {
            Self::Sunday => 1,
            Self::Monday => 2,
            Self::Tuesday => 3,
            Self::Wednesday => 4,
            Self::Thursday => 5,
            Self::Friday => 6,
            Self::Saturday => 7,
        }
    }

    pub fn is_weekend(&self) -> (r: bool)
        ensures
            r == weekend(*self),
    {
        match self {
            Self::Saturday | Self::Sunday => true,
            _ => false,
        }
    }

    pub fn is_weekday(&self) -> (r: bool)
        ensures
            r == !weekend(*self),
    {
        !self.is_weekend()
    }
}

/// The day of the week of a date; an error when the date is invalid.
pub fn weekday_for_date(year: i32, month: u8, day: u8) -> (r: Result<Weekday, WeekdayError>)
    ensures
        r is Ok <==> is_valid_civil(year as int, month as int, day as int),
        r matches Ok(w) ==> weekday_number(w) == weekday_index(
            epoch_day(year as int, month as int, day as int),
        ) + 1,
        r is Err ==> r == Err::<Weekday, WeekdayError>(WeekdayError::InvalidDate),
{
    let epoch = CalendarDate::new(1970, 1, 1).unwrap();
    let date = match CalendarDate::new(year, month, day) {
        Ok(d) => d,
        Err(_) => return Err(WeekdayError::InvalidDate),
    };
    proof {
        crate::civil::lemma_days_before_month_values(1970);
    }
    let offset = days_between(epoch, date).checked_rem_euclid(7).unwrap();

    Ok(
        match offset {
            0 => Weekday::Thursday,
            1 => Weekday::Friday,
            2 => Weekday::Saturday,
            3 => Weekday::Sunday,
            4 => Weekday::Monday,
            5 => Weekday::Tuesday,
            _ => Weekday::Wednesday,
        },
    )
}

pub fn is_weekend(weekday: Weekday) -> (r: bool)
    ensures
        r == weekend(weekday),
{
    weekday.is_weekend()
}

pub fn is_weekday(weekday: Weekday) -> (r: bool)
    ensures
        r == !weekend(weekday),
{
    weekday.is_weekday()
}

/// Consecutive days have consecutive weekdays, Sunday followed by Monday, and
/// 1970-01-01 was a Thursday.
pub proof fn lemma_weekday_advances(e: int)
    ensures
        weekday_index(e + 1) == (weekday_index(e) + 1) % 7,
        weekday_index(e + 7) == weekday_index(e),
        0 <= weekday_index(e) < 7,
        weekday_index(epoch_day(1970, 1, 1)) == 3,
{
    crate::civil::lemma_days_before_month_values(1970);
}

} // verus!
