//! Months by name and number, and the number of days in a month.
use vstd::prelude::*;

use crate::civil::month_length;
use crate::year::is_leap_year;

verus! {

/// A month of the Gregorian calendar.
#[derive(Debug, Clone, Copy, PartialEq, Eq, Structural)]
pub enum Month {
    January,
    February,
    March,
    April,
    May,
    June,
    July,
    August,
    September,
    October,
    November,
    December,
}

/// Errors of the month helpers.
#[derive(Debug, Clone, Copy, PartialEq, Eq)]
pub enum MonthError {
    InvalidMonth,
}

/// The number of a month, 1 for January to 12 for December.
pub open spec fn month_number(m: Month) -> int {
    match m {
        Month::January => 1,
        Month::February => 2,
        Month::March => 3,
        Month::April => 4,
        Month::May => 5,
        Month::June => 6,
        Month::July => 7,
        Month::August => 8,
        Month::September => 9,
        Month::October => 10,
        Month::November => 11,
        Month::December => 12,
    }
}

/// The English name of a month.
pub open spec fn month_name(m: Month) -> Seq<char> {
    match m {
        Month::January => "January"@,
        Month::February => "February"@,
        Month::March => "March"@,
        Month::April => "April"@,
        Month::May => "May"@,
        Month::June => "June"@,
        Month::July => "July"@,
        Month::August => "August"@,
        Month::September => "September"@,
        Month::October => "October"@,
        Month::November => "November"@,
        Month::December => "December"@,
    }
}

/// The three-letter English abbreviation of a month.
pub open spec fn month_short_name(m: Month) -> Seq<char> {
    match m {
        Month::January => "Jan"@,
        Month::February => "Feb"@,
        Month::March => "Mar"@,
        Month::April => "Apr"@,
        Month::May => "May"@,
        Month::June => "Jun"@,
        Month::July => "Jul"@,
        Month::August => "Aug"@,
        Month::September => "Sep"@,
        Month::October => "Oct"@,
        Month::November => "Nov"@,
        Month::December => "Dec"@,
    }
}

impl Month {
    pub fn number(&self) -> (r: u8)
        ensures
            r == month_number(*self),
    {
        match self {
            Self::January => 1,
            Self::February => 2,
            Self::March => 3,
            Self::April => 4,
            Self::May => 5,
            Self::June => 6,
            Self::July => 7,
            Self::August => 8,
            Self::September => 9,
            Self::October => 10,
            Self::November => 11,
            Self::December => 12,
        }
    }

    pub fn name(&self) -> (r: &'static str)
        ensures
            r@ == month_name(*self),
    {
        match self {
            Self::January => "January",
            Self::February => "February",
            Self::March => "March",
            Self::April => "April",
            Self::May => "May",
            Self::June => "June",
            Self::July => "July",
            Self::August => "August",
            Self::September => "September",
            Self::October => "October",
            Self::November => "November",
            Self::December => "December",
        }
    }

    pub fn short_name(&self) -> (r: &'static str)
        ensures
            r@ == month_short_name(*self),
    {
        match self {
            Self::January => "Jan",
            Self::February => "Feb",
            Self::March => "Mar",
            Self::April => "Apr",
            Self::May => "May",
            Self::June => "Jun",
            Self::July => "Jul",
            Self::August => "Aug",
            Self::September => "Sep",
            Self::October => "Oct",
            Self::November => "Nov",
            Self::December => "Dec",
        }
    }
}

/// The month with the given number, if it is in 1..=12.
pub fn month_from_number(month: u8) -> (r: Option<Month>)
    ensures
        r is Some <==> 1 <= month <= 12,
        r matches Some(m) ==> month_number(m) == month,
{
    match month {
        1 => Some(Month::January),
        2 => Some(Month::February),
        3 => Some(Month::March),
        4 => Some(Month::April),
        5 => Some(Month::May),
        6 => Some(Month::June),
        7 => Some(Month::July),
        8 => Some(Month::August),
        9 => Some(Month::September),
        10 => Some(Month::October),
        11 => Some(Month::November),
        12 => Some(Month::December),
        _ => None,
    }
}

/// Number of days in `month` of `year`; an error when `month` is not in 1..=12.
pub fn days_in_month(year: i32, month: u8) -> (r: Result<u8, MonthError>)
    ensures
        r is Ok <==> 1 <= month <= 12,
        r matches Ok(n) ==> n == month_length(year as int, month as int),
        r is Err ==> r == Err::<u8, MonthError>(MonthError::InvalidMonth),
{
    match month {
        1 | 3 | 5 | 7 | 8 | 10 | 12 => Ok(31),
        4 | 6 | 9 | 11 => Ok(30),
        2 => {
            if is_leap_year(year) {
                Ok(29)
            } else {
                Ok(28)
            }
        },
        _ => Err(MonthError::InvalidMonth),
    }
}

/// Whether `month` is the number of a month.
pub fn is_valid_month(month: u8) -> (r: bool)
    ensures
        r <==> 1 <= month <= 12,
{
    month_from_number(month).is_some()
}

/// Each month has its own number, so a month is found again from its number.
pub proof fn lemma_month_number_injective(a: Month, b: Month)
    ensures
        month_number(a) == month_number(b) ==> a == b,
        1 <= month_number(a) <= 12,
{
}

/// A month's name is the English name of the month with its number, and its short name
/// is the first three letters of that name.
pub proof fn lemma_month_names(m: Month)
    ensures
        month_number(m) == 1 ==> month_name(m) == "January"@,
        month_number(m) == 2 ==> month_name(m) == "February"@,
        month_number(m) == 3 ==> month_name(m) == "March"@,
        month_number(m) == 4 ==> month_name(m) == "April"@,
        month_number(m) == 5 ==> month_name(m) == "May"@,
        month_number(m) == 6 ==> month_name(m) == "June"@,
        month_number(m) == 7 ==> month_name(m) == "July"@,
        month_number(m) == 8 ==> month_name(m) == "August"@,
        month_number(m) == 9 ==> month_name(m) == "September"@,
        month_number(m) == 10 ==> month_name(m) == "October"@,
        month_number(m) == 11 ==> month_name(m) == "November"@,
        month_number(m) == 12 ==> month_name(m) == "December"@,
        month_short_name(m) == month_name(m).take(3),
{
    reveal_strlit("January");
    reveal_strlit("February");
    reveal_strlit("March");
    reveal_strlit("April");
    reveal_strlit("May");
    reveal_strlit("June");
    reveal_strlit("July");
    reveal_strlit("August");
    reveal_strlit("September");
    reveal_strlit("October");
    reveal_strlit("November");
    reveal_strlit("December");
    reveal_strlit("Jan");
    reveal_strlit("Feb");
    reveal_strlit("Mar");
    reveal_strlit("Apr");
    reveal_strlit("Jun");
    reveal_strlit("Jul");
    reveal_strlit("Aug");
    reveal_strlit("Sep");
    reveal_strlit("Oct");
    reveal_strlit("Nov");
    reveal_strlit("Dec");
    assert(month_short_name(m) =~= month_name(m).take(3));
}

} // verus!
