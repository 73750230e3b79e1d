//! Proleptic Gregorian calendar helpers: dates, weekdays, months, years, quarters, date
//! ranges, business days and simple recurrences, with their behaviour stated in contracts.
use vstd::prelude::*;

pub mod business_day;
pub mod civil;
pub mod date;
pub mod date_range;
pub mod month;
pub mod quarter;
pub mod recurrence;
pub mod weekday;
pub mod year;

pub use business_day::{
    BusinessDayConvention, BusinessDayError, add_business_days, adjust_business_day,
    business_days_between, is_business_day, next_business_day, previous_business_day,
};
pub use date::{CalendarDate, DateError, add_days, day_of_year, days_between, is_valid_date};
pub use date_range::{DateRange, DateRangeError, date_range, intersection, overlaps};
pub use month::{Month, MonthError, days_in_month, is_valid_month, month_from_number};
pub use quarter::{
    Quarter, QuarterError, month_in_quarter, quarter_end_date, quarter_for_month,
    quarter_start_date,
};
pub use recurrence::{
    RecurrenceError, RecurrenceFrequency, RecurrenceRule, next_date, recurring_dates,
};
pub use weekday::{Weekday, WeekdayError, is_weekday, is_weekend, weekday_for_date};
pub use year::{
    CalendarYear, YearError, days_in_year, first_day_of_year, is_leap_year, last_day_of_year,
};

verus! {

} // verus!
