use use_calendar::{
    CalendarDate, RecurrenceError, RecurrenceFrequency, RecurrenceRule, next_date, recurring_dates,
};

#[test]
fn generates_daily_and_weekly_recurrences() {
    let start = CalendarDate::new(2024, 5, 17).unwrap();
    let daily = recurring_dates(start, RecurrenceFrequency::Daily, 1, 3).unwrap();
    let weekly = RecurrenceRule::new(start, RecurrenceFrequency::Weekly, 2, 3)
        .unwrap()
        .dates()
        .unwrap();

    assert_eq!(daily[0], CalendarDate::new(2024, 5, 17).unwrap());
    assert_eq!(daily[2], CalendarDate::new(2024, 5, 19).unwrap());
    assert_eq!(weekly[1], CalendarDate::new(2024, 5, 31).unwrap());
    assert_eq!(
        next_date(start, RecurrenceFrequency::Weekly, 1).unwrap(),
        CalendarDate::new(2024, 5, 24).unwrap()
    );
}

#[test]
fn clamps_monthly_end_of_month_recurrences() {
    let start = CalendarDate::new(2024, 1, 31).unwrap();
    let dates = recurring_dates(start, RecurrenceFrequency::Monthly, 1, 4).unwrap();

    assert_eq!(dates[0], CalendarDate::new(2024, 1, 31).unwrap());
    assert_eq!(dates[1], CalendarDate::new(2024, 2, 29).unwrap());
    assert_eq!(dates[2], CalendarDate::new(2024, 3, 31).unwrap());
    assert_eq!(dates[3], CalendarDate::new(2024, 4, 30).unwrap());
    assert_eq!(
        next_date(start, RecurrenceFrequency::Monthly, 1).unwrap(),
        CalendarDate::new(2024, 2, 29).unwrap()
    );
}

#[test]
fn rejects_invalid_intervals_and_allows_empty_count() {
    let start = CalendarDate::new(2024, 2, 29).unwrap();

    assert_eq!(
        RecurrenceRule::new(start, RecurrenceFrequency::Daily, 0, 1),
        Err(RecurrenceError::InvalidInterval)
    );
    assert_eq!(
        recurring_dates(start, RecurrenceFrequency::Yearly, 1, 0).unwrap(),
        Vec::<CalendarDate>::new()
    );
    assert_eq!(
        next_date(start, RecurrenceFrequency::Yearly, 1).unwrap(),
        CalendarDate::new(2025, 2, 28).unwrap()
    );
}

#[test]
fn doc_example_monthly() {
    let start = CalendarDate::new(2024, 1, 31).unwrap();
    let dates = recurring_dates(start, RecurrenceFrequency::Monthly, 1, 4).unwrap();

    assert_eq!(dates[1], CalendarDate::new(2024, 2, 29).unwrap());
    assert_eq!(dates[2], CalendarDate::new(2024, 3, 31).unwrap());
    assert_eq!(dates[3], CalendarDate::new(2024, 4, 30).unwrap());
}

#[test]
fn monthly_steps_cross_year_ends_and_yearly_keeps_leap_days_apart() {
    let start = CalendarDate::new(2023, 11, 30).unwrap();
    let dates = recurring_dates(start, RecurrenceFrequency::Monthly, 2, 3).unwrap();
    assert_eq!(
        dates,
        vec![
            CalendarDate::new(2023, 11, 30).unwrap(),
            CalendarDate::new(2024, 1, 30).unwrap(),
            CalendarDate::new(2024, 3, 30).unwrap(),
        ]
    );
    let leap = CalendarDate::new(2024, 2, 29).unwrap();
    let yearly = recurring_dates(leap, RecurrenceFrequency::Yearly, 4, 3).unwrap();
    assert_eq!(yearly[1], CalendarDate::new(2028, 2, 29).unwrap());
    assert_eq!(yearly[2], CalendarDate::new(2032, 2, 29).unwrap());
    let century = recurring_dates(leap, RecurrenceFrequency::Yearly, 76, 2).unwrap();
    assert_eq!(century[1], CalendarDate::new(2100, 2, 28).unwrap());
}

#[test]
fn reports_overflow_and_zero_intervals() {
    let start = CalendarDate::new(2024, 1, 1).unwrap();
    assert_eq!(
        next_date(start, RecurrenceFrequency::Yearly, i32::MAX as usize),
        Err(RecurrenceError::DateOverflow)
    );
    assert_eq!(
        next_date(start, RecurrenceFrequency::Yearly, i32::MAX as usize + 1),
        Err(RecurrenceError::DateOverflow)
    );
    assert_eq!(
        next_date(start, RecurrenceFrequency::Monthly, 12 * (i32::MAX as usize)),
        Err(RecurrenceError::DateOverflow)
    );
    assert_eq!(
        next_date(start, RecurrenceFrequency::Daily, usize::MAX),
        Err(RecurrenceError::DateOverflow)
    );
    assert_eq!(
        recurring_dates(start, RecurrenceFrequency::Yearly, 1_000_000_000, 4),
        Err(RecurrenceError::DateOverflow)
    );
    assert_eq!(
        next_date(start, RecurrenceFrequency::Daily, 0),
        Err(RecurrenceError::InvalidInterval)
    );
    assert_eq!(
        recurring_dates(start, RecurrenceFrequency::Weekly, 0, 3),
        Err(RecurrenceError::InvalidInterval)
    );
    let last = CalendarDate::new(i32::MAX, 1, 31).unwrap();
    assert_eq!(
        next_date(last, RecurrenceFrequency::Monthly, 1).unwrap(),
        CalendarDate::new(i32::MAX, 2, 28).unwrap()
    );
}
