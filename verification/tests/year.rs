use use_calendar::{
    CalendarDate, CalendarYear, days_in_year, first_day_of_year, is_leap_year, last_day_of_year,
};

#[test]
fn checks_leap_years_and_lengths() {
    let year = CalendarYear::new(2024);

    assert_eq!(year.year(), 2024);
    assert!(year.is_leap_year());
    assert_eq!(year.days_in_year(), 366);
    assert!(!is_leap_year(1900));
    assert!(is_leap_year(2000));
    assert_eq!(days_in_year(2023), 365);
}

#[test]
fn builds_year_boundary_dates() {
    assert_eq!(
        first_day_of_year(2024).unwrap(),
        CalendarDate::new(2024, 1, 1).unwrap()
    );
    assert_eq!(
        last_day_of_year(2024).unwrap(),
        CalendarDate::new(2024, 12, 31).unwrap()
    );
}

#[test]
fn doc_example_year_boundaries() {
    let year = CalendarYear::new(2024);
    assert!(year.is_leap_year());
    assert_eq!(year.days_in_year(), 366);
    assert_eq!(first_day_of_year(2024).unwrap().month(), 1);
    assert_eq!(last_day_of_year(2024).unwrap().day(), 31);
}

#[test]
fn leap_rule_on_negative_and_extreme_years() {
    assert!(is_leap_year(0));
    assert!(is_leap_year(-4));
    assert!(!is_leap_year(-100));
    assert!(is_leap_year(-400));
    assert!(!is_leap_year(i32::MAX));
    assert!(is_leap_year(i32::MIN));
    assert_eq!(days_in_year(1900), 365);
    assert_eq!(CalendarYear::new(2023).days_in_year(), 365);
    assert_eq!(last_day_of_year(i32::MAX).unwrap().year(), i32::MAX);
}
