use use_calendar::{
    BusinessDayConvention, BusinessDayError, CalendarDate, add_business_days,
    adjust_business_day, business_days_between, is_business_day, next_business_day,
    previous_business_day,
};

#[test]
fn detects_business_days_and_adjusts() {
    let friday = CalendarDate::new(2024, 5, 17).unwrap();
    let saturday = CalendarDate::new(2024, 5, 18).unwrap();
    let monday = CalendarDate::new(2024, 5, 20).unwrap();

    assert!(is_business_day(friday));
    assert!(!is_business_day(saturday));
    assert_eq!(next_business_day(friday), monday);
    assert_eq!(previous_business_day(monday), friday);
    assert_eq!(
        adjust_business_day(saturday, BusinessDayConvention::Following),
        monday
    );
}

#[test]
fn adds_and_counts_business_days() {
    let friday = CalendarDate::new(2024, 5, 17).unwrap();
    let monday = CalendarDate::new(2024, 5, 20).unwrap();
    let tuesday = CalendarDate::new(2024, 5, 21).unwrap();

    assert_eq!(add_business_days(friday, 1), monday);
    assert_eq!(add_business_days(monday, -1), friday);
    assert_eq!(business_days_between(friday, tuesday).unwrap(), 3);
}

#[test]
fn supports_modified_following_and_reversed_ranges() {
    let saturday = CalendarDate::new(2024, 8, 31).unwrap();
    let friday = CalendarDate::new(2024, 8, 30).unwrap();

    assert_eq!(
        adjust_business_day(saturday, BusinessDayConvention::ModifiedFollowing),
        friday
    );
    assert_eq!(
        business_days_between(
            CalendarDate::new(2024, 5, 21).unwrap(),
            CalendarDate::new(2024, 5, 17).unwrap()
        ),
        Err(BusinessDayError::InvalidRange)
    );
}

#[test]
fn doc_example_business_days() {
    let friday = CalendarDate::new(2024, 5, 17).unwrap();
    let saturday = CalendarDate::new(2024, 5, 18).unwrap();

    assert!(is_business_day(friday));
    assert!(!is_business_day(saturday));
    assert_eq!(add_business_days(friday, 1), CalendarDate::new(2024, 5, 20).unwrap());
    assert_eq!(
        adjust_business_day(saturday, BusinessDayConvention::Following),
        CalendarDate::new(2024, 5, 20).unwrap()
    );
}

#[test]
fn moves_over_several_weeks() {
    let wednesday = CalendarDate::new(2024, 5, 15).unwrap();
    assert_eq!(add_business_days(wednesday, 0), wednesday);
    assert_eq!(add_business_days(wednesday, 5), CalendarDate::new(2024, 5, 22).unwrap());
    assert_eq!(add_business_days(wednesday, -10), CalendarDate::new(2024, 5, 1).unwrap());
    let sunday = CalendarDate::new(2024, 5, 19).unwrap();
    assert_eq!(add_business_days(sunday, 1), CalendarDate::new(2024, 5, 20).unwrap());
    assert_eq!(add_business_days(sunday, -1), CalendarDate::new(2024, 5, 17).unwrap());
    assert_eq!(next_business_day(sunday), CalendarDate::new(2024, 5, 20).unwrap());
    assert_eq!(previous_business_day(sunday), CalendarDate::new(2024, 5, 17).unwrap());
}

#[test]
fn counts_whole_weeks_and_weekend_only_spans() {
    let monday = CalendarDate::new(2024, 5, 6).unwrap();
    let sunday = CalendarDate::new(2024, 5, 19).unwrap();
    assert_eq!(business_days_between(monday, sunday).unwrap(), 10);
    let saturday = CalendarDate::new(2024, 5, 18).unwrap();
    assert_eq!(business_days_between(saturday, sunday).unwrap(), 0);
    assert_eq!(business_days_between(monday, monday).unwrap(), 1);
}

#[test]
fn adjusts_with_every_convention() {
    let business = CalendarDate::new(2024, 8, 28).unwrap();
    assert_eq!(adjust_business_day(business, BusinessDayConvention::Preceding), business);
    assert_eq!(
        adjust_business_day(business, BusinessDayConvention::ModifiedFollowing),
        business
    );
    let sunday = CalendarDate::new(2024, 9, 1).unwrap();
    assert_eq!(
        adjust_business_day(sunday, BusinessDayConvention::Preceding),
        CalendarDate::new(2024, 8, 30).unwrap()
    );
    assert_eq!(
        adjust_business_day(sunday, BusinessDayConvention::ModifiedFollowing),
        CalendarDate::new(2024, 9, 2).unwrap()
    );
}
