use use_calendar::{Weekday, WeekdayError, is_weekday, is_weekend, weekday_for_date};

#[test]
fn calculates_known_weekdays() {
    assert_eq!(weekday_for_date(1970, 1, 1).unwrap(), Weekday::Thursday);
    assert_eq!(weekday_for_date(2024, 2, 29).unwrap(), Weekday::Thursday);
    assert_eq!(weekday_for_date(2024, 5, 17).unwrap(), Weekday::Friday);
}

#[test]
fn checks_weekend_helpers() {
    assert_eq!(Weekday::Monday.number_from_monday(), 1);
    assert_eq!(Weekday::Sunday.number_from_sunday(), 1);
    assert!(Weekday::Saturday.is_weekend());
    assert!(Weekday::Tuesday.is_weekday());
    assert!(is_weekday(Weekday::Friday));
    assert!(is_weekend(Weekday::Sunday));
}

#[test]
fn rejects_invalid_weekday_dates() {
    assert_eq!(
        weekday_for_date(2024, 2, 30),
        Err(WeekdayError::InvalidDate)
    );
}

#[test]
fn doc_example_friday() {
    let weekday = weekday_for_date(2024, 5, 17).unwrap();
    assert_eq!(weekday, Weekday::Friday);
    assert_eq!(weekday.number_from_monday(), 5);
    assert!(!is_weekend(weekday));
}

#[test]
fn weekdays_before_the_epoch_and_week_cycle() {
    assert_eq!(weekday_for_date(1969, 12, 31).unwrap(), Weekday::Wednesday);
    assert_eq!(weekday_for_date(2000, 1, 1).unwrap(), Weekday::Saturday);
    assert_eq!(weekday_for_date(1, 1, 1).unwrap(), Weekday::Monday);
    assert_eq!(weekday_for_date(2024, 5, 24).unwrap(), Weekday::Friday);
    assert_eq!(weekday_for_date(2024, 13, 1), Err(WeekdayError::InvalidDate));
}

#[test]
fn numbers_every_weekday() {
    let all = [
        Weekday::Monday,
        Weekday::Tuesday,
        Weekday::Wednesday,
        Weekday::Thursday,
        Weekday::Friday,
        Weekday::Saturday,
        Weekday::Sunday,
    ];
    for (i, w) in all.iter().enumerate() {
        assert_eq!(w.number_from_monday() as usize, i + 1);
        assert_eq!(w.number_from_sunday() as usize, (i + 1) % 7 + 1);
        assert_eq!(w.is_weekend(), i >= 5);
        assert_eq!(w.is_weekday(), i < 5);
    }
}
