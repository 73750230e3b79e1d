use use_calendar::{CalendarDate, DateRange, DateRangeError, date_range, intersection, overlaps};

#[test]
fn checks_range_containment_and_duration() {
    let start = CalendarDate::new(2024, 1, 1).unwrap();
    let end = CalendarDate::new(2024, 1, 3).unwrap();
    let range = DateRange::new(start, end).unwrap();

    assert_eq!(range.start(), start);
    assert_eq!(range.end(), end);
    assert!(range.contains(CalendarDate::new(2024, 1, 2).unwrap()));
    assert_eq!(range.duration_days(), 2);
    assert_eq!(date_range(start, end).unwrap().len(), 3);
}

#[test]
fn computes_range_overlap_and_intersection() {
    let a = DateRange::new(
        CalendarDate::new(2024, 1, 1).unwrap(),
        CalendarDate::new(2024, 1, 5).unwrap(),
    )
    .unwrap();
    let b = DateRange::new(
        CalendarDate::new(2024, 1, 4).unwrap(),
        CalendarDate::new(2024, 1, 7).unwrap(),
    )
    .unwrap();
    let c = DateRange::new(
        CalendarDate::new(2024, 1, 6).unwrap(),
        CalendarDate::new(2024, 1, 8).unwrap(),
    )
    .unwrap();

    assert!(overlaps(a, b));
    assert!(!overlaps(a, c));
    assert_eq!(
        intersection(a, b).unwrap(),
        DateRange::new(
            CalendarDate::new(2024, 1, 4).unwrap(),
            CalendarDate::new(2024, 1, 5).unwrap()
        )
        .unwrap()
    );
    assert!(intersection(a, c).is_none());
}

#[test]
fn rejects_reversed_ranges() {
    let start = CalendarDate::new(2024, 1, 5).unwrap();
    let end = CalendarDate::new(2024, 1, 1).unwrap();

    assert_eq!(
        DateRange::new(start, end),
        Err(DateRangeError::InvalidRange)
    );
    assert_eq!(date_range(start, end), Err(DateRangeError::InvalidRange));
}

#[test]
fn doc_example_touching_ranges() {
    let start = CalendarDate::new(2024, 1, 1).unwrap();
    let end = CalendarDate::new(2024, 1, 3).unwrap();
    let range = DateRange::new(start, end).unwrap();
    let other = DateRange::new(
        CalendarDate::new(2024, 1, 3).unwrap(),
        CalendarDate::new(2024, 1, 5).unwrap(),
    )
    .unwrap();

    assert!(range.contains(CalendarDate::new(2024, 1, 2).unwrap()));
    assert_eq!(range.duration_days(), 2);
    assert!(overlaps(range, other));
    assert_eq!(
        intersection(range, other).unwrap().start(),
        CalendarDate::new(2024, 1, 3).unwrap()
    );
}

#[test]
fn lists_every_date_across_a_month_end() {
    let start = CalendarDate::new(2024, 2, 27).unwrap();
    let end = CalendarDate::new(2024, 3, 2).unwrap();
    let dates = date_range(start, end).unwrap();
    assert_eq!(
        dates,
        vec![
            CalendarDate::new(2024, 2, 27).unwrap(),
            CalendarDate::new(2024, 2, 28).unwrap(),
            CalendarDate::new(2024, 2, 29).unwrap(),
            CalendarDate::new(2024, 3, 1).unwrap(),
            CalendarDate::new(2024, 3, 2).unwrap(),
        ]
    );
    let single = date_range(start, start).unwrap();
    assert_eq!(single, vec![start]);
    let range = DateRange::new(start, end).unwrap();
    assert!(range.contains(start));
    assert!(range.contains(end));
    assert!(!range.contains(CalendarDate::new(2024, 3, 3).unwrap()));
    assert!(!range.contains(CalendarDate::new(2023, 2, 28).unwrap()));
}

#[test]
fn intersection_of_nested_ranges_is_the_inner_one() {
    let outer = DateRange::new(
        CalendarDate::new(2023, 12, 1).unwrap(),
        CalendarDate::new(2024, 2, 1).unwrap(),
    )
    .unwrap();
    let inner = DateRange::new(
        CalendarDate::new(2024, 1, 10).unwrap(),
        CalendarDate::new(2024, 1, 20).unwrap(),
    )
    .unwrap();
    assert_eq!(intersection(outer, inner), Some(inner));
    assert_eq!(intersection(inner, outer), Some(inner));
    assert_eq!(outer.duration_days(), 62);
}
