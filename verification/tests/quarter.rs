use use_calendar::{
    CalendarDate, Quarter, QuarterError, month_in_quarter, quarter_end_date, quarter_for_month,
    quarter_start_date,
};

#[test]
fn maps_months_to_quarters() {
    assert_eq!(quarter_for_month(1).unwrap(), Quarter::Q1);
    assert_eq!(quarter_for_month(5).unwrap(), Quarter::Q2);
    assert_eq!(quarter_for_month(8).unwrap(), Quarter::Q3);
    assert_eq!(quarter_for_month(12).unwrap(), Quarter::Q4);
    assert_eq!(Quarter::Q3.start_month(), 7);
    assert_eq!(Quarter::Q4.end_month(), 12);
}

#[test]
fn builds_quarter_boundaries() {
    assert_eq!(
        quarter_start_date(2024, Quarter::Q2),
        CalendarDate::new(2024, 4, 1).unwrap()
    );
    assert_eq!(
        quarter_end_date(2024, Quarter::Q2),
        CalendarDate::new(2024, 6, 30).unwrap()
    );
    assert!(month_in_quarter(5, Quarter::Q2).unwrap());
    assert!(!month_in_quarter(7, Quarter::Q2).unwrap());
}

#[test]
fn rejects_invalid_quarter_months() {
    assert_eq!(quarter_for_month(0), Err(QuarterError::InvalidMonth));
    assert_eq!(
        month_in_quarter(13, Quarter::Q1),
        Err(QuarterError::InvalidMonth)
    );
}

#[test]
fn doc_example_quarters() {
    assert_eq!(quarter_for_month(5).unwrap(), Quarter::Q2);
    assert_eq!(quarter_end_date(2024, Quarter::Q1).day(), 31);
    assert!(month_in_quarter(5, Quarter::Q2).unwrap());
}

#[test]
fn every_month_lies_in_its_quarter_only() {
    let all = [Quarter::Q1, Quarter::Q2, Quarter::Q3, Quarter::Q4];
    for m in 1..=12u8 {
        let q = quarter_for_month(m).unwrap();
        assert!(q.start_month() <= m && m <= q.end_month());
        for other in all.iter() {
            assert_eq!(month_in_quarter(m, *other).unwrap(), *other == q);
        }
    }
    assert_eq!(Quarter::Q4.number(), 4);
    assert_eq!(quarter_end_date(2023, Quarter::Q3), CalendarDate::new(2023, 9, 30).unwrap());
    assert_eq!(quarter_end_date(2023, Quarter::Q4), CalendarDate::new(2023, 12, 31).unwrap());
    assert_eq!(quarter_start_date(2023, Quarter::Q1), CalendarDate::new(2023, 1, 1).unwrap());
}
