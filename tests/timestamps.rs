use event_planner::timestamp::Timestamp;

#[test]
fn new_accepts_real_dates_only() {
    assert!(Timestamp::new(2024, 2, 29, 0, 0, 0).is_some());
    assert!(Timestamp::new(2023, 2, 29, 0, 0, 0).is_none());
    assert!(Timestamp::new(2000, 2, 29, 0, 0, 0).is_some());
    assert!(Timestamp::new(1900, 2, 29, 0, 0, 0).is_none());
    assert!(Timestamp::new(2024, 4, 31, 0, 0, 0).is_none());
    assert!(Timestamp::new(2024, 12, 31, 23, 59, 59).is_some());
    assert!(Timestamp::new(2024, 0, 1, 0, 0, 0).is_none());
    assert!(Timestamp::new(2024, 1, 0, 0, 0, 0).is_none());
    assert!(Timestamp::new(2024, 1, 1, 24, 0, 0).is_none());
    assert!(Timestamp::new(2024, 1, 1, 0, 60, 0).is_none());
    assert!(Timestamp::new(2024, 1, 1, 0, 0, 60).is_none());
    assert!(Timestamp::new(-4, 2, 29, 0, 0, 0).is_some());
    assert!(Timestamp::new(262142, 12, 31, 0, 0, 0).is_some());
    assert!(Timestamp::new(262143, 1, 1, 0, 0, 0).is_none());
    assert!(Timestamp::new(-262144, 1, 1, 0, 0, 0).is_none());
}

#[test]
fn text_is_zero_padded() {
    let t = Timestamp::new(987, 1, 2, 3, 4, 5).unwrap();
    assert_eq!(t.to_text(), "0987-01-02 03:04:05");
    let t = Timestamp::new(-1, 12, 31, 23, 59, 59).unwrap();
    assert_eq!(t.to_text(), "-0001-12-31 23:59:59");
    let t = Timestamp::new(10000, 1, 1, 0, 0, 0).unwrap();
    assert_eq!(t.to_text(), "+10000-01-01 00:00:00");
}

#[test]
fn order_and_same_day() {
    let a = Timestamp::new(2024, 1, 1, 23, 59, 0).unwrap();
    let b = Timestamp::new(2024, 1, 2, 0, 0, 0).unwrap();
    let c = Timestamp::new(2024, 1, 1, 0, 0, 0).unwrap();
    assert!(a.is_before(&b));
    assert!(!b.is_before(&a));
    assert!(!a.is_before(&a));
    assert!(c.is_before(&a));
    assert!(a.is_same_day(&c));
    assert!(!a.is_same_day(&b));
}

#[test]
fn parse_record_text_reads_the_rendering() {
    let t = Timestamp::new(2024, 7, 8, 9, 10, 11).unwrap();
    assert_eq!(Timestamp::parse_record_text(&t.to_text()), Some(t));
    assert_eq!(Timestamp::parse_record_text("2024-07-08"), None);
    assert_eq!(Timestamp::parse_record_text("2024-07-08 09:10:11 extra"), None);
}

#[test]
fn parse_input_text_reads_month_first() {
    let t = Timestamp::parse_input_text("03-15-2024 14:30").unwrap();
    assert_eq!(t, Timestamp::new(2024, 3, 15, 14, 30, 0).unwrap());
    assert_eq!(Timestamp::parse_input_text("2024-03-15 14:30"), None);
    assert_eq!(Timestamp::parse_input_text("02-30-2024 10:00"), None);
}
