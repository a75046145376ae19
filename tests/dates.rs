use tdt::{due_answer, today, Date, DateError};

#[test]
fn date_formatting_pads_digits() {
    let d = Date::from_ymd(987, 3, 5).unwrap();
    assert_eq!(d.fmt(), "0987-03-05");
}

#[test]
fn calendar_check() {
    assert!(Date::from_ymd(2024, 2, 29).is_some());
    assert!(Date::from_ymd(2023, 2, 29).is_none());
    assert!(Date::from_ymd(2024, 4, 31).is_none());
    assert!(Date::from_ymd(2024, 0, 1).is_none());
    assert!(Date::from_ymd(10000, 1, 1).is_none());
}

#[test]
fn typed_dates_go_through_chrono() {
    assert_eq!(Date::from_str("2024-03-05"), Date::from_ymd(2024, 3, 5));
    assert_eq!(Date::from_str("2024-02-30"), None);
    assert_eq!(Date::from_str("tomorrow"), None);
}

#[test]
fn date_order_and_overdue() {
    let a = Date::from_ymd(2024, 1, 31).unwrap();
    let b = Date::from_ymd(2024, 2, 1).unwrap();
    assert!(a.not_after(&b));
    assert!(!b.not_after(&a));
    assert!(a.not_after(&a));
    assert!(a.is_over(&b));
    assert!(!b.is_over(&a));
    assert_eq!(a.key(), 20240131);
}

#[test]
fn today_is_a_real_date() {
    let t = today().unwrap();
    assert!(Date::from_ymd(t.year, t.month, t.day).is_some());
}

#[test]
fn due_answers() {
    assert_eq!(due_answer("   "), Ok(None));
    assert_eq!(due_answer(" 2024-06-01\n"), Ok(Date::from_ymd(2024, 6, 1)));
    assert_eq!(due_answer("soon"), Err(DateError));
}

#[test]
fn clock_readings_become_dates() {
    assert_eq!(tdt::date_of_clock(2024, 2, 29), Date::from_ymd(2024, 2, 29));
    assert_eq!(tdt::date_of_clock(0, 1, 1), Date::from_ymd(0, 1, 1));
    assert_eq!(tdt::date_of_clock(9999, 12, 31), Date::from_ymd(9999, 12, 31));
    assert_eq!(tdt::date_of_clock(10000, 1, 1), None);
    assert_eq!(tdt::date_of_clock(-1, 1, 1), None);
}
