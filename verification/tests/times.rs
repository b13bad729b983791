use work_tock_lib::{Date, STime};

#[test]
fn stime_counts_minutes() {
    assert_eq!(STime::new(2, 30).minutes(), 150);
    assert_eq!(STime::new(0, 0).minutes(), 0);
    assert_eq!(STime::new(24, 54).minutes(), 1494);
}

#[test]
fn stime_plus_and_minus() {
    assert_eq!(STime::new(1, 30).plus(STime::new(0, 45)), STime::new(2, 15));
    assert_eq!(STime::new(13, 50).minus(STime::new(12, 30)), STime::new(1, 20));
}

#[test]
fn since_on_equal_dates_is_subtraction() {
    let d = Date::new(2019, 1, 23);
    let r = STime::new(16, 0).since(&d, STime::new(12, 30), &d);
    assert_eq!(r, STime::new(3, 30));
}

#[test]
fn since_rolls_over_midnight() {
    let r = STime::new(1, 0).since(
        &Date::new(2020, 1, 2),
        STime::new(23, 0),
        &Date::new(2020, 1, 1),
    );
    assert_eq!(r, STime::new(2, 0));
}

#[test]
fn since_spans_leap_day() {
    let r = STime::new(9, 0).since(
        &Date::new(2020, 3, 1),
        STime::new(9, 0),
        &Date::new(2020, 2, 28),
    );
    assert_eq!(r, STime::new(48, 0));
}

#[test]
fn since_checked_rejects_fake_dates() {
    let good = Date::new(2020, 1, 2);
    let bad = Date::new(2020, 13, 2);
    assert_eq!(STime::new(9, 0).since_checked(&bad, STime::new(8, 0), &good), None);
    assert_eq!(
        STime::new(9, 0).since_checked(&good, STime::new(8, 0), &good),
        Some(STime::new(1, 0))
    );
}

#[test]
fn hhmm_renders_zero_padded_and_unbounded() {
    assert_eq!(STime::new(2, 0).to_hhmm(), "02:00".to_string());
    assert_eq!(STime::new(9, 5).to_hhmm(), "09:05".to_string());
    assert_eq!(STime::new(25, 34).to_hhmm(), "25:34".to_string());
    assert_eq!(STime::new(123, 7).to_hhmm(), "123:07".to_string());
}

#[test]
fn parse_stime_reads_prefix() {
    assert_eq!(STime::parse_stime("12:30 and on"), Ok(STime::new(12, 30)));
    assert!(STime::parse_stime("noon").is_err());
}

#[test]
fn dates_compare_by_fields() {
    assert_eq!(Date::new(2019, 1, 23), Date::new(2019, 1, 23));
    assert_ne!(Date::new(2019, 1, 23), Date::new(2019, 1, 24));
}
