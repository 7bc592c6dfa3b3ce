use sentiment_rollup::calendar::{day_of_timestamp, day_text, SECONDS_PER_DAY};

fn timestamp(year: i32, month: u32, day: u32, hour: u32, minute: u32, second: u32) -> i64 {
    chrono::NaiveDate::from_ymd_opt(year, month, day)
        .unwrap()
        .and_hms_opt(hour, minute, second)
        .unwrap()
        .and_utc()
        .timestamp()
}

#[test]
fn epoch_is_day_zero() {
    assert_eq!(day_of_timestamp(0), 0);
    assert_eq!(day_of_timestamp(SECONDS_PER_DAY - 1), 0);
    assert_eq!(day_of_timestamp(SECONDS_PER_DAY), 1);
}

#[test]
fn instants_before_the_epoch_round_down() {
    assert_eq!(day_of_timestamp(-1), -1);
    assert_eq!(day_of_timestamp(-SECONDS_PER_DAY), -1);
    assert_eq!(day_of_timestamp(-SECONDS_PER_DAY - 1), -2);
}

#[test]
fn extreme_timestamps_have_a_day() {
    assert_eq!(day_of_timestamp(i64::MAX), 106_751_991_167_300);
    assert_eq!(day_of_timestamp(i64::MIN), -106_751_991_167_301);
}

#[test]
fn day_of_a_june_morning() {
    assert_eq!(day_of_timestamp(timestamp(2023, 6, 10, 0, 0, 28)), 19_518);
    assert_eq!(day_of_timestamp(timestamp(2023, 6, 10, 23, 59, 59)), 19_518);
    assert_eq!(day_of_timestamp(timestamp(2023, 6, 11, 0, 0, 0)), 19_519);
}

#[test]
fn day_agrees_with_the_calendar() {
    let instants = [
        timestamp(1969, 12, 31, 23, 59, 59),
        timestamp(1970, 1, 1, 0, 0, 0),
        timestamp(2000, 2, 29, 12, 0, 0),
        timestamp(2023, 6, 14, 0, 2, 6),
        timestamp(2038, 1, 19, 3, 14, 8),
    ];
    for instant in instants {
        let date = chrono::DateTime::from_timestamp(instant, 0).unwrap().date_naive();
        assert_eq!(day_text(day_of_timestamp(instant)), Some(date.to_string()));
    }
}

#[test]
fn day_text_is_year_month_day() {
    assert_eq!(day_text(0), Some("1970-01-01".to_string()));
    assert_eq!(day_text(-1), Some("1969-12-31".to_string()));
    assert_eq!(day_text(19_518), Some("2023-06-10".to_string()));
    assert_eq!(day_text(19_521), Some("2023-06-13".to_string()));
}

#[test]
fn day_text_of_a_far_year_is_signed() {
    assert_eq!(day_text(2_932_897), Some("+10000-01-01".to_string()));
}

#[test]
fn day_without_a_calendar_date_has_no_text() {
    assert_eq!(day_text(i64::MAX), None);
    assert_eq!(day_text(i64::MIN), None);
    assert_eq!(day_text(i32::MAX as i64), None);
    assert_eq!(day_text(i32::MAX as i64 + 1), None);
    assert_eq!(day_text(i32::MIN as i64 - 1), None);
}
