use chrono::NaiveDate;
use sysadmin::clock::{day_stamp_text, hour_stamp_text, second_stamp_text, utc_now, ClockTime};

fn time(year: i32, month: u32, day: u32, hour: u32, minute: u32, second: u32) -> ClockTime {
    ClockTime { year, month, day, hour, minute, second }
}

fn formatted(t: &ClockTime, pattern: &str) -> String {
    NaiveDate::from_ymd_opt(t.year, t.month, t.day)
        .unwrap()
        .and_hms_opt(t.hour, t.minute, t.second)
        .unwrap()
        .format(pattern)
        .to_string()
}

#[test]
fn stamps_of_an_ordinary_time() {
    let t = time(2024, 6, 5, 7, 8, 9);
    assert_eq!(day_stamp_text(&t), "20240605");
    assert_eq!(hour_stamp_text(&t), "2024060507");
    assert_eq!(second_stamp_text(&t), "20240605_070809");
}

#[test]
fn stamps_agree_with_chrono_formatting() {
    for t in [
        time(2024, 12, 31, 23, 59, 59),
        time(5, 1, 2, 3, 4, 5),
        time(12345, 6, 15, 12, 0, 0),
        time(-5, 3, 1, 0, 0, 0),
        time(0, 1, 1, 0, 0, 0),
    ] {
        assert_eq!(day_stamp_text(&t), formatted(&t, "%Y%m%d"));
        assert_eq!(hour_stamp_text(&t), formatted(&t, "%Y%m%d%H"));
        assert_eq!(second_stamp_text(&t), formatted(&t, "%Y%m%d_%H%M%S"));
    }
}

#[test]
fn years_outside_four_digits_carry_a_sign() {
    assert_eq!(day_stamp_text(&time(12345, 6, 15, 0, 0, 0)), "+123450615");
    assert_eq!(day_stamp_text(&time(-5, 3, 1, 0, 0, 0)), "-00050301");
}

#[test]
fn utc_now_reads_the_clock() {
    let t = utc_now().unwrap();
    let now = chrono::Utc::now();
    assert!(t.year >= 2024 && (1..=12).contains(&t.month) && (1..=31).contains(&t.day));
    assert!(t.hour <= 23 && t.minute <= 59 && t.second <= 59);
    let stamp = hour_stamp_text(&t);
    let expected = now.format("%Y%m%d%H").to_string();
    let earlier = (now - chrono::Duration::hours(1)).format("%Y%m%d%H").to_string();
    assert!(stamp == expected || stamp == earlier);
}
