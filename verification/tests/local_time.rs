use chrono::NaiveDate;
use logcrab::calibration::parse_calibration_time;
use logcrab::detect::{boot_time_from, detect_header_info};
use logcrab::generic::parse_generic_line;
use logcrab::logcat::parse_logcat_line;

fn utc_ms(y: i32, mo: u32, d: u32, h: u32, mi: u32, s: u32, ms: u32) -> i64 {
    NaiveDate::from_ymd_opt(y, mo, d)
        .and_then(|d| d.and_hms_milli_opt(h, mi, s, ms))
        .expect("valid")
        .and_utc()
        .timestamp_millis()
}

fn is_local_reading(utc: i64, local: i64) -> bool {
    let diff = utc - local;
    diff % 1000 == 0 && diff.abs() < 86_400_000
}

#[test]
fn local_times_are_within_a_day_of_their_utc_reading() {
    let l = parse_logcat_line("03-05 10:20:30.456  1234  5678 I Tag: hi".to_string(), 1, 2024)
        .expect("logcat line");
    assert!(is_local_reading(utc_ms(2024, 3, 5, 10, 20, 30, 456), l.timestamp_ms));
    let g = parse_generic_line("2024-03-05 10:20:30 message".to_string(), 1).expect("generic line");
    assert!(is_local_reading(utc_ms(2024, 3, 5, 10, 20, 30, 0), g.timestamp_ms));
    let c = parse_calibration_time("2024-03-05").expect("calibration time");
    assert!(is_local_reading(utc_ms(2024, 3, 5, 0, 0, 0, 0), c));
}

#[test]
fn boot_time_is_dumpstate_time_minus_uptime() {
    assert_eq!(boot_time_from(10_000_000, Some(6)), 10_000_000 - 360_000);
    assert_eq!(boot_time_from(10_000_000, None), 0);
    let content = "== dumpstate: 2026-03-11 14:25:49\nUptime: up 0 weeks, 0 days, 0 hours, 6 minutes,  load average: 1.0\n";
    let (year, boot) = detect_header_info(content).expect("header");
    assert_eq!(year, 2026);
    assert!(is_local_reading(utc_ms(2026, 3, 11, 14, 25, 49, 0) - 360_000, boot));
}
