use chrono::{Local, NaiveDate, TimeZone};
use logcrab::calibration::parse_calibration_time;

fn local_ms(y: i32, mo: u32, d: u32, h: u32, mi: u32, s: u32, ms: u32) -> i64 {
    let naive = NaiveDate::from_ymd_opt(y, mo, d)
        .and_then(|d| d.and_hms_milli_opt(h, mi, s, ms))
        .expect("valid date");
    Local
        .from_local_datetime(&naive)
        .single()
        .expect("unambiguous local time")
        .timestamp_millis()
}

#[test]
fn calibration_time_with_milliseconds() {
    assert_eq!(
        parse_calibration_time("  2024-03-05 10:20:30.456 "),
        Ok(local_ms(2024, 3, 5, 10, 20, 30, 456))
    );
}

#[test]
fn calibration_time_with_seconds_or_date_alone() {
    assert_eq!(
        parse_calibration_time("2024-03-05 10:20:30"),
        Ok(local_ms(2024, 3, 5, 10, 20, 30, 0))
    );
    assert_eq!(parse_calibration_time("2024-03-05"), Ok(local_ms(2024, 3, 5, 0, 0, 0, 0)));
}

#[test]
fn calibration_time_rejects_other_text() {
    assert_eq!(
        parse_calibration_time("yesterday"),
        Err("Invalid format. Use: YYYY-MM-DD HH:MM:SS.mmm".to_string())
    );
    assert_eq!(
        parse_calibration_time("2024-13-05 10:20:30"),
        Err("Invalid format. Use: YYYY-MM-DD HH:MM:SS.mmm".to_string())
    );
}
