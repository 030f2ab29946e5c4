use chrono::{Local, TimeZone};
use logcrab::generic::{build_generic_line, parse_generic_line, GenericLineParser, StampTime};

fn local_format(ms: i64, fmt: &str) -> String {
    Local
        .timestamp_millis_opt(ms)
        .single()
        .expect("valid local time")
        .format(fmt)
        .to_string()
}

#[test]
fn test_iso_timestamp() {
    let raw = "2025-11-20T14:23:45.123Z ERROR Connection failed".to_string();
    let line = parse_generic_line(raw, 1).expect("should parse ISO timestamp");
    assert_eq!(line.message_text, "ERROR Connection failed");
}

#[test]
fn test_hyphenated_timestamp() {
    let raw = "2025-11-26-09:58:05 , [402.037] ,cnss: fatal: SMMU fault happened with IOVA 0x0".to_string();
    let line = parse_generic_line(raw, 1).expect("should parse hyphenated timestamp");
    assert_eq!(
        line.message_text,
        ", [402.037] ,cnss: fatal: SMMU fault happened with IOVA 0x0"
    );
    assert_eq!(
        local_format(line.timestamp_ms, "%Y-%m-%d %H:%M:%S"),
        "2025-11-26 09:58:05"
    );
}

#[test]
fn test_syslog_format() {
    let raw = "Nov 20 14:23:45 INFO Application started".to_string();
    let line = parse_generic_line(raw, 1).expect("should parse syslog format");
    assert_eq!(line.message_text, "INFO Application started");
    assert_eq!(
        local_format(line.timestamp_ms, "%Y-%m-%d %H:%M:%S"),
        "1970-11-20 14:23:45"
    );
}

#[test]
fn test_iso_timestamp_with_space_and_milliseconds() {
    let raw = "2025-11-20 14:23:45.123 ERROR Connection failed".to_string();
    let line = parse_generic_line(raw, 1).expect("Should parse ISO timestamp with space and milliseconds");
    assert_eq!(line.message_text, "ERROR Connection failed");
    assert_eq!(
        local_format(line.timestamp_ms, "%Y-%m-%d %H:%M:%S%.3f"),
        "2025-11-20 14:23:45.123"
    );
}

#[test]
fn test_iso_timestamp_with_space_no_milliseconds() {
    let raw = "2025-11-20 14:23:45 WARN Timeout occurred".to_string();
    let line = parse_generic_line(raw, 1).expect("Should parse ISO timestamp with space, no milliseconds");
    assert_eq!(line.message_text, "WARN Timeout occurred");
    assert_eq!(
        local_format(line.timestamp_ms, "%Y-%m-%d %H:%M:%S"),
        "2025-11-20 14:23:45"
    );
}

#[test]
fn test_bracketed_timestamp_with_milliseconds() {
    let raw = "[2025-11-20 14:23:45.123] DEBUG Processing request".to_string();
    let line = parse_generic_line(raw, 1).expect("Should parse bracketed timestamp with milliseconds");
    assert_eq!(line.message_text, "DEBUG Processing request");
    assert_eq!(
        local_format(line.timestamp_ms, "%Y-%m-%d %H:%M:%S%.3f"),
        "2025-11-20 14:23:45.123"
    );
}

#[test]
fn test_bracketed_timestamp_without_milliseconds() {
    let raw = "[2025-11-20 14:23:45] INFO Service started".to_string();
    let line = parse_generic_line(raw, 1).expect("Should parse bracketed timestamp without milliseconds");
    assert_eq!(line.message_text, "INFO Service started");
    assert_eq!(
        local_format(line.timestamp_ms, "%Y-%m-%d %H:%M:%S"),
        "2025-11-20 14:23:45"
    );
}

#[test]
fn test_bracketed_ctime_timestamp() {
    let raw = "[Sat Mar  7 11:53:27 2026] kernel: usb 1-1: new high-speed USB device".to_string();
    let line = parse_generic_line(raw, 1).expect("should parse bracketed ctime timestamp");
    assert_eq!(line.message_text, "kernel: usb 1-1: new high-speed USB device");
    assert_eq!(
        local_format(line.timestamp_ms, "%Y-%m-%d %H:%M:%S"),
        "2026-03-07 11:53:27"
    );
}

#[test]
fn test_logcat_timestamp_format() {
    let raw = "11-20 14:23:45.123 E/ActivityManager: Process crashed".to_string();
    let line = parse_generic_line(raw, 1).expect("Should parse logcat timestamp format");
    assert_eq!(line.message_text, "E/ActivityManager: Process crashed");
    assert_eq!(
        local_format(line.timestamp_ms, "%Y-%m-%d %H:%M:%S%.3f"),
        "1970-11-20 14:23:45.123"
    );
}

#[test]
fn test_syslog_timestamp_with_milliseconds() {
    let raw = "Feb 03 23:26:34.864 qcgpio[gpio_drv.c:1222]: dalcfg_query_item_name gpio_driver done".to_string();
    let line = parse_generic_line(raw, 1).expect("Should parse syslog timestamp with milliseconds");
    assert_eq!(
        line.message_text,
        "qcgpio[gpio_drv.c:1222]: dalcfg_query_item_name gpio_driver done"
    );
    assert_eq!(
        local_format(line.timestamp_ms, "%Y-%m-%d %H:%M:%S%.3f"),
        "1970-02-03 23:26:34.864"
    );
}

#[test]
fn test_iso_timestamp_with_timezone_offset() {
    let raw = "2025-11-20T14:23:45+05:30 INFO Server running".to_string();
    let line = parse_generic_line(raw, 1).expect("Should parse ISO timestamp with timezone offset");
    assert_eq!(line.message_text, "INFO Server running");
}

#[test]
fn test_iso_timestamp_with_ms_and_timezone_offset() {
    let raw = "2026-02-05T09:20:23.638+01:00 INFO Server started".to_string();
    let line = parse_generic_line(raw, 1).expect("Should parse ISO timestamp with milliseconds and timezone offset");
    assert_eq!(line.message_text, "INFO Server started");
    assert_eq!(local_format(line.timestamp_ms, "%Y-%m-%d"), "2026-02-05");
}

#[test]
fn test_iso_timestamp_with_timezone_offset_no_colon() {
    let raw = "2026-02-05T09:20:23+0100 INFO Application started".to_string();
    let line = parse_generic_line(raw, 1).expect("Should parse ISO timestamp with timezone offset without colon");
    assert_eq!(line.message_text, "INFO Application started");
    assert_eq!(local_format(line.timestamp_ms, "%Y-%m-%d"), "2026-02-05");
}

#[test]
fn test_iso_timestamp_with_negative_timezone_no_colon() {
    let raw = "2026-02-10T15:30:00-0500 WARN Connection timeout".to_string();
    let line = parse_generic_line(raw, 1).expect("Should parse ISO timestamp with negative timezone offset without colon");
    assert_eq!(line.message_text, "WARN Connection timeout");
}

#[test]
fn test_slash_timestamp_with_microseconds() {
    let raw = "2026/03/09 01:20:14.942857 INFO Something happened".to_string();
    let line = parse_generic_line(raw, 1).expect("should parse slash-separated timestamp with microseconds");
    assert_eq!(line.message_text, "INFO Something happened");
    assert_eq!(
        local_format(line.timestamp_ms, "%Y-%m-%d %H:%M:%S"),
        "2026-03-09 01:20:14"
    );
}

#[test]
fn test_slash_timestamp_without_fraction() {
    let raw = "2026/03/09 01:20:14 DEBUG No fractions".to_string();
    let line = parse_generic_line(raw, 1).expect("should parse slash-separated timestamp without fraction");
    assert_eq!(line.message_text, "DEBUG No fractions");
    assert_eq!(
        local_format(line.timestamp_ms, "%Y-%m-%d %H:%M:%S"),
        "2026-03-09 01:20:14"
    );
}

#[test]
fn test_time_only_with_milliseconds() {
    let raw = "01:34:00.178 INFO Something happened".to_string();
    let line = parse_generic_line(raw, 1).expect("should parse time-only timestamp");
    assert_eq!(line.message_text, "INFO Something happened");
    assert_eq!(
        local_format(line.timestamp_ms, "%Y-%m-%d %H:%M:%S%.3f"),
        "1970-01-01 01:34:00.178"
    );
}

#[test]
fn test_time_only_without_fraction() {
    let raw = "01:34:00 DEBUG No fractions".to_string();
    let line = parse_generic_line(raw, 1).expect("should parse time-only timestamp without fraction");
    assert_eq!(line.message_text, "DEBUG No fractions");
    assert_eq!(
        local_format(line.timestamp_ms, "%Y-%m-%d %H:%M:%S"),
        "1970-01-01 01:34:00"
    );
}

#[test]
fn lines_without_timestamp_are_dropped() {
    assert!(parse_generic_line("no timestamp here".to_string(), 1).is_none());
    assert!(parse_generic_line(String::new(), 1).is_none());
}

#[test]
fn offset_timestamps_are_instants() {
    let parser = GenericLineParser::new().expect("patterns compile");
    let stamp = parser
        .locate("2026-02-05T09:20:23+0100 INFO x")
        .expect("timestamp found");
    match stamp.time {
        StampTime::Instant(ms) => assert_eq!(ms, 1_770_279_623_000),
        StampTime::Local(_) => panic!("an offset makes the time an instant"),
    }
    assert_eq!(stamp.consumed, "2026-02-05T09:20:23+0100".chars().count());
}

#[test]
fn local_timestamps_keep_calendar_fields() {
    let parser = GenericLineParser::new().expect("patterns compile");
    let stamp = parser.locate("[2025-11-20 14:23:45.123] x").expect("timestamp found");
    match stamp.time {
        StampTime::Local(f) => assert_eq!(f, (2025, 11, 20, 14, 23, 45, 123_000_000)),
        StampTime::Instant(_) => panic!("no offset: local time"),
    }
    assert_eq!(stamp.consumed, 25);
}

#[test]
fn line_keeps_its_text_when_nothing_follows_the_timestamp() {
    let line = parse_generic_line("2025-11-20 14:23:45".to_string(), 7).expect("parsed");
    assert_eq!(line.message_text, "2025-11-20 14:23:45");
    assert_eq!(line.raw_line, "2025-11-20 14:23:45");
    assert_eq!(line.line_number, 7);
}

#[test]
fn building_a_line_needs_a_timestamp() {
    assert!(build_generic_line("abc def".to_string(), 1, 3, None).is_none());
    let line = build_generic_line("abc   def".to_string(), 2, 3, Some(42)).expect("built");
    assert_eq!(line.message_text, "def");
    assert_eq!(line.timestamp_ms, 42);
    let whole = build_generic_line("abc".to_string(), 2, 10, Some(1)).expect("built");
    assert_eq!(whole.message_text, "abc");
}
