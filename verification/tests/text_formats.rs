use chrono::{Datelike, Local, NaiveDateTime, TimeZone};
use logcrab::bugreport::{BugreportAssembler, BugreportLogLine};
use logcrab::detect::{
    detect_header_info, detect_year_from_header, is_dmesg_line, is_logcat_line,
    looks_like_bugreport, looks_like_dmesg, looks_like_logcat,
};
use logcrab::dmesg::{parse_dmesg_line, DmesgAssembler, DmesgLogLine};
use logcrab::formats::{detect_text_type, looks_like_otel, TextFormat};
use logcrab::logcat::parse_logcat_line;

fn local_format(ms: i64, fmt: &str) -> String {
    Local
        .timestamp_millis_opt(ms)
        .single()
        .expect("valid local time")
        .format(fmt)
        .to_string()
}

// ---- bugreport header ----

#[test]
fn test_detect_year_from_header() {
    let content = "\n    ========================================================\n    == dumpstate: 2024-11-27 14:08:01\n    ========================================================\n    ";
    assert_eq!(detect_year_from_header(content), Some(2024));
}

#[test]
fn test_detect_year_from_header_missing() {
    assert_eq!(
        detect_year_from_header("plain logcat output\n11-20 14:23:45.123 msg"),
        None
    );
}

#[test]
fn test_detect_header_info_year() {
    let content = "========================================================\n== dumpstate: 2026-03-11 14:25:49\n========================================================\nUptime: up 0 weeks, 0 days, 0 hours, 6 minutes,  load average: 1.0, 1.0, 1.0\n";
    let (year, _boot_ms) = detect_header_info(content).expect("should parse");
    assert_eq!(year, 2026);
}

#[test]
fn test_detect_header_info_boot_time() {
    let content = "========================================================\n== dumpstate: 2026-03-11 14:25:49\n========================================================\nUptime: up 0 weeks, 0 days, 0 hours, 6 minutes,  load average: 1.0, 1.0, 1.0\n";
    let (_year, boot_ms) = detect_header_info(content).expect("should parse");
    // Boot time ≈ dumpstate − 6 minutes
    let dumpstate_ms = Local
        .from_local_datetime(
            &NaiveDateTime::parse_from_str("2026-03-11 14:25:49", "%Y-%m-%d %H:%M:%S").unwrap(),
        )
        .single()
        .unwrap()
        .timestamp_millis();
    let expected = dumpstate_ms - 6 * 60 * 1000;
    assert_eq!(boot_ms, expected);
}

#[test]
fn header_without_uptime_has_zero_boot_time() {
    let content = "== dumpstate: 2025-01-02 03:04:05\nsome other line\n";
    assert_eq!(detect_header_info(content).map(|(_, b)| b), Some(0));
}

#[test]
fn uptime_counts_weeks_days_and_hours() {
    let content = "== dumpstate: 2025-01-02 03:04:05\nUptime: up 1 week, 2 days, 3 hours, 4 minutes\n";
    let dumpstate_ms = Local
        .from_local_datetime(
            &NaiveDateTime::parse_from_str("2025-01-02 03:04:05", "%Y-%m-%d %H:%M:%S").unwrap(),
        )
        .single()
        .unwrap()
        .timestamp_millis();
    let minutes: i64 = 10080 + 2 * 1440 + 3 * 60 + 4;
    assert_eq!(
        detect_header_info(content),
        Some((2025, dumpstate_ms - minutes * 60_000))
    );
}

#[test]
fn bugreport_sniffer_needs_a_dumpstate_header() {
    assert!(looks_like_bugreport(b"== dumpstate: 2024-11-27 14:08:01\n"));
    assert!(!looks_like_bugreport(b"11-20 14:23:45.123 msg\n"));
}

// ---- line formats ----

#[test]
fn test_is_dmesg_line() {
    assert!(is_dmesg_line("[    0.000000] Linux version 6.1.0"));
    assert!(is_dmesg_line("[42798.603585] init: service 'foo' started"));
    assert!(!is_dmesg_line("2024-01-01 00:00:00 some generic log"));
    assert!(!is_dmesg_line("01-20 14:23:45.123 logcat line"));
    assert!(!is_dmesg_line("just plain text"));
    assert!(!is_dmesg_line("[42798.60358] wrong fractional digits"));
}

#[test]
fn test_is_logcat_line() {
    assert!(is_logcat_line("11-20 14:23:45.123 some message"));
    assert!(is_logcat_line("01-01 00:00:00.000 test"));
    assert!(!is_logcat_line("2024-11-20 14:23:45 generic format"));
    assert!(!is_logcat_line("just some text"));
}

fn repeated(line: &str, n: usize) -> Vec<u8> {
    let mut s = String::new();
    for _ in 0..n {
        s.push_str(line);
        s.push('\n');
    }
    s.into_bytes()
}

#[test]
fn sniffers_need_ten_matching_lines() {
    assert!(looks_like_dmesg(&repeated("[    1.000000] kernel line", 10)));
    assert!(!looks_like_dmesg(&repeated("[    1.000000] kernel line", 9)));
    assert!(looks_like_logcat(&repeated("11-20 14:23:45.123 msg", 10)));
    assert!(!looks_like_logcat(&repeated("11-20 14:23:45.123 msg", 9)));
}

#[test]
fn sniffers_look_at_the_first_hundred_lines_only() {
    let mut sample = repeated("plain text", 100);
    sample.extend(repeated("[    1.000000] kernel line", 20));
    assert!(!looks_like_dmesg(&sample));
}

const SAMPLE_OTLP: &str = r#"{
    "resourceLogs": [{
        "resource": {
            "attributes": [{
                "key": "service.name",
                "value": { "stringValue": "test-service" }
            }]
        },
        "scopeLogs": [{
            "scope": { "name": "my-logger" },
            "logRecords": [{
                "timeUnixNano": "1700000000000000000",
                "severityNumber": 9,
                "severityText": "INFO",
                "body": { "stringValue": "Hello from OTel" },
                "attributes": [],
                "traceId": "",
                "spanId": ""
            }]
        }]
    }]
}"#;

#[test]
fn test_looks_like_otlp() {
    assert!(looks_like_otel(SAMPLE_OTLP.as_bytes()));
}

#[test]
fn test_looks_like_rejects_plain_text() {
    assert!(!looks_like_otel(b"2025-01-01 INFO some log line"));
}

#[test]
fn otel_snake_case_key_is_recognised() {
    assert!(looks_like_otel(br#"{"resource_logs": []}"#));
}

#[test]
fn text_detection_tries_formats_in_registration_order() {
    let mut bugreport = b"== dumpstate: 2024-11-27 14:08:01\n".to_vec();
    bugreport.extend(repeated("11-20 14:23:45.123 msg", 20));
    assert_eq!(detect_text_type(&bugreport), TextFormat::Bugreport);
    assert_eq!(detect_text_type(&repeated("11-20 14:23:45.123 msg", 20)), TextFormat::Logcat);
    assert_eq!(detect_text_type(&repeated("[    1.000000] kernel", 20)), TextFormat::Dmesg);
    assert_eq!(detect_text_type(SAMPLE_OTLP.as_bytes()), TextFormat::Otel);
    assert_eq!(detect_text_type(b"hello\nworld\n"), TextFormat::Generic);
}

#[test]
fn text_detection_sniffs_only_the_first_4096_bytes() {
    let mut sample = vec![b'x'; 4096];
    sample.extend_from_slice(br#""resourceLogs""#);
    assert_eq!(detect_text_type(&sample), TextFormat::Generic);
}

// ---- dmesg ----

#[test]
fn test_parse_basic_line() {
    let raw = "[    0.000000] Initializing cgroup subsys cpuset".to_string();
    let line = parse_dmesg_line(raw, 1).expect("should parse dmesg line");
    assert_eq!(line.message_text, "Initializing cgroup subsys cpuset");
    assert_eq!(line.timestamp_micros, 0);
}

#[test]
fn test_parse_large_timestamp() {
    let raw = "[42798.603585] init: service 'foo' requested start".to_string();
    let line = parse_dmesg_line(raw, 2).expect("should parse dmesg line");
    assert_eq!(line.message_text, "init: service 'foo' requested start");
    // 42798 seconds + 603585 microseconds
    assert_eq!(line.timestamp_micros, 42798 * 1_000_000 + 603_585);
}

#[test]
fn test_non_matching_returns_none() {
    assert!(parse_dmesg_line("not a dmesg line".to_string(), 1).is_none());
}

fn assemble(content: &str) -> Vec<DmesgLogLine> {
    let mut a = DmesgAssembler::new();
    let mut out = Vec::new();
    for (i, line) in content.lines().enumerate() {
        if let Some(done) = a.push_line(line.to_string(), i + 1) {
            out.push(done);
        }
    }
    if let Some(last) = a.finish() {
        out.push(last);
    }
    out
}

#[test]
fn test_multiline_continuation_appended() {
    let content = "[   1.000000] First line\ncontinuation one\ncontinuation two\n[   2.000000] Second entry\n";
    let lines = assemble(content);
    assert_eq!(lines.len(), 2);
    assert_eq!(lines[0].message_text, "First line\ncontinuation one\ncontinuation two");
    assert_eq!(lines[0].raw_line, "[   1.000000] First line\ncontinuation one\ncontinuation two");
    assert_eq!(lines[1].message_text, "Second entry");
}

#[test]
fn test_orphan_continuation_dropped() {
    // A continuation before any timestamped line should be silently dropped.
    let content = "orphan line\n[   1.000000] Real entry\n";
    let lines = assemble(content);
    assert_eq!(lines.len(), 1);
    assert_eq!(lines[0].message_text, "Real entry");
}

#[test]
fn test_last_entry_flushed_on_eof() {
    let content = "[   1.000000] Only entry\ncontinuation\n";
    let lines = assemble(content);
    assert_eq!(lines.len(), 1);
    assert_eq!(lines[0].message_text, "Only entry\ncontinuation");
}

#[test]
fn test_pending_carried_across_batches() {
    let mut a = DmesgAssembler::new();
    // "[   1.000000] Entry" — pending, no output yet.
    assert!(a.push_line("[   1.000000] Entry".to_string(), 1).is_none());
    // "continuation" — appended, no new flush.
    assert!(a.push_line("continuation".to_string(), 2).is_none());
    // "[   2.000000] Next" — flushes first entry, holds second.
    let b3 = a.push_line("[   2.000000] Next".to_string(), 3).expect("flushed");
    assert_eq!(b3.message_text, "Entry\ncontinuation");
    assert_eq!(b3.line_number, 1);
    // EOF — flushes second entry.
    let b4 = a.finish().expect("flushed at end");
    assert_eq!(b4.message_text, "Next");
    assert!(a.finish().is_none());
}

// ---- logcat ----

#[test]
fn test_threadtime_format() {
    let raw = "11-20 14:23:45.123  1234  5678 I ActivityManager: Start proc com.example.app".to_string();
    let line = parse_logcat_line(raw, 1, 2024).expect("should parse logcat line");
    assert_eq!(line.message_text, "1234  5678 I ActivityManager: Start proc com.example.app");
}

#[test]
fn test_threadtime_with_process_name() {
    let raw = "01-01 00:00:07.329  root     8     8 I CAM_INFO: CAM-ICP: cam_icp_mgr_process_dbg_buf"
        .to_string();
    let line = parse_logcat_line(raw, 1, 2024).expect("should parse logcat line");
    assert_eq!(
        line.message_text,
        "root     8     8 I CAM_INFO: CAM-ICP: cam_icp_mgr_process_dbg_buf"
    );
}

#[test]
fn test_fallback_format() {
    let raw = "11-20 14:23:45.123 Some message without tag".to_string();
    let line = parse_logcat_line(raw, 1, 2024).expect("should parse logcat line");
    assert_eq!(line.message_text, "Some message without tag");
}

#[test]
fn test_parse_with_detected_year() {
    let raw = "11-20 14:23:45.123 Test message".to_string();
    let line = parse_logcat_line(raw, 1, 2023).expect("should parse logcat line");
    let ts = Local.timestamp_millis_opt(line.timestamp_ms).single().unwrap();
    assert!(ts.year() == 2023);
    assert_eq!(local_format(line.timestamp_ms, "%m-%d %H:%M:%S%.3f"), "11-20 14:23:45.123");
}

#[test]
fn logcat_rejects_other_lines() {
    assert!(parse_logcat_line("hello".to_string(), 1, 2024).is_none());
    assert!(parse_logcat_line("13-45 14:23:45.123 bad date".to_string(), 1, 2024).is_none());
}

// ---- bugreport ----

#[test]
fn bugreport_sorts_kernel_and_logcat_lines() {
    let mut a = BugreportAssembler::new(2024);
    assert!(a.push_line("[    5.000000] kernel says hi".to_string(), 1).is_empty());
    assert!(a.push_line("  more kernel".to_string(), 2).is_empty());
    let out = a.push_line("11-20 14:23:45.123  1 2 I Tag: hello".to_string(), 3);
    assert_eq!(out.len(), 2);
    match &out[0] {
        BugreportLogLine::Dmesg(d) => assert_eq!(d.message_text, "kernel says hi\n  more kernel"),
        BugreportLogLine::Logcat(_) => panic!("expected the kernel entry first"),
    }
    match &out[1] {
        BugreportLogLine::Logcat(l) => assert_eq!(l.message_text, "1 2 I Tag: hello"),
        BugreportLogLine::Dmesg(_) => panic!("expected the logcat line second"),
    }
    assert!(a.finish().is_none());
}

#[test]
fn bugreport_separator_ends_kernel_entry() {
    let mut a = BugreportAssembler::new(2024);
    assert!(a.push_line("[    5.000000] kernel".to_string(), 1).is_empty());
    let out = a.push_line("------ SYSTEM LOG ------".to_string(), 2);
    assert_eq!(out.len(), 1);
    assert!(a.push_line("orphan".to_string(), 3).is_empty());
    assert!(a.finish().is_none());
}

#[test]
fn dmesg_entries_do_not_depend_on_batch_size() {
    let content = "[   1.000000] Entry\ncontinuation\n[   2.000000] Next\nmore\n[   3.5] Last\n";
    let whole = assemble(content);
    let lines: Vec<&str> = content.lines().collect();
    for k in 1..=lines.len() + 1 {
        let mut a = DmesgAssembler::new();
        let mut out: Vec<DmesgLogLine> = Vec::new();
        for (b, batch) in lines.chunks(k).enumerate() {
            for (j, line) in batch.iter().enumerate() {
                if let Some(done) = a.push_line(line.to_string(), b * k + j + 1) {
                    out.push(done);
                }
            }
        }
        if let Some(last) = a.finish() {
            out.push(last);
        }
        assert_eq!(out.len(), whole.len());
        for (x, y) in out.iter().zip(whole.iter()) {
            assert_eq!(x.message_text, y.message_text);
            assert_eq!(x.raw_line, y.raw_line);
            assert_eq!(x.line_number, y.line_number);
        }
    }
}

#[test]
fn sniffers_skip_blank_lines() {
    let mut logcat = "\n".repeat(100);
    let mut dmesg = "\n".repeat(100);
    for i in 0..10 {
        logcat.push_str(&format!("11-20 14:23:4{i}.123 msg\n\n"));
        dmesg.push_str(&format!("[    {i}.000000] kernel line\n\n"));
    }
    assert!(looks_like_logcat(logcat.as_bytes()));
    assert!(looks_like_dmesg(dmesg.as_bytes()));
    let mut late = String::new();
    for _ in 0..95 {
        late.push_str("not a log line\n");
    }
    for i in 0..10 {
        late.push_str(&format!("11-20 14:23:4{i}.123 msg\n"));
    }
    assert!(!looks_like_logcat(late.as_bytes()));
}
