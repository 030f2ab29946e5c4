use logcrab::otel::{
    build_otel_message, find_service_name, otel_log_lines, OtelAttribute, OtelFileType, OtelRecord,
    OtelResourceLogs,
};

fn attribute(key: &str, value: Option<&str>) -> OtelAttribute {
    OtelAttribute {
        key: key.to_string(),
        string_value: value.map(|v| v.to_string()),
    }
}

fn record(time: u64, observed: u64, severity: &str, body: &str) -> OtelRecord {
    OtelRecord {
        time_unix_nano: time,
        observed_time_unix_nano: observed,
        severity_text: severity.to_string(),
        body: body.to_string(),
        raw: format!("{{\"body\":\"{body}\"}}"),
    }
}

/// The resource of the sample OTLP document: service `test-service`, one
/// scope with one INFO record.
fn sample() -> Vec<OtelResourceLogs> {
    vec![OtelResourceLogs {
        attributes: vec![attribute("service.name", Some("test-service"))],
        scope_logs: vec![vec![record(
            1_700_000_000_000_000_000,
            0,
            "INFO",
            "Hello from OTel",
        )]],
    }]
}

#[test]
fn test_parse_otlp_records() {
    let resources = sample();
    let mut ft = OtelFileType::open(&resources, 420);
    let lines = ft.read(100);
    assert_eq!(lines.len(), 1);
    assert_eq!(lines[0].message_text, "test-service INFO Hello from OTel");
    assert_eq!(lines[0].line_number, 1);
}

#[test]
fn otel_record_time_falls_back_to_observed_time() {
    let resources = vec![OtelResourceLogs {
        attributes: vec![],
        scope_logs: vec![vec![record(0, 5_000, "", "a"), record(7, 5_000, "", "b"), record(0, 0, "", "c")]],
    }];
    let lines = otel_log_lines(&resources);
    assert_eq!(lines[0].timestamp_nanos, 5_000);
    assert_eq!(lines[1].timestamp_nanos, 7);
    assert_eq!(lines[2].timestamp_nanos, 0);
}

#[test]
fn otel_lines_are_numbered_across_scopes_and_resources() {
    let resources = vec![
        OtelResourceLogs {
            attributes: vec![attribute("service.name", Some("alpha"))],
            scope_logs: vec![vec![record(1, 0, "WARN", "one")], vec![], vec![record(2, 0, "", "two")]],
        },
        OtelResourceLogs {
            attributes: vec![attribute("host", Some("x"))],
            scope_logs: vec![vec![record(3, 0, "ERROR", "three")]],
        },
    ];
    let lines = otel_log_lines(&resources);
    let messages: Vec<&str> = lines.iter().map(|l| l.message_text.as_str()).collect();
    assert_eq!(messages, vec!["alpha WARN one", "alpha two", "ERROR three"]);
    let numbers: Vec<usize> = lines.iter().map(|l| l.line_number).collect();
    assert_eq!(numbers, vec![1, 2, 3]);
    assert_eq!(lines[0].raw_line, "{\"body\":\"one\"}");
}

#[test]
fn otel_service_name_skips_attributes_without_a_string_value() {
    let attrs = vec![
        attribute("service.name", None),
        attribute("service.version", Some("1.2")),
        attribute("service.name", Some("billing")),
        attribute("service.name", Some("later")),
    ];
    assert_eq!(find_service_name(&attrs), Some("billing".to_string()));
    assert_eq!(find_service_name(&vec![attribute("service.name", None)]), None);
    assert_eq!(find_service_name(&vec![]), None);
}

#[test]
fn otel_message_parts() {
    let svc = Some("svc".to_string());
    assert_eq!(build_otel_message(&svc, &"DEBUG".to_string(), &"body".to_string()), "svc DEBUG body");
    assert_eq!(build_otel_message(&None, &"".to_string(), &"body".to_string()), "body");
    assert_eq!(build_otel_message(&svc, &"".to_string(), &"".to_string()), "svc ");
}

#[test]
fn otel_reader_hands_out_batches_and_tracks_progress() {
    let resources = vec![OtelResourceLogs {
        attributes: vec![],
        scope_logs: vec![vec![
            record(1, 0, "", "a"),
            record(2, 0, "", "b"),
            record(3, 0, "", "c"),
            record(4, 0, "", "d"),
        ]],
    }];
    let mut ft = OtelFileType::open(&resources, 1000);
    assert_eq!(ft.bytes_consumed(), 0);
    let first = ft.read(1);
    assert_eq!(first.len(), 1);
    assert_eq!(first[0].message_text, "a");
    // 3 of 4 lines remain: 1000 - 1000 * 3 / 4
    assert_eq!(ft.bytes_consumed(), 250);
    let second = ft.read(10);
    assert_eq!(second.len(), 3);
    assert_eq!(second[2].message_text, "d");
    assert_eq!(ft.bytes_consumed(), 1000);
    let third = ft.read(10);
    assert!(third.is_empty());
    assert_eq!(ft.bytes_consumed(), 1000);
}

const SAMPLE_OTLP: &str = r#"{
    "resourceLogs": [{
        "resource": {
            "attributes": [{
                "key": "service.name",
                "value": { "stringValue": "test-service" }
            }]
        },
        "scopeLogs": [{
            "scope": { "name": "my-logger" },
            "logRecords": [{
                "timeUnixNano": "1700000000000000000",
                "severityNumber": 9,
                "severityText": "INFO",
                "body": { "stringValue": "Hello from OTel" },
                "attributes": [],
                "traceId": "",
                "spanId": ""
            }]
        }]
    }]
}"#;

#[test]
fn otel_reader_parses_otlp_json_text() {
    let mut ft = OtelFileType::open_text(SAMPLE_OTLP, 500).expect("valid OTLP JSON");
    let lines = ft.read(100);
    assert_eq!(lines.len(), 1);
    assert_eq!(lines[0].message_text, "test-service INFO Hello from OTel");
    assert_eq!(lines[0].line_number, 1);
    assert_eq!(lines[0].timestamp_nanos, 1_700_000_000_000_000_000);
    assert!(lines[0].raw_line.contains("Hello from OTel"));
    assert!(OtelFileType::open_text("not json", 8).is_none());
}
