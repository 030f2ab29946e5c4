use logcrab::config::DltTimestampSource;
use logcrab::dlt::{
    boot_time_key, convert_dlt_message, format_body, split_boot_time_key, DltArgument, DltExtendedHeader, DltPayload, DltReaderState,
    DltRecord, DltStorageHeader, DltTimes, DltValue,
};
use logcrab::filter::{line_passes_filter, Deduplicator};
use logcrab::input::keyboard::{ShortcutAction, ShortcutBindings};
use logcrab::pattern::Pattern;
use logcrab::store::StoreID;

fn record(payload: DltPayload) -> DltRecord {
    DltRecord {
        ecu_id: Some("ECU1".to_string()),
        session_id: Some(7),
        timestamp: Some(12_345),
        extended_header: Some(DltExtendedHeader {
            message_type: "Log(Info)".to_string(),
            application_id: "APP".to_string(),
            context_id: "CTX".to_string(),
        }),
        storage_header: Some(DltStorageHeader { seconds: 1_700_000_000, microseconds: 500, ecu_id: "ECU1".to_string() }),
        payload,
    }
}

#[test]
fn dlt_verbose_body() {
    let r = record(DltPayload::Verbose(vec![
        DltArgument { name: None, value: DltValue::Str("hello".to_string()) },
        DltArgument { name: Some("count".to_string()), value: DltValue::I32(-5) },
        DltArgument { name: None, value: DltValue::Raw(vec![0x0a, 0xff]) },
        DltArgument { name: None, value: DltValue::Bool(1) },
        DltArgument { name: None, value: DltValue::U128(340282366920938463463374607431768211455) },
        DltArgument { name: None, value: DltValue::I128(i128::MIN) },
    ]));
    assert_eq!(
        format_body(&r),
        "ECU1 7 APP CTX Log(Info) hello || count: -5 || [0a, ff] || 1 || 340282366920938463463374607431768211455 || -170141183460469231731687303715884105728"
    );
}

#[test]
fn dlt_other_payloads() {
    assert_eq!(format_body(&record(DltPayload::NonVerbose(vec![1, 2]))), "ECU1 7 APP CTX Log(Info) [01, 02]");
    assert_eq!(format_body(&record(DltPayload::ControlMsg(vec![]))), "ECU1 7 APP CTX Log(Info) ControlMsg: []");
    assert_eq!(format_body(&record(DltPayload::NetworkTrace(3))), "ECU1 7 APP CTX Log(Info) NetworkTrace: 3 traces");
    let mut bare = record(DltPayload::Verbose(vec![]));
    bare.ecu_id = None;
    bare.session_id = None;
    bare.extended_header = None;
    assert_eq!(format_body(&bare), "UnknownECU 0   Unknown ");
}

#[test]
fn dlt_messages_need_storage_and_extended_headers() {
    let line = convert_dlt_message(record(DltPayload::Verbose(vec![])), 4).expect("placed");
    assert_eq!(line.storage_time_us, 1_700_000_000_000_500);
    assert_eq!(line.header_timestamp_us, Some(1_234_500));
    assert_eq!(line.ecu_id, "ECU1");
    assert_eq!(line.app_id, "APP");
    assert_eq!(line.line_number, 4);
    let mut no_ext = record(DltPayload::Verbose(vec![]));
    no_ext.extended_header = None;
    assert!(convert_dlt_message(no_ext, 1).is_none());
    let mut no_storage = record(DltPayload::Verbose(vec![]));
    no_storage.storage_header = None;
    assert!(convert_dlt_message(no_storage, 1).is_none());
}

#[test]
fn dlt_boot_time_is_inferred_from_the_first_message() {
    let mut state = DltReaderState::new();
    let mut times = DltTimes::new();
    let first = state.accept(record(DltPayload::Verbose(vec![])), &mut times).expect("placed");
    assert_eq!(first.line_number, 1);
    let boot = 1_700_000_000_000_500 - 1_234_500;
    assert_eq!(times.get_boot_time("ECU1", "APP"), Some(boot));
    let mut later = record(DltPayload::Verbose(vec![]));
    later.timestamp = Some(0);
    let second = state.accept(later, &mut times).expect("placed");
    assert_eq!(second.line_number, 2);
    // The first message's boot time is kept.
    assert_eq!(times.get_boot_time("ECU1", "APP"), Some(boot));
    assert_eq!(times.timestamp_us(&second, DltTimestampSource::InferredMonotonic), boot);
    assert_eq!(times.timestamp_us(&second, DltTimestampSource::StorageTime), 1_700_000_000_000_500);
    times.set_storage_offset_ms(2);
    assert_eq!(times.timestamp_us(&second, DltTimestampSource::StorageTime), 1_700_000_000_002_500);
    assert_eq!(times.get_boot_time("ECU1", "OTHER"), None);
}

#[test]
fn exclude_pattern_removes_lines() {
    let wanted = Pattern::compile("wifi").expect("valid");
    let exclude = Pattern::compile("scan").expect("valid");
    assert!(line_passes_filter(&wanted, Some(&exclude), "wifi up", "wifi up"));
    assert!(!line_passes_filter(&wanted, Some(&exclude), "wifi scan", "x"));
    assert!(!line_passes_filter(&wanted, Some(&exclude), "wifi", "raw scan"));
    assert!(line_passes_filter(&wanted, None, "wifi scan", "x"));
    assert!(!line_passes_filter(&wanted, None, "bt", "bt"));
}

#[test]
fn duplicates_are_hidden() {
    let mut d = Deduplicator::new();
    let a = StoreID::new(1, 0);
    let b = StoreID::new(1, 1);
    let c = StoreID::new(2, 0);
    assert!(d.offer(a, Some((5, "same".to_string()))));
    assert!(!d.offer(b, Some((5, "same".to_string()))));
    // Another source, another time or another message is no duplicate.
    assert!(d.offer(c, Some((5, "same".to_string()))));
    assert!(d.offer(b, Some((6, "same".to_string()))));
    assert!(d.offer(b, Some((5, "other".to_string()))));
    // Lines the store no longer has are kept.
    assert!(d.offer(a, None));
    assert!(d.offer(a, None));
}

#[test]
fn default_bindings_cover_every_action() {
    let b = ShortcutBindings::defaults();
    for a in ShortcutAction::all() {
        assert_eq!(b.get_shortcut(*a), a.default_binding());
    }
}

#[test]
fn configured_bindings_replace_defaults() {
    let b = ShortcutBindings::load(&vec![(ShortcutAction::MoveUp, "Up".to_string())]);
    assert_eq!(b.get_shortcut(ShortcutAction::MoveUp), "Up");
    assert_eq!(b.get_shortcut(ShortcutAction::MoveDown), "");
    let empty = ShortcutBindings::load(&vec![]);
    assert_eq!(empty.get_shortcut(ShortcutAction::MoveDown), "j");
    let saved = b.save_to_config();
    assert_eq!(saved.len(), 1);
}

#[test]
fn rebinding_checks_the_key_sequence() {
    let mut b = ShortcutBindings::defaults();
    assert_eq!(b.set_shortcut(ShortcutAction::OpenFile, "Ctrl+p"), Ok(()));
    assert_eq!(b.get_shortcut(ShortcutAction::OpenFile), "Ctrl+p");
    let err = b.set_shortcut(ShortcutAction::OpenFile, "Fooo").unwrap_err();
    assert_eq!(err, "Invalid keybind: Unknown key \"Fooo\" in key sequence");
    assert_eq!(b.get_shortcut(ShortcutAction::OpenFile), "Ctrl+p");
}

#[test]
fn boot_time_keys_round_trip() {
    let key = boot_time_key("ECU1", "APP");
    assert_eq!(key, "ECU1\u{1F}APP");
    assert_eq!(split_boot_time_key(&key), Some(("ECU1".to_string(), "APP".to_string())));
    // Split at the first separator.
    assert_eq!(
        split_boot_time_key("E\u{1F}A\u{1F}B"),
        Some(("E".to_string(), "A\u{1F}B".to_string()))
    );
    assert_eq!(split_boot_time_key("no separator"), None);
}
