use logcrab::bugreport::BugreportLogLine;
use logcrab::dmesg::DmesgLogLine;
use logcrab::file_state::{BugreportFileState, SimpleFileState, BUGREPORT_STATE_VERSION};
use logcrab::logcat::LogcatLogLine;

#[test]
fn simple_state_holds_one_offset() {
    let mut s = SimpleFileState::default();
    assert_eq!(s.time_offset_ms(), 0);
    s.set_time_offset_ms(-1500);
    assert_eq!(s.time_offset_ms(), -1500);
}

#[test]
fn bugreport_dmesg_offset_is_initialised_once() {
    let mut s = BugreportFileState::default();
    s.init_dmesg_offset_if_zero(1_700_000_000_000);
    assert_eq!(s.dmesg_offset_ms(), 1_700_000_000_000);
    // A restored (or user-adjusted) offset is kept.
    s.set_dmesg_offset_ms(42);
    s.init_dmesg_offset_if_zero(7);
    assert_eq!(s.dmesg_offset_ms(), 42);
    assert_eq!(s.logcat_offset_ms(), 0);
}

#[test]
fn bugreport_saved_state_versions() {
    let v0 = BugreportFileState::from_saved(0, 250, 9, 9);
    assert_eq!(v0.logcat_offset_ms(), 250);
    assert_eq!(v0.dmesg_offset_ms(), 0);
    let v1 = BugreportFileState::from_saved(BUGREPORT_STATE_VERSION, 250, 9, 11);
    assert_eq!(v1.logcat_offset_ms(), 9);
    assert_eq!(v1.dmesg_offset_ms(), 11);
}

#[test]
fn bugreport_lines_are_placed_by_their_side_offset() {
    let mut state = BugreportFileState::default();
    state.set_logcat_offset_ms(-2);
    state.init_dmesg_offset_if_zero(1_000_000);
    let logcat = BugreportLogLine::Logcat(LogcatLogLine {
        raw_line: String::new(),
        timestamp_ms: 5_000,
        message_text: String::new(),
        line_number: 1,
    });
    let kernel = BugreportLogLine::Dmesg(DmesgLogLine {
        raw_line: String::new(),
        timestamp_micros: 1_500_250,
        message_text: String::new(),
        line_number: 2,
    });
    assert_eq!(logcat.timestamp_micros(&state), 4_998_000);
    assert_eq!(kernel.timestamp_micros(&state), 1_001_500_250);
}
