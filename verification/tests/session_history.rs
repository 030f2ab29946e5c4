use logcrab::session::{RecordedSession, SessionHistory, MAX_SESSIONS, SESSION_HISTORY_VERSION};

fn files(names: &[&str]) -> Vec<String> {
    names.iter().map(|s| s.to_string()).collect()
}

#[test]
fn same_files_ignores_order() {
    let s = RecordedSession { files: files(&["/a", "/b"]), last_used_ms: 0 };
    assert!(s.same_files(&files(&["/b", "/a"])));
    assert!(!s.same_files(&files(&["/a"])));
    assert!(!s.same_files(&files(&["/a", "/a"])));
    assert!(s.contains_file("/b"));
    assert!(!s.contains_file("/c"));
}

#[test]
fn recording_a_known_session_bumps_it() {
    let mut h = SessionHistory::default();
    h.record(files(&["/a"]), 10);
    h.record(files(&["/b"]), 20);
    h.record(files(&["/a"]), 30);
    assert_eq!(h.sessions.len(), 2);
    assert_eq!(h.sessions[0].files, files(&["/a"]));
    assert_eq!(h.sessions[0].last_used_ms, 30);
    assert_eq!(h.sessions[1].files, files(&["/b"]));
}

#[test]
fn empty_sessions_are_not_recorded() {
    let mut h = SessionHistory::default();
    h.record(Vec::new(), 5);
    assert!(h.sessions.is_empty());
}

#[test]
fn history_keeps_the_twenty_most_recent() {
    let mut h = SessionHistory::default();
    for i in 0..25 {
        h.record(vec![format!("/f{i}")], i as i64);
    }
    assert_eq!(h.sessions.len(), MAX_SESSIONS);
    assert_eq!(h.sessions[0].last_used_ms, 24);
    assert_eq!(h.sessions[MAX_SESSIONS - 1].last_used_ms, 5);
}

#[test]
fn equal_times_keep_their_order() {
    let mut h = SessionHistory::default();
    h.record(files(&["/a"]), 7);
    h.record(files(&["/b"]), 7);
    assert_eq!(h.sessions[0].files, files(&["/a"]));
    assert_eq!(h.sessions[1].files, files(&["/b"]));
}

#[test]
fn newer_history_is_read_only() {
    let h = SessionHistory::settle_loaded(SESSION_HISTORY_VERSION + 1, None);
    assert!(h.read_only);
    let mut old = SessionHistory::default();
    old.schema_version = 0;
    old.record(files(&["/x"]), 1);
    let migrated = SessionHistory::settle_loaded(0, Some(old));
    assert_eq!(migrated.schema_version, SESSION_HISTORY_VERSION);
    assert_eq!(migrated.sessions.len(), 1);
    assert!(!migrated.read_only);
}

#[test]
fn prune_missing_keeps_sessions_whose_files_exist() {
    let mut h = SessionHistory::default();
    h.record(files(&["/a"]), 10);
    h.record(files(&["/b"]), 20);
    h.record(files(&["/c"]), 30);
    // Most recent first: /c, /b, /a; the files of /b are gone.
    h.prune_missing(&vec![true, false, true]);
    let left: Vec<&str> = h.sessions.iter().map(|s| s.files[0].as_str()).collect();
    assert_eq!(left, vec!["/c", "/a"]);
}

#[test]
fn sessions_containing_a_file() {
    let mut h = SessionHistory::default();
    h.record(files(&["/a", "/x"]), 10);
    h.record(files(&["/b"]), 20);
    h.record(files(&["/x"]), 30);
    let found: Vec<i64> = h.sessions_containing("/x").iter().map(|s| s.last_used_ms).collect();
    assert_eq!(found, vec![30, 10]);
    assert!(h.sessions_containing("/nope").is_empty());
}

#[test]
fn recording_never_duplicates_a_file_set() {
    let mut h = SessionHistory::default();
    h.record(files(&["/a", "/b"]), 1);
    h.record(files(&["/c"]), 2);
    h.record(files(&["/b", "/a"]), 3);
    h.record(files(&["/c"]), 4);
    assert_eq!(h.sessions.len(), 2);
    let times: Vec<i64> = h.sessions.iter().map(|s| s.last_used_ms).collect();
    assert_eq!(times, vec![4, 3]);
}

#[test]
fn history_stays_ordered_and_unique_over_calls() {
    let mut h = SessionHistory::default();
    for t in 0..30i64 {
        let name = format!("/f{}", t % 7);
        h.record(files(&[name.as_str()]), t);
        for w in h.sessions.windows(2) {
            assert!(w[0].last_used_ms >= w[1].last_used_ms);
        }
        for i in 0..h.sessions.len() {
            for j in i + 1..h.sessions.len() {
                assert!(!h.sessions[i].same_files(&h.sessions[j].files));
            }
        }
        assert!(h.sessions.len() <= MAX_SESSIONS);
        assert_eq!(h.sessions[0].last_used_ms, t);
        assert!(h.sessions[0].same_files(&files(&[name.as_str()])));
    }
}
