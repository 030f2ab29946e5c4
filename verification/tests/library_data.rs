use logcrab::anomaly::{KeywordScorer, KeywordSeverity, RarityScorer};
use logcrab::config::{DltTimestampSource, FavoriteFilter, GlobalConfig, GlobalFileConfig, SCHEMA_VERSION};
use logcrab::export::ExportRecord;
use logcrab::filter::{filter_sorted_by_search, line_matches_filter, FilterKey};
use logcrab::histogram::{calculate_time_range, create_buckets, histogram_span, AnomalyDistribution, NUM_BUCKETS, SCORE_BUCKETS};
use logcrab::input::actions::{InputAction, PaneDirection};
use logcrab::input::keyboard::ShortcutAction;
use logcrab::pattern::{parse_i64, Pattern};
use logcrab::text::{str_trim, str_trim_start};
use logcrab::registry::{
    detect_binary_type, dlt_magic_bytes, is_prefix, pcap_magic_bytes, self_has_prefix_conflict,
    slices_have_prefix_conflict,
};
use logcrab::selection::Selection;
use logcrab::sidecar::{chunk_bounds, chunk_count, InputLine, SampleLabel, StartFrame, LINES_PER_CHUNK};
use logcrab::tabs::{TabContent, TabType};

// ---- magic bytes ----

#[test]
fn prefixes_are_detected() {
    assert!(is_prefix(b"DLT", b"DLT\x01"));
    assert!(is_prefix(b"", b"x"));
    assert!(is_prefix(b"ab", b"ab"));
    assert!(!is_prefix(b"abc", b"ab"));
    assert!(!is_prefix(b"ax", b"ab"));
}

#[test]
fn registered_magic_patterns_are_unambiguous() {
    assert!(!self_has_prefix_conflict(pcap_magic_bytes()));
    assert!(!self_has_prefix_conflict(dlt_magic_bytes()));
    assert!(!slices_have_prefix_conflict(dlt_magic_bytes(), pcap_magic_bytes()));
    assert!(!slices_have_prefix_conflict(pcap_magic_bytes(), dlt_magic_bytes()));
    let a: &[&[u8]] = &[b"ab", b"abc"];
    assert!(self_has_prefix_conflict(a));
    assert!(slices_have_prefix_conflict(a, &[b"a"]));
}

#[test]
fn binary_type_is_picked_by_magic_bytes() {
    let tables: &[&[&[u8]]] = &[dlt_magic_bytes(), pcap_magic_bytes()];
    assert_eq!(detect_binary_type(b"DLT\x01rest", tables), Some(0));
    assert_eq!(detect_binary_type(&[0x0a, 0x0d, 0x0d, 0x0a, 0, 0], tables), Some(1));
    assert_eq!(detect_binary_type(&[0xd4, 0xc3, 0xb2, 0xa1], tables), Some(1));
    assert_eq!(detect_binary_type(b"DLT", tables), None);
    assert_eq!(detect_binary_type(b"hello world", tables), None);
}

// ---- shortcuts ----

#[test]
fn every_shortcut_action_is_listed_once() {
    let all = ShortcutAction::all();
    assert_eq!(all.len(), 19);
    for (i, a) in all.iter().enumerate() {
        for b in &all[i + 1..] {
            assert_ne!(a, b);
        }
    }
    assert_eq!(all[0], ShortcutAction::MoveUp);
    assert_eq!(all[18], ShortcutAction::RenameFilter);
}

#[test]
fn shortcut_texts() {
    assert_eq!(ShortcutAction::MoveUp.name(), "Move Selection Up");
    assert_eq!(ShortcutAction::JumpToTop.default_binding(), "g g");
    assert_eq!(ShortcutAction::RenameFilter.default_binding(), "\u{E002}");
    assert_eq!(
        ShortcutAction::FocusPaneLeft.description(),
        "Move focus to the pane on the left (Vim-style: Shift+H)"
    );
    assert_eq!(ShortcutAction::ReverseCycleTab.default_binding(), "Ctrl+Shift+Tab");
}

#[test]
fn input_actions_compare_by_value() {
    assert_eq!(InputAction::MoveSelection(-1), InputAction::MoveSelection(-1));
    assert_ne!(InputAction::NavigatePane(PaneDirection::Left), InputAction::NavigatePane(PaneDirection::Right));
    assert_eq!(TabType::Filter(2), TabType::Filter(2));
    let tab = TabContent { tab_type: TabType::Bookmarks, title: "Bookmarks".to_string() };
    assert_eq!(tab.tab_type, TabType::Bookmarks);
}

// ---- configuration ----

#[test]
fn favorite_display_name_falls_back_to_search_text() {
    let mut f = FavoriteFilter::new("error|fatal".to_string(), true);
    assert_eq!(f.name, "error|fatal");
    assert_eq!(f.display_name(), "error|fatal");
    f.name = "Errors".to_string();
    assert_eq!(f.display_name(), "Errors");
    f.name.clear();
    assert_eq!(f.display_name(), "error|fatal");
    assert!(f.matches("error|fatal", true));
    assert!(!f.matches("error|fatal", false));
    assert!(!f.matches("error", true));
}

fn sample_config(version: u32) -> GlobalConfig {
    let mut c = GlobalConfig::default();
    c.schema_version = version;
    c.bright_mode = true;
    c.file_config = GlobalFileConfig { dlt: DltTimestampSource::InferredMonotonic };
    c
}

#[test]
fn newer_config_falls_back_to_read_only_defaults() {
    let c = GlobalConfig::settle_loaded(SCHEMA_VERSION + 1, Some(sample_config(SCHEMA_VERSION + 1)));
    assert!(c.read_only);
    assert!(!c.bright_mode);
    assert_eq!(c.schema_version, SCHEMA_VERSION);
    assert!(!c.persists());
}

#[test]
fn older_config_is_migrated() {
    let c = GlobalConfig::settle_loaded(0, Some(sample_config(0)));
    assert_eq!(c.schema_version, SCHEMA_VERSION);
    assert!(c.bright_mode);
    assert_eq!(c.file_config.dlt, DltTimestampSource::InferredMonotonic);
    assert!(c.persists());
}

#[test]
fn unreadable_config_gives_defaults() {
    let c = GlobalConfig::settle_loaded(1, None);
    assert!(!c.read_only);
    assert!(!c.bright_mode);
    assert!(c.shortcuts.is_empty());
    assert_eq!(DltTimestampSource::default(), DltTimestampSource::StorageTime);
}

// ---- sidecar ----

#[test]
fn input_line_keeps_its_fields() {
    let line = InputLine::new(3, 42, 1_700_000_000_000, "boot".to_string(), None, Some("a.log".to_string()), Some("dmesg".to_string()));
    assert_eq!(line.line_id.source_id(), 3);
    assert_eq!(line.line_id.line_number(), 42);
    assert_eq!(line.line_id.timestamp_unix_ms(), 1_700_000_000_000);
    assert_eq!(line.message, "boot");
    assert_eq!(line.filetype.as_deref(), Some("dmesg"));
}

#[test]
fn sample_labels_and_start_frame() {
    assert_eq!(SampleLabel::Benign.as_str(), "benign");
    assert_eq!(SampleLabel::Anomalous.as_str(), "anomalous");
    let versions = vec![("dmesg".to_string(), 2u32)];
    let frame = StartFrame::new("model-a", &versions);
    assert_eq!(frame.type_, "start");
    assert_eq!(frame.api_version, "1");
    assert_eq!(frame.filtering_mode, "backend_authoritative");
    assert_eq!(frame.model_id, "model-a");
}

#[test]
fn lines_are_cut_into_chunks() {
    assert_eq!(LINES_PER_CHUNK, 512);
    assert_eq!(chunk_count(0), 0);
    assert_eq!(chunk_count(1), 1);
    assert_eq!(chunk_count(512), 1);
    assert_eq!(chunk_count(513), 2);
    assert_eq!(chunk_bounds(513, 0), (0, 512));
    assert_eq!(chunk_bounds(513, 1), (512, 513));
}

// ---- histogram, filter, selection ----

#[test]
fn anomaly_distribution_starts_empty() {
    let d = AnomalyDistribution::default();
    assert_eq!(d.buckets.len(), SCORE_BUCKETS);
    assert!(d.buckets.iter().all(|&b| b == 0));
}

#[test]
fn time_range_skips_missing_lines() {
    assert_eq!(calculate_time_range(&[None, Some(5), None, Some(9), None]), Some((5, 9)));
    assert_eq!(calculate_time_range(&[None, None]), None);
    assert_eq!(calculate_time_range(&[]), None);
}

#[test]
fn zoom_is_clamped_to_the_data() {
    assert_eq!(histogram_span(Some((10, 100)), None), Some((10, 100)));
    assert_eq!(histogram_span(Some((10, 100)), Some((0, 50))), Some((10, 50)));
    assert_eq!(histogram_span(Some((10, 100)), Some((200, 300))), None);
    assert_eq!(histogram_span(Some((10, 10)), None), None);
    assert_eq!(histogram_span(None, Some((0, 5))), None);
}

#[test]
fn filter_matches_message_or_raw_line() {
    let p = Pattern::compile("(?i)error").expect("valid");
    assert!(line_matches_filter(&p, "ERROR here", "x"));
    assert!(line_matches_filter(&p, "x", "an error"));
    assert!(!line_matches_filter(&p, "fine", "fine"));
    let lines = vec![
        ("ok".to_string(), "ok".to_string()),
        ("error 1".to_string(), "error 1".to_string()),
        ("error 2".to_string(), "error 2".to_string()),
    ];
    assert_eq!(filter_sorted_by_search(&p, &[2, 0, 1, 7], &lines), vec![2, 1]);
    let key = FilterKey::new("error".to_string(), false, 9);
    assert_eq!(key.store_version, 9);
}

#[test]
fn invalid_pattern_does_not_compile() {
    assert!(Pattern::compile("(unclosed").is_none());
}

#[test]
fn test_selection_basic() {
    let mut sel = Selection::new();
    assert_eq!(sel.line_index(), None);
    let ts = 1_763_807_400i64;
    sel.select(42, Some(ts));
    assert_eq!(sel.line_index(), Some(42));
    assert_eq!(sel.timestamp(), Some(ts));
    sel.clear();
    assert_eq!(sel.line_index(), None);
}

#[test]
fn test_find_in_filtered() {
    let mut sel = Selection::new();
    sel.select(5, None);
    let filtered = vec![1, 3, 5, 7, 9];
    assert_eq!(sel.find_in_filtered(&filtered), Some(2));
    let filtered2 = vec![1, 3, 7, 9];
    assert_eq!(sel.find_in_filtered(&filtered2), None);
}

#[test]
fn closest_line_by_timestamp() {
    let mut sel = Selection::new();
    let times = vec![Some(100), None, Some(130), Some(90), Some(120)];
    assert_eq!(sel.find_closest_by_timestamp(&times, &[0, 2]), None);
    sel.select(0, Some(118));
    assert_eq!(sel.find_closest_by_timestamp(&times, &[0, 1, 2, 3, 4]), Some(4));
    assert_eq!(sel.find_closest_by_timestamp(&times, &[1]), Some(0));
    assert_eq!(sel.find_closest_by_timestamp(&times, &[]), None);
    // Ties go to the first line.
    sel.select(0, Some(110));
    assert_eq!(sel.find_closest_by_timestamp(&times, &[0, 4]), Some(0));
}

// ---- anomaly heuristics ----

#[test]
fn keyword_severity_prefers_the_worst_class() {
    let k = KeywordScorer::new();
    assert_eq!(k.severity("fatal: request failed"), KeywordSeverity::Error);
    assert_eq!(k.severity("request failed"), KeywordSeverity::Failure);
    assert_eq!(k.severity("Warning: low battery"), KeywordSeverity::Warning);
    assert_eq!(k.severity("invalid argument"), KeywordSeverity::Issue);
    assert_eq!(k.severity("all good"), KeywordSeverity::Plain);
    assert_eq!(k.severity("errors"), KeywordSeverity::Plain);
}

/// The rarity score of a line: novel lines score 1, others by how rare
/// their template is.
fn rarity_score(s: &RarityScorer, key: &str) -> f64 {
    if s.is_novel(key) {
        return 1.0;
    }
    let frequency = f64::from(s.template_count(key)) / f64::from(s.total_lines());
    (1.0 - frequency).sqrt().clamp(0.0, 1.0)
}

#[test]
fn first_line_is_novel() {
    let scorer = RarityScorer::new();
    assert!((rarity_score(&scorer, "hello world") - 1.0).abs() < f64::EPSILON);
}

#[test]
fn unseen_template_scores_one() {
    let mut scorer = RarityScorer::new();
    scorer.update("message A");
    assert!((rarity_score(&scorer, "completely different message B") - 1.0).abs() < f64::EPSILON);
}

#[test]
fn repeated_template_scores_below_one() {
    let mut scorer = RarityScorer::new();
    for _ in 0..10 {
        scorer.update("repeated message");
    }
    assert_eq!(scorer.template_count("repeated message"), 10);
    assert_eq!(scorer.total_lines(), 10);
    let score = rarity_score(&scorer, "repeated message");
    assert!(score < 1.0, "repeated template should score below 1.0, got {score}");
}

#[test]
fn scores_are_clamped_to_unit_range() {
    let mut scorer = RarityScorer::new();
    for _ in 0..20 {
        let s = rarity_score(&scorer, "clamp test");
        assert!((0.0..=1.0).contains(&s), "score {s} out of [0, 1]");
        scorer.update("clamp test");
    }
}

#[test]
fn rarity_counts_templates_separately() {
    let mut scorer = RarityScorer::new();
    scorer.update("a");
    scorer.update("b");
    scorer.update("a");
    assert_eq!(scorer.template_count("a"), 2);
    assert_eq!(scorer.template_count("b"), 1);
    assert_eq!(scorer.template_count("c"), 0);
    assert_eq!(scorer.total_lines(), 3);
    assert!(!scorer.is_novel("a"));
    assert!(scorer.is_novel("c"));
}

#[test]
fn export_record_holds_its_fields() {
    let r = ExportRecord::new(4, -1, "msg".to_string(), "a.log", "dmesg");
    assert_eq!(r.line_number, 4);
    assert_eq!(r.timestamp_unix_ms, -1);
    assert_eq!(r.source_file, "a.log");
}

#[test]
fn histogram_counts_lines_per_bucket_and_score() {
    let placements = vec![(0, 0), (0, 19), (99, 5), (0, 0), (42, 7)];
    let (buckets, dist) = create_buckets(&placements);
    assert_eq!(buckets.len(), NUM_BUCKETS);
    assert_eq!(dist.len(), NUM_BUCKETS);
    assert_eq!(buckets[0], 3);
    assert_eq!(buckets[42], 1);
    assert_eq!(buckets[99], 1);
    assert_eq!(buckets.iter().sum::<usize>(), 5);
    assert_eq!(dist[0].buckets[0], 2);
    assert_eq!(dist[0].buckets[19], 1);
    assert_eq!(dist[99].buckets[5], 1);
    assert_eq!(dist[42].buckets.iter().sum::<usize>(), 1);
    assert_eq!(dist[1].buckets, [0; SCORE_BUCKETS]);
}

#[test]
fn default_bindings_are_pairwise_distinct() {
    let all = ShortcutAction::all();
    for (i, a) in all.iter().enumerate() {
        for b in &all[i + 1..] {
            assert_ne!(a.default_binding(), b.default_binding());
        }
    }
    assert_eq!(ShortcutAction::JumpToTop.default_binding(), "g g");
    assert_eq!(ShortcutAction::JumpToBottom.default_binding(), "G");
    assert_eq!(ShortcutAction::RenameFilter.default_binding(), "\u{E002}");
}

#[test]
fn parse_i64_reads_as_std_does() {
    for text in ["0", "42", "+7", "-13", "007", "9223372036854775807", "-9223372036854775808",
        "9223372036854775808", "-9223372036854775809", "", "-", "+", "1a", " 1", "1 ", "--1", "+-1",
        "99999999999999999999999"] {
        assert_eq!(parse_i64(text), text.parse::<i64>().ok(), "{text:?}");
    }
    assert_eq!(parse_i64("-9223372036854775808"), Some(i64::MIN));
    assert_eq!(parse_i64("+7"), Some(7));
}

#[test]
fn trimming_matches_std() {
    for text in ["", "   ", "  a b  ", "\t\nx\r\n", "\u{3000}wide\u{2029}", "\u{85}n\u{a0}", "x", "a\u{200b}"] {
        assert_eq!(str_trim(text), text.trim(), "{text:?}");
        assert_eq!(str_trim_start(text), text.trim_start(), "{text:?}");
    }
}
