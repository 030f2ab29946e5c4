use logcrab::search::{store_id_less, FilterOutcome, SearchRule, SearchState};
use logcrab::store::StoreID;

#[test]
fn test_get_exclude_regex_empty() {
    let state = SearchState::new(0);
    assert!(state.get_exclude_regex().unwrap().is_none());
}

#[test]
fn test_get_exclude_regex_with_pattern() {
    let mut state = SearchState::new(0);
    state.exclude_text = "ERROR".to_string();
    let regex = state.get_exclude_regex().unwrap();
    assert!(regex.is_some());
    // Case insensitive by default
    assert!(regex.unwrap().is_match("error"));
}

#[test]
fn test_get_exclude_regex_case_sensitive() {
    let mut state = SearchState::new(0);
    state.exclude_text = "ERROR".to_string();
    state.case_sensitive = true;
    let regex = state.get_exclude_regex().unwrap();
    assert!(regex.is_some());
    let regex = regex.unwrap();
    assert!(regex.is_match("ERROR"));
    assert!(!regex.is_match("error"));
}

#[test]
fn test_get_exclude_regex_invalid() {
    let mut state = SearchState::new(0);
    state.exclude_text = "[invalid".to_string();
    assert!(state.get_exclude_regex().is_err());
}

#[test]
fn search_regex_follows_case_sensitivity() {
    let mut state = SearchState::new(3);
    assert_eq!(state.id(), 3);
    state.search_text = "Wifi".to_string();
    assert!(state.get_regex().unwrap().is_match("WIFI on"));
    state.case_sensitive = true;
    assert!(!state.get_regex().unwrap().is_match("WIFI on"));
    state.search_text = "(".to_string();
    assert!(state.get_regex().is_err());
}

#[test]
fn cache_is_refreshed_only_when_something_changed() {
    let mut state = SearchState::new(0);
    state.search_text = "a".to_string();
    assert!(state.ensure_cache_valid(1));
    assert!(!state.ensure_cache_valid(1));
    assert!(state.ensure_cache_valid(2));
    state.exclude_text = "b".to_string();
    assert!(state.ensure_cache_valid(2));
    state.case_sensitive = true;
    assert!(state.ensure_cache_valid(2));
    assert!(!state.ensure_cache_valid(2));
}

#[test]
fn results_remember_what_they_were_computed_for() {
    let mut state = SearchState::new(0);
    state.apply_filter_result(FilterOutcome {
        filtered_indices: vec![StoreID::new(1, 4)],
        search_text: "x".to_string(),
        exclude_text: String::new(),
        case_sensitive: true,
        store_version: 9,
    });
    assert_eq!(state.get_filtered_indices_cached(), &vec![StoreID::new(1, 4)]);
    assert_eq!(state.indices_computed_for(), ("x", "", true, 9));
}

#[test]
fn row_position_by_time_order() {
    let mut state = SearchState::new(0);
    let rows = vec![StoreID::new(1, 0), StoreID::new(1, 1), StoreID::new(2, 0)];
    state.apply_filter_result(FilterOutcome {
        filtered_indices: rows,
        search_text: String::new(),
        exclude_text: String::new(),
        case_sensitive: false,
        store_version: 1,
    });
    let times = [Some(10), Some(20), Some(30)];
    assert_eq!(state.find_closest_row_position_in_cache(&times, StoreID::new(9, 9), Some(25)), Some(2));
    assert_eq!(state.find_closest_row_position_in_cache(&times, StoreID::new(0, 0), Some(20)), Some(1));
    assert_eq!(state.find_closest_row_position_in_cache(&times, StoreID::new(9, 9), None), Some(3));
    assert_eq!(SearchState::new(1).find_closest_row_position_in_cache(&[], StoreID::new(0, 0), Some(1)), None);
}

#[test]
fn store_order_puts_missing_lines_last() {
    let a = StoreID::new(1, 0);
    let b = StoreID::new(2, 0);
    assert!(store_id_less(Some(5), a, Some(6), b));
    assert!(store_id_less(Some(5), a, Some(5), b));
    assert!(!store_id_less(Some(5), b, Some(5), a));
    assert!(store_id_less(Some(9), b, None, a));
    assert!(!store_id_less(None, a, Some(1), b));
    assert!(store_id_less(None, a, None, b));
}

#[test]
fn search_rule_matches_a_favorite_by_text_and_case() {
    let mut rule = SearchRule::new("Errors".to_string(), [255, 0, 0, 255], 7);
    assert_eq!(rule.id(), 7);
    assert!(rule.enabled);
    assert!(!rule.show_in_histogram);
    rule.search.search_text = "error".to_string();
    assert!(rule.matches_search("error", false));
    assert!(!rule.matches_search("error", true));
    assert!(!rule.matches_search("Error", false));
}
