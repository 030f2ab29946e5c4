use logcrab::filter_run::{filter_sorted_excluding, run_filter, FilterSource};
use logcrab::pattern::Pattern;
use logcrab::store::StoreID;

fn source(source_id: u64, lines: &[(&str, &str, Option<i64>)], order: Vec<usize>) -> FilterSource {
    FilterSource {
        source_id,
        lines: lines.iter().map(|(m, r, _)| (m.to_string(), r.to_string())).collect(),
        messages: lines.iter().map(|(m, _, _)| m.to_string()).collect(),
        times: lines.iter().map(|(_, _, t)| *t).collect(),
        order,
    }
}

fn sample() -> Vec<FilterSource> {
    vec![
        source(1, &[("error one", "a1", Some(30)), ("ok", "a2", Some(10)), ("error one", "a3", Some(30))], vec![1, 0, 2]),
        source(2, &[("error two", "b1", Some(20))], vec![0]),
    ]
}

#[test]
fn filter_run_merges_sources_by_time() {
    let p = Pattern::compile("error").unwrap();
    let r = run_filter(&p, None, false, &sample());
    assert_eq!(r, vec![StoreID::new(2, 0), StoreID::new(1, 0), StoreID::new(1, 2)]);
}

#[test]
fn filter_run_hides_repeated_lines() {
    let p = Pattern::compile("error").unwrap();
    let r = run_filter(&p, None, true, &sample());
    assert_eq!(r, vec![StoreID::new(2, 0), StoreID::new(1, 0)]);
}

#[test]
fn filter_run_applies_the_exclude_pattern() {
    let p = Pattern::compile("error").unwrap();
    let x = Pattern::compile("two").unwrap();
    let r = run_filter(&p, Some(&x), false, &sample());
    assert_eq!(r, vec![StoreID::new(1, 0), StoreID::new(1, 2)]);
}

#[test]
fn exclusion_reads_the_raw_line_too() {
    let p = Pattern::compile("e").unwrap();
    let x = Pattern::compile("^a3$").unwrap();
    let lines = vec![("e1".to_string(), "a1".to_string()), ("e2".to_string(), "a3".to_string())];
    assert_eq!(filter_sorted_excluding(&p, Some(&x), &[1, 0, 7], &lines), vec![0]);
}
