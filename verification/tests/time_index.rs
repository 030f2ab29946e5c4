use logcrab::time_index::{merge_runs, sort_range, TimeIndex};

#[test]
fn sort_range_is_a_stable_sort_by_time() {
    let times = vec![30, 10, 20, 10, 30, 5];
    assert_eq!(sort_range(&times, 0, 6), vec![5, 1, 3, 2, 0, 4]);
    assert_eq!(sort_range(&times, 2, 5), vec![3, 2, 4]);
    assert!(sort_range(&times, 3, 3).is_empty());
}

#[test]
fn merge_runs_puts_earlier_loaded_lines_first_on_ties() {
    let times = vec![1, 5, 5, 2, 5, 9];
    let merged = merge_runs(&times, &vec![0, 1, 2], &vec![3, 4, 5]);
    assert_eq!(merged, vec![0, 3, 1, 2, 4, 5]);
}

#[test]
fn appending_batches_matches_a_rebuild() {
    let mut index = TimeIndex::new();
    index.append_lines(&vec![100, 50, 75]);
    assert_eq!(index.by_timestamp(), &vec![1, 2, 0]);
    index.append_lines(&vec![60, 50, 200]);
    assert_eq!(index.by_timestamp(), &vec![1, 4, 3, 2, 0, 5]);
    assert_eq!(index.len(), 6);
    assert_eq!(index.version(), 2);
    index.append_lines(&vec![]);
    assert_eq!(index.version(), 2);

    let appended = index.by_timestamp().clone();
    index.rebuild_time_index();
    assert_eq!(index.by_timestamp(), &appended);
    assert_eq!(index.version(), 3);
}
