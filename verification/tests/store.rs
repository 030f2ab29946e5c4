use logcrab::capture::{interface_ts_resolution, legacy_packet_micros, pcapng_packet_micros, resolution_from_options, DEFAULT_TSRESOL};
use logcrab::store::{find_closest_line_position_by_time, merge_sorted_sources, StoreID};

fn id(source: u64, line: usize) -> StoreID {
    StoreID::new(source, line)
}

#[test]
fn sources_merge_by_time() {
    let a = vec![(Some(1), id(1, 0)), (Some(5), id(1, 1)), (Some(9), id(1, 2))];
    let b = vec![(Some(2), id(2, 0)), (None, id(2, 1)), (Some(5), id(2, 2))];
    let merged = merge_sorted_sources(&vec![a, b]);
    assert_eq!(merged, vec![id(1, 0), id(2, 0), id(1, 1), id(2, 2), id(1, 2)]);
}

#[test]
fn lines_without_timestamp_are_left_out() {
    let a = vec![(None, id(1, 0)), (None, id(1, 1))];
    let b = vec![];
    assert!(merge_sorted_sources(&vec![a, b]).is_empty());
    assert!(merge_sorted_sources(&vec![]).is_empty());
}

#[test]
fn store_ids_expose_their_parts() {
    let s = id(7, 42);
    assert_eq!(s.source_id(), 7);
    assert_eq!(s.line_index(), 42);
}

#[test]
fn closest_position_by_time() {
    let times = [Some(10), Some(20), Some(30)];
    assert_eq!(find_closest_line_position_by_time(&times, 5), Some(0));
    assert_eq!(find_closest_line_position_by_time(&times, 99), Some(2));
    assert_eq!(find_closest_line_position_by_time(&times, 24), Some(1));
    assert_eq!(find_closest_line_position_by_time(&times, 26), Some(2));
    // Equal distance: the earlier line.
    assert_eq!(find_closest_line_position_by_time(&times, 25), Some(1));
    assert_eq!(find_closest_line_position_by_time(&[], 25), None);
    assert_eq!(find_closest_line_position_by_time(&[Some(10), None, Some(30)], 25), None);
}

#[test]
fn pcapng_resolution_options() {
    assert_eq!(interface_ts_resolution(6), 1_000_000);
    assert_eq!(interface_ts_resolution(9), 1_000_000_000);
    assert_eq!(interface_ts_resolution(0x80 | 10), 1024);
    assert_eq!(resolution_from_options(&[], DEFAULT_TSRESOL), 1_000_000);
    assert_eq!(resolution_from_options(&[(9, Some(3)), (2, Some(9)), (9, None)], DEFAULT_TSRESOL), 1000);
}

#[test]
fn capture_timestamps() {
    assert_eq!(legacy_packet_micros(1_700_000_000, 250), Some(1_700_000_000_000_250));
    // 1.5 s at microsecond resolution.
    assert_eq!(pcapng_packet_micros(0, 1_500_000, 1_000_000), Some(1_500_000));
    // 2^32 + 7 nanoseconds.
    assert_eq!(pcapng_packet_micros(1, 7, 1_000_000_000), Some(4_294_967));
}

#[test]
fn merge_of_sorted_sources_is_sorted_and_takes_each_line_once() {
    let sources = vec![
        vec![(Some(3), id(0, 0)), (Some(3), id(0, 1)), (None, id(0, 2)), (Some(8), id(0, 3))],
        vec![(None, id(1, 0)), (Some(1), id(1, 1)), (Some(3), id(1, 2)), (Some(12), id(1, 3))],
        vec![(Some(0), id(2, 0)), (Some(9), id(2, 1))],
    ];
    let merged = merge_sorted_sources(&sources);
    let time_of = |s: &StoreID| {
        sources[s.source_id() as usize][s.line_index()].0.expect("merged lines have a time")
    };
    let times: Vec<i64> = merged.iter().map(time_of).collect();
    assert_eq!(times, vec![0, 1, 3, 3, 3, 8, 9, 12]);
    let mut ids: Vec<(u64, usize)> = merged.iter().map(|s| (s.source_id(), s.line_index())).collect();
    ids.sort();
    assert_eq!(
        ids,
        vec![(0, 0), (0, 1), (0, 3), (1, 1), (1, 2), (1, 3), (2, 0), (2, 1)]
    );
    // Equal times: the lower source first.
    assert_eq!(&merged[2..5], &[id(0, 0), id(0, 1), id(1, 2)]);
}
