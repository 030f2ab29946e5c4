use logcrab::filter_worker::{
    enqueue_request, next_request, should_abort_superseded_search, take_next_request, FilterCancellation,
    FilterRequestPriority, FilterWorkerScheduler, SUPERSEDED_SEARCH_GRACE_NANOS,
};
use logcrab::queue_map::QueueMap;
use std::time::Duration;

#[test]
fn superseded_searches_finish_within_grace_period() {
    assert!(!should_abort_superseded_search(
        true,
        Duration::from_millis(299).as_nanos()
    ));
    assert!(should_abort_superseded_search(
        true,
        SUPERSEDED_SEARCH_GRACE_NANOS
    ));
    assert!(!should_abort_superseded_search(
        false,
        SUPERSEDED_SEARCH_GRACE_NANOS
    ));
}

#[test]
fn grace_period_is_three_hundred_milliseconds() {
    assert_eq!(
        SUPERSEDED_SEARCH_GRACE_NANOS,
        Duration::from_millis(300).as_nanos()
    );
    assert!(should_abort_superseded_search(
        true,
        Duration::from_secs(5).as_nanos()
    ));
}

#[test]
fn filter_cancellation_marks_the_replaced_snapshot() {
    let cancellation = FilterCancellation::new();
    assert!(!cancellation.is_cancelled());
    cancellation.cancel();
    assert!(cancellation.is_cancelled());
}

#[test]
fn interactive_requests_cancel_active_work() {
    let scheduler = FilterWorkerScheduler::new();
    let cancellation = FilterCancellation::new();
    scheduler.activate(cancellation.clone());

    scheduler.cancel_active();

    assert!(cancellation.is_cancelled());
}

#[test]
fn deactivated_work_is_not_cancelled() {
    let scheduler = FilterWorkerScheduler::new();
    let cancellation = FilterCancellation::new();
    scheduler.activate(cancellation.clone());
    scheduler.deactivate();
    scheduler.cancel_active();
    assert!(!cancellation.is_cancelled());
}

#[test]
fn test_fifo_ordering() {
    let mut qm = QueueMap::new();
    qm.insert(10, "second");
    qm.insert(0, "first");

    // Should process in insertion order (10, then 0), not key order
    assert_eq!(qm.pop_front(), Some((10, "second")));
    assert_eq!(qm.pop_front(), Some((0, "first")));
    assert_eq!(qm.pop_front(), None);
}

#[test]
fn test_coalescing() {
    let mut qm = QueueMap::new();
    assert!(qm.insert(5, "first"));
    assert!(qm.insert(10, "other"));
    assert!(!qm.insert(5, "updated")); // Not new

    // Key 5 should still be first in queue, with updated value
    assert_eq!(qm.pop_front(), Some((5, "updated")));
    assert_eq!(qm.pop_front(), Some((10, "other")));
}

#[test]
fn test_rapid_updates() {
    let mut qm = QueueMap::new();
    qm.insert(0, "v1");
    qm.insert(0, "v2");
    qm.insert(0, "v3");

    // Only the last value should be present
    assert_eq!(qm.pop_front(), Some((0, "v3")));
    assert_eq!(qm.pop_front(), None);
}

#[test]
fn queue_map_reports_emptiness() {
    let mut qm: QueueMap<u64, u32> = QueueMap::new();
    assert!(qm.is_empty());
    qm.insert(3, 1);
    assert!(!qm.is_empty());
    qm.pop_front();
    assert!(qm.is_empty());
}

#[test]
fn interactive_requests_run_before_background_ones() {
    let mut interactive: QueueMap<usize, &str> = QueueMap::new();
    let mut background: QueueMap<usize, &str> = QueueMap::new();
    assert!(enqueue_request(1, FilterRequestPriority::Background, "bg-1", &mut interactive, &mut background));
    assert!(enqueue_request(2, FilterRequestPriority::Interactive, "tab-2", &mut interactive, &mut background));
    assert!(!enqueue_request(2, FilterRequestPriority::Interactive, "tab-2b", &mut interactive, &mut background));
    assert_eq!(next_request(&mut interactive, &mut background), Some((2, "tab-2b")));
    assert_eq!(next_request(&mut interactive, &mut background), Some((1, "bg-1")));
    assert_eq!(next_request(&mut interactive, &mut background), None);
}

#[test]
fn queue_map_round_trip_gives_each_key_once_in_first_insertion_order() {
    let mut qm: QueueMap<u64, &str> = QueueMap::new();
    qm.insert(5, "a");
    qm.insert(2, "b");
    qm.insert(5, "c");
    qm.insert(9, "d");
    qm.insert(2, "e");
    assert_eq!(qm.pop_front(), Some((5, "c")));
    assert_eq!(qm.pop_front(), Some((2, "e")));
    assert_eq!(qm.pop_front(), Some((9, "d")));
    assert_eq!(qm.pop_front(), None);
    assert!(qm.is_empty());
}

#[test]
fn worker_step_cancels_when_an_interactive_request_arrives() {
    let mut interactive: QueueMap<usize, &str> = QueueMap::new();
    let mut background: QueueMap<usize, &str> = QueueMap::new();
    enqueue_request(1, FilterRequestPriority::Background, "bg-1", &mut interactive, &mut background);
    let taken = take_next_request(
        &mut interactive,
        &mut background,
        vec![
            (3, FilterRequestPriority::Background, "bg-3"),
            (4, FilterRequestPriority::Interactive, "tab-4"),
            (4, FilterRequestPriority::Interactive, "tab-4b"),
        ],
    );
    assert_eq!(taken, Some((1, "bg-1", true)));
    let taken = take_next_request(&mut interactive, &mut background, Vec::new());
    assert_eq!(taken, Some((4, "tab-4b", false)));
    let taken = take_next_request(&mut interactive, &mut background, Vec::new());
    assert_eq!(taken, Some((3, "bg-3", false)));
    assert_eq!(take_next_request(&mut interactive, &mut background, Vec::new()), None);
}

#[test]
fn worker_step_queues_arrivals_even_when_idle() {
    let mut interactive: QueueMap<usize, &str> = QueueMap::new();
    let mut background: QueueMap<usize, &str> = QueueMap::new();
    let taken = take_next_request(
        &mut interactive,
        &mut background,
        vec![(7, FilterRequestPriority::Background, "bg-7")],
    );
    assert_eq!(taken, None);
    assert_eq!(next_request(&mut interactive, &mut background), Some((7, "bg-7")));
}
