//! Scheduling of background filter computations: interactive filter-tab
//! searches run ahead of background highlight searches, requests for the
//! same filter coalesce, and a superseded search is cancelled once it has
//! run past a short grace period.

use crate::queue_map::{coalesced, queue_insert, QueueMap};
use std::sync::atomic::AtomicBool;
use std::sync::{Arc, Mutex};
use vstd::prelude::*;
use vstd::std_specs::hash::obeys_key_model;

verus! {

/// The lock that holds the cancellation of the running request.
#[verifier::external_type_specification]
#[verifier::external_body]
#[verifier::reject_recursive_types(T)]
pub struct ExMutex<T: ?Sized>(Mutex<T>);

/// Cancels a filter request when a newer search snapshot supersedes it.
///
/// Clones share one flag, so the worker sees a cancellation made through
/// any handle.
#[derive(Clone)]
pub struct FilterCancellation(Arc<AtomicBool>);

impl FilterCancellation {
    /// A cancellation that has not been triggered.
    pub fn new() -> Self {
        FilterCancellation(Arc::new(AtomicBool::new(false)))
    }

    /// Marks the request as superseded.
    pub fn cancel(&self) {
        self.0.store(true, std::sync::atomic::Ordering::Relaxed);
    }

    /// Whether the request has been marked as superseded.
    pub fn is_cancelled(&self) -> bool {
        self.0.load(std::sync::atomic::Ordering::Relaxed)
    }
}

/// How long a superseded search may keep running, in nanoseconds, so that
/// short-lived snapshots still complete while the user types.
pub const SUPERSEDED_SEARCH_GRACE_NANOS: u128 = 300_000_000;

/// A superseded search is aborted once it has run for the grace period.
pub fn should_abort_superseded_search(is_superseded: bool, elapsed_nanos: u128) -> (r: bool)
    ensures
        r == (is_superseded && elapsed_nanos >= SUPERSEDED_SEARCH_GRACE_NANOS),
{
    is_superseded && elapsed_nanos >= SUPERSEDED_SEARCH_GRACE_NANOS
}

/// Schedules interactive filter-tab searches ahead of background highlight
/// searches.
#[derive(Clone, Copy, Debug, PartialEq, Eq, Structural)]
pub enum FilterRequestPriority {
    Interactive,
    Background,
}

/// Queues a request for `filter_id` behind the requests of its priority;
/// a pending request for the same filter is replaced in place. Returns
/// whether the filter had no pending request.
pub fn enqueue_request<V>(
    filter_id: usize,
    priority: FilterRequestPriority,
    request: V,
    interactive_requests: &mut QueueMap<usize, V>,
    background_requests: &mut QueueMap<usize, V>,
) -> (is_new: bool)
    requires
        old(interactive_requests).wf(),
        old(background_requests).wf(),
    ensures
        final(interactive_requests).wf(),
        final(background_requests).wf(),
        priority == FilterRequestPriority::Interactive ==> {
            &&& final(background_requests)@ == old(background_requests)@
            &&& is_new == !old(interactive_requests).keys().contains(filter_id)
            &&& is_new ==> final(interactive_requests)@ == old(interactive_requests)@.push(
                (filter_id, request),
            )
            &&& !is_new ==> final(interactive_requests)@ == old(interactive_requests)@.update(
                old(interactive_requests).keys().index_of(filter_id),
                (filter_id, request),
            )
        },
        priority == FilterRequestPriority::Background ==> {
            &&& final(interactive_requests)@ == old(interactive_requests)@
            &&& is_new == !old(background_requests).keys().contains(filter_id)
            &&& is_new ==> final(background_requests)@ == old(background_requests)@.push(
                (filter_id, request),
            )
            &&& !is_new ==> final(background_requests)@ == old(background_requests)@.update(
                old(background_requests).keys().index_of(filter_id),
                (filter_id, request),
            )
        },
        (final(interactive_requests)@, final(background_requests)@) == enqueued(
            (old(interactive_requests)@, old(background_requests)@),
            filter_id,
            priority,
            request,
        ),
{
    proof {
        assert(obeys_key_model::<usize>());
    }
    if priority == FilterRequestPriority::Interactive {
        interactive_requests.insert(filter_id, request)
    } else {
        background_requests.insert(filter_id, request)
    }
}

/// The next request to process: the oldest interactive one, else the oldest
/// background one.
pub fn next_request<V>(
    interactive_requests: &mut QueueMap<usize, V>,
    background_requests: &mut QueueMap<usize, V>,
) -> (r: Option<(usize, V)>)
    requires
        old(interactive_requests).wf(),
        old(background_requests).wf(),
    ensures
        final(interactive_requests).wf(),
        final(background_requests).wf(),
        old(interactive_requests)@.len() > 0 ==> {
            &&& r == Some(old(interactive_requests)@[0])
            &&& final(interactive_requests)@ == old(interactive_requests)@.drop_first()
            &&& final(background_requests)@ == old(background_requests)@
        },
        old(interactive_requests)@.len() == 0 && old(background_requests)@.len() > 0 ==> {
            &&& r == Some(old(background_requests)@[0])
            &&& final(interactive_requests)@ == old(interactive_requests)@
            &&& final(background_requests)@ == old(background_requests)@.drop_first()
        },
        old(interactive_requests)@.len() == 0 && old(background_requests)@.len() == 0 ==> {
            &&& r is None
            &&& final(interactive_requests)@ == old(interactive_requests)@
            &&& final(background_requests)@ == old(background_requests)@
        },
{
    proof {
        assert(obeys_key_model::<usize>());
    }
    match interactive_requests.pop_front() {
        Some(r) => Some(r),
        None => background_requests.pop_front(),
    }
}

/// The pending requests (interactive, background) as queued entries.
pub type PendingQueues<V> = (Seq<(usize, V)>, Seq<(usize, V)>);

/// The queues after queuing `request` for `filter_id` with `priority`.
pub open spec fn enqueued<V>(
    queues: PendingQueues<V>,
    filter_id: usize,
    priority: FilterRequestPriority,
    request: V,
) -> PendingQueues<V> {
    match priority {
        FilterRequestPriority::Interactive => (queue_insert(queues.0, filter_id, request), queues.1),
        FilterRequestPriority::Background => (queues.0, queue_insert(queues.1, filter_id, request)),
    }
}

/// The queues after queuing each of `arrivals` (filter, priority, request)
/// in turn.
pub open spec fn enqueued_all<V>(
    queues: PendingQueues<V>,
    arrivals: Seq<(usize, FilterRequestPriority, V)>,
) -> PendingQueues<V>
    decreases arrivals.len(),
{
    if arrivals.len() == 0 {
        queues
    } else {
        let a = arrivals.last();
        enqueued(enqueued_all(queues, arrivals.drop_last()), a.0, a.1, a.2)
    }
}

/// The request taken next and the queues left: the oldest interactive
/// request, else the oldest background one.
pub open spec fn dequeued<V>(queues: PendingQueues<V>) -> (Option<(usize, V)>, PendingQueues<V>) {
    if queues.0.len() > 0 {
        (Some(queues.0[0]), (queues.0.drop_first(), queues.1))
    } else if queues.1.len() > 0 {
        (Some(queues.1[0]), (queues.0, queues.1.drop_first()))
    } else {
        (None, queues)
    }
}

/// The (filter, request) pairs of `arrivals` with priority `priority`, in
/// arrival order.
pub open spec fn of_priority<V>(
    arrivals: Seq<(usize, FilterRequestPriority, V)>,
    priority: FilterRequestPriority,
) -> Seq<(usize, V)>
    decreases arrivals.len(),
{
    if arrivals.len() == 0 {
        Seq::empty()
    } else {
        let rest = of_priority(arrivals.drop_last(), priority);
        let a = arrivals.last();
        if a.1 == priority {
            rest.push((a.0, a.2))
        } else {
            rest
        }
    }
}

/// One scheduling step of the filter worker: takes the next request
/// (interactive first), then queues the requests that arrived meanwhile,
/// in arrival order. Returns the request taken and whether it is to be
/// cancelled at once because an interactive request is pending after
/// that drain; `None` when nothing was pending.
pub fn take_next_request<V>(
    interactive_requests: &mut QueueMap<usize, V>,
    background_requests: &mut QueueMap<usize, V>,
    arrivals: Vec<(usize, FilterRequestPriority, V)>,
) -> (r: Option<(usize, V, bool)>)
    requires
        old(interactive_requests).wf(),
        old(background_requests).wf(),
    ensures
        final(interactive_requests).wf(),
        final(background_requests).wf(),
        ({
            let (taken, rest) = dequeued((old(interactive_requests)@, old(background_requests)@));
            let after = enqueued_all(rest, arrivals@);
            &&& (final(interactive_requests)@, final(background_requests)@) == after
            &&& match taken {
                None => r is None,
                Some((id, request)) => r == Some((id, request, after.0.len() > 0)),
            }
        }),
{
    let ghost before = (interactive_requests@, background_requests@);
    let taken = next_request(interactive_requests, background_requests);
    let ghost rest = (interactive_requests@, background_requests@);
    assert(dequeued(before) == (taken, rest));
    let ghost all = arrivals@;
    let mut arrivals = arrivals;
    let n = arrivals.len();
    let mut k: usize = 0;
    proof {
        assert(all.take(0) =~= Seq::<(usize, FilterRequestPriority, V)>::empty());
        assert(all.skip(0) =~= all);
    }
    while k < n
        invariant
            n == all.len(),
            k <= n,
            arrivals@ == all.skip(k as int),
            interactive_requests.wf(),
            background_requests.wf(),
            (interactive_requests@, background_requests@) == enqueued_all(rest, all.take(k as int)),
        decreases n - k,
    {
        let (filter_id, priority, request) = arrivals.remove(0);
        proof {
            assert(all.take(k as int + 1).drop_last() =~= all.take(k as int));
            assert(all.take(k as int + 1).last() == all[k as int]);
            assert(all.skip(k as int + 1) =~= all.skip(k as int).remove(0));
        }
        enqueue_request(filter_id, priority, request, interactive_requests, background_requests);
        k += 1;
    }
    proof {
        assert(all.take(n as int) =~= all);
    }
    match taken {
        Some((id, request)) => Some((id, request, !interactive_requests.is_empty())),
        None => None,
    }
}

/// The worker's dequeue order. Requests queued into empty queues form,
/// per priority, the coalesced run of that priority's requests (each
/// filter once, ordered by its first pending request, with its latest
/// request: see `lemma_coalesced`); a background request is taken only
/// when no interactive request is pending.
pub proof fn lemma_dequeue_order<V>(arrivals: Seq<(usize, FilterRequestPriority, V)>)
    ensures
        enqueued_all((Seq::empty(), Seq::empty()), arrivals) == (
            coalesced(of_priority(arrivals, FilterRequestPriority::Interactive)),
            coalesced(of_priority(arrivals, FilterRequestPriority::Background)),
        ),
        forall|q: PendingQueues<V>| #[trigger] dequeued(q).0 is Some && q.0.len() > 0 ==> dequeued(q).0 == Some(q.0[0]),
        forall|q: PendingQueues<V>| q.0.len() == 0 ==> #[trigger] dequeued(q).0 == if q.1.len() > 0 {
            Some(q.1[0])
        } else {
            None
        },
    decreases arrivals.len(),
{
    if arrivals.len() > 0 {
        let init = arrivals.drop_last();
        let a = arrivals.last();
        lemma_dequeue_order(init);
        let ii = of_priority(init, FilterRequestPriority::Interactive);
        let bb = of_priority(init, FilterRequestPriority::Background);
        assert(ii.push((a.0, a.2)).drop_last() =~= ii);
        assert(bb.push((a.0, a.2)).drop_last() =~= bb);
    }
}

/// Coordinates the running request with newly submitted interactive
/// requests.
pub struct FilterWorkerScheduler {
    active_cancellation: Mutex<Option<FilterCancellation>>,
}

/// `Mutex::new`.
#[verifier::external_body]
fn new_slot(v: Option<FilterCancellation>) -> Mutex<Option<FilterCancellation>> {
    Mutex::new(v)
}

/// `Mutex::lock`, then a clone of the held value (`None` when the lock is
/// poisoned).
#[verifier::external_body]
fn read_slot(m: &Mutex<Option<FilterCancellation>>) -> Option<FilterCancellation> {
    match m.lock() {
        Ok(active) => active.clone(),
        Err(_) => None,
    }
}

/// `Mutex::lock`, then replacement of the held value (nothing when the lock
/// is poisoned).
#[verifier::external_body]
fn write_slot(m: &Mutex<Option<FilterCancellation>>, v: Option<FilterCancellation>) {
    if let Ok(mut active) = m.lock() {
        *active = v;
    }
}

impl FilterWorkerScheduler {
    /// A scheduler with no running request.
    pub fn new() -> Self {
        FilterWorkerScheduler { active_cancellation: new_slot(None) }
    }

    /// Cancels the running request, if any.
    pub fn cancel_active(&self) {
        if let Some(cancellation) = read_slot(&self.active_cancellation) {
            cancellation.cancel();
        }
    }

    /// Records the cancellation of the request that starts running.
    pub fn activate(&self, cancellation: FilterCancellation) {
        write_slot(&self.active_cancellation, Some(cancellation));
    }

    /// Records that no request is running.
    pub fn deactivate(&self) {
        write_slot(&self.active_cancellation, None);
    }
}

} // verus!
