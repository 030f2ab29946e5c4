//! A map that maintains FIFO processing order while allowing updates to coalesce.

use std::collections::{HashMap, VecDeque};
use std::hash::Hash;
use vstd::prelude::*;
use vstd::std_specs::hash::obeys_key_model;

verus! {

/// A map that maintains FIFO processing order while allowing updates to coalesce.
///
/// When a key is inserted for the first time, it is added to the back of the
/// queue. When a key is updated, the value changes but the queue position
/// stays, so processing order is fair regardless of key values.
pub struct QueueMap<K, V> {
    /// Values by key.
    map: HashMap<K, V>,
    /// Keys in the order they were first inserted.
    queue: VecDeque<K>,
}

impl<K, V> QueueMap<K, V> {
    /// Keys are pending exactly once each, and exactly the keys of the map.
    pub closed spec fn wf(&self) -> bool {
        &&& forall|i: int, j: int|
            0 <= i < j < self.queue@.len() ==> self.queue@[i] != self.queue@[j]
        &&& forall|k: K| #[trigger] self.map@.contains_key(k) <==> self.queue@.contains(k)
    }

    /// The pending entries, oldest first.
    pub closed spec fn entries(&self) -> Seq<(K, V)> {
        self.queue@.map_values(|k: K| (k, self.map@[k]))
    }

    /// The pending keys, oldest first.
    pub open spec fn keys(&self) -> Seq<K> {
        self.entries().map_values(|e: (K, V)| e.0)
    }
}

impl<K, V> View for QueueMap<K, V> {
    type V = Seq<(K, V)>;

    open spec fn view(&self) -> Seq<(K, V)> {
        self.entries()
    }
}

impl<K: Hash + Eq + Copy, V> QueueMap<K, V> {
    /// Create a new empty `QueueMap`.
    pub fn new() -> (r: Self)
        ensures
            r.wf(),
            r@ == Seq::<(K, V)>::empty(),
    {
        let r = QueueMap { map: HashMap::new(), queue: VecDeque::new() };
        assert(r@ =~= Seq::<(K, V)>::empty());
        r
    }

    /// `true` when nothing is pending.
    pub fn is_empty(&self) -> (r: bool)
        requires
            self.wf(),
        ensures
            r == (self@.len() == 0),
    {
        self.queue.len() == 0
    }

    /// Insert or update a value. Returns true if this is a new key.
    ///
    /// If the key already exists, only the value is updated; the queue
    /// position remains unchanged to preserve FIFO ordering.
    pub fn insert(&mut self, key: K, value: V) -> (is_new: bool)
        requires
            obeys_key_model::<K>(),
            old(self).wf(),
        ensures
            final(self).wf(),
            is_new == !old(self).keys().contains(key),
            is_new ==> final(self)@ == old(self)@.push((key, value)),
            !is_new ==> final(self)@ == old(self)@.update(
                old(self).keys().index_of(key),
                (key, value),
            ),
            final(self)@ == queue_insert(old(self)@, key, value),
    {
        let ghost old_q = self.queue@;
        let ghost old_m = self.map@;
        proof {
            assert(old(self).keys() =~= old_q);
        }
        let is_new = !self.map.contains_key(&key);
        if is_new {
            self.queue.push_back(key);
        }
        self.map.insert(key, value);
        proof {
            if is_new {
                assert(self.queue@ =~= old_q.push(key));
                assert forall|k: K| #[trigger] self.map@.contains_key(k) <==> self.queue@.contains(
                    k,
                ) by {
                    if k != key {
                        if old_q.contains(k) {
                            let i = old_q.index_of(k);
                            assert(self.queue@[i] == k);
                        }
                        if self.queue@.contains(k) {
                            let i = self.queue@.index_of(k);
                            assert(old_q[i] == k);
                        }
                    } else {
                        assert(self.queue@[old_q.len() as int] == key);
                    }
                }
                assert(self.entries() =~= old(self).entries().push((key, value))) by {
                    assert forall|i: int| 0 <= i < old_q.len() implies old_q[i] != key by {
                        assert(old_q.contains(old_q[i]));
                    }
                }
            } else {
                let idx = old_q.index_of(key);
                assert(self.entries() =~= old(self).entries().update(idx, (key, value))) by {
                    assert forall|i: int| 0 <= i < old_q.len() && i != idx implies old_q[i]
                        != key by {
                        if old_q[i] == key {
                            assert(old_q[idx] == key);
                        }
                    }
                }
            }
        }
        is_new
    }

    /// Remove and return the next item in FIFO order.
    ///
    /// Returns `None` if the queue is empty.
    pub fn pop_front(&mut self) -> (r: Option<(K, V)>)
        requires
            obeys_key_model::<K>(),
            old(self).wf(),
        ensures
            final(self).wf(),
            old(self)@.len() == 0 ==> r.is_none() && final(self)@ == old(self)@,
            old(self)@.len() > 0 ==> r == Some(old(self)@[0]) && final(self)@ == old(
                self,
            )@.drop_first(),
    {
        let ghost old_q = self.queue@;
        let ghost old_m = self.map@;
        let key = match self.queue.pop_front() {
            Some(k) => k,
            None => {
                assert(self@ =~= old(self)@);
                return None;
            },
        };
        proof {
            assert(old_q.contains(key)) by {
                assert(old_q[0] == key);
            }
        }
        let value = match self.map.remove(&key) {
            Some(v) => v,
            None => {
                return None;
            },
        };
        proof {
            assert forall|k: K| #[trigger] self.map@.contains_key(k) <==> self.queue@.contains(
                k,
            ) by {
                if self.queue@.contains(k) {
                    let i = self.queue@.index_of(k);
                    assert(old_q[i + 1] == k);
                    assert(old_q.contains(k));
                    assert(k != key);
                }
                if self.map@.contains_key(k) {
                    assert(old_q.contains(k));
                    let i = old_q.index_of(k);
                    assert(i != 0);
                    assert(self.queue@[i - 1] == k);
                }
            }
            assert(self.entries() =~= old(self).entries().drop_first()) by {
                assert forall|i: int| 0 <= i < self.queue@.len() implies self.queue@[i] != key by {
                    assert(old_q[i + 1] == self.queue@[i]);
                }
            }
        }
        Some((key, value))
    }
}

/// The keys of pending entries, in order.
pub open spec fn entry_keys<K, V>(q: Seq<(K, V)>) -> Seq<K> {
    q.map_values(|e: (K, V)| e.0)
}

/// The pending entries after inserting `value` under `key`: the entry of a
/// pending key takes the new value in place, a new key goes to the back.
pub open spec fn queue_insert<K, V>(q: Seq<(K, V)>, key: K, value: V) -> Seq<(K, V)> {
    if entry_keys(q).contains(key) {
        q.update(entry_keys(q).index_of(key), (key, value))
    } else {
        q.push((key, value))
    }
}

/// The pending entries after inserting each of `inserts` in turn into an
/// empty queue.
pub open spec fn coalesced<K, V>(inserts: Seq<(K, V)>) -> Seq<(K, V)>
    decreases inserts.len(),
{
    if inserts.len() == 0 {
        Seq::empty()
    } else {
        queue_insert(coalesced(inserts.drop_last()), inserts.last().0, inserts.last().1)
    }
}

/// The value last inserted under `key`, if any.
pub open spec fn latest_value<K, V>(inserts: Seq<(K, V)>, key: K) -> Option<V>
    decreases inserts.len(),
{
    if inserts.len() == 0 {
        None
    } else if inserts.last().0 == key {
        Some(inserts.last().1)
    } else {
        latest_value(inserts.drop_last(), key)
    }
}

/// Some insertion of `a` comes before every insertion of `b`.
pub open spec fn first_inserted_before<K, V>(inserts: Seq<(K, V)>, a: K, b: K) -> bool {
    exists|i: int|
        0 <= i < inserts.len() && #[trigger] inserts[i].0 == a && forall|j: int|
            0 <= j < inserts.len() && #[trigger] inserts[j].0 == b ==> i < j
}

/// A run of inserts into an empty queue, then pops until it is empty,
/// gives back each inserted key exactly once, in the order of its first
/// insertion, with the value last inserted under it: the pending entries
/// hold distinct keys, exactly the inserted ones, each with its latest
/// value, ordered by first insertion.
pub proof fn lemma_coalesced<K, V>(inserts: Seq<(K, V)>)
    ensures
        ({
            let q = coalesced(inserts);
            &&& forall|i: int, j: int| 0 <= i < j < q.len() ==> #[trigger] q[i].0 != #[trigger] q[j].0
            &&& forall|k: K| #[trigger] entry_keys(q).contains(k) <==> entry_keys(inserts).contains(k)
            &&& forall|i: int| 0 <= i < q.len() ==> latest_value(inserts, #[trigger] q[i].0) == Some(q[i].1)
            &&& forall|i: int, j: int| 0 <= i < j < q.len() ==> first_inserted_before(inserts, #[trigger] q[i].0, #[trigger] q[j].0)
        }),
    decreases inserts.len(),
{
    if inserts.len() > 0 {
        let init = inserts.drop_last();
        let (key, value) = inserts.last();
        lemma_coalesced(init);
        let q0 = coalesced(init);
        let q = coalesced(inserts);
        let n = init.len();
        assert forall|k: K| #[trigger] entry_keys(inserts).contains(k) <==> (entry_keys(init).contains(k) || k == key) by {
            if entry_keys(inserts).contains(k) {
                let i = entry_keys(inserts).index_of(k);
                if i < n {
                    assert(entry_keys(init)[i] == k);
                }
            }
            if entry_keys(init).contains(k) {
                let i = entry_keys(init).index_of(k);
                assert(entry_keys(inserts)[i] == k);
            }
            if k == key {
                assert(entry_keys(inserts)[n as int] == k);
            }
        }
        if entry_keys(q0).contains(key) {
            let idx = entry_keys(q0).index_of(key);
            assert(q == q0.update(idx, (key, value)));
            assert(entry_keys(q) =~= entry_keys(q0));
            assert forall|i: int| 0 <= i < q.len() implies latest_value(inserts, #[trigger] q[i].0) == Some(q[i].1) by {
                if i != idx {
                    assert(q[i] == q0[i]);
                    assert(q0[i].0 != key);
                }
            }
            assert forall|i: int, j: int| 0 <= i < j < q.len() implies first_inserted_before(inserts, #[trigger] q[i].0, #[trigger] q[j].0) by {
                assert(q[i].0 == q0[i].0 && q[j].0 == q0[j].0);
                assert(first_inserted_before(init, q0[i].0, q0[j].0));
                let a = choose|a: int| 0 <= a < init.len() && #[trigger] init[a].0 == q0[i].0 && forall|b: int|
                    0 <= b < init.len() && #[trigger] init[b].0 == q0[j].0 ==> a < b;
                assert(inserts[a].0 == q[i].0);
                assert forall|b: int| 0 <= b < inserts.len() && #[trigger] inserts[b].0 == q[j].0 implies a < b by {
                    if b < n {
                        assert(init[b].0 == q0[j].0);
                    }
                }
            }
            assert forall|i: int, j: int| 0 <= i < j < q.len() implies #[trigger] q[i].0 != #[trigger] q[j].0 by {
                assert(q[i].0 == q0[i].0 && q[j].0 == q0[j].0);
            }
        } else {
            assert(q == q0.push((key, value)));
            assert(entry_keys(q) =~= entry_keys(q0).push(key));
            assert forall|i: int| 0 <= i < q0.len() implies #[trigger] q0[i].0 != key by {
                assert(entry_keys(q0)[i] == q0[i].0);
            }
            assert forall|k: K| #[trigger] entry_keys(q).contains(k) <==> entry_keys(inserts).contains(k) by {
                if entry_keys(q).contains(k) {
                    let i = entry_keys(q).index_of(k);
                    if i < q0.len() {
                        assert(entry_keys(q0)[i] == k);
                    }
                }
                if entry_keys(q0).contains(k) {
                    let i = entry_keys(q0).index_of(k);
                    assert(entry_keys(q)[i] == k);
                }
                assert(entry_keys(q)[q0.len() as int] == key);
            }
            assert forall|i: int| 0 <= i < q.len() implies latest_value(inserts, #[trigger] q[i].0) == Some(q[i].1) by {
                if i < q0.len() {
                    assert(q[i] == q0[i]);
                }
            }
            assert forall|i: int, j: int| 0 <= i < j < q.len() implies first_inserted_before(inserts, #[trigger] q[i].0, #[trigger] q[j].0) by {
                assert(q[i] == q0[i]);
                assert(entry_keys(q0)[i] == q0[i].0);
                assert(entry_keys(q0).contains(q0[i].0));
                assert(entry_keys(init).contains(q0[i].0));
                if j < q0.len() {
                    assert(q[j] == q0[j]);
                    assert(first_inserted_before(init, q0[i].0, q0[j].0));
                    let a = choose|a: int| 0 <= a < init.len() && #[trigger] init[a].0 == q0[i].0 && forall|b: int|
                        0 <= b < init.len() && #[trigger] init[b].0 == q0[j].0 ==> a < b;
                    assert(inserts[a].0 == q[i].0);
                    assert forall|b: int| 0 <= b < inserts.len() && #[trigger] inserts[b].0 == q[j].0 implies a < b by {
                        if b < n {
                            assert(init[b].0 == q0[j].0);
                        }
                    }
                } else {
                    let a = entry_keys(init).index_of(q0[i].0);
                    assert(init[a].0 == q0[i].0);
                    assert(inserts[a].0 == q[i].0);
                    assert forall|b: int| 0 <= b < inserts.len() && #[trigger] inserts[b].0 == q[j].0 implies a < b by {
                        if b < n {
                            assert(entry_keys(init)[b] == key);
                        }
                    }
                }
            }
            assert forall|i: int, j: int| 0 <= i < j < q.len() implies #[trigger] q[i].0 != #[trigger] q[j].0 by {
                assert(q[i] == q0[i]);
                if j < q0.len() {
                    assert(q[j] == q0[j]);
                }
            }
        }
    }
}

/// Updating a pending key never moves it, so entries come out in the
/// order their keys were first inserted, each with its latest value.
pub proof fn lemma_insert_existing_keeps_order<K, V>(q: Seq<(K, V)>, key: K, value: V)
    requires
        q.map_values(|e: (K, V)| e.0).contains(key),
    ensures
        ({
            let i = q.map_values(|e: (K, V)| e.0).index_of(key);
            let r = q.update(i, (key, value));
            &&& r.len() == q.len()
            &&& r.map_values(|e: (K, V)| e.0) =~= q.map_values(|e: (K, V)| e.0)
            &&& r[i] == (key, value)
        }),
{
}

} // verus!
