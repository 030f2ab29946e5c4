//! The time index of a log source: the positions of its lines in the order
//! of their timestamps, lines with equal timestamps in load order. Lines
//! arrive in batches; each batch is sorted and merged into the index.

use vstd::prelude::*;

verus! {

/// Line `a` comes before line `b` in time order: it is earlier, or as
/// early and loaded first.
pub open spec fn key_less(times: Seq<i64>, a: usize, b: usize) -> bool {
    times[a as int] < times[b as int] || (times[a as int] == times[b as int] && a < b)
}

/// `idx` lists lines of `times` strictly in time order.
pub open spec fn in_time_order(times: Seq<i64>, idx: Seq<usize>) -> bool {
    &&& forall|i: int| 0 <= i < idx.len() ==> (#[trigger] idx[i]) < times.len()
    &&& forall|i: int, j: int| 0 <= i < j < idx.len() ==> key_less(times, #[trigger] idx[i], #[trigger] idx[j])
}

/// `idx` lists exactly the lines `lo..hi` of `times`, in time order.
pub open spec fn time_order_of(times: Seq<i64>, lo: int, hi: int, idx: Seq<usize>) -> bool {
    &&& in_time_order(times, idx)
    &&& idx.len() == hi - lo
    &&& forall|i: int| 0 <= i < idx.len() ==> lo <= #[trigger] idx[i] < hi
    &&& forall|k: usize| lo <= k < hi ==> #[trigger] idx.contains(k)
}

/// Merges two time-ordered runs whose lines of `a` were all loaded before
/// those of `b`; on equal timestamps the line of `a` comes first.
pub fn merge_runs(times: &Vec<i64>, a: &Vec<usize>, b: &Vec<usize>) -> (r: Vec<usize>)
    requires
        in_time_order(times@, a@),
        in_time_order(times@, b@),
        forall|i: int, j: int| 0 <= i < a@.len() && 0 <= j < b@.len() ==> #[trigger] a@[i] < #[trigger] b@[j],
    ensures
        in_time_order(times@, r@),
        r@.len() == a@.len() + b@.len(),
        forall|x: usize| r@.contains(x) <==> (a@.contains(x) || b@.contains(x)),
{
    let mut out: Vec<usize> = Vec::new();
    let mut i: usize = 0;
    let mut j: usize = 0;
    while i < a.len() || j < b.len()
        invariant
            in_time_order(times@, a@),
            in_time_order(times@, b@),
            forall|p: int, q: int| 0 <= p < a@.len() && 0 <= q < b@.len() ==> #[trigger] a@[p] < #[trigger] b@[q],
            i <= a@.len(),
            j <= b@.len(),
            out@.len() == i + j,
            in_time_order(times@, out@),
            forall|x: usize| out@.contains(x) <==> (a@.take(i as int).contains(x) || b@.take(j as int).contains(x)),
            out@.len() > 0 && i < a@.len() ==> key_less(times@, out@.last(), a@[i as int]),
            out@.len() > 0 && j < b@.len() ==> key_less(times@, out@.last(), b@[j as int]),
        decreases a.len() + b.len() - i - j,
    {
        let ghost before = out@;
        let take_a = if i < a.len() && j < b.len() {
            times[a[i]] <= times[b[j]]
        } else {
            i < a.len()
        };
        if take_a {
            let x = a[i];
            out.push(x);
            proof {
                assert(a@.take(i + 1) =~= a@.take(i as int).push(x));
                if j < b@.len() {
                    assert(a@[i as int] < b@[j as int]);
                }
                if i + 1 < a@.len() {
                    assert(key_less(times@, a@[i as int], a@[i + 1]));
                }
                assert forall|p: int, q: int| 0 <= p < q < out@.len() implies key_less(
                    times@,
                    #[trigger] out@[p],
                    #[trigger] out@[q],
                ) by {
                    if q == out@.len() - 1 && p < q {
                        assert(out@[p] == before[p]);
                        if p < before.len() - 1 {
                            assert(key_less(times@, before[p], before.last()));
                        }
                    } else {
                        assert(out@[p] == before[p]);
                        assert(out@[q] == before[q]);
                    }
                }
                assert forall|y: usize| out@.contains(y) <==> (a@.take(i + 1).contains(y) || b@.take(j as int).contains(y)) by {
                    lemma_push_contains(before, x, y);
                    lemma_push_contains(a@.take(i as int), x, y);
                }
            }
            i += 1;
        } else {
            let x = b[j];
            out.push(x);
            proof {
                assert(b@.take(j + 1) =~= b@.take(j as int).push(x));
                if i < a@.len() {
                    assert(times@[b@[j as int] as int] < times@[a@[i as int] as int]);
                }
                if j + 1 < b@.len() {
                    assert(key_less(times@, b@[j as int], b@[j + 1]));
                }
                assert forall|p: int, q: int| 0 <= p < q < out@.len() implies key_less(
                    times@,
                    #[trigger] out@[p],
                    #[trigger] out@[q],
                ) by {
                    if q == out@.len() - 1 && p < q {
                        assert(out@[p] == before[p]);
                        if p < before.len() - 1 {
                            assert(key_less(times@, before[p], before.last()));
                        }
                    } else {
                        assert(out@[p] == before[p]);
                        assert(out@[q] == before[q]);
                    }
                }
                assert forall|y: usize| out@.contains(y) <==> (a@.take(i as int).contains(y) || b@.take(j + 1).contains(y)) by {
                    lemma_push_contains(before, x, y);
                    lemma_push_contains(b@.take(j as int), x, y);
                }
            }
            j += 1;
        }
    }
    proof {
        assert(a@.take(i as int) =~= a@);
        assert(b@.take(j as int) =~= b@);
    }
    out
}

proof fn lemma_push_contains(s: Seq<usize>, x: usize, y: usize)
    ensures
        s.push(x).contains(y) == (s.contains(y) || y == x),
{
    if s.contains(y) {
        let k = choose|k: int| 0 <= k < s.len() && s[k] == y;
        assert(s.push(x)[k] == y);
    }
    if s.push(x).contains(y) && y != x {
        let k = choose|k: int| 0 <= k < s.push(x).len() && s.push(x)[k] == y;
        assert(s[k] == y);
    }
    assert(s.push(x)[s.len() as int] == x);
}

/// The lines `lo..hi` in time order (a stable sort by timestamp).
pub fn sort_range(times: &Vec<i64>, lo: usize, hi: usize) -> (r: Vec<usize>)
    requires
        lo <= hi <= times@.len(),
    ensures
        time_order_of(times@, lo as int, hi as int, r@),
    decreases hi - lo,
{
    if hi - lo == 0 {
        let r: Vec<usize> = Vec::new();
        return r;
    }
    if hi - lo == 1 {
        let mut r: Vec<usize> = Vec::new();
        r.push(lo);
        assert(r@[0] == lo);
        return r;
    }
    let mid = lo + (hi - lo) / 2;
    let left = sort_range(times, lo, mid);
    let right = sort_range(times, mid, hi);
    let r = merge_runs(times, &left, &right);
    proof {
        assert forall|i: int| 0 <= i < r@.len() implies lo <= #[trigger] r@[i] < hi by {
            assert(r@.contains(r@[i]));
            if left@.contains(r@[i]) {
                let k = choose|k: int| 0 <= k < left@.len() && left@[k] == r@[i];
            } else {
                let k = choose|k: int| 0 <= k < right@.len() && right@[k] == r@[i];
            }
        }
        assert forall|k: usize| lo <= k < hi implies #[trigger] r@.contains(k) by {
            if k < mid {
                assert(left@.contains(k));
            } else {
                assert(right@.contains(k));
            }
        }
    }
    r
}

/// A time-ordered listing of all lines is unique: two of them agree.
pub proof fn lemma_time_order_unique(times: Seq<i64>, a: Seq<usize>, b: Seq<usize>)
    requires
        time_order_of(times, 0, times.len() as int, a),
        time_order_of(times, 0, times.len() as int, b),
    ensures
        a == b,
{
    assert forall|i: int| 0 <= i < a.len() implies a[i] == b[i] by {
        lemma_time_order_agree_upto(times, a, b, i);
    }
    assert(a =~= b);
}

proof fn lemma_time_order_agree_upto(times: Seq<i64>, a: Seq<usize>, b: Seq<usize>, i: int)
    requires
        time_order_of(times, 0, times.len() as int, a),
        time_order_of(times, 0, times.len() as int, b),
        0 <= i < a.len(),
    ensures
        forall|q: int| 0 <= q <= i ==> a[q] == b[q],
    decreases i,
{
    if i > 0 {
        lemma_time_order_agree_upto(times, a, b, i - 1);
    }
    if a[i] != b[i] {
        let x = a[i];
        let y = b[i];
        assert(b.contains(x));
        assert(a.contains(y));
        let p = choose|p: int| 0 <= p < b.len() && b[p] == x;
        let q = choose|q: int| 0 <= q < a.len() && a[q] == y;
        if p < i {
            assert(a[p] == b[p]);
            assert(key_less(times, a[p], a[i]));
        } else if q < i {
            assert(a[q] == b[q]);
            assert(key_less(times, b[q], b[i]));
        } else {
            assert(p > i && q > i);
            assert(key_less(times, b[i], b[p]));
            assert(key_less(times, a[i], a[q]));
        }
    }
}

/// The timestamps of a source's lines in load order and its time index.
pub struct TimeIndex {
    times: Vec<i64>,
    by_timestamp: Vec<usize>,
    version: u64,
}

impl TimeIndex {
    /// The timestamps of the lines, in load order.
    pub closed spec fn timestamps(&self) -> Seq<i64> {
        self.times@
    }

    /// The positions of the lines in time order.
    pub closed spec fn order(&self) -> Seq<usize> {
        self.by_timestamp@
    }

    /// The number of changes made to the index (wrapping).
    pub closed spec fn changes(&self) -> u64 {
        self.version
    }

    /// No lines.
    pub fn new() -> (r: Self)
        ensures
            r.timestamps() == Seq::<i64>::empty(),
            r.order() == Seq::<usize>::empty(),
            r.changes() == 0,
    {
        TimeIndex { times: Vec::new(), by_timestamp: Vec::new(), version: 0 }
    }

    /// Appends a batch of lines (by their timestamps): the batch is sorted
    /// by time and merged into the index, the lines already loaded first on
    /// equal times.
    pub fn append_lines(&mut self, new_times: &Vec<i64>)
        requires
            time_order_of(old(self).timestamps(), 0, old(self).timestamps().len() as int, old(self).order()),
        ensures
            final(self).timestamps() == old(self).timestamps() + new_times@,
            time_order_of(final(self).timestamps(), 0, final(self).timestamps().len() as int, final(self).order()),
            new_times@.len() == 0 ==> final(self).order() == old(self).order() && final(self).changes()
                == old(self).changes(),
            new_times@.len() > 0 ==> final(self).changes() == old(self).changes().wrapping_add(1),
    {
        if new_times.len() == 0 {
            assert(self.times@ + new_times@ =~= self.times@);
            return;
        }
        let ghost old_times = self.times@;
        let start = self.times.len();
        let mut k: usize = 0;
        while k < new_times.len()
            invariant
                k <= new_times@.len(),
                self.times@ == old_times + new_times@.take(k as int),
                start == old_times.len(),
                self.by_timestamp == old(self).by_timestamp,
                self.version == old(self).version,
            decreases new_times.len() - k,
        {
            self.times.push(new_times[k]);
            assert(new_times@.take(k + 1) =~= new_times@.take(k as int).push(new_times@[k as int]));
            k += 1;
        }
        assert(new_times@.take(k as int) =~= new_times@);
        let end = self.times.len();
        let new_sorted = sort_range(&self.times, start, end);
        proof {
            let t = self.times@;
            assert forall|i: int, j: int| 0 <= i < j < self.by_timestamp@.len() implies key_less(
                t,
                #[trigger] self.by_timestamp@[i],
                #[trigger] self.by_timestamp@[j],
            ) by {
                assert(key_less(old_times, self.by_timestamp@[i], self.by_timestamp@[j]));
                assert(t[self.by_timestamp@[i] as int] == old_times[self.by_timestamp@[i] as int]);
                assert(t[self.by_timestamp@[j] as int] == old_times[self.by_timestamp@[j] as int]);
            }
        }
        let merged = merge_runs(&self.times, &self.by_timestamp, &new_sorted);
        proof {
            assert forall|i: int| 0 <= i < merged@.len() implies 0 <= #[trigger] merged@[i] < end by {
                assert(merged@.contains(merged@[i]));
                if self.by_timestamp@.contains(merged@[i]) {
                    let k = choose|k: int| 0 <= k < self.by_timestamp@.len() && self.by_timestamp@[k] == merged@[i];
                } else {
                    let k = choose|k: int| 0 <= k < new_sorted@.len() && new_sorted@[k] == merged@[i];
                }
            }
            assert forall|x: usize| 0 <= x < end implies #[trigger] merged@.contains(x) by {
                if x < start {
                    assert(self.by_timestamp@.contains(x));
                } else {
                    assert(new_sorted@.contains(x));
                }
            }
        }
        self.by_timestamp = merged;
        self.version = self.version.wrapping_add(1);
    }

    /// Rebuilds the index from scratch: all lines sorted by time.
    pub fn rebuild_time_index(&mut self)
        ensures
            final(self).timestamps() == old(self).timestamps(),
            time_order_of(final(self).timestamps(), 0, final(self).timestamps().len() as int, final(self).order()),
            final(self).changes() == old(self).changes().wrapping_add(1),
    {
        self.by_timestamp = sort_range(&self.times, 0, self.times.len());
        self.version = self.version.wrapping_add(1);
    }

    /// The positions of the lines in time order.
    pub fn by_timestamp(&self) -> (r: &Vec<usize>)
        ensures
            r@ == self.order(),
    {
        &self.by_timestamp
    }

    /// The number of lines.
    pub fn len(&self) -> (r: usize)
        ensures
            r == self.timestamps().len(),
    {
        self.times.len()
    }

    /// The number of changes made to the index.
    pub fn version(&self) -> (r: u64)
        ensures
            r == self.changes(),
    {
        self.version
    }
}

/// Appending a batch of lines leaves the time index exactly as a rebuild
/// from scratch would make it.
pub proof fn lemma_append_matches_rebuild(appended: TimeIndex, rebuilt: TimeIndex)
    requires
        appended.timestamps() == rebuilt.timestamps(),
        time_order_of(appended.timestamps(), 0, appended.timestamps().len() as int, appended.order()),
        time_order_of(rebuilt.timestamps(), 0, rebuilt.timestamps().len() as int, rebuilt.order()),
    ensures
        appended.order() == rebuilt.order(),
{
    lemma_time_order_unique(appended.timestamps(), appended.order(), rebuilt.order());
}

} // verus!
