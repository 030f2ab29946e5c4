//! The combined view over several log sources: lines are named by source
//! and index, the per-source time orders are merged into one, and a time is
//! located within a time-ordered view.

use vstd::multiset::Multiset;
use vstd::prelude::*;

verus! {

/// Names a line of the store: its source and its index there.
#[derive(Clone, Copy, Debug, PartialEq, Eq, Hash, Structural)]
pub struct StoreID {
    source_id: u64,
    line_index: usize,
}

impl StoreID {
    pub closed spec fn spec_source_id(&self) -> u64 {
        self.source_id
    }

    pub closed spec fn spec_line_index(&self) -> usize {
        self.line_index
    }

    /// The id of line `line_index` of source `source_id`.
    pub closed spec fn spec_new(source_id: u64, line_index: usize) -> StoreID {
        StoreID { source_id, line_index }
    }

    /// The id's parts are those it was made of.
    pub proof fn lemma_spec_new(source_id: u64, line_index: usize)
        ensures
            StoreID::spec_new(source_id, line_index).spec_source_id() == source_id,
            StoreID::spec_new(source_id, line_index).spec_line_index() == line_index,
    {
    }

    pub fn new(source_id: u64, line_index: usize) -> (r: Self)
        ensures
            r.spec_source_id() == source_id,
            r.spec_line_index() == line_index,
            r == StoreID::spec_new(source_id, line_index),
    {
        StoreID { source_id, line_index }
    }

    /// The stable identifier of the line's source.
    pub fn source_id(&self) -> (r: u64)
        ensures
            r == self.spec_source_id(),
    {
        self.source_id
    }

    /// The line's index within its source.
    pub fn line_index(&self) -> (r: usize)
        ensures
            r == self.spec_line_index(),
    {
        self.line_index
    }
}

/// A line of a source's time order with its adjusted timestamp (none for
/// a line no longer in the store).
pub type TimedLine = (Option<i64>, StoreID);

/// The first position at or after `p` whose line has a timestamp, or the
/// end of the source.
pub open spec fn next_present(s: Seq<TimedLine>, p: int) -> int
    decreases s.len() - p,
{
    if p < 0 {
        next_present(s, 0)
    } else if p >= s.len() {
        s.len() as int
    } else if s[p].0 is Some {
        p
    } else {
        next_present(s, p + 1)
    }
}

/// The timestamp of the head of source `j`.
pub open spec fn head_time(srcs: Seq<Seq<TimedLine>>, pos: Seq<int>, j: int) -> i64 {
    srcs[j][pos[j]].0->0
}

/// Among the sources before `k`, the one whose head is earliest (the
/// lower source on equal times), if any source still has a head.
pub open spec fn best_head(srcs: Seq<Seq<TimedLine>>, pos: Seq<int>, k: int) -> Option<int>
    decreases k,
{
    if k <= 0 {
        None
    } else {
        let b = best_head(srcs, pos, k - 1);
        if pos[k - 1] < srcs[k - 1].len() {
            match b {
                None => Some(k - 1),
                Some(bj) => if head_time(srcs, pos, k - 1) < head_time(srcs, pos, bj) {
                    Some(k - 1)
                } else {
                    b
                },
            }
        } else {
            b
        }
    }
}

/// How many lines the sources before `k` still hold.
pub open spec fn remaining(srcs: Seq<Seq<TimedLine>>, pos: Seq<int>, k: int) -> int
    decreases k,
{
    if k <= 0 {
        0
    } else {
        remaining(srcs, pos, k - 1) + (srcs[k - 1].len() - pos[k - 1])
    }
}

/// The positions are heads: within their source and at a line with a
/// timestamp unless at the end.
pub open spec fn heads_valid(srcs: Seq<Seq<TimedLine>>, pos: Seq<int>) -> bool {
    &&& pos.len() == srcs.len()
    &&& forall|j: int| 0 <= j < srcs.len() ==> 0 <= #[trigger] pos[j] <= srcs[j].len()
    &&& forall|j: int| 0 <= j < srcs.len() && pos[j] < srcs[j].len() ==> (#[trigger] srcs[j][pos[j]]).0 is Some
}

/// The merge from heads `pos` on, taking at most `fuel` lines: the
/// earliest head is taken (the lower source on equal times) and its source
/// advances to its next line with a timestamp.
pub open spec fn merged(srcs: Seq<Seq<TimedLine>>, pos: Seq<int>, fuel: nat) -> Seq<StoreID>
    decreases fuel,
{
    if fuel == 0 {
        Seq::empty()
    } else {
        match best_head(srcs, pos, srcs.len() as int) {
            None => Seq::empty(),
            Some(j) => seq![srcs[j][pos[j]].1] + merged(
                srcs,
                pos.update(j, next_present(srcs[j], pos[j] + 1)),
                (fuel - 1) as nat,
            ),
        }
    }
}

/// The starting heads: each source's first line with a timestamp.
pub open spec fn first_heads(srcs: Seq<Seq<TimedLine>>) -> Seq<int> {
    Seq::new(srcs.len(), |j: int| next_present(srcs[j], 0))
}

/// How many lines all sources hold.
pub open spec fn total_lines(srcs: Seq<Seq<TimedLine>>) -> int {
    remaining(srcs, Seq::new(srcs.len(), |j: int| 0int), srcs.len() as int)
}

/// The merged time order of the store: all lines with a timestamp, by
/// repeatedly taking the earliest head.
pub open spec fn merged_order(srcs: Seq<Seq<TimedLine>>) -> Seq<StoreID> {
    merged(srcs, first_heads(srcs), total_lines(srcs) as nat)
}

proof fn lemma_next_present(s: Seq<TimedLine>, p: int)
    requires
        0 <= p,
    ensures
        p <= next_present(s, p) <= s.len() || (p > s.len() && next_present(s, p) == s.len()),
        next_present(s, p) < s.len() ==> s[next_present(s, p)].0 is Some,
    decreases s.len() - p,
{
    if p < s.len() && s[p].0 is None {
        lemma_next_present(s, p + 1);
    }
}

proof fn lemma_best_head(srcs: Seq<Seq<TimedLine>>, pos: Seq<int>, k: int)
    requires
        0 <= k <= srcs.len(),
        heads_valid(srcs, pos),
    ensures
        best_head(srcs, pos, k) matches Some(j) ==> 0 <= j < k && pos[j] < srcs[j].len(),
        best_head(srcs, pos, k) is None ==> forall|j: int| 0 <= j < k ==> pos[j] >= srcs[j].len(),
    decreases k,
{
    if k > 0 {
        lemma_best_head(srcs, pos, k - 1);
    }
}

proof fn lemma_remaining_update(srcs: Seq<Seq<TimedLine>>, pos: Seq<int>, k: int, j: int, v: int)
    requires
        0 <= j < k <= srcs.len(),
        pos.len() == srcs.len(),
    ensures
        remaining(srcs, pos.update(j, v), k) == remaining(srcs, pos, k) - (v - pos[j]),
    decreases k,
{
    if k - 1 != j {
        lemma_remaining_update(srcs, pos, k - 1, j, v);
    } else {
        lemma_remaining_same(srcs, pos, pos.update(j, v), k - 1);
    }
}

proof fn lemma_remaining_same(srcs: Seq<Seq<TimedLine>>, a: Seq<int>, b: Seq<int>, k: int)
    requires
        0 <= k,
        forall|i: int| 0 <= i < k ==> a[i] == b[i],
    ensures
        remaining(srcs, a, k) == remaining(srcs, b, k),
    decreases k,
{
    if k > 0 {
        lemma_remaining_same(srcs, a, b, k - 1);
    }
}

proof fn lemma_remaining_bounds(srcs: Seq<Seq<TimedLine>>, pos: Seq<int>, k: int, j: int)
    requires
        0 <= k <= srcs.len(),
        heads_valid(srcs, pos),
    ensures
        remaining(srcs, pos, k) >= 0,
        0 <= j < k ==> remaining(srcs, pos, k) >= srcs[j].len() - pos[j],
    decreases k,
{
    if k > 0 {
        lemma_remaining_bounds(srcs, pos, k - 1, j);
    }
}

proof fn lemma_remaining_le(srcs: Seq<Seq<TimedLine>>, a: Seq<int>, b: Seq<int>, k: int)
    requires
        0 <= k <= srcs.len(),
        a.len() == srcs.len(),
        b.len() == srcs.len(),
        forall|i: int| 0 <= i < k ==> a[i] <= b[i],
    ensures
        remaining(srcs, b, k) <= remaining(srcs, a, k),
    decreases k,
{
    if k > 0 {
        lemma_remaining_le(srcs, a, b, k - 1);
    }
}

/// The lines of each source.
pub open spec fn source_views(srcs: Seq<Vec<TimedLine>>) -> Seq<Seq<TimedLine>> {
    srcs.map_values(|s: Vec<TimedLine>| s@)
}

/// The head positions as integers.
pub open spec fn head_positions(pos: Seq<usize>) -> Seq<int> {
    pos.map_values(|p: usize| p as int)
}

/// The index of the earliest head, if any source has one.
fn pick_head(srcs: &Vec<Vec<TimedLine>>, pos: &Vec<usize>) -> (r: Option<usize>)
    requires
        heads_valid(source_views(srcs@), head_positions(pos@)),
    ensures
        r matches Some(k) ==> best_head(source_views(srcs@), head_positions(pos@), srcs@.len() as int)
            == Some(k as int),
        r is None ==> best_head(source_views(srcs@), head_positions(pos@), srcs@.len() as int) is None,
{
    let ghost ss = source_views(srcs@);
    let ghost ps = head_positions(pos@);
    let mut best: Option<usize> = None;
    let mut best_time: i64 = 0;
    let mut k: usize = 0;
    while k < srcs.len()
        invariant
            k <= srcs@.len(),
            ss == source_views(srcs@),
            ps == head_positions(pos@),
            heads_valid(ss, ps),
            best matches Some(b) ==> best_head(ss, ps, k as int) == Some(b as int) && best_time
                == head_time(ss, ps, b as int),
            best is None ==> best_head(ss, ps, k as int) is None,
        decreases srcs.len() - k,
    {
        proof {
            lemma_best_head(ss, ps, k as int);
        }
        let p = pos[k];
        assert(ps[k as int] == p as int);
        assert(ss[k as int] == srcs@[k as int]@);
        if p < srcs[k].len() {
            let t = match srcs[k][p].0 {
                Some(t) => t,
                None => {
                    assert(false);
                    0
                },
            };
            assert(t == head_time(ss, ps, k as int));
            match best {
                None => {
                    best = Some(k);
                    best_time = t;
                },
                Some(_) => {
                    if t < best_time {
                        best = Some(k);
                        best_time = t;
                    }
                },
            }
        }
        k += 1;
    }
    best
}

/// The first position at or after `p` in `s` whose line has a timestamp.
fn advance(s: &Vec<TimedLine>, p: usize) -> (r: usize)
    requires
        p <= s@.len(),
    ensures
        r as int == next_present(s@, p as int),
        p <= r <= s@.len(),
{
    let mut q = p;
    while q < s.len() && s[q].0.is_none()
        invariant
            p <= q <= s@.len(),
            next_present(s@, p as int) == next_present(s@, q as int),
        decreases s.len() - q,
    {
        q += 1;
    }
    q
}

/// Merges the per-source time orders into one: each source's lines in
/// time order with their adjusted timestamps; lines without a timestamp
/// are left out, and the earliest head is taken each time (the lower source
/// on equal times).
pub fn merge_sorted_sources(sources: &Vec<Vec<TimedLine>>) -> (r: Vec<StoreID>)
    ensures
        r@ == merged_order(source_views(sources@)),
{
    let ghost ss = source_views(sources@);
    let mut pos: Vec<usize> = Vec::new();
    let mut j: usize = 0;
    while j < sources.len()
        invariant
            j <= sources@.len(),
            ss == source_views(sources@),
            pos@.len() == j,
            forall|i: int| 0 <= i < j ==> #[trigger] pos@[i] as int == next_present(ss[i], 0),
        decreases sources.len() - j,
    {
        let p = advance(&sources[j], 0);
        pos.push(p);
        j += 1;
    }
    let ghost init = head_positions(pos@);
    assert(init =~= first_heads(ss)) by {
        assert forall|i: int| 0 <= i < ss.len() implies #[trigger] init[i] == first_heads(ss)[i] by {
            lemma_next_present(ss[i], 0);
        }
    }
    let ghost total = total_lines(ss);
    proof {
        assert forall|i: int| 0 <= i < ss.len() implies 0 <= #[trigger] init[i] <= ss[i].len()
            && (init[i] < ss[i].len() ==> ss[i][init[i]].0 is Some) by {
            lemma_next_present(ss[i], 0);
        }
        let zeros = Seq::new(ss.len(), |i: int| 0int);
        lemma_remaining_le(ss, zeros, init, ss.len() as int);
        lemma_remaining_bounds(ss, init, ss.len() as int, 0);
    }
    let mut out: Vec<StoreID> = Vec::new();
    loop
        invariant
            ss == source_views(sources@),
            pos@.len() == ss.len(),
            heads_valid(ss, head_positions(pos@)),
            out@.len() + remaining(ss, head_positions(pos@), ss.len() as int) <= total,
            0 <= total,
            out@ + merged(ss, head_positions(pos@), (total - out@.len()) as nat)
                == merged(ss, init, total as nat),
        ensures
            out@ == merged(ss, init, total as nat),
        decreases remaining(ss, head_positions(pos@), ss.len() as int),
    {
        let ghost ps = head_positions(pos@);
        proof {
            lemma_remaining_bounds(ss, ps, ss.len() as int, 0);
        }
        match pick_head(sources, &pos) {
            None => {
                proof {
                    if (total - out@.len()) as nat > 0 {
                        assert(merged(ss, ps, (total - out@.len()) as nat) =~= Seq::<StoreID>::empty());
                    }
                    assert(out@ + merged(ss, ps, (total - out@.len()) as nat) =~= out@);
                }
                break;
            },
            Some(k) => {
                proof {
                    lemma_best_head(ss, ps, ss.len() as int);
                    lemma_remaining_bounds(ss, ps, ss.len() as int, k as int);
                }
                let p = pos[k];
                assert(ps[k as int] == p as int);
                assert(ss[k as int] == sources@[k as int]@);
                assert((p as int) < ss[k as int].len());
                let id = sources[k][p].1;
                let lk = sources[k].len();
                assert(p < lk);
                let np = advance(&sources[k], p + 1);
                let ghost fuel = (total - out@.len()) as nat;
                assert(fuel > 0);
                pos.set(k, np);
                let ghost ps2 = head_positions(pos@);
                assert(ps2 =~= ps.update(k as int, next_present(ss[k as int], p + 1)));
                proof {
                    lemma_next_present(ss[k as int], p + 1);
                    lemma_remaining_update(ss, ps, ss.len() as int, k as int, np as int);
                    assert(merged(ss, ps, fuel) == seq![id] + merged(ss, ps2, (fuel - 1) as nat));
                    assert(out@.push(id) + merged(ss, ps2, (fuel - 1) as nat) =~= out@ + (seq![id]
                        + merged(ss, ps2, (fuel - 1) as nat)));
                    assert forall|i: int| 0 <= i < ss.len() implies 0 <= #[trigger] ps2[i] <= ss[i].len()
                        && (ps2[i] < ss[i].len() ==> ss[i][ps2[i]].0 is Some) by {
                        if i != k {
                            assert(ps2[i] == ps[i]);
                        }
                    }
                }
                out.push(id);
            },
        }
    }
    out
}

/// The merge from heads `pos` on as the lines it takes, each with its
/// timestamp (the steps of `merged`).
pub open spec fn merged_entries(srcs: Seq<Seq<TimedLine>>, pos: Seq<int>, fuel: nat) -> Seq<TimedLine>
    decreases fuel,
{
    if fuel == 0 {
        Seq::empty()
    } else {
        match best_head(srcs, pos, srcs.len() as int) {
            None => Seq::empty(),
            Some(j) => seq![srcs[j][pos[j]]] + merged_entries(
                srcs,
                pos.update(j, next_present(srcs[j], pos[j] + 1)),
                (fuel - 1) as nat,
            ),
        }
    }
}

/// The lines of a source from position `p` on that have a timestamp, in
/// order.
pub open spec fn present_from(s: Seq<TimedLine>, p: int) -> Seq<TimedLine>
    decreases s.len() - p,
{
    if p < 0 {
        present_from(s, 0)
    } else if p >= s.len() {
        Seq::empty()
    } else if s[p].0 is Some {
        seq![s[p]] + present_from(s, p + 1)
    } else {
        present_from(s, p + 1)
    }
}

/// The lines with a timestamp that the sources before `k` hold from the
/// heads `pos` on.
pub open spec fn pending(srcs: Seq<Seq<TimedLine>>, pos: Seq<int>, k: int) -> Multiset<TimedLine>
    decreases k,
{
    if k <= 0 {
        Multiset::empty()
    } else {
        pending(srcs, pos, k - 1).add(present_from(srcs[k - 1], pos[k - 1]).to_multiset())
    }
}

/// Every line of all sources that has a timestamp.
pub open spec fn present_lines(srcs: Seq<Seq<TimedLine>>) -> Multiset<TimedLine> {
    pending(srcs, Seq::new(srcs.len(), |j: int| 0int), srcs.len() as int)
}

/// A source's lines with timestamps are in time order.
pub open spec fn source_time_ordered(s: Seq<TimedLine>) -> bool {
    forall|a: int, b: int|
        0 <= a < b < s.len() && (#[trigger] s[a]).0 is Some && (#[trigger] s[b]).0 is Some ==> s[a].0->0
            <= s[b].0->0
}

/// Every line has a timestamp, and the timestamps never decrease.
pub open spec fn entries_time_ordered(e: Seq<TimedLine>) -> bool {
    &&& forall|i: int| 0 <= i < e.len() ==> (#[trigger] e[i]).0 is Some
    &&& forall|a: int, b: int| 0 <= a < b < e.len() ==> (#[trigger] e[a]).0->0 <= (#[trigger] e[b]).0->0
}

proof fn lemma_merged_ids(srcs: Seq<Seq<TimedLine>>, pos: Seq<int>, fuel: nat)
    ensures
        merged(srcs, pos, fuel) == merged_entries(srcs, pos, fuel).map_values(|e: TimedLine| e.1),
    decreases fuel,
{
    if fuel > 0 {
        match best_head(srcs, pos, srcs.len() as int) {
            None => {
                assert(merged_entries(srcs, pos, fuel).map_values(|e: TimedLine| e.1) =~= Seq::<StoreID>::empty());
            },
            Some(j) => {
                let pos2 = pos.update(j, next_present(srcs[j], pos[j] + 1));
                lemma_merged_ids(srcs, pos2, (fuel - 1) as nat);
                assert(merged_entries(srcs, pos, fuel).map_values(|e: TimedLine| e.1) =~= seq![srcs[j][pos[j]].1]
                    + merged_entries(srcs, pos2, (fuel - 1) as nat).map_values(|e: TimedLine| e.1));
            },
        }
    } else {
        assert(merged_entries(srcs, pos, fuel).map_values(|e: TimedLine| e.1) =~= Seq::<StoreID>::empty());
    }
}

/// The head that `best_head` picks is no later than any other head.
proof fn lemma_best_head_earliest(srcs: Seq<Seq<TimedLine>>, pos: Seq<int>, k: int)
    requires
        0 <= k <= srcs.len(),
        heads_valid(srcs, pos),
    ensures
        best_head(srcs, pos, k) matches Some(b) ==> forall|i: int|
            0 <= i < k && pos[i] < srcs[i].len() ==> head_time(srcs, pos, b) <= #[trigger] head_time(srcs, pos, i),
    decreases k,
{
    if k > 0 {
        lemma_best_head_earliest(srcs, pos, k - 1);
        lemma_best_head(srcs, pos, k - 1);
    }
}

/// The heads after the earliest one is taken and its source advances.
pub open spec fn advanced(srcs: Seq<Seq<TimedLine>>, pos: Seq<int>, j: int) -> Seq<int> {
    pos.update(j, next_present(srcs[j], pos[j] + 1))
}

proof fn lemma_advanced_valid(srcs: Seq<Seq<TimedLine>>, pos: Seq<int>, j: int)
    requires
        heads_valid(srcs, pos),
        0 <= j < srcs.len(),
        pos[j] < srcs[j].len(),
    ensures
        heads_valid(srcs, advanced(srcs, pos, j)),
        pos[j] < advanced(srcs, pos, j)[j],
{
    let p2 = advanced(srcs, pos, j);
    lemma_next_present(srcs[j], pos[j] + 1);
    assert forall|i: int| 0 <= i < srcs.len() implies 0 <= #[trigger] p2[i] <= srcs[i].len() by {
        if i != j {
            assert(p2[i] == pos[i]);
        }
    }
    assert forall|i: int| 0 <= i < srcs.len() && p2[i] < srcs[i].len() implies (#[trigger] srcs[i][p2[i]]).0 is Some by {
        if i != j {
            assert(p2[i] == pos[i]);
        }
    }
}

/// From heads no earlier than `m`, the merge takes lines in time order, all
/// no earlier than `m`.
proof fn lemma_entries_ordered_from(srcs: Seq<Seq<TimedLine>>, pos: Seq<int>, fuel: nat, m: int)
    requires
        heads_valid(srcs, pos),
        forall|j: int| 0 <= j < srcs.len() ==> source_time_ordered(#[trigger] srcs[j]),
        forall|j: int| 0 <= j < srcs.len() && pos[j] < srcs[j].len() ==> m <= #[trigger] head_time(srcs, pos, j),
    ensures
        entries_time_ordered(merged_entries(srcs, pos, fuel)),
        forall|i: int|
            0 <= i < merged_entries(srcs, pos, fuel).len() ==> m <= (#[trigger] merged_entries(srcs, pos, fuel)[i]).0->0,
    decreases fuel,
{
    let e = merged_entries(srcs, pos, fuel);
    if fuel > 0 {
        lemma_best_head(srcs, pos, srcs.len() as int);
        match best_head(srcs, pos, srcs.len() as int) {
            None => {},
            Some(j) => {
                let h = head_time(srcs, pos, j);
                let p2 = advanced(srcs, pos, j);
                lemma_advanced_valid(srcs, pos, j);
                lemma_best_head_earliest(srcs, pos, srcs.len() as int);
                assert forall|i: int| 0 <= i < srcs.len() && p2[i] < srcs[i].len() implies h <= #[trigger] head_time(
                    srcs,
                    p2,
                    i,
                ) by {
                    if i != j {
                        assert(p2[i] == pos[i]);
                        assert(head_time(srcs, p2, i) == head_time(srcs, pos, i));
                    } else {
                        assert(source_time_ordered(srcs[j]));
                        assert(srcs[j][pos[j]].0 is Some);
                        assert(srcs[j][p2[j]].0 is Some);
                    }
                }
                lemma_entries_ordered_from(srcs, p2, (fuel - 1) as nat, h as int);
                let rest = merged_entries(srcs, p2, (fuel - 1) as nat);
                assert(e == seq![srcs[j][pos[j]]] + rest);
                assert(srcs[j][pos[j]].0 is Some);
                assert forall|a: int, b: int| 0 <= a < b < e.len() implies (#[trigger] e[a]).0->0 <= (#[trigger] e[b]).0->0 by {
                    if a > 0 {
                        assert(e[a] == rest[a - 1]);
                    }
                    assert(e[b] == rest[b - 1]);
                }
                assert forall|i: int| 0 <= i < e.len() implies (#[trigger] e[i]).0 is Some && m <= e[i].0->0 by {
                    if i > 0 {
                        assert(e[i] == rest[i - 1]);
                    }
                }
            },
        }
    }
}

/// The lines from `p` on that have a timestamp are those from the first
/// such line on.
proof fn lemma_present_from_next(s: Seq<TimedLine>, p: int)
    requires
        0 <= p,
    ensures
        present_from(s, p) == present_from(s, next_present(s, p)),
    decreases s.len() - p,
{
    if p < s.len() && s[p].0 is None {
        lemma_present_from_next(s, p + 1);
    }
}

/// Changing the head of source `j` changes the pending lines by the
/// lines of that source alone.
proof fn lemma_pending_update(srcs: Seq<Seq<TimedLine>>, pos: Seq<int>, k: int, j: int, v: int)
    requires
        0 <= j < k <= srcs.len(),
        pos.len() == srcs.len(),
    ensures
        pending(srcs, pos.update(j, v), k).add(present_from(srcs[j], pos[j]).to_multiset())
            == pending(srcs, pos, k).add(present_from(srcs[j], v).to_multiset()),
    decreases k,
{
    broadcast use vstd::multiset::group_multiset_axioms;
    let p2 = pos.update(j, v);
    let a = present_from(srcs[j], pos[j]).to_multiset();
    let b = present_from(srcs[j], v).to_multiset();
    if k - 1 != j {
        lemma_pending_update(srcs, pos, k - 1, j, v);
        assert(p2[k - 1] == pos[k - 1]);
        let c = present_from(srcs[k - 1], pos[k - 1]).to_multiset();
        assert(pending(srcs, p2, k) == pending(srcs, p2, k - 1).add(c));
        assert(pending(srcs, pos, k) == pending(srcs, pos, k - 1).add(c));
        assert(pending(srcs, p2, k).add(a) =~= pending(srcs, p2, k - 1).add(a).add(c));
        assert(pending(srcs, pos, k).add(b) =~= pending(srcs, pos, k - 1).add(b).add(c));
    } else {
        lemma_pending_same(srcs, pos, p2, k - 1);
        assert(pending(srcs, p2, k) == pending(srcs, p2, k - 1).add(b));
        assert(pending(srcs, pos, k) == pending(srcs, pos, k - 1).add(a));
        assert(pending(srcs, p2, k).add(a) =~= pending(srcs, pos, k).add(b));
    }
}

proof fn lemma_pending_same(srcs: Seq<Seq<TimedLine>>, a: Seq<int>, b: Seq<int>, k: int)
    requires
        0 <= k,
        forall|i: int| 0 <= i < k ==> present_from(srcs[i], a[i]) == present_from(srcs[i], b[i]),
    ensures
        pending(srcs, a, k) == pending(srcs, b, k),
    decreases k,
{
    if k > 0 {
        lemma_pending_same(srcs, a, b, k - 1);
    }
}

/// Sources whose heads are all at their end hold no pending lines.
proof fn lemma_pending_empty(srcs: Seq<Seq<TimedLine>>, pos: Seq<int>, k: int)
    requires
        0 <= k <= srcs.len(),
        forall|i: int| 0 <= i < k ==> #[trigger] pos[i] >= srcs[i].len(),
    ensures
        pending(srcs, pos, k) == Multiset::<TimedLine>::empty(),
    decreases k,
{
    broadcast use vstd::multiset::group_multiset_axioms;
    broadcast use vstd::seq_lib::group_to_multiset_ensures;
    if k > 0 {
        lemma_pending_empty(srcs, pos, k - 1);
        assert(present_from(srcs[k - 1], pos[k - 1]) =~= Seq::<TimedLine>::empty());
        assert(present_from(srcs[k - 1], pos[k - 1]).to_multiset() =~= Multiset::<TimedLine>::empty());
        assert(pending(srcs, pos, k) =~= Multiset::<TimedLine>::empty());
    }
}

/// With fuel for every remaining line, the merge takes exactly the pending
/// lines.
proof fn lemma_entries_are_pending(srcs: Seq<Seq<TimedLine>>, pos: Seq<int>, fuel: nat)
    requires
        heads_valid(srcs, pos),
        remaining(srcs, pos, srcs.len() as int) <= fuel,
    ensures
        merged_entries(srcs, pos, fuel).to_multiset() == pending(srcs, pos, srcs.len() as int),
    decreases fuel,
{
    broadcast use vstd::multiset::group_multiset_axioms;
    broadcast use vstd::seq_lib::lemma_multiset_commutative;
    broadcast use vstd::seq_lib::group_to_multiset_ensures;
    let n = srcs.len() as int;
    lemma_best_head(srcs, pos, n);
    if fuel == 0 {
        assert forall|i: int| 0 <= i < n implies #[trigger] pos[i] >= srcs[i].len() by {
            lemma_remaining_bounds(srcs, pos, n, i);
        }
        lemma_pending_empty(srcs, pos, n);
        assert(merged_entries(srcs, pos, fuel).to_multiset() =~= Multiset::<TimedLine>::empty());
    } else {
        match best_head(srcs, pos, n) {
            None => {
                lemma_pending_empty(srcs, pos, n);
                assert(merged_entries(srcs, pos, fuel).to_multiset() =~= Multiset::<TimedLine>::empty());
            },
            Some(j) => {
                let q = next_present(srcs[j], pos[j] + 1);
                let p2 = advanced(srcs, pos, j);
                lemma_advanced_valid(srcs, pos, j);
                lemma_remaining_update(srcs, pos, n, j, q);
                lemma_entries_are_pending(srcs, p2, (fuel - 1) as nat);
                let first = srcs[j][pos[j]];
                let rest = merged_entries(srcs, p2, (fuel - 1) as nat);
                assert(merged_entries(srcs, pos, fuel) == seq![first] + rest);
                lemma_present_from_next(srcs[j], pos[j] + 1);
                assert(present_from(srcs[j], pos[j]) == seq![first] + present_from(srcs[j], pos[j] + 1));
                lemma_pending_update(srcs, pos, n, j, q);
                let a = present_from(srcs[j], pos[j]).to_multiset();
                let b = present_from(srcs[j], q).to_multiset();
                assert(a =~= seq![first].to_multiset().add(b));
                assert(pending(srcs, p2, n).add(a) == pending(srcs, pos, n).add(b));
                let f = seq![first].to_multiset();
                assert forall|x: TimedLine| #[trigger] pending(srcs, pos, n).count(x) == pending(srcs, p2, n).add(f).count(x) by {
                    assert(pending(srcs, p2, n).add(a).count(x) == pending(srcs, pos, n).add(b).count(x));
                    assert(a.count(x) == f.count(x) + b.count(x));
                }
                assert(pending(srcs, pos, n) =~= pending(srcs, p2, n).add(f));
                assert((seq![first] + rest).to_multiset() =~= seq![first].to_multiset().add(rest.to_multiset()));
            },
        }
    }
}

/// The merge is a K-way merge of the sources: it takes every line that has
/// a timestamp exactly once, and none other.
pub proof fn lemma_merge_takes_each_line_once(srcs: Seq<Seq<TimedLine>>)
    ensures
        merged_order(srcs) == merged_entries(srcs, first_heads(srcs), total_lines(srcs) as nat).map_values(
            |e: TimedLine| e.1,
        ),
        merged_entries(srcs, first_heads(srcs), total_lines(srcs) as nat).to_multiset() == present_lines(srcs),
{
    let n = srcs.len() as int;
    let zeros = Seq::new(srcs.len(), |j: int| 0int);
    let init = first_heads(srcs);
    lemma_merged_ids(srcs, init, total_lines(srcs) as nat);
    assert forall|i: int| 0 <= i < n implies 0 <= #[trigger] init[i] <= srcs[i].len() && (init[i] < srcs[i].len()
        ==> srcs[i][init[i]].0 is Some) by {
        lemma_next_present(srcs[i], 0);
    }
    assert forall|i: int| 0 <= i < n implies zeros[i] <= #[trigger] init[i] by {
        lemma_next_present(srcs[i], 0);
    }
    lemma_remaining_le(srcs, zeros, init, n);
    lemma_remaining_bounds(srcs, init, n, 0);
    lemma_entries_are_pending(srcs, init, total_lines(srcs) as nat);
    assert forall|i: int| 0 <= i < n implies present_from(srcs[i], init[i]) == present_from(srcs[i], zeros[i]) by {
        lemma_present_from_next(srcs[i], 0);
    }
    lemma_pending_same(srcs, init, zeros, n);
}

/// When every source is in time order, so is the merge: it is a K-way
/// merge of pre-sorted sources by timestamp.
pub proof fn lemma_merge_is_time_ordered(srcs: Seq<Seq<TimedLine>>)
    requires
        forall|j: int| 0 <= j < srcs.len() ==> source_time_ordered(#[trigger] srcs[j]),
    ensures
        entries_time_ordered(merged_entries(srcs, first_heads(srcs), total_lines(srcs) as nat)),
{
    let n = srcs.len() as int;
    let init = first_heads(srcs);
    assert forall|i: int| 0 <= i < n implies 0 <= #[trigger] init[i] <= srcs[i].len() && (init[i] < srcs[i].len()
        ==> srcs[i][init[i]].0 is Some) by {
        lemma_next_present(srcs[i], 0);
    }
    lemma_entries_ordered_from(srcs, init, total_lines(srcs) as nat, i64::MIN as int);
}

/// A line before position `i` is earlier than `target` (a line without a
/// timestamp is not).
pub open spec fn before_target(times: Seq<Option<i64>>, target: i64, i: int) -> bool {
    times[i] matches Some(t) && t < target
}

/// The first position at or after `i` whose line is not earlier than
/// `target` (the end when there is none).
pub open spec fn first_not_before(times: Seq<Option<i64>>, target: i64, i: int) -> int
    decreases times.len() - i,
{
    if i < 0 || i >= times.len() {
        times.len() as int
    } else if !before_target(times, target, i) {
        i
    } else {
        first_not_before(times, target, i + 1)
    }
}

proof fn lemma_first_not_before(times: Seq<Option<i64>>, target: i64, p: int, i: int)
    requires
        0 <= i <= p <= times.len(),
        forall|k: int| 0 <= k < p ==> before_target(times, target, k),
        p < times.len() ==> !before_target(times, target, p),
    ensures
        first_not_before(times, target, i) == p,
    decreases p - i,
{
    if i < p {
        lemma_first_not_before(times, target, p, i + 1);
    }
}

/// The lines earlier than `target` come first.
pub open spec fn partitioned_by(times: Seq<Option<i64>>, target: i64) -> bool {
    forall|i: int, j: int| 0 <= i < j < times.len() && before_target(times, target, j) ==> before_target(times, target, i)
}

/// The position of the line closest to `target` around the partition
/// point `p`: the earlier neighbour on equal distance; none when a
/// neighbour has no timestamp.
pub open spec fn closest_around(times: Seq<Option<i64>>, target: i64, p: int) -> Option<int> {
    if p == 0 {
        Some(0)
    } else if p >= times.len() {
        Some(times.len() - 1)
    } else {
        match (times[p - 1], times[p]) {
            (Some(b), Some(a)) => {
                let db = if target >= b { target - b } else { b - target };
                let da = if a >= target { a - target } else { target - a };
                if db <= da { Some(p - 1) } else { Some(p) }
            },
            _ => None,
        }
    }
}

/// Finds the position of the line closest to `target` in a view sorted by
/// time, given the timestamp of each of its lines: a binary search for the
/// first line not earlier than `target`, then the nearer of it and the line
/// before.
pub fn find_closest_line_position_by_time(times: &[Option<i64>], target: i64) -> (r: Option<usize>)
    ensures
        times@.len() == 0 ==> r is None,
        r matches Some(i) ==> i < times@.len(),
        times@.len() > 0 && partitioned_by(times@, target) ==> match closest_around(
            times@,
            target,
            first_not_before(times@, target, 0),
        ) {
            Some(c) => r == Some(c as usize),
            None => r is None,
        },
{
    let n = times.len();
    if n == 0 {
        return None;
    }
    let mut lo: usize = 0;
    let mut hi: usize = n;
    while lo < hi
        invariant
            n == times@.len(),
            0 <= lo <= hi <= n,
            partitioned_by(times@, target) ==> forall|i: int| 0 <= i < lo ==> before_target(times@, target, i),
            partitioned_by(times@, target) ==> forall|i: int| hi <= i < n ==> !before_target(times@, target, i),
        decreases hi - lo,
    {
        let mid = lo + (hi - lo) / 2;
        let is_before = match times[mid] {
            Some(t) => t < target,
            None => false,
        };
        assert(is_before == before_target(times@, target, mid as int));
        if is_before {
            lo = mid + 1;
        } else {
            hi = mid;
        }
    }
    let p = lo;
    proof {
        if partitioned_by(times@, target) {
            lemma_first_not_before(times@, target, p as int, 0);
        }
    }
    if p == 0 {
        return Some(0);
    }
    if p >= n {
        return Some(n - 1);
    }
    let before = match times[p - 1] {
        Some(t) => t,
        None => return None,
    };
    let after = match times[p] {
        Some(t) => t,
        None => return None,
    };
    let dist_before: i128 = if target >= before { target as i128 - before as i128 } else { before as i128 - target as i128 };
    let dist_after: i128 = if after >= target { after as i128 - target as i128 } else { target as i128 - after as i128 };
    if dist_before <= dist_after {
        Some(p - 1)
    } else {
        Some(p)
    }
}

} // verus!
