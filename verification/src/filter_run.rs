//! One run of a filter request over the whole store: each source's lines
//! that pass the filter (pattern, exclusion) in time order, merged across
//! sources by time, and, when duplicates are hidden, each repeated line
//! dropped after its first appearance.

use crate::filter::{filter_keeps_excluding, line_passes_filter, Deduplicator};
use crate::pattern::Pattern;
use crate::store::{merge_sorted_sources, merged_order, source_views, StoreID, TimedLine};
use vstd::prelude::*;

verus! {

/// A source as a filter run reads it.
pub struct FilterSource {
    /// The source's stable identifier.
    pub source_id: u64,
    /// Each line's displayed message and raw text, which the filter reads.
    pub lines: Vec<(String, String)>,
    /// Each line's message as its log line carries it, which the
    /// deduplication compares.
    pub messages: Vec<String>,
    /// Each line's adjusted time in nanoseconds, when it has one.
    pub times: Vec<Option<i64>>,
    /// Line indices by timestamp.
    pub order: Vec<usize>,
}

/// The exclude pattern's text, if any.
pub open spec fn exclude_view(exclude: Option<&Pattern>) -> Option<Seq<char>> {
    match exclude {
        Some(x) => Some(x@),
        None => None,
    }
}

/// The indices of `order` whose lines pass the filter, in that order.
pub open spec fn passing_lines(
    pattern: Seq<char>,
    exclude: Option<Seq<char>>,
    order: Seq<usize>,
    lines: Seq<(String, String)>,
) -> Seq<usize>
    decreases order.len(),
{
    if order.len() == 0 {
        Seq::empty()
    } else {
        let i = order.last();
        let rest = passing_lines(pattern, exclude, order.drop_last(), lines);
        if i < lines.len() && filter_keeps_excluding(pattern, exclude, lines[i as int].0@, lines[i as int].1@) {
            rest.push(i)
        } else {
            rest
        }
    }
}

/// The adjusted time of line `i`, if it has one.
pub open spec fn time_of(times: Seq<Option<i64>>, i: usize) -> Option<i64> {
    if i < times.len() {
        times[i as int]
    } else {
        None
    }
}

/// A source's passing lines in time order, each with its time and id.
pub open spec fn source_run(src: FilterSource, pattern: Seq<char>, exclude: Option<Seq<char>>) -> Seq<TimedLine> {
    passing_lines(pattern, exclude, src.order@, src.lines@).map_values(
        |i: usize| (time_of(src.times@, i), StoreID::spec_new(src.source_id, i)),
    )
}

/// No two sources share an identifier.
pub open spec fn distinct_sources(srcs: Seq<FilterSource>) -> bool {
    forall|a: int, b: int| 0 <= a < b < srcs.len() ==> srcs[a].source_id != srcs[b].source_id
}

/// The deduplication key of a line (its time and message), when its source
/// has the line and the line has a time.
pub open spec fn line_key(srcs: Seq<FilterSource>, id: StoreID) -> Option<(i64, Seq<char>)> {
    if exists|j: int| 0 <= j < srcs.len() && #[trigger] srcs[j].source_id == id.spec_source_id() {
        let j = choose|j: int| 0 <= j < srcs.len() && #[trigger] srcs[j].source_id == id.spec_source_id();
        let i = id.spec_line_index();
        if i < srcs[j].messages@.len() {
            match time_of(srcs[j].times@, i) {
                Some(t) => Some((t, srcs[j].messages@[i as int]@)),
                None => None,
            }
        } else {
            None
        }
    } else {
        None
    }
}

/// The (time, source, message) keys of the lines `ids`.
pub open spec fn keys_seen(srcs: Seq<FilterSource>, ids: Seq<StoreID>) -> Set<(i64, u64, Seq<char>)> {
    Set::new(
        |key: (i64, u64, Seq<char>)|
            exists|k: int|
                0 <= k < ids.len() && (#[trigger] ids[k]).spec_source_id() == key.1 && line_key(srcs, ids[k])
                    == Some((key.0, key.2)),
    )
}

/// `ids` without the lines whose key appeared on an earlier line; lines
/// without a key are all kept.
pub open spec fn without_repeats(srcs: Seq<FilterSource>, ids: Seq<StoreID>) -> Seq<StoreID>
    decreases ids.len(),
{
    if ids.len() == 0 {
        Seq::empty()
    } else {
        let id = ids.last();
        let rest = without_repeats(srcs, ids.drop_last());
        match line_key(srcs, id) {
            Some((t, m)) => if keys_seen(srcs, ids.drop_last()).contains((t, id.spec_source_id(), m)) {
                rest
            } else {
                rest.push(id)
            },
            None => rest.push(id),
        }
    }
}

/// The result of a filter run: the passing lines of all sources merged by
/// time, without repeats when duplicates are hidden.
pub open spec fn filter_run(
    srcs: Seq<FilterSource>,
    pattern: Seq<char>,
    exclude: Option<Seq<char>>,
    hide_duplicates: bool,
) -> Seq<StoreID> {
    let merged = merged_order(srcs.map_values(|s: FilterSource| source_run(s, pattern, exclude)));
    if hide_duplicates {
        without_repeats(srcs, merged)
    } else {
        merged
    }
}

/// The lines of `order` that pass a filter with an optional exclude
/// pattern, in that order.
pub fn filter_sorted_excluding(
    pattern: &Pattern,
    exclude: Option<&Pattern>,
    order: &[usize],
    lines: &[(String, String)],
) -> (r: Vec<usize>)
    ensures
        r@ == passing_lines(pattern@, exclude_view(exclude), order@, lines@),
{
    let mut r: Vec<usize> = Vec::new();
    let mut k: usize = 0;
    while k < order.len()
        invariant
            k <= order@.len(),
            r@ == passing_lines(pattern@, exclude_view(exclude), order@.take(k as int), lines@),
        decreases order.len() - k,
    {
        let i = order[k];
        assert(order@.take(k + 1).drop_last() =~= order@.take(k as int));
        if i < lines.len() && line_passes_filter(pattern, exclude, lines[i].0.as_str(), lines[i].1.as_str()) {
            r.push(i);
        }
        k += 1;
    }
    assert(order@.take(order@.len() as int) =~= order@);
    r
}

/// A source's passing lines in time order, with their times and ids.
fn run_source(src: &FilterSource, pattern: &Pattern, exclude: Option<&Pattern>) -> (r: Vec<TimedLine>)
    ensures
        r@ == source_run(*src, pattern@, exclude_view(exclude)),
{
    let kept = filter_sorted_excluding(pattern, exclude, src.order.as_slice(), src.lines.as_slice());
    let ghost f = |i: usize| (time_of(src.times@, i), StoreID::spec_new(src.source_id, i));
    let mut r: Vec<TimedLine> = Vec::new();
    let mut k: usize = 0;
    while k < kept.len()
        invariant
            k <= kept@.len(),
            f == (|i: usize| (time_of(src.times@, i), StoreID::spec_new(src.source_id, i))),
            r@ == kept@.take(k as int).map_values(f),
        decreases kept.len() - k,
    {
        let i = kept[k];
        let t = if i < src.times.len() {
            src.times[i]
        } else {
            None
        };
        r.push((t, StoreID::new(src.source_id, i)));
        assert(kept@.take(k + 1).map_values(f) =~= kept@.take(k as int).map_values(f).push(f(i)));
        k += 1;
    }
    assert(kept@.take(kept@.len() as int) =~= kept@);
    r
}

/// The deduplication key of line `id`.
fn key_of(srcs: &Vec<FilterSource>, id: StoreID) -> (r: Option<(i64, String)>)
    requires
        distinct_sources(srcs@),
    ensures
        match r {
            Some((t, m)) => line_key(srcs@, id) == Some((t, m@)),
            None => line_key(srcs@, id) is None,
        },
{
    let sid = id.source_id();
    let mut j: usize = 0;
    while j < srcs.len()
        invariant
            j <= srcs@.len(),
            sid == id.spec_source_id(),
            distinct_sources(srcs@),
            forall|k: int| 0 <= k < j ==> #[trigger] srcs@[k].source_id != sid,
        decreases srcs.len() - j,
    {
        if srcs[j].source_id == sid {
            let i = id.line_index();
            proof {
                let c = choose|c: int| 0 <= c < srcs@.len() && #[trigger] srcs@[c].source_id == id.spec_source_id();
                assert(srcs@[j as int].source_id == id.spec_source_id());
                if c != j {
                    if c < j {
                        assert(srcs@[c].source_id != sid);
                    } else {
                        assert(srcs@[j as int].source_id != srcs@[c].source_id);
                    }
                }
            }
            if i < srcs[j].messages.len() {
                let t = if i < srcs[j].times.len() {
                    srcs[j].times[i]
                } else {
                    None
                };
                return match t {
                    Some(t) => Some((t, srcs[j].messages[i].clone())),
                    None => None,
                };
            }
            return None;
        }
        j += 1;
    }
    None
}

/// Runs a filter request over the store's sources: each source's lines
/// that the pattern keeps and the exclude pattern does not, in time order,
/// merged across sources by time; with `hide_duplicates`, a line whose
/// time, source and message repeat an earlier line's is dropped.
pub fn run_filter(
    pattern: &Pattern,
    exclude: Option<&Pattern>,
    hide_duplicates: bool,
    sources: &Vec<FilterSource>,
) -> (r: Vec<StoreID>)
    requires
        distinct_sources(sources@),
    ensures
        r@ == filter_run(sources@, pattern@, exclude_view(exclude), hide_duplicates),
{
    let ghost runs = sources@.map_values(|s: FilterSource| source_run(s, pattern@, exclude_view(exclude)));
    let mut timed: Vec<Vec<TimedLine>> = Vec::new();
    let mut j: usize = 0;
    while j < sources.len()
        invariant
            j <= sources@.len(),
            runs == sources@.map_values(|s: FilterSource| source_run(s, pattern@, exclude_view(exclude))),
            source_views(timed@) == runs.take(j as int),
        decreases sources.len() - j,
    {
        let t = run_source(&sources[j], pattern, exclude);
        let ghost tv = t@;
        let ghost old_timed = timed@;
        assert(source_views(old_timed).len() == old_timed.len());
        assert(runs.take(j as int).len() == j);
        assert(old_timed.len() == j);
        timed.push(t);
        proof {
            assert(tv == runs[j as int]);
            assert forall|m: int| 0 <= m < j + 1 implies #[trigger] source_views(timed@)[m] == runs.take(j + 1)[m] by {
                if m < j {
                    assert(timed@[m] == old_timed[m]);
                    assert(source_views(old_timed)[m] == runs.take(j as int)[m]);
                } else {
                    assert(timed@[m]@ == tv);
                }
            }
        }
        assert(source_views(timed@) =~= runs.take(j + 1));
        j += 1;
    }
    assert(runs.take(sources@.len() as int) =~= runs);
    let merged = merge_sorted_sources(&timed);
    if !hide_duplicates {
        return merged;
    }
    let ghost srcs = sources@;
    let mut dedup = Deduplicator::new();
    let mut out: Vec<StoreID> = Vec::new();
    let mut k: usize = 0;
    proof {
        assert(keys_seen(srcs, merged@.take(0)) =~= Set::<(i64, u64, Seq<char>)>::empty());
        assert(merged@.take(0) =~= Seq::<StoreID>::empty());
    }
    while k < merged.len()
        invariant
            k <= merged@.len(),
            srcs == sources@,
            distinct_sources(srcs),
            out@ == without_repeats(srcs, merged@.take(k as int)),
            dedup.seen_keys() == keys_seen(srcs, merged@.take(k as int)),
        decreases merged.len() - k,
    {
        let id = merged[k];
        let key = key_of(sources, id);
        let ghost before = merged@.take(k as int);
        let ghost after = merged@.take(k + 1);
        assert(after.drop_last() =~= before);
        assert(after.last() == id);
        let keep = dedup.offer(id, key);
        proof {
            match line_key(srcs, id) {
                Some((t, m)) => {
                    assert(keys_seen(srcs, after) =~= keys_seen(srcs, before).insert((t, id.spec_source_id(), m))) by {
                        assert forall|x: (i64, u64, Seq<char>)| #[trigger] keys_seen(srcs, after).contains(x) implies
                            keys_seen(srcs, before).insert((t, id.spec_source_id(), m)).contains(x) by {
                            let w = choose|w: int| 0 <= w < after.len() && (#[trigger] after[w]).spec_source_id() == x.1
                                && line_key(srcs, after[w]) == Some((x.0, x.2));
                            if w < before.len() {
                                assert(before[w] == after[w]);
                                assert(keys_seen(srcs, before).contains(x));
                            }
                        }
                        assert forall|x: (i64, u64, Seq<char>)| #[trigger] keys_seen(srcs, before).insert((t, id.spec_source_id(), m)).contains(x) implies
                            keys_seen(srcs, after).contains(x) by {
                            if x == (t, id.spec_source_id(), m) {
                                assert(after[before.len() as int] == id);
                            } else {
                                let w = choose|w: int| 0 <= w < before.len() && (#[trigger] before[w]).spec_source_id() == x.1
                                    && line_key(srcs, before[w]) == Some((x.0, x.2));
                                assert(after[w] == before[w]);
                            }
                        }
                    }
                },
                None => {
                    assert(keys_seen(srcs, after) =~= keys_seen(srcs, before)) by {
                        assert forall|x: (i64, u64, Seq<char>)| #[trigger] keys_seen(srcs, after).contains(x) implies
                            keys_seen(srcs, before).contains(x) by {
                            let w = choose|w: int| 0 <= w < after.len() && (#[trigger] after[w]).spec_source_id() == x.1
                                && line_key(srcs, after[w]) == Some((x.0, x.2));
                            if w < before.len() {
                                assert(before[w] == after[w]);
                            }
                        }
                        assert forall|x: (i64, u64, Seq<char>)| #[trigger] keys_seen(srcs, before).contains(x) implies
                            keys_seen(srcs, after).contains(x) by {
                            let w = choose|w: int| 0 <= w < before.len() && (#[trigger] before[w]).spec_source_id() == x.1
                                && line_key(srcs, before[w]) == Some((x.0, x.2));
                            assert(after[w] == before[w]);
                        }
                    }
                },
            }
        }
        if keep {
            out.push(id);
        }
        k += 1;
    }
    assert(merged@.take(merged@.len() as int) =~= merged@);
    out
}

} // verus!
