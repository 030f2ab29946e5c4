//! Filter views: which lines a filter keeps, and the key that decides when
//! a cached filter result is still valid.

use crate::chars::{chars_eq, str_chars};
use crate::pattern::{pattern_matches, Pattern};
use crate::store::StoreID;
use std::collections::HashMap;
use vstd::prelude::*;

verus! {

broadcast use vstd::std_specs::hash::group_hash_axioms;

/// Cache key for filter validity: a cached result is valid while the search
/// text, the case sensitivity and the store version are unchanged.
pub struct FilterKey {
    pub search_text: String,
    pub case_sensitive: bool,
    pub store_version: u64,
}

impl FilterKey {
    pub fn new(search_text: String, case_sensitive: bool, store_version: u64) -> (r: Self)
        ensures
            r.search_text@ == search_text@,
            r.case_sensitive == case_sensitive,
            r.store_version == store_version,
    {
        FilterKey { search_text, case_sensitive, store_version }
    }
}

/// A filter keeps a line when its pattern matches the displayed message or
/// the raw line.
pub open spec fn filter_keeps(pattern: Seq<char>, message: Seq<char>, raw: Seq<char>) -> bool {
    pattern_matches(pattern, message) || pattern_matches(pattern, raw)
}

/// Whether the filter keeps a line.
pub fn line_matches_filter(pattern: &Pattern, message: &str, raw: &str) -> (r: bool)
    ensures
        r == filter_keeps(pattern@, message@, raw@),
{
    pattern.is_match(message) || pattern.is_match(raw)
}

/// The indices of `order` (line indices in time order) whose lines the
/// filter keeps, in that order.
pub open spec fn kept_lines(pattern: Seq<char>, order: Seq<usize>, lines: Seq<(String, String)>) -> Seq<usize>
    decreases order.len(),
{
    if order.len() == 0 {
        Seq::empty()
    } else {
        let i = order.last();
        let rest = kept_lines(pattern, order.drop_last(), lines);
        if i < lines.len() && filter_keeps(pattern, lines[i as int].0@, lines[i as int].1@) {
            rest.push(i)
        } else {
            rest
        }
    }
}

/// The lines of a source that a filter keeps, in time order. `lines` holds
/// each line's displayed message and raw text; `order` lists line indices
/// by timestamp.
pub fn filter_sorted_by_search(pattern: &Pattern, order: &[usize], lines: &[(String, String)]) -> (r: Vec<usize>)
    ensures
        r@ == kept_lines(pattern@, order@, lines@),
{
    let mut r: Vec<usize> = Vec::new();
    let mut k: usize = 0;
    while k < order.len()
        invariant
            k <= order@.len(),
            r@ == kept_lines(pattern@, order@.take(k as int), lines@),
        decreases order.len() - k,
    {
        let i = order[k];
        assert(order@.take(k + 1).drop_last() =~= order@.take(k as int));
        if i < lines.len() && line_matches_filter(pattern, lines[i].0.as_str(), lines[i].1.as_str()) {
            r.push(i);
        }
        k += 1;
    }
    assert(order@.take(order@.len() as int) =~= order@);
    r
}

/// A filter with an exclude pattern keeps a line that its pattern keeps
/// and that the exclude pattern does not match (message or raw line).
pub open spec fn filter_keeps_excluding(
    pattern: Seq<char>,
    exclude: Option<Seq<char>>,
    message: Seq<char>,
    raw: Seq<char>,
) -> bool {
    filter_keeps(pattern, message, raw) && match exclude {
        Some(x) => !filter_keeps(x, message, raw),
        None => true,
    }
}

/// Whether a filter with an optional exclude pattern keeps a line.
pub fn line_passes_filter(pattern: &Pattern, exclude: Option<&Pattern>, message: &str, raw: &str) -> (r: bool)
    ensures
        r == filter_keeps_excluding(
            pattern@,
            match exclude {
                Some(x) => Some(x@),
                None => None,
            },
            message@,
            raw@,
        ),
{
    if !line_matches_filter(pattern, message, raw) {
        return false;
    }
    match exclude {
        Some(x) => !line_matches_filter(x, message, raw),
        None => true,
    }
}

/// A group of seen lines holds the source and message.
pub open spec fn group_has(g: Seq<(u64, String)>, source: u64, message: Seq<char>) -> bool {
    exists|i: int| 0 <= i < g.len() && (#[trigger] g[i]).0 == source && g[i].1@ == message
}

/// Hides repeated lines of a filtered view: a line whose time, source and
/// message equal those of an earlier line is dropped. Lines are offered in
/// view order, so the caller can stop between lines when the view is
/// superseded.
pub struct Deduplicator {
    /// The seen (time, source, message) keys, grouped by time: a hash map
    /// keyed by the integer time, whose specification proves lookups, with
    /// the (source, message) pairs of each time in a list. A set of the
    /// whole tuples would hold a string in its key, for which the hash
    /// set's specification lets nothing be proved; `seen_keys` is that set.
    seen: HashMap<i64, Vec<(u64, String)>>,
}

impl Deduplicator {
    /// The (time, source, message) keys seen so far.
    pub closed spec fn seen_keys(&self) -> Set<(i64, u64, Seq<char>)> {
        Set::new(|k: (i64, u64, Seq<char>)| self.seen@.contains_key(k.0) && group_has(self.seen@[k.0]@, k.1, k.2))
    }

    pub fn new() -> (r: Self)
        ensures
            r.seen_keys() == Set::<(i64, u64, Seq<char>)>::empty(),
    {
        let r = Deduplicator { seen: HashMap::new() };
        assert(r.seen_keys() =~= Set::<(i64, u64, Seq<char>)>::empty());
        r
    }

    /// Offers the next line of the view: its id, and its time in
    /// nanoseconds with its message when the store still has the line.
    /// Returns whether the line is kept: a line the store no longer has is
    /// kept, and one whose key was seen before is not.
    pub fn offer(&mut self, id: StoreID, line: Option<(i64, String)>) -> (keep: bool)
        ensures
            match line {
                None => keep && final(self).seen_keys() == old(self).seen_keys(),
                Some((t, m)) => {
                    &&& keep == !old(self).seen_keys().contains((t, id.spec_source_id(), m@))
                    &&& final(self).seen_keys() == old(self).seen_keys().insert((t, id.spec_source_id(), m@))
                },
            },
    {
        let (t, m) = match line {
            None => return true,
            Some(l) => l,
        };
        let source = id.source_id();
        let ghost before = self.seen@;
        let ghost old_keys = self.seen_keys();
        let mut group: Vec<(u64, String)> = match self.seen.remove(&t) {
            Some(g) => g,
            None => Vec::new(),
        };
        let ghost g0 = group@;
        assert(before.contains_key(t) ==> g0 == before[t]@);
        assert(!before.contains_key(t) ==> g0.len() == 0);
        let mc = str_chars(m.as_str());
        let mut found = false;
        let mut i: usize = 0;
        while i < group.len() && !found
            invariant
                group@ == g0,
                i <= group@.len(),
                mc@ == m@,
                found ==> group_has(g0, source, m@),
                !found ==> forall|j: int| 0 <= j < i ==> !((#[trigger] g0[j]).0 == source && g0[j].1@ == m@),
            decreases group.len() - i,
        {
            let gc = str_chars(group[i].1.as_str());
            if group[i].0 == source && chars_eq(gc.as_slice(), mc.as_slice()) {
                found = true;
            }
            i += 1;
        }
        assert(found == group_has(g0, source, m@));
        if !found {
            group.push((source, m));
        }
        let ghost g1 = group@;
        let ghost g1v = group;
        self.seen.insert(t, group);
        proof {
            assert(self.seen@ == before.remove(t).insert(t, g1v));
            assert(self.seen@[t]@ == g1);
            assert forall|s: u64, x: Seq<char>| (group_has(g0, s, x) || (s == source && x == m@)) implies group_has(g1, s, x) by {
                if group_has(g0, s, x) {
                    let j = choose|j: int| 0 <= j < g0.len() && (#[trigger] g0[j]).0 == s && g0[j].1@ == x;
                    assert(g1[j] == g0[j]);
                } else if !found {
                    assert(g1[g0.len() as int] == (source, m));
                }
            }
            assert forall|s: u64, x: Seq<char>| group_has(g1, s, x) implies (group_has(g0, s, x) || (s == source && x == m@)) by {
                let j = choose|j: int| 0 <= j < g1.len() && (#[trigger] g1[j]).0 == s && g1[j].1@ == x;
                if j < g0.len() {
                    assert(g0[j] == g1[j]);
                }
            }
            assert(self.seen_keys() =~= old_keys.insert((t, source, m@)));
        }
        !found
    }
}

} // verus!
