//! Temporal anomaly scoring: how long ago a line's template was last seen,
//! relative to a time window, and whether the window holds a burst of
//! lines. The decisions are made here on integer times in milliseconds; the
//! caller turns them into a score in [0, 1].

use crate::chars::{chars_eq, str_chars};
use std::collections::VecDeque;
use vstd::prelude::*;

verus! {

/// The time since a template was last seen, relative to the window.
#[derive(Clone, Copy, Debug, PartialEq, Eq, Structural)]
pub enum Recency {
    /// The template has not been seen before.
    Novel,
    /// The template was last seen further away than the window (in either
    /// direction, for out-of-order logs).
    LongGap,
    /// The template was last seen within the window: the gap and the window
    /// in whole seconds.
    Within { gap_secs: u64, window_secs: u64 },
}

/// What the temporal scorer observed of one line.
#[derive(Clone, Copy, Debug, PartialEq, Eq, Structural)]
pub struct TemporalObservation {
    pub recency: Recency,
    /// Unusually high activity: more than 100 lines in the window, at more
    /// than 10 lines per second of window.
    pub burst: bool,
}

/// The absolute value of an integer.
pub open spec fn abs_int(x: int) -> int {
    if x < 0 {
        -x
    } else {
        x
    }
}

/// The window's timestamps once those further than `window_ms` before `now`
/// have left the front.
pub open spec fn drop_expired(q: Seq<i64>, now: i64, window_ms: int) -> Seq<i64>
    decreases q.len(),
{
    if q.len() > 0 && now - q[0] > window_ms {
        drop_expired(q.drop_first(), now, window_ms)
    } else {
        q
    }
}

/// The recency of a template last seen at `last` (if ever), for a line at
/// `now`, with a window of `window_seconds`. Gaps are counted in whole
/// seconds, truncated.
pub open spec fn recency_of(last: Option<i64>, now: i64, window_seconds: i64) -> Recency {
    match last {
        None => Recency::Novel,
        Some(t) => {
            let gap = abs_int(now - t) / 1000;
            let window = abs_int(window_seconds as int);
            if gap > window {
                Recency::LongGap
            } else {
                Recency::Within { gap_secs: gap as u64, window_secs: window as u64 }
            }
        },
    }
}

/// A burst: more than 100 lines in the window and a rate above 10 lines
/// per second of window (an empty window counts as infinitely fast).
pub open spec fn is_burst(lines_in_window: nat, window_seconds: i64) -> bool {
    let window = abs_int(window_seconds as int);
    lines_in_window > 100 && (window == 0 || lines_in_window > 10 * window)
}

/// The time a template was last seen: its first entry.
pub open spec fn lookup(entries: Seq<(Seq<char>, i64)>, key: Seq<char>) -> Option<i64>
    decreases entries.len(),
{
    if entries.len() == 0 {
        None
    } else if entries[0].0 == key {
        Some(entries[0].1)
    } else {
        lookup(entries.drop_first(), key)
    }
}

/// Temporal anomaly scorer based on time windows.
pub struct TemporalScorer {
    window_seconds: i64,
    last_seen: Vec<(String, i64)>,
    recent_timestamps: VecDeque<i64>,
}

/// The longest window, in seconds, that a duration in milliseconds holds.
pub const MAX_WINDOW_SECONDS: i64 = 9_223_372_036_854_775;

impl TemporalScorer {
    /// The window length in seconds.
    pub closed spec fn window(&self) -> i64 {
        self.window_seconds
    }

    /// When a template was last seen (milliseconds since the epoch).
    pub closed spec fn last_seen_at(&self, key: Seq<char>) -> Option<i64> {
        lookup(self.last_seen@.map_values(|e: (String, i64)| (e.0@, e.1)), key)
    }

    /// The times of the lines in the window, oldest first.
    pub closed spec fn recent(&self) -> Seq<i64> {
        self.recent_timestamps@
    }

    /// A scorer with a window of `window_seconds` that has seen no line.
    pub fn new(window_seconds: i64) -> (r: Self)
        requires
            -MAX_WINDOW_SECONDS <= window_seconds <= MAX_WINDOW_SECONDS,
        ensures
            r.window() == window_seconds,
            forall|k: Seq<char>| #[trigger] r.last_seen_at(k) is None,
            r.recent() == Seq::<i64>::empty(),
    {
        TemporalScorer { window_seconds, last_seen: Vec::new(), recent_timestamps: VecDeque::new() }
    }

    /// Removes the timestamps further than the window before `now` from
    /// the front of the window.
    fn clean_old_entries(&mut self, now: i64)
        ensures
            final(self).recent() == drop_expired(old(self).recent(), now, old(self).window() * 1000),
            final(self).window() == old(self).window(),
            forall|k: Seq<char>| #[trigger] final(self).last_seen_at(k) == old(self).last_seen_at(k),
    {
        let window_ms: i128 = self.window_seconds as i128 * 1000;
        let ghost start = self.recent_timestamps@;
        while self.recent_timestamps.len() > 0 && (now as i128) - (self.recent_timestamps[0] as i128) > window_ms
            invariant
                window_ms == self.window_seconds * 1000,
                self.window_seconds == old(self).window_seconds,
                self.last_seen == old(self).last_seen,
                start == old(self).recent_timestamps@,
                drop_expired(start, now, window_ms as int) == drop_expired(
                    self.recent_timestamps@,
                    now,
                    window_ms as int,
                ),
            decreases self.recent_timestamps@.len(),
        {
            self.recent_timestamps.pop_front();
        }
    }

    /// Observes a line of template `key` at `now` (milliseconds since the
    /// epoch), after clearing the expired part of the window.
    pub fn score(&mut self, key: &str, now: i64) -> (r: TemporalObservation)
        ensures
            final(self).window() == old(self).window(),
            forall|k: Seq<char>| #[trigger] final(self).last_seen_at(k) == old(self).last_seen_at(k),
            final(self).recent() == drop_expired(old(self).recent(), now, old(self).window() * 1000),
            r.recency == recency_of(old(self).last_seen_at(key@), now, old(self).window()),
            r.burst == is_burst(final(self).recent().len(), old(self).window()),
    {
        self.clean_old_entries(now);
        let recency = match self.find(key) {
            None => Recency::Novel,
            Some(last) => {
                let diff: i128 = now as i128 - last as i128;
                let gap: i128 = if diff < 0 {
                    -diff
                } else {
                    diff
                } / 1000;
                let window: i128 = if self.window_seconds < 0 {
                    -(self.window_seconds as i128)
                } else {
                    self.window_seconds as i128
                };
                if gap > window {
                    Recency::LongGap
                } else {
                    Recency::Within { gap_secs: gap as u64, window_secs: window as u64 }
                }
            },
        };
        let n = self.recent_timestamps.len() as u128;
        let window: u128 = if self.window_seconds < 0 {
            (-(self.window_seconds as i128)) as u128
        } else {
            self.window_seconds as u128
        };
        let burst = n > 100 && (window == 0 || n > 10 * window);
        TemporalObservation { recency, burst }
    }

    /// Records a line of template `key` at `now`: the template was last seen
    /// now, the time joins the window, and every 1000th line the window is
    /// cleared of expired times.
    pub fn update(&mut self, key: &str, now: i64)
        ensures
            final(self).window() == old(self).window(),
            final(self).last_seen_at(key@) == Some(now),
            forall|k: Seq<char>| k != key@ ==> #[trigger] final(self).last_seen_at(k) == old(self).last_seen_at(k),
            ({
                let pushed = old(self).recent().push(now);
                final(self).recent() == if pushed.len() % 1000 == 0 {
                    drop_expired(pushed, now, old(self).window() * 1000)
                } else {
                    pushed
                }
            }),
    {
        let ghost start = *self;
        self.remember(key, now);
        let ghost remembered = *self;
        self.recent_timestamps.push_back(now);
        let ghost mid = *self;
        assert(mid.last_seen == remembered.last_seen);
        assert forall|k: Seq<char>| #[trigger] mid.last_seen_at(k) == if k == key@ {
            Some(now)
        } else {
            start.last_seen_at(k)
        } by {
            assert(mid.last_seen_at(k) == remembered.last_seen_at(k));
        }
        if self.recent_timestamps.len() % 1000 == 0 {
            self.clean_old_entries(now);
        }
    }

    /// When template `key` was last seen.
    fn find(&self, key: &str) -> (r: Option<i64>)
        ensures
            r == self.last_seen_at(key@),
    {
        let ghost entries = self.last_seen@.map_values(|e: (String, i64)| (e.0@, e.1));
        let k = str_chars(key);
        let mut i: usize = 0;
        proof {
            assert(entries.skip(0) =~= entries);
        }
        while i < self.last_seen.len()
            invariant
                i <= self.last_seen@.len(),
                entries == self.last_seen@.map_values(|e: (String, i64)| (e.0@, e.1)),
                k@ == key@,
                lookup(entries, key@) == lookup(entries.skip(i as int), key@),
            decreases self.last_seen.len() - i,
        {
            let e = str_chars(self.last_seen[i].0.as_str());
            proof {
                assert(entries.skip(i as int).drop_first() =~= entries.skip(i + 1));
                assert(entries.skip(i as int)[0] == (self.last_seen@[i as int].0@, self.last_seen@[i as int].1));
            }
            if chars_eq(e.as_slice(), k.as_slice()) {
                return Some(self.last_seen[i].1);
            }
            i += 1;
        }
        proof {
            assert(entries.skip(i as int).len() == 0);
        }
        None
    }

    /// Records that template `key` was last seen at `now`.
    fn remember(&mut self, key: &str, now: i64)
        ensures
            final(self).window() == old(self).window(),
            final(self).recent() == old(self).recent(),
            final(self).last_seen_at(key@) == Some(now),
            forall|k: Seq<char>| k != key@ ==> #[trigger] final(self).last_seen_at(k) == old(self).last_seen_at(k),
    {
        let ghost before = self.last_seen@.map_values(|e: (String, i64)| (e.0@, e.1));
        let k = str_chars(key);
        let mut i: usize = 0;
        let mut found: Option<usize> = None;
        while i < self.last_seen.len() && found.is_none()
            invariant
                i <= self.last_seen@.len(),
                before == self.last_seen@.map_values(|e: (String, i64)| (e.0@, e.1)),
                k@ == key@,
                found is None ==> forall|j: int| 0 <= j < i ==> before[j].0 != key@,
                found matches Some(f) ==> f < before.len() && before[f as int].0 == key@ && forall|j: int|
                    0 <= j < f ==> before[j].0 != key@,
            decreases self.last_seen.len() - i,
        {
            let e = str_chars(self.last_seen[i].0.as_str());
            assert(before[i as int] == (self.last_seen@[i as int].0@, self.last_seen@[i as int].1));
            if chars_eq(e.as_slice(), k.as_slice()) {
                found = Some(i);
            }
            i += 1;
        }
        match found {
            Some(f) => {
                let name = self.last_seen[f].0.clone();
                self.last_seen.set(f, (name, now));
                proof {
                    let after = self.last_seen@.map_values(|e: (String, i64)| (e.0@, e.1));
                    assert(after =~= before.update(f as int, (key@, now)));
                    assert forall|k2: Seq<char>|
                        #![trigger lookup(after, k2)]
                        lookup(after, k2) == if k2 == key@ {
                            Some(now)
                        } else {
                            lookup(before, k2)
                        } by {
                        lemma_lookup_update(before, f as int, key@, now, k2);
                    }
                }
            },
            None => {
                self.last_seen.push((key.to_string(), now));
                proof {
                    let after = self.last_seen@.map_values(|e: (String, i64)| (e.0@, e.1));
                    assert(after =~= before.push((key@, now)));
                    assert forall|k2: Seq<char>|
                        #![trigger lookup(after, k2)]
                        lookup(after, k2) == if k2 == key@ {
                            Some(now)
                        } else {
                            lookup(before, k2)
                        } by {
                        lemma_lookup_push(before, key@, now, k2);
                    }
                }
            },
        }
    }
}

impl Default for TemporalScorer {
    /// A 30-second window.
    fn default() -> (r: Self)
        ensures
            r.window() == 30,
            forall|k: Seq<char>| #[trigger] r.last_seen_at(k) is None,
            r.recent() == Seq::<i64>::empty(),
    {
        Self::new(30)
    }
}

/// Once a template has been seen it is never novel again, and a line of it
/// at the very moment it was last seen has no gap at all.
pub proof fn lemma_seen_template_is_not_novel(last: i64, now: i64, window_seconds: i64)
    ensures
        recency_of(Some(last), now, window_seconds) != Recency::Novel,
        recency_of(Some(now), now, window_seconds) == (Recency::Within {
            gap_secs: 0,
            window_secs: abs_int(window_seconds as int) as u64,
        }),
{
}

/// Replacing the first entry of `key` changes what `key` maps to and
/// nothing else.
proof fn lemma_lookup_update(s: Seq<(Seq<char>, i64)>, f: int, key: Seq<char>, v: i64, k2: Seq<char>)
    requires
        0 <= f < s.len(),
        s[f].0 == key,
        forall|j: int| 0 <= j < f ==> s[j].0 != key,
    ensures
        lookup(s.update(f, (key, v)), k2) == if k2 == key {
            Some(v)
        } else {
            lookup(s, k2)
        },
    decreases f,
{
    let t = s.update(f, (key, v));
    if f > 0 {
        lemma_lookup_update(s.drop_first(), f - 1, key, v, k2);
        assert(t.drop_first() =~= s.drop_first().update(f - 1, (key, v)));
        assert(t[0] == s[0]);
    } else {
        assert(t.drop_first() =~= s.drop_first());
        assert(t[0] == (key, v));
    }
}

/// Appending an entry for a key that has none adds that key and changes
/// nothing else.
proof fn lemma_lookup_push(s: Seq<(Seq<char>, i64)>, key: Seq<char>, v: i64, k2: Seq<char>)
    requires
        forall|j: int| 0 <= j < s.len() ==> s[j].0 != key,
    ensures
        lookup(s.push((key, v)), k2) == if k2 == key {
            Some(v)
        } else {
            lookup(s, k2)
        },
    decreases s.len(),
{
    let t = s.push((key, v));
    if s.len() > 0 {
        lemma_lookup_push(s.drop_first(), key, v, k2);
        assert(t.drop_first() =~= s.drop_first().push((key, v)));
        assert(t[0] == s[0]);
    } else {
        assert(t.drop_first() =~= s);
        assert(t[0] == (key, v));
    }
}

} // verus!
