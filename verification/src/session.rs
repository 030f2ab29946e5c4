//! The history of sessions: which sets of files were open together and
//! when, most recent first, so a session can be reopened.

use crate::chars::{chars_eq, str_chars};
use vstd::prelude::*;

verus! {

/// Maximum number of sessions to remember.
pub const MAX_SESSIONS: usize = 20;

/// Current schema version of the session history file.
pub const SESSION_HISTORY_VERSION: u32 = 1;

/// A recorded session: a set of files that were open together.
pub struct RecordedSession {
    /// The file paths that were part of this session (as compared: the
    /// canonical form where the file exists).
    pub files: Vec<String>,
    /// When this session was last used, in milliseconds since the Unix
    /// epoch.
    pub last_used_ms: i64,
}

/// The paths of a list of files.
pub open spec fn paths(v: Seq<String>) -> Seq<Seq<char>> {
    v.map_values(|s: String| s@)
}

/// How often `p` occurs in `s`.
pub open spec fn occurrences(s: Seq<Seq<char>>, p: Seq<char>) -> nat
    decreases s.len(),
{
    if s.len() == 0 {
        0
    } else {
        occurrences(s.drop_last(), p) + if s.last() == p { 1nat } else { 0nat }
    }
}

/// Two lists hold the same files, in any order.
pub open spec fn same_file_set(a: Seq<Seq<char>>, b: Seq<Seq<char>>) -> bool {
    forall|p: Seq<char>| #[trigger] occurrences(a, p) == occurrences(b, p)
}

proof fn lemma_occurrences_absent(s: Seq<Seq<char>>, p: Seq<char>)
    requires
        !s.contains(p),
    ensures
        occurrences(s, p) == 0,
    decreases s.len(),
{
    if s.len() > 0 {
        assert(!s.drop_last().contains(p)) by {
            if s.drop_last().contains(p) {
                let i = choose|i: int| 0 <= i < s.drop_last().len() && s.drop_last()[i] == p;
                assert(s[i] == p);
            }
        }
        lemma_occurrences_absent(s.drop_last(), p);
    }
}

/// How often `p` occurs in `v`.
fn count_in(v: &Vec<String>, p: &Vec<char>) -> (r: usize)
    ensures
        r == occurrences(paths(v@), p@),
{
    let ghost ps = paths(v@);
    let mut n: usize = 0;
    let mut i: usize = 0;
    while i < v.len()
        invariant
            i <= v@.len(),
            ps == paths(v@),
            n == occurrences(ps.take(i as int), p@),
            n <= i,
        decreases v.len() - i,
    {
        let c = str_chars(v[i].as_str());
        assert(ps.take(i + 1).drop_last() =~= ps.take(i as int));
        if chars_eq(c.as_slice(), p.as_slice()) {
            n += 1;
        }
        i += 1;
    }
    assert(ps.take(v@.len() as int) =~= ps);
    n
}

/// Whether every file of `a` occurs as often in `b`.
fn counts_agree(a: &Vec<String>, b: &Vec<String>) -> (r: bool)
    ensures
        r == forall|i: int| 0 <= i < a@.len() ==> occurrences(paths(a@), #[trigger] paths(a@)[i]) == occurrences(
            paths(b@),
            paths(a@)[i],
        ),
{
    let mut i: usize = 0;
    while i < a.len()
        invariant
            i <= a@.len(),
            forall|j: int| 0 <= j < i ==> occurrences(paths(a@), #[trigger] paths(a@)[j]) == occurrences(
                paths(b@),
                paths(a@)[j],
            ),
        decreases a.len() - i,
    {
        let p = str_chars(a[i].as_str());
        assert(p@ == paths(a@)[i as int]);
        if count_in(a, &p) != count_in(b, &p) {
            return false;
        }
        i += 1;
    }
    true
}

impl RecordedSession {
    /// Check whether this session contains the given file path.
    pub fn contains_file(&self, path: &str) -> (r: bool)
        ensures
            r == paths(self.files@).contains(path@),
    {
        let p = str_chars(path);
        let mut i: usize = 0;
        while i < self.files.len()
            invariant
                i <= self.files@.len(),
                p@ == path@,
                forall|j: int| 0 <= j < i ==> paths(self.files@)[j] != path@,
            decreases self.files.len() - i,
        {
            let f = str_chars(self.files[i].as_str());
            if chars_eq(f.as_slice(), p.as_slice()) {
                assert(paths(self.files@)[i as int] == path@);
                return true;
            }
            i += 1;
        }
        false
    }

    /// Check if this session has the exact same set of files
    /// (order-independent).
    pub fn same_files(&self, other_files: &Vec<String>) -> (r: bool)
        ensures
            r == same_file_set(paths(self.files@), paths(other_files@)),
    {
        let ab = counts_agree(&self.files, other_files);
        let ba = counts_agree(other_files, &self.files);
        proof {
            let a = paths(self.files@);
            let b = paths(other_files@);
            if ab && ba {
                assert forall|p: Seq<char>| #[trigger] occurrences(a, p) == occurrences(b, p) by {
                    if a.contains(p) {
                        let i = choose|i: int| 0 <= i < a.len() && a[i] == p;
                        assert(occurrences(a, a[i]) == occurrences(b, a[i]));
                    } else if b.contains(p) {
                        let i = choose|i: int| 0 <= i < b.len() && b[i] == p;
                        assert(occurrences(b, b[i]) == occurrences(a, b[i]));
                    } else {
                        lemma_occurrences_absent(a, p);
                        lemma_occurrences_absent(b, p);
                    }
                }
            }
            if !ab {
                let i = choose|i: int| 0 <= i < self.files@.len() && !(occurrences(a, #[trigger] a[i]) == occurrences(b, a[i]));
                assert(!same_file_set(a, b));
            }
            if ab && !ba {
                let i = choose|i: int| 0 <= i < other_files@.len() && !(occurrences(b, #[trigger] b[i]) == occurrences(a, b[i]));
                assert(!same_file_set(a, b));
            }
        }
        ab && ba
    }
}

/// `x` placed into the list sorted by most recent use: after every session
/// used at the same time or later.
pub open spec fn insert_by_recency(sorted: Seq<(Seq<Seq<char>>, i64)>, x: (Seq<Seq<char>>, i64)) -> Seq<(Seq<Seq<char>>, i64)>
    decreases sorted.len(),
{
    if sorted.len() == 0 {
        seq![x]
    } else if sorted.last().1 >= x.1 {
        sorted.push(x)
    } else {
        insert_by_recency(sorted.drop_last(), x).push(sorted.last())
    }
}

/// The sessions sorted by most recent use first; sessions used at the
/// same time keep their order.
pub open spec fn by_recency(s: Seq<(Seq<Seq<char>>, i64)>) -> Seq<(Seq<Seq<char>>, i64)>
    decreases s.len(),
{
    if s.len() == 0 {
        s
    } else {
        insert_by_recency(by_recency(s.drop_last()), s.last())
    }
}

/// Each session used no earlier than the next.
pub open spec fn most_recent_first(s: Seq<(Seq<Seq<char>>, i64)>) -> bool {
    forall|i: int, j: int| 0 <= i < j < s.len() ==> s[i].1 >= s[j].1
}

/// The sessions as (files, last use).
pub open spec fn session_views(v: Seq<RecordedSession>) -> Seq<(Seq<Seq<char>>, i64)> {
    v.map_values(|s: RecordedSession| (paths(s.files@), s.last_used_ms))
}

/// Inserting at the first position whose session is older is
/// `insert_by_recency`, and keeps the list most-recent-first.
proof fn lemma_insert_position(sorted: Seq<(Seq<Seq<char>>, i64)>, x: (Seq<Seq<char>>, i64), p: int)
    requires
        most_recent_first(sorted),
        0 <= p <= sorted.len(),
        forall|i: int| 0 <= i < p ==> sorted[i].1 >= x.1,
        forall|i: int| p <= i < sorted.len() ==> sorted[i].1 < x.1,
    ensures
        insert_by_recency(sorted, x) == sorted.insert(p, x),
        most_recent_first(sorted.insert(p, x)),
    decreases sorted.len(),
{
    if sorted.len() > 0 && p < sorted.len() {
        assert(sorted.last().1 < x.1);
        lemma_insert_position(sorted.drop_last(), x, p);
        assert(sorted.drop_last().insert(p, x).push(sorted.last()) =~= sorted.insert(p, x));
    } else if sorted.len() > 0 {
        assert(sorted.push(x) =~= sorted.insert(p, x));
    } else {
        assert(seq![x] =~= sorted.insert(p, x));
    }
}

/// Persistent session history stored alongside the global config.
pub struct SessionHistory {
    /// Schema version of the history.
    pub schema_version: u32,
    /// The sessions, most recently used first.
    pub sessions: Vec<RecordedSession>,
    /// Set when the file on disk was written by a newer version: such a
    /// history is never written back.
    pub read_only: bool,
}

impl Default for SessionHistory {
    fn default() -> (r: Self)
        ensures
            r.schema_version == SESSION_HISTORY_VERSION,
            r.sessions@.len() == 0,
            !r.read_only,
    {
        SessionHistory { schema_version: SESSION_HISTORY_VERSION, sessions: Vec::new(), read_only: false }
    }
}

impl SessionHistory {
    /// Takes up a history read from disk, as `GlobalConfig::settle_loaded`
    /// does: a newer version gives an empty read-only history, an
    /// unreadable one an empty history, an older one is migrated.
    pub fn settle_loaded(file_version: u32, parsed: Option<SessionHistory>) -> (r: SessionHistory)
        ensures
            file_version > SESSION_HISTORY_VERSION ==> r.sessions@.len() == 0 && r.read_only
                && r.schema_version == SESSION_HISTORY_VERSION,
            file_version <= SESSION_HISTORY_VERSION && parsed is None ==> r.sessions@.len() == 0
                && !r.read_only && r.schema_version == SESSION_HISTORY_VERSION,
            file_version <= SESSION_HISTORY_VERSION ==> (parsed matches Some(h) ==> {
                &&& r.sessions@ == h.sessions@
                &&& r.read_only == h.read_only
                &&& r.schema_version == if h.schema_version < SESSION_HISTORY_VERSION {
                    SESSION_HISTORY_VERSION
                } else {
                    h.schema_version
                }
            }),
    {
        if file_version > SESSION_HISTORY_VERSION {
            let mut h = SessionHistory::default();
            h.read_only = true;
            return h;
        }
        match parsed {
            None => SessionHistory::default(),
            Some(mut h) => {
                if h.schema_version < SESSION_HISTORY_VERSION {
                    h.schema_version = SESSION_HISTORY_VERSION;
                }
                h
            },
        }
    }

    /// Record a session (set of currently open files) used at `now_ms`.
    ///
    /// If an identical session already exists (same files), its time is
    /// updated; otherwise a new entry is added. The sessions are then
    /// sorted by most recent use and the oldest beyond twenty dropped.
    pub fn record(&mut self, files: Vec<String>, now_ms: i64)
        ensures
            files@.len() == 0 ==> session_views(final(self).sessions@) == session_views(old(self).sessions@),
            files@.len() > 0 ==> session_views(final(self).sessions@) == ({
                let updated = recorded(session_views(old(self).sessions@), paths(files@), now_ms);
                let sorted = by_recency(updated);
                if sorted.len() > MAX_SESSIONS { sorted.take(MAX_SESSIONS as int) } else { sorted }
            }),
            files@.len() > 0 ==> most_recent_first(session_views(final(self).sessions@)),
            final(self).sessions@.len() <= if files@.len() > 0 { MAX_SESSIONS as int } else { old(self).sessions@.len() as int },
            final(self).schema_version == old(self).schema_version,
            final(self).read_only == old(self).read_only,
            well_kept(session_views(old(self).sessions@)) ==> well_kept(session_views(final(self).sessions@)),
    {
        if files.len() == 0 {
            return;
        }
        let mut found: Option<usize> = None;
        let mut i: usize = 0;
        while i < self.sessions.len() && found.is_none()
            invariant
                i <= self.sessions@.len(),
                found is None ==> forall|j: int| 0 <= j < i ==> !same_file_set(
                    #[trigger] session_views(self.sessions@)[j].0,
                    paths(files@),
                ),
                found matches Some(f) ==> f < self.sessions@.len() && same_file_set(
                    session_views(self.sessions@)[f as int].0,
                    paths(files@),
                ) && forall|j: int| 0 <= j < f ==> !same_file_set(
                    #[trigger] session_views(self.sessions@)[j].0,
                    paths(files@),
                ),
            decreases self.sessions.len() - i,
        {
            if self.sessions[i].same_files(&files) {
                found = Some(i);
            }
            i += 1;
        }
        let ghost before = session_views(self.sessions@);
        let mut pending: Vec<RecordedSession> = Vec::new();
        std::mem::swap(&mut pending, &mut self.sessions);
        match found {
            Some(f) => {
                let old_entry = pending.remove(f);
                pending.insert(f, RecordedSession { files: old_entry.files, last_used_ms: now_ms });
                proof {
                    lemma_first_same(before, paths(files@), f as int);
                    assert(session_views(pending@) =~= before.update(f as int, (before[f as int].0, now_ms)));
                }
            },
            None => {
                pending.push(RecordedSession { files, last_used_ms: now_ms });
                proof {
                    lemma_none_same(before, paths(files@));
                    assert(session_views(pending@) =~= before.push((paths(files@), now_ms)));
                }
            },
        }
        let ghost updated = session_views(pending@);
        // Insertion sort, most recent first; equal times keep their order.
        let mut sorted: Vec<RecordedSession> = Vec::new();
        let ghost mut k: int = 0;
        while pending.len() > 0
            invariant
                0 <= k <= updated.len(),
                session_views(pending@) == updated.skip(k),
                session_views(sorted@) == by_recency(updated.take(k)),
                most_recent_first(session_views(sorted@)),
            decreases pending.len(),
        {
            assert(session_views(pending@).len() == pending@.len());
            let x = pending.remove(0);
            let mut p: usize = 0;
            while p < sorted.len() && sorted[p].last_used_ms >= x.last_used_ms
                invariant
                    p <= sorted@.len(),
                    forall|i: int| 0 <= i < p ==> session_views(sorted@)[i].1 >= x.last_used_ms,
                decreases sorted.len() - p,
            {
                p += 1;
            }
            let ghost sv = session_views(sorted@);
            let ghost xv = (paths(x.files@), x.last_used_ms);
            proof {
                assert(updated.skip(k)[0] == xv);
                assert forall|i: int| p <= i < sv.len() implies sv[i].1 < xv.1 by {
                    if p < sv.len() {
                        assert(sv[p as int].1 < xv.1);
                    }
                }
                lemma_insert_position(sv, xv, p as int);
                assert(updated.take(k + 1).drop_last() =~= updated.take(k));
                assert(updated.take(k + 1).last() == xv);
            }
            sorted.insert(p, x);
            proof {
                assert(session_views(sorted@) =~= sv.insert(p as int, xv));
                assert(updated.skip(k + 1) =~= updated.skip(k).drop_first());
                k = k + 1;
            }
        }
        proof {
            assert(updated.take(k) =~= updated);
        }
        let ghost full = session_views(sorted@);
        sorted.truncate(MAX_SESSIONS);
        proof {
            if full.len() > MAX_SESSIONS {
                assert(session_views(sorted@) =~= full.take(MAX_SESSIONS as int));
            } else {
                assert(session_views(sorted@) =~= full);
            }
            let fin = session_views(sorted@);
            assert forall|i: int, j: int| 0 <= i < j < fin.len() implies fin[i].1 >= fin[j].1 by {
                assert(fin[i] == full[i]);
                assert(fin[j] == full[j]);
            }
            if well_kept(before) {
                lemma_history_stays_ordered(before, paths(files@), now_ms);
                assert(paths(files@).len() == files@.len());
            }
        }
        self.sessions = sorted;
    }
}

/// The sessions after recording `files` at `now`: the first session with
/// the same files gets the new time, or a new session is added.
pub open spec fn recorded(s: Seq<(Seq<Seq<char>>, i64)>, files: Seq<Seq<char>>, now: i64) -> Seq<(Seq<Seq<char>>, i64)> {
    if exists|i: int| 0 <= i < s.len() && same_file_set(#[trigger] s[i].0, files) {
        let i = choose|i: int| 0 <= i < s.len() && same_file_set(#[trigger] s[i].0, files)
            && forall|j: int| 0 <= j < i ==> !same_file_set(#[trigger] s[j].0, files);
        s.update(i, (s[i].0, now))
    } else {
        s.push((files, now))
    }
}

proof fn lemma_first_same(s: Seq<(Seq<Seq<char>>, i64)>, files: Seq<Seq<char>>, f: int)
    requires
        0 <= f < s.len(),
        same_file_set(s[f].0, files),
        forall|j: int| 0 <= j < f ==> !same_file_set(#[trigger] s[j].0, files),
    ensures
        forall|now: i64| #[trigger] recorded(s, files, now) == s.update(f, (s[f].0, now)),
{
    assert(exists|i: int| 0 <= i < s.len() && same_file_set(#[trigger] s[i].0, files));
    let i = choose|i: int| 0 <= i < s.len() && same_file_set(#[trigger] s[i].0, files)
        && forall|j: int| 0 <= j < i ==> !same_file_set(#[trigger] s[j].0, files);
    assert(0 <= f < s.len() && same_file_set(s[f].0, files) && forall|j: int| 0 <= j < f ==> !same_file_set(#[trigger] s[j].0, files));
    if i < f {
        assert(!same_file_set(s[i].0, files));
    }
    if f < i {
        assert(!same_file_set(s[f].0, files));
    }
}

proof fn lemma_none_same(s: Seq<(Seq<Seq<char>>, i64)>, files: Seq<Seq<char>>)
    requires
        forall|j: int| 0 <= j < s.len() ==> !same_file_set(#[trigger] s[j].0, files),
    ensures
        forall|now: i64| #[trigger] recorded(s, files, now) == s.push((files, now)),
{
}

/// The entries of `s` whose flag in `keep` is set, in order.
pub open spec fn kept<T>(s: Seq<T>, keep: Seq<bool>) -> Seq<T>
    decreases s.len(),
{
    if s.len() == 0 {
        s
    } else {
        let rest = kept(s.drop_last(), keep);
        if keep[s.len() - 1] {
            rest.push(s.last())
        } else {
            rest
        }
    }
}

/// The sessions that contain file `p`, in order.
pub open spec fn with_file(s: Seq<RecordedSession>, p: Seq<char>) -> Seq<RecordedSession>
    decreases s.len(),
{
    if s.len() == 0 {
        s
    } else {
        let rest = with_file(s.drop_last(), p);
        if paths(s.last().files@).contains(p) {
            rest.push(s.last())
        } else {
            rest
        }
    }
}

impl SessionHistory {
    /// Removes the sessions whose files no longer all exist; whether each
    /// session's files all exist is given, in order, by `all_files_exist`.
    pub fn prune_missing(&mut self, all_files_exist: &Vec<bool>)
        requires
            all_files_exist@.len() == old(self).sessions@.len(),
        ensures
            session_views(final(self).sessions@) == kept(session_views(old(self).sessions@), all_files_exist@),
            final(self).schema_version == old(self).schema_version,
            final(self).read_only == old(self).read_only,
    {
        let ghost orig = session_views(self.sessions@);
        let mut rest: Vec<RecordedSession> = Vec::new();
        std::mem::swap(&mut rest, &mut self.sessions);
        let n = rest.len();
        let mut i: usize = 0;
        proof {
            assert(orig.take(0) =~= Seq::<(Seq<Seq<char>>, i64)>::empty());
            assert(session_views(rest@) =~= orig.skip(0));
            assert(session_views(self.sessions@) =~= Seq::<(Seq<Seq<char>>, i64)>::empty());
        }
        while i < n
            invariant
                n == orig.len(),
                all_files_exist@.len() == n,
                i <= n,
                session_views(rest@) == orig.skip(i as int),
                session_views(self.sessions@) == kept(orig.take(i as int), all_files_exist@),
                self.schema_version == old(self).schema_version,
                self.read_only == old(self).read_only,
            decreases n - i,
        {
            let ghost before = session_views(self.sessions@);
            let ghost rest_before = rest@;
            assert(session_views(rest@).len() == rest@.len());
            let s = rest.remove(0);
            proof {
                assert(rest@ =~= rest_before.drop_first());
                assert(session_views(rest_before)[0] == orig[i as int]);
                assert forall|k: int| 0 <= k < rest@.len() implies #[trigger] session_views(rest@)[k] == orig.skip(i + 1)[k] by {
                    assert(rest@[k] == rest_before[k + 1]);
                    assert(session_views(rest_before)[k + 1] == orig.skip(i as int)[k + 1]);
                }
                assert(orig.take(i + 1).drop_last() =~= orig.take(i as int));
                assert(orig.take(i + 1).last() == orig[i as int]);
                assert(orig.skip(i as int)[0] == orig[i as int]);
                assert(session_views(rest@) =~= orig.skip(i + 1));
            }
            if all_files_exist[i] {
                self.sessions.push(s);
                assert(session_views(self.sessions@) =~= before.push(orig[i as int]));
            }
            i += 1;
        }
        proof {
            assert(orig.take(n as int) =~= orig);
        }
    }

    /// The sessions that contain the given file, in order.
    pub fn sessions_containing(&self, path: &str) -> (r: Vec<&RecordedSession>)
        ensures
            r@.map_values(|x: &RecordedSession| *x) == with_file(self.sessions@, path@),
    {
        let mut out: Vec<&RecordedSession> = Vec::new();
        let mut i: usize = 0;
        while i < self.sessions.len()
            invariant
                i <= self.sessions@.len(),
                out@.map_values(|x: &RecordedSession| *x) == with_file(self.sessions@.take(i as int), path@),
            decreases self.sessions.len() - i,
        {
            let ghost before = out@.map_values(|x: &RecordedSession| *x);
            let s = &self.sessions[i];
            proof {
                assert(self.sessions@.take(i + 1).drop_last() =~= self.sessions@.take(i as int));
                assert(self.sessions@.take(i + 1).last() == self.sessions@[i as int]);
            }
            if s.contains_file(path) {
                out.push(s);
                assert(out@.map_values(|x: &RecordedSession| *x) =~= before.push(*s));
            }
            i += 1;
        }
        proof {
            assert(self.sessions@.take(i as int) =~= self.sessions@);
        }
        out
    }
}

/// No two sessions hold the same files.
pub open spec fn distinct_sessions(s: Seq<(Seq<Seq<char>>, i64)>) -> bool {
    forall|i: int, j: int| 0 <= i < j < s.len() ==> !same_file_set(#[trigger] s[i].0, #[trigger] s[j].0)
}

/// Placing an entry by recency inserts it at some position.
proof fn lemma_insert_by_recency_at(sorted: Seq<(Seq<Seq<char>>, i64)>, x: (Seq<Seq<char>>, i64)) -> (p: int)
    ensures
        0 <= p <= sorted.len(),
        insert_by_recency(sorted, x) == sorted.insert(p, x),
    decreases sorted.len(),
{
    if sorted.len() == 0 {
        assert(seq![x] =~= sorted.insert(0, x));
        0
    } else if sorted.last().1 >= x.1 {
        assert(sorted.push(x) =~= sorted.insert(sorted.len() as int, x));
        sorted.len() as int
    } else {
        let q = lemma_insert_by_recency_at(sorted.drop_last(), x);
        assert(sorted.drop_last().insert(q, x).push(sorted.last()) =~= sorted.insert(q, x));
        q
    }
}

/// Sorting by recency keeps the entries (each entry of the result is one
/// of the input) and keeps them distinct by files.
proof fn lemma_by_recency_keeps_distinct(s: Seq<(Seq<Seq<char>>, i64)>)
    requires
        distinct_sessions(s),
    ensures
        by_recency(s).len() == s.len(),
        forall|k: int| 0 <= k < s.len() ==> s.contains(#[trigger] by_recency(s)[k]),
        distinct_sessions(by_recency(s)),
    decreases s.len(),
{
    if s.len() > 0 {
        let init = s.drop_last();
        let x = s.last();
        assert(distinct_sessions(init)) by {
            assert forall|i: int, j: int| 0 <= i < j < init.len() implies !same_file_set(
                #[trigger] init[i].0,
                #[trigger] init[j].0,
            ) by {
                assert(init[i] == s[i] && init[j] == s[j]);
            }
        }
        lemma_by_recency_keeps_distinct(init);
        let sorted = by_recency(init);
        let p = lemma_insert_by_recency_at(sorted, x);
        let r = sorted.insert(p, x);
        assert(by_recency(s) == r);
        assert forall|k: int| 0 <= k < s.len() implies s.contains(#[trigger] r[k]) by {
            if k < p {
                assert(r[k] == sorted[k]);
                assert(init.contains(sorted[k]));
                let m = choose|m: int| 0 <= m < init.len() && init[m] == sorted[k];
                assert(s[m] == r[k]);
            } else if k == p {
                assert(s[s.len() - 1] == x);
            } else {
                assert(r[k] == sorted[k - 1]);
                assert(init.contains(sorted[k - 1]));
                let m = choose|m: int| 0 <= m < init.len() && init[m] == sorted[k - 1];
                assert(s[m] == r[k]);
            }
        }
        assert forall|m: int| 0 <= m < sorted.len() implies !same_file_set(#[trigger] sorted[m].0, x.0) by {
            assert(init.contains(sorted[m]));
            let q = choose|q: int| 0 <= q < init.len() && init[q] == sorted[m];
            assert(s[q] == sorted[m]);
            assert(!same_file_set(s[q].0, s[s.len() - 1].0));
        }
        assert forall|i: int, j: int| 0 <= i < j < r.len() implies !same_file_set(
            #[trigger] r[i].0,
            #[trigger] r[j].0,
        ) by {
            if j < p {
                assert(r[i] == sorted[i] && r[j] == sorted[j]);
            } else if j == p {
                assert(r[i] == sorted[i] && r[j] == x);
            } else if i < p {
                assert(r[i] == sorted[i] && r[j] == sorted[j - 1]);
            } else if i == p {
                assert(r[i] == x && r[j] == sorted[j - 1]);
                if same_file_set(r[i].0, r[j].0) {
                    assert forall|f: Seq<char>| #[trigger] occurrences(sorted[j - 1].0, f) == occurrences(x.0, f) by {
                        assert(occurrences(r[i].0, f) == occurrences(r[j].0, f));
                    }
                }
            } else {
                assert(r[i] == sorted[i - 1] && r[j] == sorted[j - 1]);
            }
        }
    }
}

/// Recording a session keeps the history free of duplicates: when no two
/// sessions held the same files before, none do after.
pub proof fn lemma_record_keeps_sessions_distinct(s: Seq<(Seq<Seq<char>>, i64)>, files: Seq<Seq<char>>, now: i64)
    requires
        distinct_sessions(s),
    ensures
        ({
            let sorted = by_recency(recorded(s, files, now));
            distinct_sessions(if sorted.len() > MAX_SESSIONS { sorted.take(MAX_SESSIONS as int) } else { sorted })
        }),
{
    let u = recorded(s, files, now);
    if exists|i: int| 0 <= i < s.len() && same_file_set(#[trigger] s[i].0, files) {
        let f = choose|i: int| 0 <= i < s.len() && same_file_set(#[trigger] s[i].0, files)
            && forall|j: int| 0 <= j < i ==> !same_file_set(#[trigger] s[j].0, files);
        assert(u == s.update(f, (s[f].0, now)));
        assert forall|i: int, j: int| 0 <= i < j < u.len() implies !same_file_set(#[trigger] u[i].0, #[trigger] u[j].0) by {
            assert(u[i].0 == s[i].0 && u[j].0 == s[j].0);
        }
    } else {
        assert(u == s.push((files, now)));
        assert forall|i: int, j: int| 0 <= i < j < u.len() implies !same_file_set(#[trigger] u[i].0, #[trigger] u[j].0) by {
            if j == s.len() {
                assert(u[j].0 == files);
                assert(u[i] == s[i]);
            } else {
                assert(u[i] == s[i] && u[j] == s[j]);
            }
        }
    }
    lemma_by_recency_keeps_distinct(u);
    let sorted = by_recency(u);
    if sorted.len() > MAX_SESSIONS {
        let t = sorted.take(MAX_SESSIONS as int);
        assert forall|i: int, j: int| 0 <= i < j < t.len() implies !same_file_set(#[trigger] t[i].0, #[trigger] t[j].0) by {
            assert(t[i] == sorted[i] && t[j] == sorted[j]);
        }
    }
}

/// Placing an entry by recency into a most-recent-first list keeps it so.
proof fn lemma_insert_by_recency_sorted(sorted: Seq<(Seq<Seq<char>>, i64)>, x: (Seq<Seq<char>>, i64))
    requires
        most_recent_first(sorted),
    ensures
        most_recent_first(insert_by_recency(sorted, x)),
    decreases sorted.len(),
{
    if sorted.len() > 0 {
        let last = sorted.last();
        if last.1 < x.1 {
            let init = sorted.drop_last();
            lemma_insert_by_recency_sorted(init, x);
            let q = lemma_insert_by_recency_at(init, x);
            let ins = init.insert(q, x);
            let r = ins.push(last);
            assert forall|i: int| 0 <= i < ins.len() implies #[trigger] ins[i].1 >= last.1 by {
                if i < q {
                    assert(ins[i] == sorted[i]);
                } else if i > q {
                    assert(ins[i] == sorted[i - 1]);
                }
            }
            assert forall|i: int, j: int| 0 <= i < j < r.len() implies r[i].1 >= r[j].1 by {
                if j == ins.len() {
                    assert(r[i] == ins[i]);
                } else {
                    assert(r[i] == ins[i] && r[j] == ins[j]);
                }
            }
        }
    }
}

/// Sorting by recency orders the sessions most recent first, and keeps
/// every one of them.
proof fn lemma_by_recency_sorted(s: Seq<(Seq<Seq<char>>, i64)>)
    ensures
        most_recent_first(by_recency(s)),
        by_recency(s).len() == s.len(),
        forall|k: int| 0 <= k < s.len() ==> by_recency(s).contains(#[trigger] s[k]),
        forall|k: int| 0 <= k < s.len() ==> s.contains(#[trigger] by_recency(s)[k]),
    decreases s.len(),
{
    if s.len() > 0 {
        let init = s.drop_last();
        let x = s.last();
        lemma_by_recency_sorted(init);
        let sorted = by_recency(init);
        lemma_insert_by_recency_sorted(sorted, x);
        let p = lemma_insert_by_recency_at(sorted, x);
        let r = sorted.insert(p, x);
        assert(by_recency(s) == r);
        assert forall|k: int| 0 <= k < s.len() implies r.contains(#[trigger] s[k]) by {
            if k == s.len() - 1 {
                assert(r[p] == x);
            } else {
                assert(init[k] == s[k]);
                assert(sorted.contains(init[k]));
                let m = choose|m: int| 0 <= m < sorted.len() && sorted[m] == init[k];
                if m < p {
                    assert(r[m] == sorted[m]);
                } else {
                    assert(r[m + 1] == sorted[m]);
                }
            }
        }
        assert forall|k: int| 0 <= k < s.len() implies s.contains(#[trigger] r[k]) by {
            if k < p {
                assert(r[k] == sorted[k]);
                let m = choose|m: int| 0 <= m < init.len() && init[m] == sorted[k];
                assert(s[m] == r[k]);
            } else if k == p {
                assert(s[s.len() - 1] == x);
            } else {
                assert(r[k] == sorted[k - 1]);
                let m = choose|m: int| 0 <= m < init.len() && init[m] == sorted[k - 1];
                assert(s[m] == r[k]);
            }
        }
    }
}

/// The history after recording `files` at `now`, as `record` leaves it.
pub open spec fn recorded_history(s: Seq<(Seq<Seq<char>>, i64)>, files: Seq<Seq<char>>, now: i64) -> Seq<(Seq<Seq<char>>, i64)> {
    if files.len() == 0 {
        s
    } else {
        let sorted = by_recency(recorded(s, files, now));
        if sorted.len() > MAX_SESSIONS { sorted.take(MAX_SESSIONS as int) } else { sorted }
    }
}

/// A history as `record` keeps it: no two sessions with the same files,
/// most recently used first, at most twenty long.
pub open spec fn well_kept(s: Seq<(Seq<Seq<char>>, i64)>) -> bool {
    &&& distinct_sessions(s)
    &&& most_recent_first(s)
    &&& s.len() <= MAX_SESSIONS
}

/// The session history stays ordered and free of duplicates over calls of
/// `record`: from a history with no two sessions holding the same files,
/// most recent first and at most twenty long, recording gives such a
/// history again. When every recorded use is earlier than `now`, the
/// session just recorded comes first, with the time `now`.
pub proof fn lemma_history_stays_ordered(s: Seq<(Seq<Seq<char>>, i64)>, files: Seq<Seq<char>>, now: i64)
    requires
        distinct_sessions(s),
        most_recent_first(s),
        s.len() <= MAX_SESSIONS,
    ensures
        ({
            let r = recorded_history(s, files, now);
            &&& distinct_sessions(r)
            &&& most_recent_first(r)
            &&& r.len() <= MAX_SESSIONS
            &&& files.len() > 0 && (forall|i: int| 0 <= i < s.len() ==> #[trigger] s[i].1 < now) ==> r.len() > 0
                && same_file_set(r[0].0, files) && r[0].1 == now
        }),
{
    if files.len() > 0 {
        lemma_record_keeps_sessions_distinct(s, files, now);
        let u = recorded(s, files, now);
        lemma_by_recency_sorted(u);
        let sorted = by_recency(u);
        let r = recorded_history(s, files, now);
        if sorted.len() > MAX_SESSIONS {
            assert forall|i: int, j: int| 0 <= i < j < r.len() implies r[i].1 >= r[j].1 by {
                assert(r[i] == sorted[i] && r[j] == sorted[j]);
            }
        }
        if forall|i: int| 0 <= i < s.len() ==> #[trigger] s[i].1 < now {
            let f: int = if exists|i: int| 0 <= i < s.len() && same_file_set(#[trigger] s[i].0, files) {
                choose|i: int| 0 <= i < s.len() && same_file_set(#[trigger] s[i].0, files)
                    && forall|j: int| 0 <= j < i ==> !same_file_set(#[trigger] s[j].0, files)
            } else {
                s.len() as int
            };
            assert(0 <= f < u.len() && u[f].1 == now && same_file_set(u[f].0, files));
            assert forall|i: int| 0 <= i < u.len() && i != f implies #[trigger] u[i].1 < now by {
                assert(u[i] == s[i]);
            }
            assert(sorted.contains(u[f]));
            let m = choose|m: int| 0 <= m < sorted.len() && sorted[m] == u[f];
            assert(sorted[0].1 >= sorted[m].1);
            assert(u.contains(sorted[0]));
            let n = choose|n: int| 0 <= n < u.len() && u[n] == sorted[0];
            assert(n == f);
            assert(r[0] == sorted[0]);
        }
    }
}

} // verus!
