//! Anomaly heuristics that decide on whole numbers: which severity class of
//! keywords a message holds, and how often a message template has been
//! seen. Turning these into fractional scores is left to the caller.

use crate::chars::{chars_eq, str_chars};
use crate::pattern::{pattern_matches, regex_compiles, Pattern};
use vstd::prelude::*;

verus! {

/// Error keywords (case-insensitive, whole words).
pub const ERROR_KEYWORDS: &'static str = "(?i)\\b(error|err|exception|fatal|critical|crash|panic|abort)\\b";

/// Warning keywords.
pub const WARNING_KEYWORDS: &'static str = "(?i)\\b(warn|warning|caution|alert)\\b";

/// Failure keywords.
pub const FAILURE_KEYWORDS: &'static str = "(?i)\\b(fail|failed|failure|unsuccessful|denied|rejected|timeout|timed out)\\b";

/// Keywords that point at an issue.
pub const ISSUE_KEYWORDS: &'static str = "(?i)\\b(issue|problem|unable|cannot|can't|couldn't|invalid|illegal|unexpected)\\b";

/// The most severe class of keyword that a message holds, from none up to
/// an error.
#[derive(Clone, Copy, Debug, PartialEq, Eq, Structural)]
pub enum KeywordSeverity {
    Plain,
    Issue,
    Warning,
    Failure,
    Error,
}

/// The most severe keyword class of `message`: errors over failures over
/// warnings over issues.
pub open spec fn keyword_severity(message: Seq<char>) -> KeywordSeverity {
    if pattern_matches(ERROR_KEYWORDS@, message) {
        KeywordSeverity::Error
    } else if pattern_matches(FAILURE_KEYWORDS@, message) {
        KeywordSeverity::Failure
    } else if pattern_matches(WARNING_KEYWORDS@, message) {
        KeywordSeverity::Warning
    } else if pattern_matches(ISSUE_KEYWORDS@, message) {
        KeywordSeverity::Issue
    } else {
        KeywordSeverity::Plain
    }
}

/// The rank of a severity class: errors over failures over warnings over
/// issues over plain lines.
pub open spec fn severity_rank(s: KeywordSeverity) -> int {
    match s {
        KeywordSeverity::Error => 4,
        KeywordSeverity::Failure => 3,
        KeywordSeverity::Warning => 2,
        KeywordSeverity::Issue => 1,
        KeywordSeverity::Plain => 0,
    }
}

/// The keywords of a severity class (none for plain lines).
pub open spec fn class_keywords(s: KeywordSeverity) -> Option<Seq<char>> {
    match s {
        KeywordSeverity::Error => Some(ERROR_KEYWORDS@),
        KeywordSeverity::Failure => Some(FAILURE_KEYWORDS@),
        KeywordSeverity::Warning => Some(WARNING_KEYWORDS@),
        KeywordSeverity::Issue => Some(ISSUE_KEYWORDS@),
        KeywordSeverity::Plain => None,
    }
}

/// A message is rated at the highest-ranked class whose keywords it holds:
/// never below any class it matches, only at a class it matches, and plain
/// exactly when it matches none.
pub proof fn lemma_severity_is_highest_match(message: Seq<char>)
    ensures
        forall|c: KeywordSeverity|
            (#[trigger] class_keywords(c) matches Some(k) && pattern_matches(k, message)) ==> severity_rank(c)
                <= severity_rank(keyword_severity(message)),
        class_keywords(keyword_severity(message)) matches Some(k) ==> pattern_matches(k, message),
        keyword_severity(message) == KeywordSeverity::Plain <==> forall|c: KeywordSeverity|
            #[trigger] class_keywords(c) matches Some(k) ==> !pattern_matches(k, message),
{
    assert forall|c: KeywordSeverity|
        (#[trigger] class_keywords(c) matches Some(k) && pattern_matches(k, message)) implies severity_rank(c)
            <= severity_rank(keyword_severity(message)) by {
        match c {
            KeywordSeverity::Error => {},
            KeywordSeverity::Failure => {},
            KeywordSeverity::Warning => {},
            KeywordSeverity::Issue => {},
            KeywordSeverity::Plain => {},
        }
    }
    if keyword_severity(message) != KeywordSeverity::Plain {
        let c = keyword_severity(message);
        assert(class_keywords(c) matches Some(k) && pattern_matches(k, message));
    }
}

/// All four keyword patterns compile.
pub open spec fn keyword_patterns_compile() -> bool {
    &&& regex_compiles(ERROR_KEYWORDS@)
    &&& regex_compiles(FAILURE_KEYWORDS@)
    &&& regex_compiles(WARNING_KEYWORDS@)
    &&& regex_compiles(ISSUE_KEYWORDS@)
}

/// Keyword-based scorer: detects important keywords in messages.
pub struct KeywordScorer {
    patterns: Option<(Pattern, Pattern, Pattern, Pattern)>,
}

impl KeywordScorer {
    /// The scorer holds the four keyword patterns.
    pub closed spec fn ready(&self) -> bool {
        self.patterns matches Some(p) && {
            &&& p.0@ == ERROR_KEYWORDS@
            &&& p.1@ == FAILURE_KEYWORDS@
            &&& p.2@ == WARNING_KEYWORDS@
            &&& p.3@ == ISSUE_KEYWORDS@
        }
    }

    pub fn new() -> (r: Self)
        ensures
            r.ready() == keyword_patterns_compile(),
    {
        let e = Pattern::compile(ERROR_KEYWORDS);
        let f = Pattern::compile(FAILURE_KEYWORDS);
        let w = Pattern::compile(WARNING_KEYWORDS);
        let i = Pattern::compile(ISSUE_KEYWORDS);
        match (e, f, w, i) {
            (Some(e), Some(f), Some(w), Some(i)) => KeywordScorer { patterns: Some((e, f, w, i)) },
            _ => KeywordScorer { patterns: None },
        }
    }

    /// The most severe keyword class of `message` (none when the patterns
    /// did not compile).
    pub fn severity(&self, message: &str) -> (r: KeywordSeverity)
        ensures
            self.ready() ==> r == keyword_severity(message@),
    {
        match &self.patterns {
            Some((e, f, w, i)) => {
                if e.is_match(message) {
                    KeywordSeverity::Error
                } else if f.is_match(message) {
                    KeywordSeverity::Failure
                } else if w.is_match(message) {
                    KeywordSeverity::Warning
                } else if i.is_match(message) {
                    KeywordSeverity::Issue
                } else {
                    KeywordSeverity::Plain
                }
            },
            None => KeywordSeverity::Plain,
        }
    }
}

/// How often `key` has been counted: the entry of its template, 0 without.
pub open spec fn count_in(entries: Seq<(Seq<char>, u32)>, key: Seq<char>) -> u32
    decreases entries.len(),
{
    if entries.len() == 0 {
        0
    } else if entries.last().0 == key {
        entries.last().1
    } else {
        count_in(entries.drop_last(), key)
    }
}

/// No template has two entries.
pub open spec fn distinct_keys(entries: Seq<(Seq<char>, u32)>) -> bool {
    forall|i: int, j: int| 0 <= i < j < entries.len() ==> entries[i].0 != entries[j].0
}

proof fn lemma_count_at(entries: Seq<(Seq<char>, u32)>, i: int)
    requires
        distinct_keys(entries),
        0 <= i < entries.len(),
    ensures
        count_in(entries, entries[i].0) == entries[i].1,
    decreases entries.len(),
{
    if i < entries.len() - 1 {
        assert(entries.last().0 != entries[i].0);
        assert(entries.drop_last()[i] == entries[i]);
        lemma_count_at(entries.drop_last(), i);
    }
}

proof fn lemma_count_absent(entries: Seq<(Seq<char>, u32)>, key: Seq<char>)
    requires
        forall|i: int| 0 <= i < entries.len() ==> entries[i].0 != key,
    ensures
        count_in(entries, key) == 0,
    decreases entries.len(),
{
    if entries.len() > 0 {
        assert(entries.last().0 != key);
        lemma_count_absent(entries.drop_last(), key);
    }
}

/// The count of `key` is that of its entry, or 0 without one.
proof fn lemma_count_lookup(entries: Seq<(Seq<char>, u32)>, key: Seq<char>)
    requires
        distinct_keys(entries),
    ensures
        (exists|i: int| 0 <= i < entries.len() && entries[i].0 == key) || count_in(entries, key) == 0,
        forall|i: int| 0 <= i < entries.len() && entries[i].0 == key ==> count_in(entries, key) == entries[i].1,
{
    assert forall|i: int| 0 <= i < entries.len() && entries[i].0 == key implies count_in(entries, key) == entries[i].1 by {
        lemma_count_at(entries, i);
    }
    if !(exists|i: int| 0 <= i < entries.len() && entries[i].0 == key) {
        lemma_count_absent(entries, key);
    }
}

/// Scores lines by the rarity of their message template: counts how often
/// each template, and how many lines in all, have been seen.
pub struct RarityScorer {
    template_counts: Vec<(String, u32)>,
    total_lines: u32,
}

impl RarityScorer {
    /// The templates with their counts.
    pub closed spec fn entries(&self) -> Seq<(Seq<char>, u32)> {
        self.template_counts@.map_values(|e: (String, u32)| (e.0@, e.1))
    }

    /// How many lines of template `key` have been seen (wrapping at
    /// `u32::MAX`).
    pub open spec fn seen(&self, key: Seq<char>) -> u32 {
        count_in(self.entries(), key)
    }

    /// How many lines have been seen (wrapping at `u32::MAX`).
    pub closed spec fn seen_total(&self) -> u32 {
        self.total_lines
    }

    #[verifier::type_invariant]
    spec fn keys_distinct(&self) -> bool {
        distinct_keys(self.entries())
    }

    pub fn new() -> (r: Self)
        ensures
            r.seen_total() == 0,
            forall|k: Seq<char>| #[trigger] r.seen(k) == 0,
    {
        let r = RarityScorer { template_counts: Vec::new(), total_lines: 0 };
        assert(r.entries() =~= Seq::<(Seq<char>, u32)>::empty());
        r
    }

    /// How many lines of template `key` have been seen.
    pub fn template_count(&self, key: &str) -> (r: u32)
        ensures
            r == self.seen(key@),
    {
        proof {
            use_type_invariant(self);
        }
        let k = str_chars(key);
        let mut i: usize = 0;
        while i < self.template_counts.len()
            invariant
                i <= self.template_counts@.len(),
                self.entries().len() == self.template_counts@.len(),
                distinct_keys(self.entries()),
                k@ == key@,
                forall|j: int| 0 <= j < i ==> self.entries()[j].0 != key@,
            decreases self.template_counts.len() - i,
        {
            let e = str_chars(self.template_counts[i].0.as_str());
            assert(self.entries()[i as int] == (self.template_counts@[i as int].0@, self.template_counts@[i as int].1));
            if chars_eq(e.as_slice(), k.as_slice()) {
                proof {
                    lemma_count_at(self.entries(), i as int);
                }
                return self.template_counts[i].1;
            }
            i += 1;
        }
        proof {
            lemma_count_absent(self.entries(), key@);
        }
        0
    }

    /// How many lines have been seen.
    pub fn total_lines(&self) -> (r: u32)
        ensures
            r == self.seen_total(),
    {
        self.total_lines
    }

    /// A line is novel when no line at all, or none of its template, has
    /// been seen: such a line gets the highest score.
    pub fn is_novel(&self, key: &str) -> (r: bool)
        ensures
            r == (self.seen_total() == 0 || self.seen(key@) == 0),
    {
        self.total_lines == 0 || self.template_count(key) == 0
    }

    /// Counts one more line of template `key`.
    pub fn update(&mut self, key: &str)
        ensures
            final(self).seen(key@) == old(self).seen(key@).wrapping_add(1),
            final(self).seen_total() == old(self).seen_total().wrapping_add(1),
            forall|k: Seq<char>| k != key@ ==> #[trigger] final(self).seen(k) == old(self).seen(k),
    {
        proof {
            use_type_invariant(&*self);
        }
        let ghost before = self.entries();
        let k = str_chars(key);
        let mut i: usize = 0;
        let mut found: Option<usize> = None;
        while i < self.template_counts.len() && found.is_none()
            invariant
                i <= self.template_counts@.len(),
                before == self.entries(),
                before.len() == self.template_counts@.len(),
                k@ == key@,
                found is None ==> forall|j: int| 0 <= j < i ==> before[j].0 != key@,
                found matches Some(f) ==> f < before.len() && before[f as int].0 == key@,
            decreases self.template_counts.len() - i,
        {
            let e = str_chars(self.template_counts[i].0.as_str());
            assert(before[i as int] == (self.template_counts@[i as int].0@, self.template_counts@[i as int].1));
            if chars_eq(e.as_slice(), k.as_slice()) {
                found = Some(i);
            }
            i += 1;
        }
        let mut entries: Vec<(String, u32)> = Vec::new();
        std::mem::swap(&mut entries, &mut self.template_counts);
        assert(entries@.map_values(|e: (String, u32)| (e.0@, e.1)) == before);
        match found {
            Some(f) => {
                let c = entries[f].1;
                let name = entries[f].0.clone();
                entries.set(f, (name, c.wrapping_add(1)));
            },
            None => {
                entries.push((key.to_string(), 1));
            },
        }
        let ghost after = entries@.map_values(|e: (String, u32)| (e.0@, e.1));
        proof {
            match found {
                Some(f) => {
                    assert(after =~= before.update(f as int, (key@, (before[f as int].1).wrapping_add(1))));
                    assert(distinct_keys(after));
                    lemma_count_at(before, f as int);
                    lemma_count_at(after, f as int);
                    assert forall|k2: Seq<char>| k2 != key@ implies count_in(after, k2) == count_in(before, k2) by {
                        lemma_count_lookup(before, k2);
                        lemma_count_lookup(after, k2);
                        if exists|j: int| 0 <= j < before.len() && before[j].0 == k2 {
                            let j = choose|j: int| 0 <= j < before.len() && before[j].0 == k2;
                            assert(after[j] == before[j]);
                        } else if exists|j: int| 0 <= j < after.len() && after[j].0 == k2 {
                            let j = choose|j: int| 0 <= j < after.len() && after[j].0 == k2;
                            assert(after[j] == before[j]);
                        }
                    }
                },
                None => {
                    assert(after =~= before.push((key@, 1u32)));
                    assert(distinct_keys(after));
                    lemma_count_absent(before, key@);
                    assert(after.drop_last() =~= before);
                    assert forall|k2: Seq<char>| k2 != key@ implies count_in(after, k2) == count_in(before, k2) by {
                    }
                },
            }
        }
        self.template_counts = entries;
        self.total_lines = self.total_lines.wrapping_add(1);
        proof {
            assert(self.entries() == after);
        }
    }
}

} // verus!
