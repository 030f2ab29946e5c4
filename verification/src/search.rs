//! The state of one search (a filter tab or a highlight): its patterns,
//! when its cached result must be recomputed, and the result it holds.

use crate::chars::{chars_eq, str_chars};
use crate::pattern::{regex_compiles, Pattern};
use crate::store::StoreID;
use crate::text::push_str;
use vstd::prelude::*;

verus! {

/// A search or exclude text that is not a valid regular expression.
#[derive(Clone, Copy, Debug, PartialEq, Eq, Structural)]
pub struct InvalidPattern;

/// The regular expression a search text stands for: case-insensitive
/// unless the search is case-sensitive.
pub open spec fn search_pattern(text: Seq<char>, case_sensitive: bool) -> Seq<char> {
    if case_sensitive { text } else { "(?i)"@ + text }
}

/// The result of a filter computation, with what it was computed for.
pub struct FilterOutcome {
    pub filtered_indices: Vec<StoreID>,
    pub search_text: String,
    pub exclude_text: String,
    pub case_sensitive: bool,
    pub store_version: u64,
}

/// Core search state shared between filters and highlights.
pub struct SearchState {
    id: usize,
    /// The search pattern text
    pub search_text: String,
    /// Pattern to exclude from results (removes false positives)
    pub exclude_text: String,
    /// Whether the search is case-sensitive
    pub case_sensitive: bool,
    filtered_indices: Vec<StoreID>,
    last_requested_version: u64,
    last_requested_text: String,
    last_requested_exclude: String,
    last_requested_case: bool,
    computed_text: String,
    computed_exclude: String,
    computed_case: bool,
    computed_version: u64,
}

impl SearchState {
    pub closed spec fn spec_id(&self) -> usize {
        self.id
    }

    /// The search text, exclude text and case sensitivity.
    pub closed spec fn query(&self) -> (Seq<char>, Seq<char>, bool) {
        (self.search_text@, self.exclude_text@, self.case_sensitive)
    }

    /// The cached matching lines.
    pub closed spec fn cached(&self) -> Seq<StoreID> {
        self.filtered_indices@
    }

    /// What was last requested: store version, search text, exclude text,
    /// case sensitivity.
    pub closed spec fn requested(&self) -> (u64, Seq<char>, Seq<char>, bool) {
        (self.last_requested_version, self.last_requested_text@, self.last_requested_exclude@, self.last_requested_case)
    }

    /// What the cached lines were computed for: search text, exclude text,
    /// case sensitivity, store version.
    pub closed spec fn computed_for(&self) -> (Seq<char>, Seq<char>, bool, u64) {
        (self.computed_text@, self.computed_exclude@, self.computed_case, self.computed_version)
    }

    /// A search with empty texts and no result, identified by `id`.
    pub fn new(id: usize) -> (r: Self)
        ensures
            r.spec_id() == id,
            r.query() == (Seq::<char>::empty(), Seq::<char>::empty(), false),
            r.cached().len() == 0,
            r.requested() == (0u64, Seq::<char>::empty(), Seq::<char>::empty(), false),
            r.computed_for() == (Seq::<char>::empty(), Seq::<char>::empty(), false, 0u64),
    {
        SearchState {
            id,
            search_text: String::new(),
            exclude_text: String::new(),
            case_sensitive: false,
            filtered_indices: Vec::new(),
            last_requested_version: 0,
            last_requested_text: String::new(),
            last_requested_exclude: String::new(),
            last_requested_case: false,
            computed_text: String::new(),
            computed_exclude: String::new(),
            computed_case: false,
            computed_version: 0,
        }
    }

    /// Get the unique identifier for this search.
    pub fn id(&self) -> (r: usize)
        ensures
            r == self.spec_id(),
    {
        self.id
    }

    /// The cached matching lines.
    pub fn get_filtered_indices_cached(&self) -> (r: &Vec<StoreID>)
        ensures
            r@ == self.cached(),
    {
        &self.filtered_indices
    }

    /// The regular expression of the search text.
    pub fn get_regex(&self) -> (r: Result<Pattern, InvalidPattern>)
        ensures
            r is Ok == regex_compiles(search_pattern(self.query().0, self.query().2)),
            r matches Ok(p) ==> p@ == search_pattern(self.query().0, self.query().2),
    {
        compile_search(self.search_text.as_str(), self.case_sensitive)
    }

    /// The regular expression of the exclude text; none when it is empty.
    pub fn get_exclude_regex(&self) -> (r: Result<Option<Pattern>, InvalidPattern>)
        ensures
            self.query().1.len() == 0 ==> r == Ok::<Option<Pattern>, InvalidPattern>(None),
            self.query().1.len() > 0 ==> {
                &&& r is Ok == regex_compiles(search_pattern(self.query().1, self.query().2))
                &&& r matches Ok(o) ==> (o matches Some(p) && p@ == search_pattern(self.query().1, self.query().2))
            },
    {
        if str_chars(self.exclude_text.as_str()).len() == 0 {
            return Ok(None);
        }
        match compile_search(self.exclude_text.as_str(), self.case_sensitive) {
            Ok(p) => Ok(Some(p)),
            Err(e) => Err(e),
        }
    }

    /// Whether the cached result must be recomputed for `store_version`:
    /// the store or a text or the case sensitivity changed since the last
    /// request. When it must, the request is recorded as made.
    pub fn ensure_cache_valid(&mut self, store_version: u64) -> (must_request: bool)
        ensures
            must_request == (old(self).requested() != (
                store_version,
                old(self).query().0,
                old(self).query().1,
                old(self).query().2,
            )),
            final(self).requested() == (store_version, old(self).query().0, old(self).query().1, old(self).query().2),
            final(self).query() == old(self).query(),
            final(self).cached() == old(self).cached(),
            final(self).computed_for() == old(self).computed_for(),
            final(self).spec_id() == old(self).spec_id(),
    {
        let same_text = chars_eq(
            str_chars(self.last_requested_text.as_str()).as_slice(),
            str_chars(self.search_text.as_str()).as_slice(),
        );
        let same_exclude = chars_eq(
            str_chars(self.last_requested_exclude.as_str()).as_slice(),
            str_chars(self.exclude_text.as_str()).as_slice(),
        );
        let stale = self.last_requested_version != store_version || !same_text || !same_exclude
            || self.last_requested_case != self.case_sensitive;
        if stale {
            self.last_requested_version = store_version;
            self.last_requested_text = self.search_text.clone();
            self.last_requested_exclude = self.exclude_text.clone();
            self.last_requested_case = self.case_sensitive;
        }
        stale
    }

    /// Takes a completed filter result: its lines become the cache, with
    /// what they were computed for.
    pub fn apply_filter_result(&mut self, result: FilterOutcome)
        ensures
            final(self).cached() == result.filtered_indices@,
            final(self).computed_for() == (result.search_text@, result.exclude_text@, result.case_sensitive, result.store_version),
            final(self).requested() == old(self).requested(),
            final(self).query() == old(self).query(),
            final(self).spec_id() == old(self).spec_id(),
    {
        self.filtered_indices = result.filtered_indices;
        self.computed_text = result.search_text;
        self.computed_exclude = result.exclude_text;
        self.computed_case = result.case_sensitive;
        self.computed_version = result.store_version;
    }

    /// What the cached lines were computed for.
    pub fn indices_computed_for(&self) -> (r: (&str, &str, bool, u64))
        ensures
            (r.0@, r.1@, r.2, r.3) == self.computed_for(),
    {
        (self.computed_text.as_str(), self.computed_exclude.as_str(), self.computed_case, self.computed_version)
    }

    /// The row of the cached lines where `target` belongs: the first row
    /// whose line does not come before it in time order. `times` holds the
    /// adjusted timestamp of each cached line, `target_time` that of the
    /// target.
    pub fn find_closest_row_position_in_cache(
        &self,
        times: &[Option<i64>],
        target: StoreID,
        target_time: Option<i64>,
    ) -> (r: Option<usize>)
        requires
            times@.len() == self.cached().len(),
        ensures
            self.cached().len() == 0 ==> r is None,
            r matches Some(p) ==> p <= self.cached().len(),
            self.cached().len() > 0 && rows_partitioned(times@, self.cached(), target_time, target) ==> r == Some(
                first_row_not_before(times@, self.cached(), target_time, target, 0) as usize,
            ),
    {
        let n = self.filtered_indices.len();
        if n == 0 {
            return None;
        }
        let mut lo: usize = 0;
        let mut hi: usize = n;
        while lo < hi
            invariant
                n == self.cached().len(),
                n == times@.len(),
                0 <= lo <= hi <= n,
                rows_partitioned(times@, self.cached(), target_time, target) ==> forall|i: int|
                    0 <= i < lo ==> row_before(times@, self.cached(), target_time, target, i),
                rows_partitioned(times@, self.cached(), target_time, target) ==> forall|i: int|
                    hi <= i < n ==> !row_before(times@, self.cached(), target_time, target, i),
            decreases hi - lo,
        {
            let mid = lo + (hi - lo) / 2;
            let before = store_id_less(times[mid], self.filtered_indices[mid], target_time, target);
            assert(before == row_before(times@, self.cached(), target_time, target, mid as int));
            if before {
                lo = mid + 1;
            } else {
                hi = mid;
            }
        }
        proof {
            if rows_partitioned(times@, self.cached(), target_time, target) {
                lemma_first_row(times@, self.cached(), target_time, target, lo as int, 0);
            }
        }
        Some(lo)
    }
}

/// `a` comes before `b` in the store's time order: by adjusted time, then
/// source and line; lines still in the store before missing ones; two
/// missing lines by source and line.
pub open spec fn store_order_less(at: Option<i64>, a: StoreID, bt: Option<i64>, b: StoreID) -> bool {
    let structural = a.spec_source_id() < b.spec_source_id() || (a.spec_source_id() == b.spec_source_id()
        && a.spec_line_index() < b.spec_line_index());
    match (at, bt) {
        (Some(x), Some(y)) => x < y || (x == y && structural),
        (Some(_), None) => true,
        (None, Some(_)) => false,
        (None, None) => structural,
    }
}

/// Whether `a` comes before `b` in the store's time order.
pub fn store_id_less(at: Option<i64>, a: StoreID, bt: Option<i64>, b: StoreID) -> (r: bool)
    ensures
        r == store_order_less(at, a, bt, b),
{
    let structural = a.source_id() < b.source_id() || (a.source_id() == b.source_id() && a.line_index()
        < b.line_index());
    match (at, bt) {
        (Some(x), Some(y)) => x < y || (x == y && structural),
        (Some(_), None) => true,
        (None, Some(_)) => false,
        (None, None) => structural,
    }
}

/// Row `i` of the cache comes before the target.
pub open spec fn row_before(times: Seq<Option<i64>>, rows: Seq<StoreID>, tt: Option<i64>, target: StoreID, i: int) -> bool {
    store_order_less(times[i], rows[i], tt, target)
}

/// The rows before the target come first.
pub open spec fn rows_partitioned(times: Seq<Option<i64>>, rows: Seq<StoreID>, tt: Option<i64>, target: StoreID) -> bool {
    forall|i: int, j: int| 0 <= i < j < rows.len() && row_before(times, rows, tt, target, j) ==> row_before(
        times,
        rows,
        tt,
        target,
        i,
    )
}

/// The first row at or after `i` that does not come before the target.
pub open spec fn first_row_not_before(times: Seq<Option<i64>>, rows: Seq<StoreID>, tt: Option<i64>, target: StoreID, i: int) -> int
    decreases rows.len() - i,
{
    if i < 0 || i >= rows.len() {
        rows.len() as int
    } else if !row_before(times, rows, tt, target, i) {
        i
    } else {
        first_row_not_before(times, rows, tt, target, i + 1)
    }
}

proof fn lemma_first_row(times: Seq<Option<i64>>, rows: Seq<StoreID>, tt: Option<i64>, target: StoreID, p: int, i: int)
    requires
        0 <= i <= p <= rows.len(),
        forall|k: int| 0 <= k < p ==> row_before(times, rows, tt, target, k),
        p < rows.len() ==> !row_before(times, rows, tt, target, p),
    ensures
        first_row_not_before(times, rows, tt, target, i) == p,
    decreases p - i,
{
    if i < p {
        lemma_first_row(times, rows, tt, target, p, i + 1);
    }
}

/// Compiles a search text as `search_pattern` writes it.
fn compile_search(text: &str, case_sensitive: bool) -> (r: Result<Pattern, InvalidPattern>)
    ensures
        r is Ok == regex_compiles(search_pattern(text@, case_sensitive)),
        r matches Ok(p) ==> p@ == search_pattern(text@, case_sensitive),
{
    let mut source = String::new();
    if !case_sensitive {
        push_str(&mut source, "(?i)");
    }
    push_str(&mut source, text);
    assert(source@ =~= search_pattern(text@, case_sensitive));
    match Pattern::compile(source.as_str()) {
        Some(p) => Ok(p),
        None => Err(InvalidPattern),
    }
}

/// A colored search rule that can filter or highlight log lines: a search
/// with a display name, a color (red, green, blue, alpha) and switches.
pub struct SearchRule {
    /// Core search state (patterns, filtering, caching)
    pub search: SearchState,
    /// Display name for this rule
    pub name: String,
    /// Color used for highlighting matches
    pub color: [u8; 4],
    /// Whether this rule is active/visible
    pub enabled: bool,
    /// Whether to show matches as markers in the histogram
    pub show_in_histogram: bool,
}

impl SearchRule {
    /// A new, enabled rule with an empty search of identifier `id`, not
    /// shown in the histogram.
    pub fn new(name: String, color: [u8; 4], id: usize) -> (r: Self)
        ensures
            r.search.spec_id() == id,
            r.search.query() == (Seq::<char>::empty(), Seq::<char>::empty(), false),
            r.search.cached().len() == 0,
            r.name@ == name@,
            r.color == color,
            r.enabled,
            !r.show_in_histogram,
    {
        SearchRule { search: SearchState::new(id), name, color, enabled: true, show_in_histogram: false }
    }

    /// The identifier of this rule: that of its search.
    pub fn id(&self) -> (r: usize)
        ensures
            r == self.search.spec_id(),
    {
        self.search.id()
    }

    /// Whether this rule searches for a favorite filter's search text with
    /// its case sensitivity.
    pub fn matches_search(&self, search_text: &str, case_sensitive: bool) -> (r: bool)
        ensures
            r == (self.search.query().0 == search_text@ && self.search.query().2 == case_sensitive),
    {
        let mine = str_chars(self.search.search_text.as_str());
        let theirs = str_chars(search_text);
        chars_eq(mine.as_slice(), theirs.as_slice()) && self.search.case_sensitive == case_sensitive
    }
}

} // verus!
