//! The timeline histogram: its cache keys, the per-bucket distribution of
//! anomaly scores, and the time span that the buckets cover.

use vstd::prelude::*;

verus! {

/// Number of horizontal time buckets in the histogram
pub const NUM_BUCKETS: usize = 100;

/// Number of vertical buckets for anomaly score distribution
pub const SCORE_BUCKETS: usize = 20;

/// Distribution of anomaly scores within a histogram bucket: how many lines
/// fall in each score bucket.
#[derive(Clone, Copy, Debug)]
pub struct AnomalyDistribution {
    pub buckets: [usize; SCORE_BUCKETS],
}

impl Default for AnomalyDistribution {
    fn default() -> (r: Self)
        ensures
            forall|i: int| 0 <= i < SCORE_BUCKETS ==> #[trigger] r.buckets@[i] == 0,
    {
        AnomalyDistribution { buckets: [0; SCORE_BUCKETS] }
    }
}

/// Cache key for histogram data
pub struct HistogramKey {
    pub store_version: u64,
    pub hide_epoch: bool,
    pub search_str: String,
    pub case_sensitive: bool,
}

/// Cache key for validating histogram results
pub struct HistogramCacheKey {
    pub store_version: u64,
    pub search_str: String,
    pub case_sensitive: bool,
    /// Zoom range in milliseconds; `None` means the full range.
    pub zoom_range_ms: Option<(i64, i64)>,
}

/// The first present timestamp at or after `i`.
pub open spec fn first_present(s: Seq<Option<i64>>, i: int) -> Option<i64>
    decreases s.len() - i,
{
    if i < 0 || i >= s.len() {
        None
    } else if s[i] is Some {
        s[i]
    } else {
        first_present(s, i + 1)
    }
}

/// The last present timestamp before `i`.
pub open spec fn last_present(s: Seq<Option<i64>>, i: int) -> Option<i64>
    decreases i,
{
    if i <= 0 || i > s.len() {
        None
    } else if s[i - 1] is Some {
        s[i - 1]
    } else {
        last_present(s, i - 1)
    }
}

/// The time range of a filtered view: the timestamps of its first and last
/// lines that are still in the store.
pub open spec fn view_time_range(s: Seq<Option<i64>>) -> Option<(i64, i64)> {
    match (first_present(s, 0), last_present(s, s.len() as int)) {
        (Some(a), Some(b)) => Some((a, b)),
        _ => None,
    }
}

/// The time range of the lines of a filtered view, given the timestamp of
/// each (`None` for a line no longer in the store).
pub fn calculate_time_range(timestamps: &[Option<i64>]) -> (r: Option<(i64, i64)>)
    ensures
        r == view_time_range(timestamps@),
{
    let mut first: Option<i64> = None;
    let mut i: usize = 0;
    while i < timestamps.len() && first.is_none()
        invariant
            i <= timestamps@.len(),
            first is None ==> first_present(timestamps@, 0) == first_present(timestamps@, i as int),
            first is Some ==> first == first_present(timestamps@, 0),
        decreases timestamps.len() - i,
    {
        first = timestamps[i];
        i += 1;
    }
    let mut last: Option<i64> = None;
    let mut j: usize = timestamps.len();
    while j > 0 && last.is_none()
        invariant
            j <= timestamps@.len(),
            last is None ==> last_present(timestamps@, timestamps@.len() as int) == last_present(
                timestamps@,
                j as int,
            ),
            last is Some ==> last == last_present(timestamps@, timestamps@.len() as int),
        decreases j,
    {
        last = timestamps[j - 1];
        j -= 1;
    }
    match (first, last) {
        (Some(a), Some(b)) => Some((a, b)),
        _ => None,
    }
}

/// The span that the buckets cover: the zoom range (or the full range)
/// clamped to the full range; none when it is empty.
pub open spec fn bucket_span(full: Option<(i64, i64)>, zoom: Option<(i64, i64)>) -> Option<(i64, i64)> {
    match full {
        None => None,
        Some((fs, fe)) => {
            let (s, e) = match zoom {
                Some(z) => z,
                None => (fs, fe),
            };
            let start = if s > fs { s } else { fs };
            let end = if e < fe { e } else { fe };
            if start >= end {
                None
            } else {
                Some((start, end))
            }
        },
    }
}

/// `lo <= t < hi`.
pub open spec fn within(t: int, lo: int, hi: int) -> bool {
    lo <= t < hi
}

/// The range asked for: the zoom range, or the full range without zoom.
pub open spec fn asked_range(full: (i64, i64), zoom: Option<(i64, i64)>) -> (i64, i64) {
    match zoom {
        Some(z) => z,
        None => full,
    }
}

/// The bucket span is the overlap of the range asked for (the zoom, or the
/// full range) with the full range, both taken as half-open: a time lies
/// in the span exactly when it lies in both, and there is no span exactly
/// when they do not overlap. Without a full range there is no span.
pub proof fn lemma_span_is_overlap(fs: i64, fe: i64, zoom: Option<(i64, i64)>)
    ensures
        bucket_span(None, zoom) is None,
        bucket_span(Some((fs, fe)), zoom) matches Some((a, b)) ==> forall|t: int|
            #![trigger within(t, a as int, b as int)]
            #![trigger within(t, fs as int, fe as int), within(t, asked_range((fs, fe), zoom).0 as int, asked_range((fs, fe), zoom).1 as int)]
            within(t, a as int, b as int) <==> (within(t, fs as int, fe as int) && within(
                t,
                asked_range((fs, fe), zoom).0 as int,
                asked_range((fs, fe), zoom).1 as int,
            )),
        bucket_span(Some((fs, fe)), zoom) is None <==> forall|t: int|
            !(#[trigger] within(t, fs as int, fe as int) && #[trigger] within(
                t,
                asked_range((fs, fe), zoom).0 as int,
                asked_range((fs, fe), zoom).1 as int,
            )),
{
    let (s, e) = asked_range((fs, fe), zoom);
    let start: int = if s > fs { s as int } else { fs as int };
    let end: int = if e < fe { e as int } else { fe as int };
    if start < end {
        assert(bucket_span(Some((fs, fe)), zoom) == Some((start as i64, end as i64)));
        assert(within(start, fs as int, fe as int) && within(start, s as int, e as int));
    } else {
        assert(bucket_span(Some((fs, fe)), zoom) is None);
    }
}

/// The span of the histogram's buckets, in milliseconds.
pub fn histogram_span(full: Option<(i64, i64)>, zoom: Option<(i64, i64)>) -> (r: Option<(i64, i64)>)
    ensures
        r == bucket_span(full, zoom),
        r matches Some((s, e)) ==> (s < e && (full matches Some((fs, fe)) && fs <= s && e <= fe)),
{
    let (fs, fe) = match full {
        None => return None,
        Some(f) => f,
    };
    let (s, e) = match zoom {
        Some(z) => z,
        None => (fs, fe),
    };
    let start = if s > fs { s } else { fs };
    let end = if e < fe { e } else { fe };
    if start >= end {
        None
    } else {
        Some((start, end))
    }
}

/// How many lines fall in time bucket `b`, given each line's (time bucket,
/// score bucket).
pub open spec fn time_count(placements: Seq<(usize, usize)>, b: int) -> nat
    decreases placements.len(),
{
    if placements.len() == 0 {
        0
    } else {
        time_count(placements.drop_last(), b) + if placements.last().0 == b { 1nat } else { 0nat }
    }
}

/// How many lines fall in time bucket `b` and score bucket `s`.
pub open spec fn cell_count(placements: Seq<(usize, usize)>, b: int, s: int) -> nat
    decreases placements.len(),
{
    if placements.len() == 0 {
        0
    } else {
        cell_count(placements.drop_last(), b, s) + if placements.last().0 == b && placements.last().1 == s {
            1nat
        } else {
            0nat
        }
    }
}

proof fn lemma_counts_bounded(placements: Seq<(usize, usize)>, b: int, s: int)
    ensures
        time_count(placements, b) <= placements.len(),
        cell_count(placements, b, s) <= placements.len(),
    decreases placements.len(),
{
    if placements.len() > 0 {
        lemma_counts_bounded(placements.drop_last(), b, s);
    }
}

/// Counts lines into the histogram: per time bucket, and per time and
/// score bucket, given each line's (time bucket, score bucket).
pub fn create_buckets(placements: &Vec<(usize, usize)>) -> (r: (Vec<usize>, Vec<AnomalyDistribution>))
    requires
        forall|i: int| 0 <= i < placements@.len() ==> (#[trigger] placements@[i]).0 < NUM_BUCKETS
            && placements@[i].1 < SCORE_BUCKETS,
    ensures
        r.0@.len() == NUM_BUCKETS,
        r.1@.len() == NUM_BUCKETS,
        forall|b: int| 0 <= b < NUM_BUCKETS ==> #[trigger] r.0@[b] == time_count(placements@, b),
        forall|b: int, s: int|
            0 <= b < NUM_BUCKETS && 0 <= s < SCORE_BUCKETS ==> #[trigger] r.1@[b].buckets@[s] == cell_count(
                placements@,
                b,
                s,
            ),
{
    let mut buckets: Vec<usize> = Vec::new();
    let mut distributions: Vec<AnomalyDistribution> = Vec::new();
    let mut b: usize = 0;
    while b < NUM_BUCKETS
        invariant
            b <= NUM_BUCKETS,
            buckets@.len() == b,
            distributions@.len() == b,
            forall|k: int| 0 <= k < b ==> #[trigger] buckets@[k] == 0,
            forall|k: int, s: int| 0 <= k < b && 0 <= s < SCORE_BUCKETS ==> #[trigger] distributions@[k].buckets@[s] == 0,
        decreases NUM_BUCKETS - b,
    {
        buckets.push(0);
        distributions.push(AnomalyDistribution::default());
        b += 1;
    }
    let mut i: usize = 0;
    while i < placements.len()
        invariant
            i <= placements@.len(),
            forall|j: int| 0 <= j < placements@.len() ==> (#[trigger] placements@[j]).0 < NUM_BUCKETS
                && placements@[j].1 < SCORE_BUCKETS,
            buckets@.len() == NUM_BUCKETS,
            distributions@.len() == NUM_BUCKETS,
            forall|k: int| 0 <= k < NUM_BUCKETS ==> #[trigger] buckets@[k] == time_count(placements@.take(i as int), k),
            forall|k: int, s: int|
                0 <= k < NUM_BUCKETS && 0 <= s < SCORE_BUCKETS ==> #[trigger] distributions@[k].buckets@[s]
                    == cell_count(placements@.take(i as int), k, s),
        decreases placements.len() - i,
    {
        let (tb, sb) = placements[i];
        let ghost pre = placements@.take(i as int);
        let ghost post = placements@.take(i + 1);
        proof {
            assert(post.drop_last() =~= pre);
            assert(post.last() == (tb, sb));
            lemma_counts_bounded(pre, tb as int, sb as int);
            assert(i < placements@.len());
        }
        let c = buckets[tb];
        buckets.set(tb, c + 1);
        let mut d = distributions[tb];
        let cs = d.buckets[sb];
        d.buckets.set(sb, cs + 1);
        distributions.set(tb, d);
        i += 1;
    }
    proof {
        assert(placements@.take(i as int) =~= placements@);
    }
    (buckets, distributions)
}

/// The lines counted in time buckets `0..n`.
pub open spec fn buckets_total(placements: Seq<(usize, usize)>, n: int) -> nat
    decreases n,
{
    if n <= 0 {
        0
    } else {
        buckets_total(placements, n - 1) + time_count(placements, n - 1)
    }
}

/// The lines of time bucket `b` counted in score buckets `0..n`.
pub open spec fn scores_total(placements: Seq<(usize, usize)>, b: int, n: int) -> nat
    decreases n,
{
    if n <= 0 {
        0
    } else {
        scores_total(placements, b, n - 1) + cell_count(placements, b, n - 1)
    }
}

proof fn lemma_buckets_total_step(placements: Seq<(usize, usize)>, n: int)
    requires
        placements.len() > 0,
        0 <= n,
    ensures
        buckets_total(placements, n) == buckets_total(placements.drop_last(), n) + if placements.last().0 < n {
            1nat
        } else {
            0nat
        },
    decreases n,
{
    if n > 0 {
        lemma_buckets_total_step(placements, n - 1);
    }
}

proof fn lemma_scores_total_step(placements: Seq<(usize, usize)>, b: int, n: int)
    requires
        placements.len() > 0,
        0 <= n,
    ensures
        scores_total(placements, b, n) == scores_total(placements.drop_last(), b, n) + if placements.last().0 == b
            && placements.last().1 < n {
            1nat
        } else {
            0nat
        },
    decreases n,
{
    if n > 0 {
        lemma_scores_total_step(placements, b, n - 1);
    }
}

/// Every line lands in exactly one time bucket and, within it, in exactly
/// one score bucket: the time buckets add up to all lines, and each time
/// bucket's score buckets add up to its count.
pub proof fn lemma_histogram_counts_every_line_once(placements: Seq<(usize, usize)>)
    requires
        forall|i: int| 0 <= i < placements.len() ==> (#[trigger] placements[i]).0 < NUM_BUCKETS
            && placements[i].1 < SCORE_BUCKETS,
    ensures
        buckets_total(placements, NUM_BUCKETS as int) == placements.len(),
        forall|b: int| 0 <= b < NUM_BUCKETS ==> #[trigger] scores_total(placements, b, SCORE_BUCKETS as int)
            == time_count(placements, b),
    decreases placements.len(),
{
    if placements.len() > 0 {
        let init = placements.drop_last();
        assert forall|i: int| 0 <= i < init.len() implies (#[trigger] init[i]).0 < NUM_BUCKETS && init[i].1
            < SCORE_BUCKETS by {
            assert(init[i] == placements[i]);
        }
        lemma_histogram_counts_every_line_once(init);
        assert(placements.last() == placements[placements.len() - 1]);
        lemma_buckets_total_step(placements, NUM_BUCKETS as int);
        assert forall|b: int| 0 <= b < NUM_BUCKETS implies #[trigger] scores_total(placements, b, SCORE_BUCKETS as int)
            == time_count(placements, b) by {
            lemma_scores_total_step(placements, b, SCORE_BUCKETS as int);
        }
    } else {
        assert(buckets_total(placements, NUM_BUCKETS as int) == 0) by {
            lemma_buckets_total_zero(placements, NUM_BUCKETS as int);
        }
        assert forall|b: int| 0 <= b < NUM_BUCKETS implies #[trigger] scores_total(placements, b, SCORE_BUCKETS as int)
            == time_count(placements, b) by {
            lemma_scores_total_zero(placements, b, SCORE_BUCKETS as int);
        }
    }
}

proof fn lemma_buckets_total_zero(placements: Seq<(usize, usize)>, n: int)
    requires
        placements.len() == 0,
    ensures
        buckets_total(placements, n) == 0,
    decreases n,
{
    if n > 0 {
        lemma_buckets_total_zero(placements, n - 1);
    }
}

proof fn lemma_scores_total_zero(placements: Seq<(usize, usize)>, b: int, n: int)
    requires
        placements.len() == 0,
    ensures
        scores_total(placements, b, n) == 0,
    decreases n,
{
    if n > 0 {
        lemma_scores_total_zero(placements, b, n - 1);
    }
}

} // verus!
