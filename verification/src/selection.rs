//! The selected log line, tracked across views: found again by index in a
//! filtered view, or by the nearest timestamp.

use vstd::prelude::*;

verus! {

/// Tracks the currently selected log line across different views.
pub struct Selection {
    line_index: Option<usize>,
    /// Seconds since the Unix epoch.
    timestamp: Option<i64>,
}

/// The first position of `target` in `s`.
pub open spec fn position_of(s: Seq<usize>, target: usize, k: int) -> Option<int>
    decreases s.len() - k,
{
    if k < 0 || k >= s.len() {
        None
    } else if s[k] == target {
        Some(k)
    } else {
        position_of(s, target, k + 1)
    }
}

/// `|a - b|`.
pub open spec fn distance(a: i64, b: i64) -> int {
    if a >= b { a - b } else { b - a }
}

/// The position in `filtered` of the line nearest in time to `target`
/// among the first `k` lines of the view, with that distance: the first
/// of equally near lines wins, and without timestamped lines position 0.
pub open spec fn closest_among(times: Seq<Option<i64>>, filtered: Seq<usize>, target: i64, k: int) -> (int, int)
    decreases k,
{
    if k <= 0 {
        (0, i64::MAX as int)
    } else {
        let (best, min) = closest_among(times, filtered, target, k - 1);
        match times[filtered[k - 1] as int] {
            Some(t) => if distance(t, target) < min {
                (k - 1, distance(t, target))
            } else {
                (best, min)
            },
            None => (best, min),
        }
    }
}

impl Selection {
    pub closed spec fn selected_line(&self) -> Option<usize> {
        self.line_index
    }

    pub closed spec fn selected_time(&self) -> Option<i64> {
        self.timestamp
    }

    pub fn new() -> (r: Self)
        ensures
            r.selected_line() is None,
            r.selected_time() is None,
    {
        Selection { line_index: None, timestamp: None }
    }

    /// Select a specific line, with its timestamp in seconds.
    pub fn select(&mut self, line_index: usize, timestamp: Option<i64>)
        ensures
            final(self).selected_line() == Some(line_index),
            final(self).selected_time() == timestamp,
    {
        self.line_index = Some(line_index);
        self.timestamp = timestamp;
    }

    /// Clear selection
    pub fn clear(&mut self)
        ensures
            final(self).selected_line() is None,
            final(self).selected_time() is None,
    {
        self.line_index = None;
        self.timestamp = None;
    }

    /// Get the selected line index
    pub fn line_index(&self) -> (r: Option<usize>)
        ensures
            r == self.selected_line(),
    {
        self.line_index
    }

    /// Get the selected timestamp
    pub fn timestamp(&self) -> (r: Option<i64>)
        ensures
            r == self.selected_time(),
    {
        self.timestamp
    }

    /// Find the position of the selected line in a filtered list.
    pub fn find_in_filtered(&self, filtered_indices: &[usize]) -> (r: Option<usize>)
        ensures
            self.selected_line() is None ==> r is None,
            self.selected_line() matches Some(sel) ==> (r matches Some(i) ==> position_of(
                filtered_indices@,
                sel,
                0,
            ) == Some(i as int)) && (r is None ==> position_of(filtered_indices@, sel, 0) is None),
    {
        let selected = match self.line_index {
            Some(s) => s,
            None => return None,
        };
        let mut i: usize = 0;
        while i < filtered_indices.len()
            invariant
                i <= filtered_indices@.len(),
                self.selected_line() == Some(selected),
                position_of(filtered_indices@, selected, 0) == position_of(filtered_indices@, selected, i as int),
            decreases filtered_indices.len() - i,
        {
            if filtered_indices[i] == selected {
                return Some(i);
            }
            i += 1;
        }
        None
    }

    /// Find the position in the filtered view of the line closest in time
    /// to the selection; `times` holds each line's timestamp in seconds.
    pub fn find_closest_by_timestamp(&self, times: &[Option<i64>], filtered_indices: &[usize]) -> (r: Option<usize>)
        requires
            forall|i: int| 0 <= i < filtered_indices@.len() ==> #[trigger] filtered_indices@[i] < times@.len(),
        ensures
            filtered_indices@.len() == 0 || self.selected_time() is None ==> r is None,
            filtered_indices@.len() > 0 && self.selected_time() is Some ==> r == Some(
                closest_among(times@, filtered_indices@, self.selected_time()->0, filtered_indices@.len() as int).0 as usize,
            ),
    {
        if filtered_indices.len() == 0 {
            return None;
        }
        let target = match self.timestamp {
            Some(t) => t,
            None => return None,
        };
        let mut closest: usize = 0;
        let mut min_diff: i128 = 0x7fff_ffff_ffff_ffff;
        let mut k: usize = 0;
        while k < filtered_indices.len()
            invariant
                k <= filtered_indices@.len(),
                forall|i: int| 0 <= i < filtered_indices@.len() ==> #[trigger] filtered_indices@[i] < times@.len(),
                (closest as int, min_diff as int) == closest_among(times@, filtered_indices@, target, k as int),
                0 <= min_diff <= i64::MAX,
                closest <= k,
            decreases filtered_indices.len() - k,
        {
            let idx = filtered_indices[k];
            if let Some(t) = times[idx] {
                let diff: i128 = if t >= target { t as i128 - target as i128 } else { target as i128 - t as i128 };
                if diff < min_diff {
                    min_diff = diff;
                    closest = k;
                }
            }
            k += 1;
        }
        Some(closest)
    }
}

} // verus!
