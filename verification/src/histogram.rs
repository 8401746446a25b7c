//! The histogram state: a rolling window of latency samples and the
//! frequency distribution derived from it on every mutation.
//!
//! Two policy choices hold uniformly throughout. Boundaries are
//! upper-inclusive limits: a sample exactly equal to a boundary falls
//! into that boundary's bucket. And the chart auto-zooms: the visible
//! x-range follows the mode bucket plus a fixed look-ahead, and all
//! mass at or beyond the truncation point is folded into the overflow
//! bucket of the plot series — folded, not added on top of a count
//! that is also kept, so the series' total always equals the number
//! of samples in the window.
//!
//! The derived data (bucket counts, mode, overflow boundary, plot
//! series) is recomputed from scratch from the whole window on every
//! push. That is a deliberate simplicity tradeoff — O(samples ×
//! buckets) per push — acceptable because the window holds at most a
//! few hundred samples and there are under a hundred buckets.

use vstd::prelude::*;

use crate::model::{
    bin_from, bin_of, clamp_sample, count_in, evict, mode_idx, overflow_idx,
    seq_max, sorted, sum_prefix, sum_y, window_push, lemma_bin_of_range, lemma_count_in_push_all,
    lemma_first_eq_char, lemma_mode_props, lemma_overflow_idx_range, lemma_seq_max_achieved,
    lemma_seq_max_bound, lemma_sum_prefix_agree, lemma_sum_prefix_elem,
    lemma_sum_prefix_monotone, lemma_sum_prefix_update, lemma_sum_y_agree,
    lemma_sum_y_zero_tail, MISSING, OVERFLOW_SIZE,
};

verus! {

/// The boundary at index `i` of the default progression: every
/// millisecond up to 49 ms, then every 5 ms up to 245 ms, then every
/// 100 ms up to 950 ms — fine where pings cluster, coarse beyond.
pub open spec fn default_boundary_at(i: int) -> u64 {
    if i < 49 {
        (i + 1) as u64
    } else if i < 89 {
        (50 + 5 * (i - 49)) as u64
    } else {
        (250 + 100 * (i - 89)) as u64
    }
}

/// The default bucket boundaries, 97 in all.
pub open spec fn default_boundaries() -> Seq<u64> {
    Seq::new(97, |i: int| default_boundary_at(i))
}

/// The default progression never decreases.
pub proof fn lemma_default_boundaries_sorted()
    ensures
        sorted(default_boundaries()),
{
    assert forall|i: int, j: int|
        0 <= i <= j < default_boundaries().len() implies default_boundaries()[i]
        <= default_boundaries()[j] by {
        assert(default_boundary_at(i) <= default_boundary_at(j));
    }
}

fn build_default_boundaries() -> (r: Vec<u64>)
    ensures
        r@ =~= default_boundaries(),
{
    let mut v: Vec<u64> = Vec::new();
    let mut i: usize = 0;
    while i < 97
        invariant
            i <= 97,
            v@.len() == i,
            forall|k: int| 0 <= k < i ==> v@[k] == default_boundary_at(k),
        decreases 97 - i,
    {
        let val: u64 = if i < 49 {
            (i as u64) + 1
        } else if i < 89 {
            50 + 5 * ((i as u64) - 49)
        } else {
            250 + 100 * ((i as u64) - 89)
        };
        v.push(val);
        i += 1;
    }
    v
}

/// The scalars a renderer reads beside the plot series.
#[derive(Clone, Copy, PartialEq, Eq, Structural, Debug)]
pub struct Summary {
    /// How many samples are currently in the window.
    pub sample_count: usize,
    /// Boundary value of the mode bucket.
    pub mode_boundary: u64,
    /// Boundary value at which the axis is truncated; mass at or past
    /// it is folded into that bucket of the plot series.
    pub overflow_boundary: u64,
    /// The peak bucket count.
    pub max_count: u64,
}

/// Rolling latency window plus the distribution derived from it.
#[derive(Debug)]
pub struct HistogramState {
    /// The raw samples, oldest first; never longer than the window.
    pub samples: Vec<u64>,
    /// Bound on the window; `None` means unbounded growth.
    pub window_size: Option<usize>,
    /// Upper-inclusive bucket boundaries, ascending, fixed after
    /// construction; never empty.
    pub bin_buckets: Vec<u64>,
    /// One counter per boundary: how many samples fall in each bucket.
    pub bin_counts: Vec<u64>,
    /// The derived (boundary, count) series, with the tail folded into
    /// the overflow bucket.
    pub plot_data: Vec<(u64, u64)>,
    /// The peak bucket count.
    pub max_count: u64,
    /// Boundary value of the mode bucket.
    pub max_bin: u64,
    /// Boundary value at which the plot series is truncated.
    pub overflow_bin: u64,
}

impl HistogramState {
    /// The counts are exactly the distribution of the current window
    /// over the buckets, and account for every sample exactly once.
    pub open spec fn counts_ok(self) -> bool {
        let n = self.bin_buckets@.len() as int;
        &&& self.bin_counts@.len() == self.bin_buckets@.len()
        &&& forall|k: int|
            0 <= k < n ==> self.bin_counts@[k] == count_in(self.samples@, self.bin_buckets@, k)
        &&& sum_prefix(self.bin_counts@, n) == self.samples@.len()
    }

    /// The summary scalars and the plot series are exactly what the
    /// current counts dictate: counts are copied through below the
    /// overflow bucket, the overflow bucket carries all mass from
    /// itself to the end, and everything past it is zeroed.
    pub open spec fn series_ok(self) -> bool {
        let b = self.bin_buckets@;
        let c = self.bin_counts@;
        let n = b.len() as int;
        let o = overflow_idx(c);
        &&& self.max_count == seq_max(c)
        &&& self.max_bin == b[mode_idx(c)]
        &&& self.overflow_bin == b[o]
        &&& self.plot_data@.len() == n
        &&& forall|i: int| 0 <= i < n ==> (#[trigger] self.plot_data@[i]).0 == b[i]
        &&& forall|i: int| 0 <= i < o ==> (#[trigger] self.plot_data@[i]).1 == c[i]
        &&& self.plot_data@[o].1 as int == sum_prefix(c, n) - sum_prefix(c, o)
        &&& forall|i: int| o < i < n ==> (#[trigger] self.plot_data@[i]).1 == 0
    }

    /// Well-formedness: at least one bucket, ascending boundaries, the
    /// window bound respected, and the derived data consistent with
    /// the samples.
    pub open spec fn wf(self) -> bool {
        &&& self.bin_buckets@.len() >= 1
        &&& sorted(self.bin_buckets@)
        &&& (self.window_size matches Some(w) ==> self.samples@.len() <= w)
        &&& self.counts_ok()
        &&& self.series_ok()
    }

    /// The bucket the sample belongs to: the first boundary it does
    /// not exceed, or the last bucket if it exceeds them all.
    fn bin_index(&self, x: u64) -> (r: usize)
        requires
            self.bin_buckets@.len() >= 1,
        ensures
            r as int == bin_of(self.bin_buckets@, x),
            r < self.bin_buckets@.len(),
    {
        proof {
            lemma_bin_of_range(self.bin_buckets@, x);
        }
        let n = self.bin_buckets.len();
        let mut i: usize = 0;
        while i < n
            invariant
                i <= n,
                n == self.bin_buckets@.len(),
                n >= 1,
                bin_of(self.bin_buckets@, x) == bin_from(self.bin_buckets@, x, i as int),
                0 <= bin_of(self.bin_buckets@, x) < n,
            decreases n - i,
        {
            if x <= self.bin_buckets[i] {
                assert(bin_from(self.bin_buckets@, x, i as int) == i);
                return i;
            }
            i += 1;
        }
        n - 1
    }

    /// Reset every counter and reclassify the whole window. Recomputed
    /// from scratch on every mutation by design; see the module note.
    #[verifier::loop_isolation(false)]
    fn update_bins(&mut self)
        requires
            old(self).bin_buckets@.len() >= 1,
        ensures
            final(self).counts_ok(),
            final(self).samples@ == old(self).samples@,
            final(self).window_size == old(self).window_size,
            final(self).bin_buckets@ == old(self).bin_buckets@,
            final(self).plot_data@ == old(self).plot_data@,
            final(self).max_count == old(self).max_count,
            final(self).max_bin == old(self).max_bin,
            final(self).overflow_bin == old(self).overflow_bin,
    {
        let n = self.bin_buckets.len();
        let mut counts: Vec<u64> = Vec::new();
        while counts.len() < n
            invariant
                counts@.len() <= n,
                forall|k: int| 0 <= k < counts@.len() ==> counts@[k] == 0,
                sum_prefix(counts@, counts@.len() as int) == 0,
            decreases n - counts@.len(),
        {
            proof {
                lemma_sum_prefix_agree(counts@.push(0), counts@, counts@.len() as int);
            }
            counts.push(0);
        }
        let mut si: usize = 0;
        while si < self.samples.len()
            invariant
                si <= self.samples@.len(),
                counts@.len() == n,
                n == self.bin_buckets@.len(),
                n >= 1,
                forall|k: int|
                    0 <= k < n ==> counts@[k] == count_in(
                        self.samples@.take(si as int),
                        self.bin_buckets@,
                        k,
                    ),
                sum_prefix(counts@, n as int) == si,
            decreases self.samples@.len() - si,
        {
            let x = self.samples[si];
            let idx = self.bin_index(x);
            proof {
                let s_pre = self.samples@.take(si as int);
                lemma_count_in_push_all(s_pre, self.bin_buckets@, x);
                assert(self.samples@.take(si as int + 1) =~= s_pre.push(x));
                lemma_sum_prefix_elem(counts@, idx as int, n as int);
                lemma_sum_prefix_update(counts@, idx as int, (counts@[idx as int] + 1) as u64,
                    n as int);
            }
            let c = counts[idx];
            counts[idx] = c + 1;
            si += 1;
        }
        proof {
            assert(self.samples@.take(self.samples@.len() as int) =~= self.samples@);
        }
        self.bin_counts = counts;
    }

    /// Recompute everything the renderer reads: counts, peak, mode,
    /// overflow boundary and the folded plot series.
    #[verifier::loop_isolation(false)]
    fn update(&mut self)
        requires
            old(self).bin_buckets@.len() >= 1,
            sorted(old(self).bin_buckets@),
            old(self).window_size matches Some(w) ==> old(self).samples@.len() <= w,
        ensures
            final(self).wf(),
            final(self).samples@ == old(self).samples@,
            final(self).window_size == old(self).window_size,
            final(self).bin_buckets@ == old(self).bin_buckets@,
    {
        self.update_bins();
        let n = self.bin_counts.len();

        // the peak count
        let mut m: u64 = 0;
        let mut j: usize = 0;
        while j < n
            invariant
                j <= n,
                n == self.bin_counts@.len(),
                m == seq_max(self.bin_counts@.take(j as int)),
            decreases n - j,
        {
            proof {
                assert(self.bin_counts@.take(j as int + 1).drop_last() =~= self.bin_counts@.take(
                    j as int,
                ));
            }
            if self.bin_counts[j] >= m {
                m = self.bin_counts[j];
            }
            j += 1;
        }
        proof {
            assert(self.bin_counts@.take(n as int) =~= self.bin_counts@);
        }
        self.max_count = m;

        // the mode: lowest index attaining the peak
        proof {
            lemma_seq_max_achieved(self.bin_counts@);
        }
        let mut mi: usize = 0;
        while mi < n && self.bin_counts[mi] != m
            invariant
                mi <= n,
                n == self.bin_counts@.len(),
                n >= 1,
                m == seq_max(self.bin_counts@),
                forall|k: int| 0 <= k < mi ==> self.bin_counts@[k] != m,
            decreases n - mi,
        {
            mi += 1;
        }
        proof {
            lemma_seq_max_achieved(self.bin_counts@);
            assert(mi < n);
            lemma_first_eq_char(self.bin_counts@, m, mi as int);
        }
        self.max_bin = self.bin_buckets[mi];

        // the overflow bucket: a fixed look-ahead past the mode,
        // clamped to the last bucket
        let oi: usize = if n - 1 - mi <= OVERFLOW_SIZE {
            n - 1
        } else {
            mi + OVERFLOW_SIZE
        };
        assert(oi as int == overflow_idx(self.bin_counts@));
        self.overflow_bin = self.bin_buckets[oi];

        // the plot series: counts up to the overflow bucket, all mass
        // from there to the end folded into it, zeros past it
        let mut plot: Vec<(u64, u64)> = Vec::new();
        let mut i: usize = 0;
        while i < oi
            invariant
                i <= oi,
                oi < n,
                n == self.bin_counts@.len(),
                n == self.bin_buckets@.len(),
                plot@.len() == i,
                forall|k: int|
                    0 <= k < i ==> (#[trigger] plot@[k]) == (self.bin_buckets@[k],
                    self.bin_counts@[k]),
            decreases oi - i,
        {
            plot.push((self.bin_buckets[i], self.bin_counts[i]));
            i += 1;
        }
        let mut acc: u64 = 0;
        let mut t: usize = oi;
        let sn = self.samples.len();
        while t < n
            invariant
                oi <= t <= n,
                n == self.bin_counts@.len(),
                sum_prefix(self.bin_counts@, n as int) == sn as int,
                acc as int == sum_prefix(self.bin_counts@, t as int) - sum_prefix(
                    self.bin_counts@,
                    oi as int,
                ),
            decreases n - t,
        {
            proof {
                lemma_sum_prefix_monotone(self.bin_counts@, 0, oi as int);
                lemma_sum_prefix_monotone(self.bin_counts@, t as int + 1, n as int);
                assert(sum_prefix(self.bin_counts@, t as int + 1) == sum_prefix(
                    self.bin_counts@,
                    t as int,
                ) + self.bin_counts@[t as int]);
            }
            acc = acc + self.bin_counts[t];
            t += 1;
        }
        plot.push((self.bin_buckets[oi], acc));
        let mut i2: usize = oi + 1;
        while i2 < n
            invariant
                oi + 1 <= i2 <= n,
                oi < n,
                n == self.bin_counts@.len(),
                n == self.bin_buckets@.len(),
                plot@.len() == i2,
                forall|k: int|
                    0 <= k < oi ==> (#[trigger] plot@[k]) == (self.bin_buckets@[k],
                    self.bin_counts@[k]),
                plot@[oi as int].0 == self.bin_buckets@[oi as int],
                plot@[oi as int].1 == acc,
                forall|k: int|
                    oi < k < i2 ==> (#[trigger] plot@[k]) == (self.bin_buckets@[k], 0u64),
            decreases n - i2,
        {
            plot.push((self.bin_buckets[i2], 0));
            i2 += 1;
        }
        self.plot_data = plot;
    }

    /// Build a histogram over the given ascending boundaries. An empty
    /// boundary list is the degenerate configuration: it falls back to
    /// a single catch-all bucket, so the whole window is one bucket.
    pub fn new(window_size: Option<usize>, boundaries: Vec<u64>) -> (r: HistogramState)
        requires
            sorted(boundaries@),
        ensures
            r.wf(),
            r.samples@.len() == 0,
            r.window_size == window_size,
            boundaries@.len() >= 1 ==> r.bin_buckets@ == boundaries@,
            boundaries@.len() == 0 ==> r.bin_buckets@ =~= seq![MISSING],
    {
        let buckets = if boundaries.len() == 0 {
            let mut one: Vec<u64> = Vec::new();
            one.push(MISSING);
            one
        } else {
            boundaries
        };
        let mut r = HistogramState {
            samples: Vec::new(),
            window_size,
            bin_buckets: buckets,
            bin_counts: Vec::new(),
            plot_data: Vec::new(),
            max_count: 0,
            max_bin: 0,
            overflow_bin: 0,
        };
        r.update();
        r
    }

    /// Append one measurement — a round-trip time in milliseconds, or
    /// `None` for no reply — evict from the front while the window
    /// bound is exceeded, and recompute the distribution. A magnitude
    /// beyond the counter's range is clamped to the sentinel rather
    /// than wrapped.
    pub fn add_sample(&mut self, x: Option<u128>)
        requires
            old(self).wf(),
        ensures
            final(self).wf(),
            final(self).samples@ == window_push(
                old(self).samples@,
                clamp_sample(x),
                old(self).window_size,
            ),
            final(self).window_size == old(self).window_size,
            final(self).bin_buckets@ == old(self).bin_buckets@,
            old(self).window_size matches Some(w) ==> final(self).samples@.len() <= w,
            old(self).window_size is None ==> final(self).samples@.len() == old(
                self,
            ).samples@.len() + 1,
    {
        let v: u64 = match x {
            None => MISSING,
            Some(ms) => if ms >= MISSING as u128 {
                MISSING
            } else {
                ms as u64
            },
        };
        self.samples.push(v);
        let ghost s1 = self.samples@;
        if let Some(window) = self.window_size {
            let ghost mut j: int = 0;
            while self.samples.len() > window
                invariant
                    0 <= j <= s1.len(),
                    self.samples@ =~= s1.skip(j),
                    j == 0 || s1.len() - (j - 1) > window,
                    self.window_size == Some(window),
                    self.bin_buckets@ == old(self).bin_buckets@,
                decreases self.samples@.len(),
            {
                self.samples.remove(0);
                proof {
                    assert(s1.skip(j).remove(0) =~= s1.skip(j + 1));
                    j = j + 1;
                }
            }
            proof {
                if j == 0 {
                    assert(self.samples@ =~= evict(s1, window));
                } else {
                    assert(s1.len() - j == window);
                    assert(self.samples@ =~= evict(s1, window));
                }
            }
        }
        self.update();
    }

    /// The plot-ready distribution: one (boundary, count) pair per
    /// bucket, with the tail mass folded into the overflow bucket.
    pub fn read_series(&self) -> (r: &Vec<(u64, u64)>)
        ensures
            r@ == self.plot_data@,
    {
        &self.plot_data
    }

    /// The summary scalars a renderer shows beside the chart.
    pub fn read_summary(&self) -> (r: Summary)
        ensures
            r.sample_count == self.samples@.len(),
            r.mode_boundary == self.max_bin,
            r.overflow_boundary == self.overflow_bin,
            r.max_count == self.max_count,
    {
        Summary {
            sample_count: self.samples.len(),
            mode_boundary: self.max_bin,
            overflow_boundary: self.overflow_bin,
            max_count: self.max_count,
        }
    }
}

/// Count conservation: every sample in the window lands in exactly
/// one bucket, so the bucket counts always sum to the window's length.
pub proof fn lemma_count_conservation(h: HistogramState)
    requires
        h.wf(),
    ensures
        sum_prefix(h.bin_counts@, h.bin_counts@.len() as int) == h.samples@.len(),
{
}

/// Overflow conservation: folding the tail into the overflow bucket
/// redistributes mass but never drops or duplicates it — the plot
/// series' y-values sum to the same total as the bucket counts, which
/// is the window's length.
pub proof fn lemma_overflow_conservation(h: HistogramState)
    requires
        h.wf(),
    ensures
        sum_y(h.plot_data@, h.plot_data@.len() as int) == sum_prefix(
            h.bin_counts@,
            h.bin_counts@.len() as int,
        ),
        sum_y(h.plot_data@, h.plot_data@.len() as int) == h.samples@.len(),
{
    let p = h.plot_data@;
    let c = h.bin_counts@;
    let n = c.len() as int;
    let o = overflow_idx(c);
    lemma_overflow_idx_range(c);
    lemma_sum_y_zero_tail(p, o + 1, n);
    assert(sum_y(p, o + 1) == sum_y(p, o) + p[o].1);
    lemma_sum_y_agree(p, c, o);
}

/// Mode correctness: the mode boundary names a bucket whose count is
/// the peak count, and the lowest such bucket on ties.
pub proof fn lemma_mode_correct(h: HistogramState)
    requires
        h.wf(),
    ensures
        0 <= mode_idx(h.bin_counts@) < h.bin_counts@.len(),
        h.max_bin == h.bin_buckets@[mode_idx(h.bin_counts@)],
        h.bin_counts@[mode_idx(h.bin_counts@)] == h.max_count,
        forall|j: int| 0 <= j < h.bin_counts@.len() ==> h.bin_counts@[j] <= h.max_count,
        forall|j: int| 0 <= j < mode_idx(h.bin_counts@) ==> h.bin_counts@[j] < h.max_count,
{
    let c = h.bin_counts@;
    lemma_mode_props(c);
    lemma_seq_max_bound(c);
}

/// Boundary monotonicity: the boundaries ascend, and `add_sample`
/// never touches them, so they ascend throughout the state's lifetime.
pub proof fn lemma_boundaries_sorted(h: HistogramState)
    requires
        h.wf(),
    ensures
        sorted(h.bin_buckets@),
        forall|i: int, j: int|
            0 <= i <= j < h.bin_buckets@.len() ==> h.bin_buckets@[i] <= h.bin_buckets@[j],
{
}

/// Determinism: everything a reader can observe is a function of the
/// samples and the boundaries alone — two well-formed states built
/// from the same pushes and configuration expose identical series and
/// summaries.
pub proof fn lemma_deterministic(a: HistogramState, b: HistogramState)
    requires
        a.wf(),
        b.wf(),
        a.samples@ == b.samples@,
        a.bin_buckets@ == b.bin_buckets@,
    ensures
        a.bin_counts@ == b.bin_counts@,
        a.plot_data@ == b.plot_data@,
        a.max_count == b.max_count,
        a.max_bin == b.max_bin,
        a.overflow_bin == b.overflow_bin,
{
    assert(a.bin_counts@ =~= b.bin_counts@);
    assert forall|i: int| 0 <= i < a.plot_data@.len() implies a.plot_data@[i] == b.plot_data@[i] by {
        assert(a.plot_data@[i].0 == b.plot_data@[i].0);
        assert(a.plot_data@[i].1 == b.plot_data@[i].1);
    }
    assert(a.plot_data@ =~= b.plot_data@);
}

impl Default for HistogramState {
    /// The default configuration: a 500-sample window over the default
    /// boundary progression.
    fn default() -> (r: HistogramState)
        ensures
            r.wf(),
            r.samples@.len() == 0,
            r.window_size == Some(500usize),
            r.bin_buckets@ == default_boundaries(),
    {
        proof {
            lemma_default_boundaries_sorted();
        }
        HistogramState::new(Some(500), build_default_boundaries())
    }
}

} // verus!
