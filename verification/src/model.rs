//! The mathematical model of the histogram: how a sample is clamped,
//! which bucket it falls into, what the bucket counts are for a given
//! sample window, and how the rolling window evolves under pushes.

use vstd::prelude::*;

verus! {

/// The sample value that stands for "no response received". It sorts
/// above every real latency, so it always lands in the last bucket
/// when every interior boundary is a real (smaller) latency.
pub const MISSING: u64 = u64::MAX;

/// How many buckets past the mode bucket stay individually visible
/// before the axis is truncated and the remaining mass is folded into
/// one overflow bucket.
pub const OVERFLOW_SIZE: usize = 15;

/// Bucket boundaries must never decrease: each boundary is an
/// upper-inclusive limit, and the scan that classifies a sample walks
/// them in ascending order.
pub open spec fn sorted(b: Seq<u64>) -> bool {
    forall|i: int, j: int| 0 <= i <= j < b.len() ==> b[i] <= b[j]
}

/// The bucket a sample falls into, scanning boundaries from index `i`
/// upward: the first boundary the sample does not exceed wins; a
/// sample larger than every boundary falls into the last bucket.
pub open spec fn bin_from(b: Seq<u64>, x: u64, i: int) -> int
    decreases b.len() - i,
{
    if i < 0 || i >= b.len() {
        b.len() - 1
    } else if x <= b[i] {
        i
    } else {
        bin_from(b, x, i + 1)
    }
}

/// The bucket a sample falls into (upper-inclusive policy: a sample
/// exactly on a boundary belongs to that boundary's bucket).
pub open spec fn bin_of(b: Seq<u64>, x: u64) -> int {
    bin_from(b, x, 0)
}

/// How a raw measurement is normalized before entering the window: a
/// missing reply becomes the sentinel, and a magnitude too large for
/// the counter is clamped to the sentinel rather than wrapped.
pub open spec fn clamp_sample(x: Option<u128>) -> u64 {
    match x {
        Option::None => MISSING,
        Option::Some(ms) => if ms >= MISSING as u128 {
            MISSING
        } else {
            ms as u64
        },
    }
}

/// How many of the samples fall into bucket `k`.
pub open spec fn count_in(s: Seq<u64>, b: Seq<u64>, k: int) -> nat
    decreases s.len(),
{
    if s.len() == 0 {
        0
    } else {
        count_in(s.drop_last(), b, k) + (if bin_of(b, s.last()) == k {
            1nat
        } else {
            0nat
        })
    }
}

/// Sum of the first `n` counters.
pub open spec fn sum_prefix(c: Seq<u64>, n: int) -> int
    decreases n,
{
    if n <= 0 {
        0
    } else {
        sum_prefix(c, n - 1) + c[n - 1]
    }
}

/// Sum of the y components of the first `n` plot points.
pub open spec fn sum_y(p: Seq<(u64, u64)>, n: int) -> int
    decreases n,
{
    if n <= 0 {
        0
    } else {
        sum_y(p, n - 1) + p[n - 1].1
    }
}

/// The largest counter value, 0 for an empty sequence.
pub open spec fn seq_max(c: Seq<u64>) -> u64
    decreases c.len(),
{
    if c.len() == 0 {
        0
    } else if c.last() >= seq_max(c.drop_last()) {
        c.last()
    } else {
        seq_max(c.drop_last())
    }
}

/// The first index at or after `i` whose counter equals `v`; the last
/// index if none does (that fallback is never reached when `v` is the
/// maximum of a non-empty sequence).
pub open spec fn first_eq_from(c: Seq<u64>, v: u64, i: int) -> int
    decreases c.len() - i,
{
    if i < 0 || i >= c.len() {
        c.len() - 1
    } else if c[i] == v {
        i
    } else {
        first_eq_from(c, v, i + 1)
    }
}

/// The mode bucket: the lowest index whose count equals the maximum.
pub open spec fn mode_idx(c: Seq<u64>) -> int {
    first_eq_from(c, seq_max(c), 0)
}

/// The bucket where the axis is truncated: a fixed look-ahead past the
/// mode, clamped to the last valid index.
pub open spec fn overflow_idx(c: Seq<u64>) -> int {
    if mode_idx(c) + OVERFLOW_SIZE >= c.len() - 1 {
        c.len() - 1
    } else {
        mode_idx(c) + OVERFLOW_SIZE
    }
}

/// What the front eviction leaves: the most recent `w` samples.
pub open spec fn evict(s: Seq<u64>, w: usize) -> Seq<u64> {
    if s.len() <= w {
        s
    } else {
        s.skip(s.len() - w)
    }
}

/// One push into the rolling window: append, then evict from the front
/// until the configured bound holds again.
pub open spec fn window_push(s: Seq<u64>, x: u64, w: Option<usize>) -> Seq<u64> {
    match w {
        Option::None => s.push(x),
        Option::Some(wn) => evict(s.push(x), wn),
    }
}

/// A whole run of pushes, oldest first.
pub open spec fn window_run(s: Seq<u64>, xs: Seq<u64>, w: Option<usize>) -> Seq<u64>
    decreases xs.len(),
{
    if xs.len() == 0 {
        s
    } else {
        window_push(window_run(s, xs.drop_last(), w), xs.last(), w)
    }
}

/// A classified sample's bucket index is always a valid index.
pub proof fn lemma_bin_from_range(b: Seq<u64>, x: u64, i: int)
    requires
        b.len() >= 1,
        0 <= i,
    ensures
        0 <= bin_from(b, x, i) < b.len(),
    decreases b.len() - i,
{
    if i >= b.len() {
    } else if x <= b[i] {
    } else {
        lemma_bin_from_range(b, x, i + 1);
    }
}

pub proof fn lemma_bin_of_range(b: Seq<u64>, x: u64)
    requires
        b.len() >= 1,
    ensures
        0 <= bin_of(b, x) < b.len(),
{
    lemma_bin_from_range(b, x, 0);
}

/// Appending one sample raises exactly its own bucket's count by one.
pub proof fn lemma_count_in_push(s: Seq<u64>, b: Seq<u64>, x: u64, k: int)
    ensures
        count_in(s.push(x), b, k) == count_in(s, b, k) + (if bin_of(b, x) == k {
            1int
        } else {
            0int
        }),
{
    assert(s.push(x).drop_last() =~= s);
    assert(s.push(x).last() == x);
}

pub proof fn lemma_count_in_push_all(s: Seq<u64>, b: Seq<u64>, x: u64)
    ensures
        forall|k: int|
            #[trigger] count_in(s.push(x), b, k) == count_in(s, b, k) + (if bin_of(b, x) == k {
                1int
            } else {
                0int
            }),
{
    assert forall|k: int|
        #[trigger] count_in(s.push(x), b, k) == count_in(s, b, k) + (if bin_of(b, x) == k {
            1int
        } else {
            0int
        }) by {
        lemma_count_in_push(s, b, x, k);
    }
}

/// Two sequences that agree on a prefix have the same prefix sum.
pub proof fn lemma_sum_prefix_agree(a: Seq<u64>, c: Seq<u64>, n: int)
    requires
        n <= a.len(),
        n <= c.len(),
        forall|i: int| 0 <= i < n ==> a[i] == c[i],
    ensures
        sum_prefix(a, n) == sum_prefix(c, n),
    decreases n,
{
    if n > 0 {
        lemma_sum_prefix_agree(a, c, n - 1);
    }
}

/// Raising one counter raises the prefix sum by the same amount.
pub proof fn lemma_sum_prefix_update(c: Seq<u64>, j: int, v: u64, n: int)
    requires
        0 <= j < n <= c.len(),
    ensures
        sum_prefix(c.update(j, v), n) == sum_prefix(c, n) - c[j] + v,
    decreases n,
{
    if j < n - 1 {
        lemma_sum_prefix_update(c, j, v, n - 1);
    } else {
        lemma_sum_prefix_agree(c.update(j, v), c, n - 1);
    }
}

/// Prefix sums of unsigned counters grow with the prefix.
pub proof fn lemma_sum_prefix_monotone(c: Seq<u64>, m: int, n: int)
    requires
        0 <= m <= n <= c.len(),
    ensures
        sum_prefix(c, m) <= sum_prefix(c, n),
    decreases n,
{
    if m < n {
        lemma_sum_prefix_monotone(c, m, n - 1);
    }
}

/// Every single counter is bounded by the whole sum.
pub proof fn lemma_sum_prefix_elem(c: Seq<u64>, k: int, n: int)
    requires
        0 <= k < n <= c.len(),
    ensures
        c[k] <= sum_prefix(c, n),
    decreases n,
{
    if k < n - 1 {
        lemma_sum_prefix_elem(c, k, n - 1);
        lemma_sum_prefix_monotone(c, n - 1, n);
    } else {
        lemma_sum_prefix_monotone(c, 0, n - 1);
    }
}

/// No counter exceeds the maximum.
pub proof fn lemma_seq_max_bound(c: Seq<u64>)
    ensures
        forall|i: int| 0 <= i < c.len() ==> c[i] <= seq_max(c),
    decreases c.len(),
{
    if c.len() > 0 {
        let d = c.drop_last();
        lemma_seq_max_bound(d);
        assert forall|i: int| 0 <= i < c.len() implies c[i] <= seq_max(c) by {
            if i < c.len() - 1 {
                assert(c[i] == d[i]);
                assert(d[i] <= seq_max(d));
            }
        }
    }
}

/// A non-empty sequence attains its maximum somewhere.
pub proof fn lemma_seq_max_achieved(c: Seq<u64>)
    requires
        c.len() >= 1,
    ensures
        exists|i: int| 0 <= i < c.len() && c[i] == seq_max(c),
    decreases c.len(),
{
    let d = c.drop_last();
    if c.last() >= seq_max(d) {
        assert(c[c.len() - 1] == seq_max(c));
    } else {
        lemma_seq_max_achieved(d);
        let i = choose|i: int| 0 <= i < d.len() && d[i] == seq_max(d);
        assert(c[i] == seq_max(c));
    }
}

/// The first-match scan really returns the first match.
pub proof fn lemma_first_eq_props(c: Seq<u64>, v: u64, i: int)
    requires
        0 <= i <= c.len(),
        exists|k: int| i <= k < c.len() && c[k] == v,
    ensures
        i <= first_eq_from(c, v, i) < c.len(),
        c[first_eq_from(c, v, i)] == v,
        forall|k: int| i <= k < first_eq_from(c, v, i) ==> c[k] != v,
    decreases c.len() - i,
{
    if c[i] == v {
    } else {
        let k0 = choose|k: int| i <= k < c.len() && c[k] == v;
        assert(i + 1 <= k0 < c.len() && c[k0] == v);
        lemma_first_eq_props(c, v, i + 1);
    }
}

/// A witnessed first match pins the scan's result.
pub proof fn lemma_first_eq_char(c: Seq<u64>, v: u64, m: int)
    requires
        0 <= m < c.len(),
        c[m] == v,
        forall|k: int| 0 <= k < m ==> c[k] != v,
    ensures
        first_eq_from(c, v, 0) == m,
{
    lemma_first_eq_from_char(c, v, 0, m);
}

proof fn lemma_first_eq_from_char(c: Seq<u64>, v: u64, i: int, m: int)
    requires
        0 <= i <= m < c.len(),
        c[m] == v,
        forall|k: int| i <= k < m ==> c[k] != v,
    ensures
        first_eq_from(c, v, i) == m,
    decreases m - i,
{
    if i < m {
        assert(c[i] != v);
        lemma_first_eq_from_char(c, v, i + 1, m);
    }
}

/// The mode bucket attains the maximum count, at the lowest such index.
pub proof fn lemma_mode_props(c: Seq<u64>)
    requires
        c.len() >= 1,
    ensures
        0 <= mode_idx(c) < c.len(),
        c[mode_idx(c)] == seq_max(c),
        forall|k: int| 0 <= k < mode_idx(c) ==> c[k] != seq_max(c),
{
    lemma_seq_max_achieved(c);
    lemma_first_eq_props(c, seq_max(c), 0);
}

/// The truncation index lies at or after the mode and is valid.
pub proof fn lemma_overflow_idx_range(c: Seq<u64>)
    requires
        c.len() >= 1,
    ensures
        0 <= mode_idx(c) <= overflow_idx(c) < c.len(),
{
    lemma_mode_props(c);
}

/// Plot points whose y equals the corresponding counter sum alike.
pub proof fn lemma_sum_y_agree(p: Seq<(u64, u64)>, c: Seq<u64>, n: int)
    requires
        n <= p.len(),
        n <= c.len(),
        forall|i: int| 0 <= i < n ==> (#[trigger] p[i]).1 == c[i],
    ensures
        sum_y(p, n) == sum_prefix(c, n),
    decreases n,
{
    if n > 0 {
        lemma_sum_y_agree(p, c, n - 1);
    }
}

/// A stretch of zero y-values adds nothing to the sum.
pub proof fn lemma_sum_y_zero_tail(p: Seq<(u64, u64)>, m: int, n: int)
    requires
        0 <= m <= n <= p.len(),
        forall|i: int| m <= i < n ==> (#[trigger] p[i]).1 == 0,
    ensures
        sum_y(p, n) == sum_y(p, m),
    decreases n,
{
    if m < n {
        lemma_sum_y_zero_tail(p, m, n - 1);
    }
}

/// Evicting before a push changes nothing the push's own eviction
/// would not also remove.
proof fn lemma_evict_push(s: Seq<u64>, x: u64, w: usize)
    ensures
        evict(evict(s, w).push(x), w) =~= evict(s.push(x), w),
{
    if s.len() > w {
        let t = evict(s, w);
        assert forall|i: int|
            0 <= i < evict(t.push(x), w).len() implies evict(t.push(x), w)[i] == evict(
            s.push(x),
            w,
        )[i] by {
            assert(evict(t.push(x), w)[i] == t.push(x)[i + 1]);
            assert(evict(s.push(x), w)[i] == s.push(x)[s.len() + 1 - w + i]);
        }
    }
}

/// A whole run of pushes leaves the last `w` elements of everything
/// ever present, however the evictions interleave.
pub proof fn lemma_window_run_evict(s0: Seq<u64>, xs: Seq<u64>, w: usize)
    requires
        s0.len() <= w,
    ensures
        window_run(s0, xs, Some(w)) =~= evict(s0 + xs, w),
    decreases xs.len(),
{
    if xs.len() == 0 {
        assert(s0 + xs =~= s0);
    } else {
        let d = xs.drop_last();
        lemma_window_run_evict(s0, d, w);
        lemma_evict_push(s0 + d, xs.last(), w);
        assert((s0 + d).push(xs.last()) =~= s0 + xs);
    }
}

/// The window bound holds after every push of any run.
pub proof fn lemma_window_bound(s0: Seq<u64>, xs: Seq<u64>, w: usize)
    requires
        s0.len() <= w,
    ensures
        window_run(s0, xs, Some(w)).len() <= w,
{
    lemma_window_run_evict(s0, xs, w);
}

/// Without a window bound the buffer only ever grows: it holds every
/// sample ever pushed, in order.
pub proof fn lemma_unbounded_run(s0: Seq<u64>, xs: Seq<u64>)
    ensures
        window_run(s0, xs, Option::None) =~= s0 + xs,
        window_run(s0, xs, Option::None).len() == s0.len() + xs.len(),
    decreases xs.len(),
{
    if xs.len() == 0 {
        assert(s0 + xs =~= s0);
    } else {
        let d = xs.drop_last();
        lemma_unbounded_run(s0, d);
        assert((s0 + d).push(xs.last()) =~= s0 + xs);
    }
}

/// Pushing at least `w` samples into a `w`-bounded window leaves
/// exactly the last `w` of them, in their original relative order —
/// whatever the buffer held before.
pub proof fn lemma_fifo(s0: Seq<u64>, xs: Seq<u64>, w: usize)
    requires
        s0.len() <= w,
        xs.len() >= w,
    ensures
        window_run(s0, xs, Some(w)) =~= xs.skip(xs.len() - w),
{
    lemma_window_run_evict(s0, xs, w);
    let all = s0 + xs;
    if all.len() <= w {
        assert(s0.len() == 0);
        assert(evict(all, w) =~= xs.skip(xs.len() - w));
    } else {
        assert forall|i: int|
            0 <= i < evict(all, w).len() implies evict(all, w)[i] == xs.skip(xs.len() - w)[i] by {
            assert(evict(all, w)[i] == all[all.len() - w + i]);
            assert(all[all.len() - w + i] == xs[xs.len() - w + i]);
        }
    }
}

/// The "no response" sentinel always classifies into the last bucket,
/// as long as no interior boundary is itself the sentinel value.
pub proof fn lemma_missing_last_bucket(b: Seq<u64>)
    requires
        b.len() >= 1,
        forall|i: int| 0 <= i < b.len() - 1 ==> b[i] < MISSING,
    ensures
        bin_of(b, MISSING) == b.len() - 1,
{
    lemma_missing_from(b, 0);
}

proof fn lemma_missing_from(b: Seq<u64>, i: int)
    requires
        0 <= i < b.len(),
        forall|k: int| 0 <= k < b.len() - 1 ==> b[k] < MISSING,
    ensures
        bin_from(b, MISSING, i) == b.len() - 1,
    decreases b.len() - i,
{
    if i < b.len() - 1 {
        assert(b[i] < MISSING);
        lemma_missing_from(b, i + 1);
    } else {
        assert(bin_from(b, MISSING, b.len() as int) == b.len() - 1);
    }
}

} // verus!
