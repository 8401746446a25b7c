use gping_histogram::histogram::HistogramState;

fn state_with(boundaries: &[u64], window: Option<usize>) -> HistogramState {
    HistogramState::new(window, boundaries.to_vec())
}

fn counts_sum(h: &HistogramState) -> u64 {
    h.bin_counts.iter().sum()
}

fn series_y_sum(h: &HistogramState) -> u64 {
    h.read_series().iter().map(|p| p.1).sum()
}

#[test]
fn window_bound_holds_after_every_push() {
    let mut h = state_with(&[10, 100, 1000], Some(4));
    for i in 0..20u128 {
        h.add_sample(Some(i));
        assert!(h.samples.len() <= 4);
        assert!(h.read_summary().sample_count <= 4);
    }
}

#[test]
fn unbounded_window_keeps_every_push() {
    let mut h = state_with(&[10, 100, 1000], None);
    for i in 0..20u128 {
        h.add_sample(Some(i));
        assert_eq!(h.samples.len(), (i + 1) as usize);
    }
}

#[test]
fn fifo_eviction_keeps_last_pushes_in_order() {
    let mut h = state_with(&[10, 100, 1000], Some(3));
    for ms in [1u128, 2, 3, 4] {
        h.add_sample(Some(ms));
    }
    assert_eq!(h.samples, vec![2, 3, 4]);
}

#[test]
fn count_conservation() {
    let mut h = state_with(&[10, 100, 1000], Some(5));
    for ms in [3u128, 30, 300, 3000, 7, 70, 700] {
        h.add_sample(Some(ms));
        assert_eq!(counts_sum(&h), h.samples.len() as u64);
    }
}

#[test]
fn determinism_identical_runs_identical_output() {
    let pushes: [Option<u128>; 6] = [Some(5), None, Some(120), Some(120), Some(7), Some(900)];
    let mut a = state_with(&[10, 100, 1000], Some(4));
    let mut b = state_with(&[10, 100, 1000], Some(4));
    for p in pushes {
        a.add_sample(p);
        b.add_sample(p);
    }
    assert_eq!(a.bin_counts, b.bin_counts);
    assert_eq!(a.read_series(), b.read_series());
    assert_eq!(a.read_summary(), b.read_summary());
}

#[test]
fn boundaries_never_mutate() {
    let mut h = state_with(&[10, 100, 1000], Some(3));
    let before = h.bin_buckets.clone();
    for ms in [1u128, 5000, 20, 999] {
        h.add_sample(Some(ms));
        assert_eq!(h.bin_buckets, before);
        assert!(h.bin_buckets.windows(2).all(|w| w[0] <= w[1]));
    }
}

#[test]
fn overflow_conservation_series_sums_to_counts() {
    // boundaries 1..=20; mode lands at the first bucket, so the
    // overflow bucket is index 15 and the counts at 16..=19 fold there
    let boundaries: Vec<u64> = (1..=20).collect();
    let mut h = HistogramState::new(Some(100), boundaries);
    for _ in 0..5 {
        h.add_sample(Some(1));
    }
    h.add_sample(Some(18));
    h.add_sample(Some(19));
    assert_eq!(series_y_sum(&h), counts_sum(&h));
    assert_eq!(series_y_sum(&h), 7);
    let series = h.read_series();
    assert_eq!(series[0], (1, 5));
    assert_eq!(series[15], (16, 2)); // the folded tail: the 18 and the 19
    assert_eq!(series[16], (17, 0));
    assert_eq!(series[19], (20, 0));
    assert_eq!(h.read_summary().overflow_boundary, 16);
}

#[test]
fn mode_is_peak_and_lowest_on_ties() {
    let mut h = state_with(&[10, 100, 1000], Some(10));
    // two in bucket 1, two in bucket 2: tie resolves to bucket 1
    for ms in [50u128, 60, 500, 600] {
        h.add_sample(Some(ms));
    }
    let s = h.read_summary();
    assert_eq!(s.max_count, 2);
    assert_eq!(s.mode_boundary, 100);
    let mode_idx = h.bin_buckets.iter().position(|&b| b == s.mode_boundary).unwrap();
    assert_eq!(h.bin_counts[mode_idx], s.max_count);
    assert!(h.bin_counts.iter().all(|&c| c <= s.max_count));
}

#[test]
fn example_scenario_three_boundaries() {
    let mut h = state_with(&[10, 100, 1000], Some(3));
    h.add_sample(Some(5));
    h.add_sample(Some(50));
    h.add_sample(Some(5000));
    assert_eq!(h.bin_counts, vec![1, 1, 1]);
    h.add_sample(Some(15));
    assert_eq!(h.samples, vec![50, 5000, 15]);
    assert_eq!(h.bin_counts, vec![0, 2, 1]);
    assert_eq!(h.read_series(), &vec![(10, 0), (100, 2), (1000, 1)]);
}

#[test]
fn missing_sample_lands_in_last_bucket() {
    let mut h = state_with(&[10, 100, 1000], Some(5));
    h.add_sample(None);
    assert_eq!(h.bin_counts, vec![0, 0, 1]);
    let mut g = state_with(&[7], Some(5));
    g.add_sample(None);
    assert_eq!(g.bin_counts, vec![1]);
}

#[test]
fn oversized_magnitude_clamps_to_sentinel() {
    let mut h = state_with(&[10, 100, 1000], Some(5));
    h.add_sample(Some(u64::MAX as u128));
    h.add_sample(Some(u128::MAX));
    assert_eq!(h.samples, vec![u64::MAX, u64::MAX]);
    assert_eq!(h.bin_counts, vec![0, 0, 2]);
}

#[test]
fn boundary_values_are_upper_inclusive() {
    let mut h = state_with(&[10, 100, 1000], Some(5));
    h.add_sample(Some(10));
    h.add_sample(Some(11));
    h.add_sample(Some(100));
    assert_eq!(h.bin_counts, vec![1, 2, 0]);
}

#[test]
fn empty_boundary_list_degenerates_to_one_bucket() {
    let mut h = state_with(&[], Some(5));
    assert_eq!(h.bin_buckets, vec![u64::MAX]);
    h.add_sample(Some(3));
    h.add_sample(Some(30000));
    h.add_sample(None);
    assert_eq!(h.bin_counts, vec![3]);
    assert_eq!(h.read_series(), &vec![(u64::MAX, 3)]);
}

#[test]
fn zero_window_always_empties() {
    let mut h = state_with(&[10, 100, 1000], Some(0));
    h.add_sample(Some(5));
    h.add_sample(Some(50));
    assert_eq!(h.samples.len(), 0);
    assert_eq!(counts_sum(&h), 0);
    assert_eq!(h.read_summary().sample_count, 0);
}

#[test]
fn default_configuration() {
    let h = HistogramState::default();
    assert_eq!(h.window_size, Some(500));
    assert_eq!(h.samples.len(), 0);
    assert_eq!(h.bin_buckets.len(), 97);
    assert_eq!(h.bin_buckets[0], 1);
    assert_eq!(h.bin_buckets[48], 49);
    assert_eq!(h.bin_buckets[49], 50);
    assert_eq!(h.bin_buckets[50], 55);
    assert_eq!(h.bin_buckets[88], 245);
    assert_eq!(h.bin_buckets[89], 250);
    assert_eq!(h.bin_buckets[96], 950);
    assert!(h.bin_buckets.windows(2).all(|w| w[0] < w[1]));
}

#[test]
fn default_overflow_tracks_the_mode() {
    let mut h = HistogramState::default();
    // mode at 30 ms: overflow sits 15 buckets past it, at 45 ms
    for _ in 0..3 {
        h.add_sample(Some(30));
    }
    h.add_sample(Some(200));
    h.add_sample(None);
    let s = h.read_summary();
    assert_eq!(s.mode_boundary, 30);
    assert_eq!(s.max_count, 3);
    assert_eq!(s.overflow_boundary, 45);
    // all mass at or past 45 ms is folded into the bucket at 45 ms
    let series = h.read_series();
    assert_eq!(series[44], (45, 2));
    assert_eq!(series_y_sum(&h), 5);
}

#[test]
fn summary_reflects_state() {
    let mut h = state_with(&[10, 100, 1000], Some(3));
    h.add_sample(Some(42));
    let s = h.read_summary();
    assert_eq!(s.sample_count, 1);
    assert_eq!(s.max_count, 1);
    assert_eq!(s.mode_boundary, 100);
}
