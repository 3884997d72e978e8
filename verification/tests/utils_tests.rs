use textplots::utils::{histogram, interpolate, staircase};

#[test]
fn histogram_groups_in_range_values() {
    // the classic example: three points over [0, 10] in two buckets; the
    // boundary value at y = 10 falls past the last bucket and is excluded
    let data = vec![(0, 0), (9_000, 9_000), (10_000, 10_000)];
    let h = histogram(&data, 0, 10_000, 2);
    assert_eq!(h, vec![(0, 1), (5_000, 1)]);
}

#[test]
fn histogram_excludes_out_of_range_values() {
    let data = vec![(0, -1), (1_000, 0), (2_000, 2_500), (3_000, 5_000), (4_000, 10_001)];
    let h = histogram(&data, 0, 10_000, 2);
    assert_eq!(h, vec![(0, 2), (5_000, 1)]);
    let total: u64 = h.iter().map(|&(_, c)| c).sum();
    assert_eq!(total, 3);
}

#[test]
fn histogram_bucket_edges_are_equally_spaced() {
    let h = histogram(&vec![], -6_000, 6_000, 4);
    assert_eq!(h, vec![(-6_000, 0), (-3_000, 0), (0, 0), (3_000, 0)]);
}

#[test]
fn histogram_counts_sum_to_in_range_samples() {
    let data: Vec<(i64, i64)> = (0..100).map(|k| (k * 10, k * 173 % 13_000 - 1_000)).collect();
    let bins = 7;
    let h = histogram(&data, 0, 10_000, bins);
    assert_eq!(h.len(), bins);
    // every sample in [min, max) is counted exactly once
    let expected: u64 = data.iter().filter(|&&(_, y)| 0 <= y && y < 10_000).count() as u64;
    let total: u64 = h.iter().map(|&(_, c)| c).sum();
    assert_eq!(total, expected);
}

#[test]
fn histogram_counts_samples_near_the_upper_bound() {
    // an uneven bucket width must not lose samples just below max
    let h = histogram(&vec![(0, 9_999)], 0, 10_000, 3);
    assert_eq!(h, vec![(0, 0), (3_333, 0), (6_666, 1)]);
}

#[test]
fn histogram_excludes_the_upper_boundary_value() {
    let h = histogram(&vec![(0, 10_000)], 0, 10_000, 3);
    assert_eq!(h, vec![(0, 0), (3_333, 0), (6_666, 0)]);
}

#[test]
fn interpolate_is_linear_between_points() {
    let pts = vec![(0, 0), (10_000, 10_000)];
    assert_eq!(interpolate(&pts, 1_000), 1_000);
}

#[test]
fn staircase_holds_the_interval_mean() {
    let pts = vec![(0, 0), (10_000, 10_000)];
    assert_eq!(staircase(&pts, 1_000), 5_000);
}

#[test]
fn interpolate_walks_segments() {
    let pts = vec![(0, 0), (4_000, 8_000), (10_000, 2_000)];
    assert_eq!(interpolate(&pts, 2_000), 4_000);
    assert_eq!(interpolate(&pts, 4_000), 8_000);
    assert_eq!(interpolate(&pts, 7_000), 5_000);
    assert_eq!(interpolate(&pts, 10_000), 2_000);
    assert_eq!(staircase(&pts, 2_000), 4_000);
    assert_eq!(staircase(&pts, 7_000), 5_000);
}
