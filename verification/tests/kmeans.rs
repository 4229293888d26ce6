use kmeansn::algo::kmeans::{
    assign_to_clusters, has_converged, init_random, nearest, next_centroid_sources,
    validate_fit_input, FitError,
    CONVERGENCE_KEY, INFINITY_KEY,
};
use rand::rngs::StdRng;
use rand::SeedableRng;

fn counts(points: &[Vec<f64>]) -> Vec<usize> {
    points.iter().map(|p| p.len()).collect()
}

fn two_cluster_data() -> Vec<Vec<f64>> {
    vec![
        vec![1.0, 1.0],
        vec![1.1, 0.9],
        vec![0.9, 1.1],
        vec![10.0, 10.0],
        vec![10.1, 9.9],
        vec![9.9, 10.1],
    ]
}

fn key(v: f64) -> u64 {
    v.to_bits()
}

#[test]
fn rejects_empty_input() {
    let err = validate_fit_input(&counts(&[]), 2, 100).unwrap_err();
    assert!(err.message().contains("no input points"));
}

#[test]
fn rejects_zero_k() {
    let err = validate_fit_input(&counts(&two_cluster_data()), 0, 100).unwrap_err();
    assert!(err.message().contains("k must be greater than 0"));
}

#[test]
fn rejects_k_larger_than_input() {
    let err = validate_fit_input(&counts(&two_cluster_data()), 7, 100).unwrap_err();
    assert!(err.message().contains("k must be <="));
}

#[test]
fn rejects_zero_max_iters() {
    let err = validate_fit_input(&counts(&two_cluster_data()), 2, 0).unwrap_err();
    assert!(err.message().contains("max_iters"));
}

#[test]
fn rejects_inconsistent_dimensions() {
    let points = vec![vec![1.0, 2.0], vec![1.0]];
    let err = validate_fit_input(&counts(&points), 1, 100).unwrap_err();
    assert!(err.message().contains("dimensionality"));
}

#[test]
fn rejects_zero_dimensional_points() {
    let points = vec![vec![], vec![]];
    let err = validate_fit_input(&counts(&points), 1, 100).unwrap_err();
    assert!(err.message().contains("dimension"));
}

#[test]
fn k_equal_to_point_count_is_accepted() {
    assert_eq!(validate_fit_input(&counts(&two_cluster_data()), 6, 10), Ok(2));
}

#[test]
fn input_checks_come_in_order() {
    // zero k is reported before the zero iteration cap and the bad dimensions
    assert_eq!(validate_fit_input(&vec![0, 3], 0, 0), Err(FitError::ZeroClusters));
    assert_eq!(validate_fit_input(&vec![0, 3], 1, 0), Err(FitError::ZeroMaxIters));
    assert_eq!(validate_fit_input(&vec![0, 3], 1, 5), Err(FitError::ZeroDimensions));
    assert_eq!(validate_fit_input(&vec![2, 3], 1, 5), Err(FitError::InconsistentDimensions));
}

#[test]
fn nearest_keeps_first_smallest() {
    assert_eq!(nearest(&vec![key(3.0), key(1.0), key(1.0), key(2.0)]), (Some(1), key(1.0)));
    assert_eq!(nearest(&vec![key(0.0)]), (Some(0), key(0.0)));
}

#[test]
fn nearest_skips_nan_and_infinity() {
    assert_eq!(nearest(&vec![key(f64::NAN), key(4.0)]), (Some(1), key(4.0)));
    assert_eq!(nearest(&vec![key(f64::INFINITY), key(f64::NAN)]), (None, INFINITY_KEY));
    assert_eq!(nearest(&vec![]), (None, INFINITY_KEY));
    assert_eq!(INFINITY_KEY, f64::INFINITY.to_bits());
}

#[test]
fn assignment_pass_counts_and_moves() {
    let rows = vec![
        vec![key(0.1), key(9.0)],
        vec![key(8.0), key(0.2)],
        vec![key(0.3), key(7.0)],
    ];
    let mut assignments = vec![usize::MAX; 3];
    let pass = assign_to_clusters(&rows, &mut assignments, 2);
    assert_eq!(assignments, vec![0, 1, 0]);
    assert!(pass.changed);
    assert_eq!(pass.counts, vec![2, 1]);
    assert_eq!(pass.counts.iter().sum::<usize>(), 3);
    assert_eq!(pass.best_keys, vec![key(0.1), key(0.2), key(0.3)]);

    let again = assign_to_clusters(&rows, &mut assignments, 2);
    assert!(!again.changed);
    assert_eq!(again.counts, vec![2, 1]);
}

#[test]
fn all_nan_row_goes_to_first_cluster_at_infinity() {
    let rows = vec![vec![key(f64::NAN), key(f64::NAN)]];
    let mut assignments = vec![1];
    let pass = assign_to_clusters(&rows, &mut assignments, 2);
    assert_eq!(assignments, vec![0]);
    assert!(pass.changed);
    assert_eq!(pass.best_keys, vec![INFINITY_KEY]);
}

#[test]
fn convergence_rule() {
    assert_eq!(CONVERGENCE_KEY, 1e-6f64.to_bits());
    assert!(has_converged(false, &vec![key(5.0)]));
    assert!(has_converged(true, &vec![key(1e-7), key(0.0)]));
    assert!(!has_converged(true, &vec![key(1e-7), key(1e-6)]));
    assert!(!has_converged(true, &vec![key(f64::INFINITY)]));
    // a NaN shift is never the largest
    assert!(has_converged(true, &vec![key(f64::NAN), key(1e-9)]));
    assert!(has_converged(true, &vec![]));
}

#[test]
fn random_init_draws_distinct_points() {
    let points: Vec<Vec<u64>> = (0..10u64).map(|i| vec![key(i as f64)]).collect();
    let mut rng = StdRng::seed_from_u64(42);
    let centroids = init_random(&points, 4, &mut rng);
    assert_eq!(centroids.len(), 4);
    for (c, centroid) in centroids.iter().enumerate() {
        assert_eq!(centroid.id, c);
        assert!(points.contains(&centroid.coords));
        assert_eq!(centroid.size, None);
        assert_eq!(centroid.sse, None);
    }
    for i in 0..4 {
        for j in (i + 1)..4 {
            assert_ne!(centroids[i].coords, centroids[j].coords);
        }
    }
    let mut again = StdRng::seed_from_u64(42);
    let second = init_random(&points, 4, &mut again);
    for (a, b) in centroids.iter().zip(second.iter()) {
        assert_eq!(a.coords, b.coords);
    }
}

#[test]
fn random_init_can_take_every_point() {
    let points: Vec<Vec<u64>> = (0..5u64).map(|i| vec![key(i as f64), key(0.5)]).collect();
    let mut rng = StdRng::seed_from_u64(1);
    let centroids = init_random(&points, 5, &mut rng);
    let mut firsts: Vec<u64> = centroids.iter().map(|c| c.coords[0]).collect();
    firsts.sort();
    let mut expected: Vec<u64> = points.iter().map(|p| p[0]).collect();
    expected.sort();
    assert_eq!(firsts, expected);
}

#[test]
fn empty_clusters_are_reseeded_from_points() {
    let mut rng = StdRng::seed_from_u64(3);
    let sources = next_centroid_sources(&vec![2, 0, 5, 0], 7, &mut rng);
    assert_eq!(sources.len(), 4);
    assert_eq!(sources[0], None);
    assert!(matches!(sources[1], Some(i) if i < 7));
    assert_eq!(sources[2], None);
    assert!(matches!(sources[3], Some(i) if i < 7));
}
