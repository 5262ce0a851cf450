use plato_anomaly::{
    decomposition_applies, ensemble_vote, fill_sources, majority_indices, median_position,
    moving_windows, phase_counts, plan_run, quartile_positions, required_votes, tally_votes,
    trend_windows, AnomalyDetector, DetectorRun, LocalWindow,
};

#[test]
fn plan_keeps_direct_detectors() {
    assert_eq!(plan_run(AnomalyDetector::ZScore, 100), DetectorRun::ZScore);
    assert_eq!(plan_run(AnomalyDetector::ModifiedZScore, 100), DetectorRun::ModifiedZScore);
    assert_eq!(plan_run(AnomalyDetector::Spectral, 100), DetectorRun::Spectral);
    assert_eq!(
        plan_run(AnomalyDetector::IQR, 100),
        DetectorRun::Iqr { multiplier_num: 3, multiplier_den: 2 }
    );
}

#[test]
fn plan_moving_window_is_clamped() {
    assert_eq!(plan_run(AnomalyDetector::MovingZScore, 100), DetectorRun::MovingZScore { window: 20 });
    assert_eq!(plan_run(AnomalyDetector::MovingZScore, 10), DetectorRun::MovingZScore { window: 5 });
    assert_eq!(plan_run(AnomalyDetector::MovingZScore, 4), DetectorRun::MovingZScore { window: 3 });
    assert_eq!(plan_run(AnomalyDetector::MovingZScore, 0), DetectorRun::MovingZScore { window: 3 });
}

#[test]
fn plan_seasonal_needs_two_periods() {
    assert_eq!(plan_run(AnomalyDetector::Seasonal, 120), DetectorRun::Seasonal { period: 12 });
    assert_eq!(plan_run(AnomalyDetector::Seasonal, 24), DetectorRun::Seasonal { period: 12 });
    assert_eq!(plan_run(AnomalyDetector::Seasonal, 23), DetectorRun::ZScore);
}

#[test]
fn plan_falls_back_to_zscore() {
    assert_eq!(plan_run(AnomalyDetector::IsolationForest, 50), DetectorRun::ZScore);
    assert_eq!(plan_run(AnomalyDetector::Grubbs, 50), DetectorRun::ZScore);
    assert_eq!(plan_run(AnomalyDetector::Contextual, 50), DetectorRun::ZScore);
}

#[test]
fn required_votes_is_a_strict_majority() {
    assert_eq!(required_votes(0), 1);
    assert_eq!(required_votes(1), 1);
    assert_eq!(required_votes(2), 2);
    assert_eq!(required_votes(3), 2);
    assert_eq!(required_votes(4), 3);
}

#[test]
fn tally_counts_flags_and_ignores_out_of_range() {
    let flagged = vec![vec![0, 2, 7], vec![2], vec![2, 2], vec![]];
    let votes = tally_votes(4, &flagged);
    assert_eq!(votes, vec![1, 0, 4, 0]);
}

#[test]
fn majority_indices_in_order() {
    let votes = vec![3, 0, 2, 5, 1];
    assert_eq!(majority_indices(&votes, 2), vec![0, 2, 3]);
    assert_eq!(majority_indices(&votes, 6), Vec::<usize>::new());
    assert_eq!(majority_indices(&votes, 0), vec![0, 1, 2, 3, 4]);
}

#[test]
fn ensemble_reports_the_injected_outlier() {
    // z-score and IQR flag the outlier at 50; the MAD detector flags nothing
    let flagged = vec![vec![50], vec![50], vec![]];
    let (votes, reported) = ensemble_vote(100, &flagged);
    assert_eq!(reported, vec![50]);
    assert_eq!(votes[50], 2);
    assert_eq!(votes.len(), 100);
}

#[test]
fn ensemble_needs_more_than_half() {
    let flagged = vec![vec![1, 3], vec![3], vec![5], vec![1, 3]];
    let (_, reported) = ensemble_vote(6, &flagged);
    // point 1 has 2 of 4 votes: exactly half is not enough
    assert_eq!(reported, vec![3]);
}

#[test]
fn ensemble_unanimous_and_unflagged() {
    let flagged = vec![vec![4], vec![0, 4], vec![4, 1]];
    let (votes, reported) = ensemble_vote(5, &flagged);
    assert!(reported.contains(&4));
    assert_eq!(votes[2], 0);
    assert!(!reported.contains(&2));
}

#[test]
fn ensemble_order_of_methods_is_irrelevant() {
    let a = vec![vec![1, 2], vec![2, 3]];
    let b = vec![vec![3], vec![2, 1]];
    let ab: Vec<Vec<usize>> = a.iter().chain(b.iter()).cloned().collect();
    let ba: Vec<Vec<usize>> = b.iter().chain(a.iter()).cloned().collect();
    assert_eq!(ensemble_vote(4, &ab), ensemble_vote(4, &ba));
    let va = tally_votes(4, &a);
    let vb = tally_votes(4, &b);
    let vab = tally_votes(4, &ab);
    for i in 0..4 {
        assert_eq!(vab[i], va[i] + vb[i]);
    }
}

#[test]
fn ensemble_without_methods_reports_nothing() {
    let flagged: Vec<Vec<usize>> = vec![];
    let (votes, reported) = ensemble_vote(3, &flagged);
    assert_eq!(votes, vec![0, 0, 0]);
    assert!(reported.is_empty());
}

#[test]
fn moving_windows_cover_the_interior() {
    let w = moving_windows(100, 10);
    assert_eq!(w.len(), 90);
    assert_eq!(w[0], LocalWindow { center: 5, start: 0, end: 10 });
    assert_eq!(w[89], LocalWindow { center: 94, start: 89, end: 99 });
    assert!(w.iter().any(|x| x.center == 50));
}

#[test]
fn moving_windows_odd_window() {
    let w = moving_windows(7, 5);
    assert_eq!(
        w,
        vec![
            LocalWindow { center: 2, start: 0, end: 4 },
            LocalWindow { center: 3, start: 1, end: 5 },
            LocalWindow { center: 4, start: 2, end: 6 },
        ]
    );
}

#[test]
fn moving_windows_too_short_or_too_narrow() {
    assert!(moving_windows(5, 10).is_empty());
    assert!(moving_windows(100, 1).is_empty());
    assert!(moving_windows(0, 0).is_empty());
    assert!(moving_windows(2, 2).is_empty());
    assert_eq!(moving_windows(3, 2), vec![LocalWindow { center: 1, start: 0, end: 2 }]);
}

#[test]
fn decomposition_needs_two_periods() {
    assert!(decomposition_applies(120, 12));
    assert!(decomposition_applies(24, 12));
    assert!(!decomposition_applies(23, 12));
    assert!(!decomposition_applies(100, 1));
    assert!(!decomposition_applies(0, 2));
}

#[test]
fn trend_windows_are_centred() {
    let w = trend_windows(120, 12);
    assert_eq!(w.len(), 108);
    assert_eq!(w[0], LocalWindow { center: 6, start: 0, end: 13 });
    assert_eq!(w[107], LocalWindow { center: 113, start: 107, end: 120 });
    let odd = trend_windows(7, 3);
    assert_eq!(odd.len(), 5);
    assert_eq!(odd[0], LocalWindow { center: 1, start: 0, end: 3 });
}

#[test]
fn fill_sources_copy_the_valid_ends() {
    let valid = vec![false, false, true, true, true, false];
    assert_eq!(fill_sources(&valid), vec![2, 2, 2, 3, 4, 4]);
}

#[test]
fn fill_sources_keep_interior_gaps() {
    let valid = vec![false, true, false, true, false];
    assert_eq!(fill_sources(&valid), vec![1, 1, 2, 3, 3]);
}

#[test]
fn fill_sources_without_valid_points() {
    assert_eq!(fill_sources(&vec![false, false, false]), vec![2, 2, 2]);
    assert_eq!(fill_sources(&vec![false]), vec![0]);
    assert_eq!(fill_sources(&vec![true]), vec![0]);
}

#[test]
fn phase_counts_partition_the_series() {
    assert_eq!(phase_counts(10, 3), vec![4, 3, 3]);
    assert_eq!(phase_counts(0, 4), vec![0, 0, 0, 0]);
    assert_eq!(phase_counts(11, 4), vec![3, 3, 3, 2]);
    let counts = phase_counts(120, 12);
    assert!(counts.iter().all(|&c| c == 10));
    let counts = phase_counts(125, 12);
    assert_eq!(counts.iter().sum::<usize>(), 125);
    assert!(counts.iter().all(|&c| c >= 1));
}

#[test]
fn quartile_and_median_positions() {
    assert_eq!(quartile_positions(100), (25, 75));
    assert_eq!(quartile_positions(1), (0, 0));
    assert_eq!(quartile_positions(3), (0, 2));
    assert_eq!(quartile_positions(0), (0, 0));
    assert_eq!(median_position(5), 2);
    assert_eq!(median_position(4), 2);
    assert_eq!(median_position(0), 0);
}

#[test]
fn detector_values_compare_by_variant() {
    let d = AnomalyDetector::Spectral;
    let e = d;
    assert_eq!(d, e);
    assert_ne!(AnomalyDetector::ZScore, AnomalyDetector::IQR);
}
