use adaboost::adaboost::AdaboostModel;
use adaboost::dataset::Dataset;
use adaboost::error::BoostError;
use adaboost::matrix::{FeatureMatrix, PRECISION};
use adaboost::stump::{Polarity, Stump};
use adaboost::tally::at_least;
use adaboost::weights::{SampleWeights, WEIGHT_SCALE};

fn matrix(rows: &[&[i64]]) -> FeatureMatrix {
    let cols = if rows.is_empty() { 0 } else { rows[0].len() };
    let cells: Vec<i64> = rows.iter().flat_map(|r| r.iter().copied()).collect();
    FeatureMatrix::from_row_major(rows.len(), cols, cells).unwrap()
}

/// The natural logarithm of a number given by its base-2^32 limbs.
fn ln_limbs(v: &[u32]) -> f64 {
    let top = v.iter().rposition(|l| *l != 0).unwrap();
    let mut lead = 0.0f64;
    let low = top.saturating_sub(1);
    for k in (low..=top).rev() {
        lead = lead * 4294967296.0 + v[k] as f64;
    }
    lead.ln() + (low as f64) * 32.0 * 2f64.ln()
}

fn alpha_of(s: &Stump) -> f64 {
    let (num, den) = s.get_alpha();
    0.5 * (ln_limbs(&num) - ln_limbs(&den))
}

fn names(labels: &[&str]) -> Vec<String> {
    labels.iter().map(|s| s.to_string()).collect()
}

fn headers(n: usize) -> Vec<String> {
    (0..n).map(|i| format!("f{}", i)).collect()
}

fn dataset(rows: &[&[i64]], labels: &[&str]) -> Dataset {
    let m = matrix(rows);
    let n = m.ncols();
    Dataset::new(headers(n), m, names(labels)).unwrap()
}

#[test]
fn scenario_single_feature_one_round() {
    let p = PRECISION;
    let rows: Vec<Vec<i64>> = vec![vec![0], vec![p], vec![2 * p], vec![3 * p]];
    let refs: Vec<&[i64]> = rows.iter().map(|r| r.as_slice()).collect();
    let d = dataset(&refs, &["neg", "neg", "pos", "pos"]);
    assert_eq!(d.get_labels(), &vec![-1, -1, 1, 1]);
    let mut model = AdaboostModel::new(1, d);
    model.fit().unwrap();
    let stumps = model.get_classifiers();
    assert_eq!(stumps.len(), 1);
    let s = stumps[0];
    let t = s.threshold.unwrap();
    assert!(t > p && t <= 2 * p);
    assert_eq!(s.polarity, Polarity::Positive);
    assert_eq!(s.feature_id, 0);
    assert_eq!(s.error_mass, 0);
    let (num, den) = s.get_alpha();
    assert!(at_least(&num, &den) && !at_least(&den, &num));
    let expected = 0.5 * ((1.0 - 0.0 + f64::MIN_POSITIVE) / (0.0 + f64::MIN_POSITIVE)).ln();
    assert!((alpha_of(&s) - expected).abs() < 1e-9);
    assert!((alpha_of(&s) - 354.19820926613204).abs() < 1e-9);
    let samples = matrix(&refs);
    assert_eq!(model.get_prediction(&samples).unwrap(), vec![-1, -1, 1, 1]);
}

#[test]
fn scenario_zero_rounds_votes_positive() {
    let d = dataset(&[&[1, 2], &[3, 4], &[5, 6]], &["a", "b", "a"]);
    let mut model = AdaboostModel::new(0, d);
    assert_eq!(model.fit(), Err(BoostError::ZeroRounds));
    assert!(model.get_classifiers().is_empty());
    let samples = matrix(&[&[-100, 7], &[0, 0], &[1000, -5]]);
    assert_eq!(model.get_prediction(&samples).unwrap(), vec![1, 1, 1]);
}

#[test]
fn scenario_constant_feature_never_selected() {
    let d = dataset(
        &[&[5, 0], &[5, 10], &[5, 20], &[5, 30], &[5, 40], &[5, 50]],
        &["x", "x", "x", "y", "y", "y"],
    );
    let mut model = AdaboostModel::new(4, d);
    model.fit().unwrap();
    let stumps = model.get_classifiers();
    assert_eq!(stumps.len(), 4);
    for s in stumps.iter() {
        assert_eq!(s.feature_id, 1);
        assert_eq!(s.threshold, Some(30));
        assert_eq!(s.error_mass, 0);
    }
}

#[test]
fn noisy_three_rounds_exact_stumps() {
    let d = dataset(
        &[&[1, 7], &[2, 3], &[3, 5], &[4, 1], &[5, 6], &[6, 2]],
        &["n", "n", "p", "n", "p", "p"],
    );
    let mut model = AdaboostModel::new(3, d);
    model.fit().unwrap();
    let s = model.get_classifiers();
    assert_eq!(s.len(), 3);
    assert_eq!((s[0].feature_id, s[0].threshold, s[0].polarity), (0, Some(3), Polarity::Positive));
    assert_eq!((s[0].error_mass, s[0].total_mass), (183251937963, 1099511627778));
    assert_eq!((s[1].feature_id, s[1].threshold, s[1].polarity), (0, Some(5), Polarity::Positive));
    assert_eq!((s[1].error_mass, s[1].total_mass), (109951162778, 1099511627778));
    assert_eq!((s[2].feature_id, s[2].threshold, s[2].polarity), (1, Some(2), Polarity::Positive));
    assert_eq!((s[2].error_mass, s[2].total_mass), (122167958644, 1099511627780));
}

#[test]
fn stumps_report_error_at_most_half() {
    let d = dataset(
        &[&[1, 7], &[2, 3], &[3, 5], &[4, 1], &[5, 6], &[6, 2], &[7, 7], &[8, 0]],
        &["n", "p", "p", "n", "p", "n", "n", "p"],
    );
    let mut model = AdaboostModel::new(6, d);
    model.fit().unwrap();
    for s in model.get_classifiers().iter() {
        assert!(2 * s.error_mass <= s.total_mass);
    }
}

#[test]
fn inverted_labels_give_negative_polarity() {
    let d = dataset(&[&[0], &[1], &[2], &[3]], &["hi", "hi", "lo", "lo"]);
    let m = matrix(&[&[0], &[1], &[2], &[3]]);
    let w = SampleWeights::uniform(4);
    let labels = d.get_labels().clone();
    assert_eq!(labels, vec![-1, -1, 1, 1]);
    let flipped: Vec<i64> = labels.iter().map(|l| -l).collect();
    let s = Stump::train(&w, &m, &flipped).unwrap();
    assert_eq!(s.polarity, Polarity::Negative);
    assert_eq!(s.threshold, Some(2));
    assert_eq!(s.error_mass, 0);
    assert_eq!(s.predict(&m), vec![1, 1, -1, -1]);
}

#[test]
fn train_without_features_fails() {
    let m = FeatureMatrix::from_row_major(3, 0, vec![]).unwrap();
    let w = SampleWeights::uniform(3);
    assert_eq!(Stump::train(&w, &m, &vec![1, -1, 1]), Err(BoostError::NoFeatures));
}

#[test]
fn fit_without_features_fails() {
    let m = FeatureMatrix::from_row_major(2, 0, vec![]).unwrap();
    let d = Dataset::new(vec![], m, names(&["a", "b"])).unwrap();
    let mut model = AdaboostModel::new(2, d);
    assert_eq!(model.fit(), Err(BoostError::NoFeatures));
    assert!(model.get_dataset().is_loaded());
}

#[test]
fn fit_releases_the_features_and_refuses_a_second_run() {
    let d = dataset(&[&[0], &[1]], &["a", "b"]);
    let mut model = AdaboostModel::new(2, d);
    model.fit().unwrap();
    assert!(!model.get_dataset().is_loaded());
    assert_eq!(model.get_dataset().get_data().err(), Some(BoostError::Released));
    assert_eq!(model.get_dataset().get_labels(), &vec![-1, 1]);
    assert_eq!(model.fit(), Err(BoostError::Released));
    assert_eq!(model.get_classifiers().len(), 2);
}

#[test]
fn ties_go_to_lowest_feature_then_lowest_threshold() {
    // both features separate the classes perfectly
    let m = matrix(&[&[0, 10], &[1, 11], &[2, 12], &[3, 13]]);
    let w = SampleWeights::uniform(4);
    let s = Stump::train(&w, &m, &vec![-1, -1, 1, 1]).unwrap();
    assert_eq!((s.feature_id, s.threshold), (0, Some(2)));
    // all labels equal: every threshold ties at zero error; the lowest value wins
    let s = Stump::train(&w, &m, &vec![1, 1, 1, 1]).unwrap();
    assert_eq!((s.feature_id, s.threshold, s.error_mass), (0, Some(0), 0));
}

#[test]
fn untrained_stump_has_zero_vote_weight() {
    let s = Stump::new();
    assert_eq!(s.threshold, None);
    assert_eq!(s.get_alpha(), (vec![1], vec![1]));
    assert_eq!(alpha_of(&s), 0.0);
    assert_eq!(Polarity::Positive.i32(), 1);
    assert_eq!(Polarity::Negative.i32(), -1);
    assert!(Polarity::Positive.bool());
    assert!(!Polarity::Negative.bool());
}

#[test]
fn vote_weight_is_finite_at_error_zero_and_one() {
    let eps = f64::MIN_POSITIVE;
    let mut s = Stump::new();
    s.threshold = Some(0);
    s.total_mass = WEIGHT_SCALE;
    s.error_mass = 0;
    let high = alpha_of(&s);
    assert!(high.is_finite());
    assert!((high - 0.5 * ((1.0 + eps) / eps).ln()).abs() < 1e-9);
    s.error_mass = WEIGHT_SCALE;
    let low = alpha_of(&s);
    assert!(low.is_finite());
    assert!((low + 354.19820926613204).abs() < 1e-9);
    s.error_mass = WEIGHT_SCALE / 4;
    assert!((alpha_of(&s) - 0.5 * 3f64.ln()).abs() < 1e-9);
}
