use adaboost::adaboost::AdaboostModel;
use adaboost::dataset::Dataset;
use adaboost::error::BoostError;
use adaboost::matrix::FeatureMatrix;

fn matrix(rows: &[&[i64]]) -> FeatureMatrix {
    let cols = if rows.is_empty() { 0 } else { rows[0].len() };
    let cells: Vec<i64> = rows.iter().flat_map(|r| r.iter().copied()).collect();
    FeatureMatrix::from_row_major(rows.len(), cols, cells).unwrap()
}

fn trained_noisy_model() -> AdaboostModel {
    let m = matrix(&[&[1, 7], &[2, 3], &[3, 5], &[4, 1], &[5, 6], &[6, 2]]);
    let raw: Vec<String> = ["n", "n", "p", "n", "p", "p"].iter().map(|s| s.to_string()).collect();
    let d = Dataset::new(vec!["a".to_string(), "b".to_string()], m, raw).unwrap();
    let mut model = AdaboostModel::new(3, d);
    model.fit().unwrap();
    model
}

#[test]
fn weighted_vote_on_training_and_new_samples() {
    let model = trained_noisy_model();
    let train = matrix(&[&[1, 7], &[2, 3], &[3, 5], &[4, 1], &[5, 6], &[6, 2]]);
    assert_eq!(model.get_prediction(&train).unwrap(), vec![-1, -1, 1, -1, 1, 1]);
    let fresh = matrix(&[&[0, 0], &[3, 9], &[4, 4], &[7, 1], &[2, 8]]);
    assert_eq!(model.get_prediction(&fresh).unwrap(), vec![-1, 1, 1, 1, -1]);
}

#[test]
fn predicting_twice_gives_the_same_labels() {
    let model = trained_noisy_model();
    let fresh = matrix(&[&[0, 0], &[3, 9], &[4, 4], &[7, 1], &[2, 8], &[6, 6]]);
    let first = model.get_prediction(&fresh).unwrap();
    let second = model.get_prediction(&fresh).unwrap();
    assert_eq!(first, second);
}

#[test]
fn predicting_with_other_feature_count_fails() {
    let model = trained_noisy_model();
    let narrow = matrix(&[&[1], &[2]]);
    assert_eq!(model.get_prediction(&narrow), Err(BoostError::DimensionMismatch));
    let wide = matrix(&[&[1, 2, 3]]);
    assert_eq!(model.get_prediction(&wide), Err(BoostError::DimensionMismatch));
    let empty_wide = FeatureMatrix::from_row_major(0, 3, vec![]).unwrap();
    assert_eq!(model.get_prediction(&empty_wide), Err(BoostError::DimensionMismatch));
}

#[test]
fn predicting_no_rows_gives_no_labels() {
    let model = trained_noisy_model();
    let none = FeatureMatrix::from_row_major(0, 2, vec![]).unwrap();
    assert_eq!(model.get_prediction(&none).unwrap(), Vec::<i32>::new());
}

#[test]
fn label_mapping_survives_training() {
    let model = trained_noisy_model();
    let names = model.get_dataset().get_label_mapping();
    assert_eq!(names.get(&-1).map(|s| s.as_str()), Some("n"));
    assert_eq!(names.get(&1).map(|s| s.as_str()), Some("p"));
    assert_eq!(model.get_dataset().get_n_features(), 2);
}
