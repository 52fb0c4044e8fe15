use adaboost::dataset::Dataset;
use adaboost::error::BoostError;
use adaboost::matrix::{FeatureMatrix, MatrixError};

fn strings(v: &[&str]) -> Vec<String> {
    v.iter().map(|s| s.to_string()).collect()
}

fn two_by_three() -> FeatureMatrix {
    FeatureMatrix::from_row_major(3, 2, vec![1, 2, 3, 4, 5, 6]).unwrap()
}

#[test]
fn matrix_is_read_in_row_major_order() {
    let m = two_by_three();
    assert_eq!(m.nrows(), 3);
    assert_eq!(m.ncols(), 2);
    assert_eq!(m.get(0, 1), 2);
    assert_eq!(m.get(1, 0), 3);
    assert_eq!(m.get(2, 1), 6);
    assert_eq!(m.column_values(0), vec![1, 3, 5]);
    assert_eq!(m.column_values(1), vec![2, 4, 6]);
}

#[test]
fn matrix_with_wrong_cell_count_is_refused() {
    assert_eq!(FeatureMatrix::from_row_major(2, 2, vec![1, 2, 3]).err(), Some(MatrixError::ShapeMismatch));
    assert_eq!(FeatureMatrix::from_row_major(1, 2, vec![1, 2, 3]).err(), Some(MatrixError::ShapeMismatch));
}

#[test]
fn labels_encode_first_class_as_negative() {
    let d = Dataset::new(strings(&["x", "y"]), two_by_three(), strings(&["B", "M", "B"])).unwrap();
    assert_eq!(d.get_labels(), &vec![-1, 1, -1]);
    assert_eq!(d.get_label_mapping().get(&-1).unwrap(), "B");
    assert_eq!(d.get_label_mapping().get(&1).unwrap(), "M");
    assert_eq!(d.get_label_mapping().len(), 2);
    assert_eq!(d.get_n_features(), 2);
    assert_eq!(d.get_headers(), &strings(&["x", "y"]));
    assert!(d.is_loaded());
    assert_eq!(d.get_data().unwrap().get(2, 0), 5);
}

#[test]
fn header_count_must_match_columns() {
    let r = Dataset::new(strings(&["x"]), two_by_three(), strings(&["a", "b", "a"]));
    assert_eq!(r.err(), Some(BoostError::HeaderCountMismatch));
}

#[test]
fn label_count_must_match_rows() {
    let r = Dataset::new(strings(&["x", "y"]), two_by_three(), strings(&["a", "b"]));
    assert_eq!(r.err(), Some(BoostError::LabelCountMismatch));
}

#[test]
fn more_than_two_classes_are_refused() {
    let r = Dataset::new(strings(&["x", "y"]), two_by_three(), strings(&["a", "b", "c"]));
    assert_eq!(r.err(), Some(BoostError::ClassCount));
}

#[test]
fn a_single_class_is_refused() {
    let r = Dataset::new(strings(&["x", "y"]), two_by_three(), strings(&["a", "a", "a"]));
    assert_eq!(r.err(), Some(BoostError::ClassCount));
}

#[test]
fn no_samples_is_refused() {
    let m = FeatureMatrix::from_row_major(0, 2, vec![]).unwrap();
    let r = Dataset::new(strings(&["x", "y"]), m, vec![]);
    assert_eq!(r.err(), Some(BoostError::ClassCount));
}

#[test]
fn releasing_twice_is_harmless() {
    let mut d = Dataset::new(strings(&["x", "y"]), two_by_three(), strings(&["a", "b", "b"])).unwrap();
    d.free_dset_memory();
    assert!(!d.is_loaded());
    d.free_dset_memory();
    assert_eq!(d.get_data().err(), Some(BoostError::Released));
    assert_eq!(d.get_labels(), &vec![-1, 1, 1]);
}
