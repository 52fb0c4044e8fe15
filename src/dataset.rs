//! The training data: a feature matrix, one label in `{-1, +1}` per sample, and
//! the class names that the two labels stand for.

use vstd::prelude::*;
use std::collections::HashMap;
use crate::distinct::{distinct_texts, first_occurrences, lemma_first_occurrences, texts};
use crate::error::BoostError;
use crate::matrix::{FeatureMatrix, rows_of, width_of};
use crate::weights::MAX_SAMPLES;

verus! {

/// The feature buffer of a dataset, which training may release.
pub enum FeatureBuffer {
    /// The matrix is held.
    Loaded(FeatureMatrix),
    /// The matrix has been released.
    Released,
}

/// The class names in the order of their first occurrence among the raw labels.
pub open spec fn class_names(raw: Seq<String>) -> Seq<Seq<char>> {
    first_occurrences(texts(raw))
}

/// The label of a raw class: `-1` for the first class to occur, `+1` for the other.
pub open spec fn encoded(raw: Seq<String>, i: int) -> i64 {
    if raw[i]@ == class_names(raw)[0] {
        -1i64
    } else {
        1i64
    }
}

/// What a dataset holds.
pub struct DatasetView {
    /// The number of feature columns.
    pub n_features: nat,
    /// The header of each feature column.
    pub headers: Seq<String>,
    /// The feature matrix, or `None` once released.
    pub data: Option<FeatureMatrix>,
    /// The labels, one per sample.
    pub labels: Seq<i64>,
    /// The class name of each label.
    pub names: Map<i64, String>,
}

impl DatasetView {
    /// The invariant of a dataset.
    pub open spec fn wf(self) -> bool {
        &&& 1 <= self.labels.len() <= MAX_SAMPLES
        &&& forall|i: int| 0 <= i < self.labels.len() ==> #[trigger] self.labels[i] == -1 || self.labels[i] == 1
        &&& self.n_features == self.headers.len()
        &&& self.names.dom() == set![-1i64, 1i64]
        &&& self.data matches Some(m) ==> {
            &&& m.wf()
            &&& rows_of(m).len() == self.labels.len()
            &&& width_of(m) == self.n_features
        }
    }
}

/// A dataset for training: features, labels and class names.
pub struct Dataset {
    headers: Vec<String>,
    data: FeatureBuffer,
    labels: Vec<i64>,
    label_names: HashMap<i64, String>,
}

impl View for Dataset {
    type V = DatasetView;

    closed spec fn view(&self) -> DatasetView {
        DatasetView {
            n_features: self.headers@.len(),
            headers: self.headers@,
            data: match self.data {
                FeatureBuffer::Loaded(m) => Some(m),
                FeatureBuffer::Released => None,
            },
            labels: self.labels@,
            names: self.label_names@,
        }
    }
}

impl Dataset {
    /// Builds a dataset from the feature matrix, one header per column, and one raw
    /// class name per row. The first class to occur is labelled `-1` and the other
    /// `+1`. Fails when the headers do not match the columns, the labels do not
    /// match the rows, there are more rows than `MAX_SAMPLES`, or the raw labels do
    /// not hold exactly two classes, checked in this order.
    pub fn new(headers: Vec<String>, data: FeatureMatrix, raw_labels: Vec<String>) -> (r: Result<
        Dataset,
        BoostError,
    >)
        ensures
            headers@.len() != width_of(data) <==> r == Err::<Dataset, BoostError>(
                BoostError::HeaderCountMismatch,
            ),
            headers@.len() == width_of(data) ==> (raw_labels@.len() != rows_of(data).len() <==> r
                == Err::<Dataset, BoostError>(BoostError::LabelCountMismatch)),
            headers@.len() == width_of(data) && raw_labels@.len() == rows_of(data).len() ==> (
            rows_of(data).len() > MAX_SAMPLES <==> r == Err::<Dataset, BoostError>(
                BoostError::TooManySamples,
            )),
            headers@.len() == width_of(data) && raw_labels@.len() == rows_of(data).len()
                && rows_of(data).len() <= MAX_SAMPLES ==> (class_names(raw_labels@).len() != 2
                <==> r == Err::<Dataset, BoostError>(BoostError::ClassCount)),
            r is Ok <==> {
                &&& headers@.len() == width_of(data)
                &&& raw_labels@.len() == rows_of(data).len()
                &&& rows_of(data).len() <= MAX_SAMPLES
                &&& class_names(raw_labels@).len() == 2
            },
            r matches Ok(d) ==> {
                &&& d@.wf()
                &&& d@.n_features == headers@.len()
                &&& d@.headers == headers@
                &&& d@.names.dom() == set![-1i64, 1i64]
                &&& d@.data == Some(data)
                &&& d@.labels.len() == raw_labels@.len()
                &&& forall|i: int| 0 <= i < raw_labels@.len() ==> #[trigger] d@.labels[i] == encoded(raw_labels@, i)
                &&& d@.names[-1i64]@ == class_names(raw_labels@)[0]
                &&& d@.names[1i64]@ == class_names(raw_labels@)[1]
            },
    {
        let cols = data.ncols();
        let rows = data.nrows();
        if headers.len() != cols {
            return Err(BoostError::HeaderCountMismatch);
        }
        if raw_labels.len() != rows {
            return Err(BoostError::LabelCountMismatch);
        }
        if rows > MAX_SAMPLES {
            return Err(BoostError::TooManySamples);
        }
        let classes = distinct_texts(&raw_labels);
        proof {
            assert(texts(classes@).len() == classes@.len());
        }
        if classes.len() != 2 {
            return Err(BoostError::ClassCount);
        }
        let ghost names = class_names(raw_labels@);
        proof {
            lemma_first_occurrences(texts(raw_labels@));
            assert(names[0] == classes@[0]@);
            assert(names[1] == classes@[1]@);
        }
        let mut labels: Vec<i64> = Vec::new();
        let mut i: usize = 0;
        while i < raw_labels.len()
            invariant
                i <= raw_labels@.len(),
                names == class_names(raw_labels@),
                classes@.len() == 2,
                names[0] == classes@[0]@,
                names[1] == classes@[1]@,
                names.no_duplicates(),
                forall|x: Seq<char>| #[trigger] names.contains(x) <==> texts(raw_labels@).contains(x),
                labels@.len() == i,
                forall|k: int| 0 <= k < i ==> #[trigger] labels@[k] == encoded(raw_labels@, k),
            decreases raw_labels@.len() - i,
        {
            let label: i64 = if raw_labels[i] == classes[0] {
                -1
            } else {
                1
            };
            labels.push(label);
            i = i + 1;
        }
        proof {
            assert(rows >= 1) by {
                if rows == 0 {
                    assert(texts(raw_labels@) =~= Seq::empty());
                    assert(first_occurrences(Seq::<Seq<char>>::empty()) =~= Seq::empty());
                }
            }
        }
        let mut label_names: HashMap<i64, String> = HashMap::new();
        label_names.insert(-1, classes[0].clone());
        label_names.insert(1, classes[1].clone());
        assert(label_names@.dom() =~= set![-1i64, 1i64]);
        let d = Dataset { headers, data: FeatureBuffer::Loaded(data), labels, label_names };
        Ok(d)
    }

    /// The number of feature columns.
    pub fn get_n_features(&self) -> (r: usize)
        ensures
            r == self@.n_features,
    {
        self.headers.len()
    }

    /// The feature matrix, or `Released` once it has been released.
    pub fn get_data(&self) -> (r: Result<&FeatureMatrix, BoostError>)
        ensures
            self@.data matches Some(m) ==> r == Ok::<&FeatureMatrix, BoostError>(&m),
            self@.data is None ==> r == Err::<&FeatureMatrix, BoostError>(BoostError::Released),
    {
        match &self.data {
            FeatureBuffer::Loaded(m) => Ok(m),
            FeatureBuffer::Released => Err(BoostError::Released),
        }
    }

    /// The labels, one per sample, each `-1` or `+1`.
    pub fn get_labels(&self) -> (r: &Vec<i64>)
        ensures
            r@ == self@.labels,
    {
        &self.labels
    }

    /// The class name of each label.
    pub fn get_label_mapping(&self) -> (r: &HashMap<i64, String>)
        ensures
            r@ == self@.names,
    {
        &self.label_names
    }

    /// The column headers.
    pub fn get_headers(&self) -> (r: &Vec<String>)
        ensures
            r@ == self@.headers,
    {
        &self.headers
    }

    /// Whether the feature matrix is still held.
    pub fn is_loaded(&self) -> (r: bool)
        ensures
            r == self@.data is Some,
    {
        match &self.data {
            FeatureBuffer::Loaded(_) => true,
            FeatureBuffer::Released => false,
        }
    }

    /// Releases the feature matrix; everything else is kept. Releasing again does
    /// nothing.
    pub fn free_dset_memory(&mut self)
        ensures
            final(self)@ == (DatasetView { data: None, ..old(self)@ }),
    {
        self.data = FeatureBuffer::Released;
    }
}

} // verus!
