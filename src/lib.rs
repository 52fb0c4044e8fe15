//! A binary classifier boosted from decision stumps over tabular features.
//!
//! Features are fixed-point integer keys (`matrix`), labels are `-1` or `+1`
//! (`dataset`), and the sample weights are integer masses whose shares form the
//! distribution (`weights`). Each round fits the stump of least weighted error
//! (`stump`) and reweights the samples by its votes; the ensemble labels a
//! sample by the weighted vote of its stumps, decided exactly by comparing
//! products of their vote odds (`tally`, `adaboost`).

pub mod adaboost;
pub mod dataset;
pub mod distinct;
pub mod error;
pub mod matrix;
pub mod stump;
pub mod tally;
pub mod weights;
