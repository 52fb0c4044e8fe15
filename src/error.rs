//! The errors of the library.

use vstd::prelude::*;

verus! {

/// Why an operation could not be carried out.
#[derive(Debug, Clone, Copy, PartialEq, Eq, Structural)]
pub enum BoostError {
    /// Training was asked for zero rounds.
    ZeroRounds,
    /// The data has no feature columns.
    NoFeatures,
    /// The data has no samples.
    NoSamples,
    /// The data has more samples than the weights can hold.
    TooManySamples,
    /// The number of labels differs from the number of samples.
    LabelCountMismatch,
    /// The number of headers differs from the number of feature columns.
    HeaderCountMismatch,
    /// The labels do not take exactly two distinct values.
    ClassCount,
    /// The feature buffer was read after it had been released.
    Released,
    /// The samples to classify have another number of features than the model.
    DimensionMismatch,
}

} // verus!
