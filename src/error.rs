//! The ways in which training, prediction and scoring can fail.
use vstd::prelude::*;

verus! {

/// Every failure of the classifier; none of them aborts the process.
#[derive(Debug, Clone, Copy, PartialEq, Eq, Structural)]
pub enum ExtendedError {
    /// Points and labels (or predictions and labels) differ in number.
    InvalidSizes,
    /// Training was asked for on an empty set of points.
    InvalidTrainingSize,
    /// Labels could not be read as class labels.
    NumericLabels,
    /// The input was not prepared for the classifier.
    DataNotPreprocessed,
    /// A prediction or a test was asked of an untrained classifier.
    ModelNotTrained,
    /// A classifier was asked for in which no neighbour votes.
    InvalidNeighbourCount,
    /// Points of differing dimension were compared or inserted.
    DimensionMismatch,
    /// Tabular input could not be turned into points.
    DataConversionError,
}

} // verus!
