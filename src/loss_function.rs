//! The loss functions that a trainable model can be asked to minimise.
use vstd::prelude::*;

verus! {

/// Losses for classification.
#[derive(Debug, Clone, Copy, PartialEq, Eq, Structural)]
pub enum ClassificationLoss {
    /// Cross entropy over the given number of classes.
    CategoricalCrossEntropy(usize),
    /// Cross entropy over two classes.
    BinaryCrossEntropy,
}

/// Losses for regression.
#[derive(Debug, Clone, Copy, PartialEq, Eq, Structural)]
pub enum RegressionLoss {
    MeanSquaredError,
    AbsoluteError,
}

/// A loss of either family.
#[derive(Debug, Clone, Copy, PartialEq, Eq, Structural)]
pub enum TypeFunction {
    Classification(ClassificationLoss),
    Regression(RegressionLoss),
}

impl Default for TypeFunction {
    /// Mean squared error.
    fn default() -> (r: TypeFunction)
        ensures
            r == TypeFunction::Regression(RegressionLoss::MeanSquaredError),
    {
        TypeFunction::Regression(RegressionLoss::MeanSquaredError)
    }
}

} // verus!
