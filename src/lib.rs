//! A k-nearest-neighbour classifier: the decisions around a nearest-neighbour
//! index (training guards, majority vote, accuracy), verified.
pub mod classifier;
pub mod error;
pub mod loss_function;
pub mod performance;
pub mod vote;
