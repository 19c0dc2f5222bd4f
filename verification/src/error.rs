//! The closed set of failures a store operation can report.
//!
//! Failures are returned as values, never panics. A failure met while scoring
//! a particular record during a query scan is wrapped in
//! [`VectorStoreError::SimilarityCalculationError`], which carries the
//! offending record's identifier together with the underlying cause, so that
//! callers can still pattern-match the root cause.

use vstd::prelude::*;

verus! {

/// Everything that can go wrong in a store operation.
#[derive(Debug, PartialEq)]
pub enum VectorStoreError {
    /// The requested result size exceeds the fixed ceiling of 10,000.
    TopKTooLarge,
    /// An operand vector has zero dimension.
    EmptyVector,
    /// An operand vector's magnitude is exactly zero.
    ZeroMagnitude,
    /// The operand vectors have different dimensions.
    UnequalVectorLengths,
    /// Scoring the record with the given identifier failed for the boxed
    /// underlying cause; the scan aborted there.
    SimilarityCalculationError(String, Box<VectorStoreError>),
}

} // verus!
