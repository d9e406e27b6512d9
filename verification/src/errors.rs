//! Error values returned by the solvers and kernels.
//!
//! Every recoverable precondition failure is reported through
//! [`SolverError`]; the offending dimensions travel in the variant's
//! fields so a caller can render them.

use vstd::prelude::*;

verus! {

/// A precondition failure detected before any iteration begins.
#[derive(Clone, Copy, Debug, PartialEq, Eq, Structural)]
pub enum SolverError {
    /// The system is not underdetermined: either the matrix's row count
    /// and the observation length differ, or there are more rows than
    /// columns.
    NotUnderdetermined { rows: usize, cols: usize, y_len: usize },
    /// Two vectors that must have equal lengths do not.
    SizeMismatch { left_len: usize, right_len: usize },
}

} // verus!
