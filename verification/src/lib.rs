//! Sparse modeling: iterative solvers for sparse linear inverse problems.
//!
//! Given an underdetermined measurement matrix `A` (m rows, n columns,
//! m <= n) and an observation vector `y`, the solvers estimate a sparse
//! coefficient vector `x` with `y ~ A x`.
//!
//! This crate holds the discrete core of the system: shape validation,
//! support extraction and support-distance bookkeeping, the index-level
//! kernels that move data between a support and a full-length solution,
//! and the solver configuration types.  The floating-point iterations
//! themselves live outside the verified boundary, since the verifier
//! works over exact values only; they consume and produce the discrete
//! data that is specified and proved here.

pub mod errors;
pub mod math_func;
pub mod mk_matrix;
pub mod sparse_alg;
