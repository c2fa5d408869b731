//! Barycentric polynomial interpolation over exact rational scalars.
//!
//! The interpolator owns two parallel sequences, nodes and barycentric
//! weights, and evaluates the barycentric interpolation formula at arbitrary
//! query points. Weights for an arbitrary node set are computed from pairwise
//! node differences; every arithmetic step is exact, with overflow reported
//! as an error rather than silently wrapping.

pub mod interpolation;
pub mod laws;
pub mod rational;
