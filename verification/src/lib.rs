//! Classical time-series statistics over IEEE-754 double-precision scalars:
//! autocovariance and autocorrelation (ACF), autoregressive coefficients via
//! the Yule-Walker equations, innovation-variance estimation, and partial
//! autocorrelation (PACF).
//!
//! Scalars are carried as the bit patterns of IEEE-754 binary64 values
//! (`u64`), so that every index computation, clamping rule, matrix layout and
//! error path is verified; the rounded arithmetic itself is delegated to an
//! outside IEEE-754 implementation behind a small set of trusted wrappers
//! (see `scalar`).
use vstd::prelude::*;

pub mod acf;
pub mod scalar;
pub mod solve;

verus! {

/// The single error kind of this library: the symmetric positive-definite
/// linear solve at the heart of the Yule-Walker equations failed, because the
/// system was singular, indefinite or otherwise numerically degenerate.
#[derive(Clone, Copy, Debug, PartialEq, Eq, Structural)]
pub struct ArimaError;

} // verus!
