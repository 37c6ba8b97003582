//! High-level mathematical operations built on the CORDIC kernels.
//!
//! Each public function normalizes its argument into the kernel's
//! convergence range, discharges a bounded-value invariant where an inverse
//! identity needs one, invokes a kernel, and post-processes the result
//! (sign restoration, quadrant correction, rescaling, clamping to the
//! function's mathematical range).

pub mod algebraic;
pub mod circular;
pub mod exponential;
pub mod hyperbolic;

pub use algebraic::{sqrt, sqrt_non_negative};
pub use circular::{acos, asin, atan, atan2, cos, sin, sin_cos, tan};
pub use exponential::{exp, ln, log2, log10, pow2};
pub use hyperbolic::{acosh, acoth, asinh, atanh, cosh, coth, sinh, sinh_cosh, tanh};
