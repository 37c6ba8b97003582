//! Precomputed lookup tables for the CORDIC iterations.
//!
//! Tables are stored as `i64` values holding signed fractional bit patterns
//! with 63 fractional bits (one sign bit), converted to the target type at
//! runtime.  The inverse hyperbolic gain uses 62 fractional bits, since its
//! value exceeds one.

pub mod circular;
pub mod hyperbolic;

pub use circular::{ATAN_TABLE, CIRCULAR_GAIN_INV};
pub use hyperbolic::{ATANH_TABLE, HYPERBOLIC_GAIN, HYPERBOLIC_GAIN_INV};
