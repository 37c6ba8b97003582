//! The CORDIC iteration kernels.
//!
//! Four entry points: circular and hyperbolic mode, each in rotation
//! (drive the residual angle `z` to zero) and vectoring (drive the
//! coordinate `y` to zero) direction.  Each is a loop of micro-rotations
//! that costs one table lookup, two shifts and a few saturating additions
//! per step.  The contracts state the exact mantissa-level recurrence each
//! kernel computes; gain compensation is the caller's business.

pub mod cordic;

pub use cordic::{circular_gain_inv, circular_rotation, circular_vectoring};
pub use cordic::{hyperbolic_gain, hyperbolic_gain_inv, hyperbolic_rotation, hyperbolic_vectoring};
