//! Fixed-point elementary functions computed with the CORDIC algorithm.
//!
//! This crate provides trigonometric, hyperbolic, exponential, logarithmic
//! and square-root functions for signed fixed-point numbers, using only
//! addition, subtraction, bit shifts and table lookups.  Every function is
//! generic over the [`CordicNumber`] numeric interface, which the crate
//! implements for the common signed types of the `fixed` crate.
//!
//! The contracts are stated over mantissas: a fixed-point value is modelled
//! by the signed integer `m` such that the represented number is `m / 2^fb`,
//! where `fb` is the type's count of fractional bits (see [`raw`]).

pub mod bounded;
pub mod error;
pub mod kernel;
pub mod ops;
pub mod raw;
pub mod tables;
pub mod traits;

pub use error::Error;
pub use traits::CordicNumber;

pub use ops::algebraic::{sqrt, sqrt_non_negative};
pub use ops::circular::{acos, asin, atan, atan2, cos, sin, sin_cos, tan};
pub use ops::exponential::{exp, ln, log2, log10, pow2};
pub use ops::hyperbolic::{acosh, acoth, asinh, atanh, cosh, coth, sinh, sinh_cosh, tanh};
