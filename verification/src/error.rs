//! Error values for fallible fixed-point operations.

use vstd::prelude::*;

verus! {

use vstd::string::StringExecFns;

/// An error produced at the boundary of the elementary function layer.
///
/// Errors are data, never control flow: every fallible function returns a
/// `Result` whose `Err` case carries one of these values, built from static
/// descriptive strings only.
#[derive(Debug, Clone, Copy, PartialEq, Eq)]
pub enum Error {
    /// The input lies outside the mathematically valid domain of the
    /// requested function.  `function` names the function; `expected`
    /// describes the valid domain.
    DomainError { function: &'static str, expected: &'static str },
    /// The computation would exceed the representable range.  Present for
    /// call sites that choose to detect overflow rather than saturate;
    /// the functions of this crate themselves saturate.
    Overflow { function: &'static str },
}

impl Error {
    /// A domain error for the given function.
    pub fn domain(function: &'static str, expected: &'static str) -> (r: Self)
        ensures
            r == (Error::DomainError { function, expected }),
    {
        Error::DomainError { function, expected }
    }

    /// An overflow error for the given function.
    pub fn overflow(function: &'static str) -> (r: Self)
        ensures
            r == (Error::Overflow { function }),
    {
        Error::Overflow { function }
    }

    /// A human-readable description of the error.
    pub fn describe(&self) -> (r: String)
        ensures
            match *self {
                Error::DomainError { function, expected } => r@ == function@
                    + ": input outside valid domain, expected "@ + expected@,
                Error::Overflow { function } => r@ == function@ + ": result would overflow"@,
            },
    {
        match self {
            Error::DomainError { function, expected } => {
                let mut s = String::from_str(function);
                s.append(": input outside valid domain, expected ");
                s.append(expected);
                s
            },
            Error::Overflow { function } => {
                let mut s = String::from_str(function);
                s.append(": result would overflow");
                s
            },
        }
    }
}

} // verus!
