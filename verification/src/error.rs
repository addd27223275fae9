//! The ways in which a normalisation run can fail.

use vstd::prelude::*;

verus! {

/// What is wrong with a `new Date(..)` literal.
#[derive(Clone, Copy, Debug, PartialEq, Eq)]
pub enum ParseFault {
    /// The opening parenthesis is never closed.
    Unterminated,
    /// The text between the parentheses is not a 64-bit decimal integer.
    InvalidInteger,
}

/// A fatal condition. Every one of them aborts the run; there is no partial
/// output.
#[derive(Clone, Debug, PartialEq, Eq)]
pub enum Error {
    /// A malformed date literal, with the byte offset at which it starts.
    Parse { offset: usize, fault: ParseFault },
    /// A tariff label that is neither of the two known ones.
    UnsupportedVariant { label: String },
    /// A local epoch-millisecond value to which no UTC instant corresponds.
    TimeConversion { timestamp: i64 },
    /// No line of a report carries the model.
    ModelNotFound,
}

} // verus!
