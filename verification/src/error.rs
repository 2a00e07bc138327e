//! The ways in which counting can fail.

use vstd::prelude::*;

verus! {

/// Why a line count could not be produced.
#[derive(Clone, Copy, Debug, PartialEq, Eq, Structural)]
pub enum CountError {
    /// A size parameter of the sampling configuration is zero.
    InvalidConfiguration,
    /// No newline was found in any sample window, so the average line
    /// length, and with it the estimate, is undefined.
    EstimationDegenerate,
    /// More bytes were scanned than a `u64` can count.
    InputTooLarge,
}

impl CountError {
    /// A one-line description for the user.
    pub fn message(&self) -> (text: String)
        ensures
            text@ == match *self {
                CountError::InvalidConfiguration => "sampling parameters must be positive"@,
                CountError::EstimationDegenerate => "no newline in any sample window"@,
                CountError::InputTooLarge => "input is too large to count"@,
            },
    {
        match self {
            CountError::InvalidConfiguration => String::from_str(
                "sampling parameters must be positive",
            ),
            CountError::EstimationDegenerate => String::from_str(
                "no newline in any sample window",
            ),
            CountError::InputTooLarge => String::from_str("input is too large to count"),
        }
    }
}

} // verus!
