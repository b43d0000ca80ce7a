//! The ways an operation on a gas quantity can fail.

use vstd::prelude::*;

verus! {

/// Why an operation on a gas quantity failed.
#[derive(Clone, Copy, Debug, PartialEq, Eq, Structural, Hash)]
pub enum GasError {
    /// The text is empty, or holds a character that is not a decimal digit.
    InvalidDigit,
    /// The result, or the number read, does not fit in 64 bits.
    Overflow,
    /// A subtraction would go below zero.
    Underflow,
    /// The divisor was zero.
    DivisionByZero,
    /// A binary payload is too short to hold a quantity.
    DecodeError,
}

impl GasError {
    /// The words that `message` gives for this error.
    pub open spec fn description(self) -> Seq<char> {
        match self {
            GasError::InvalidDigit => "invalid digit found in string"@,
            GasError::Overflow => "number too large to fit in 64 bits"@,
            GasError::Underflow => "subtraction would go below zero"@,
            GasError::DivisionByZero => "division by zero"@,
            GasError::DecodeError => "unexpected length of input"@,
        }
    }

    /// The error in words, for people.
    pub fn message(&self) -> (text: String)
        ensures
            text@ == self.description(),
    {
        let words = match self {
            GasError::InvalidDigit => "invalid digit found in string",
            GasError::Overflow => "number too large to fit in 64 bits",
            GasError::Underflow => "subtraction would go below zero",
            GasError::DivisionByZero => "division by zero",
            GasError::DecodeError => "unexpected length of input",
        };
        words.to_owned()
    }
}

} // verus!
