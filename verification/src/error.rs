//! The failures that the string operations report.

use vstd::prelude::*;

verus! {

/// Why an operation on a string was refused.
#[derive(Debug, Clone, Copy, PartialEq, Eq, Structural)]
pub enum StringError {
    /// A range or a position lies outside the string.
    IndexOutOfRange,
    /// The name of a normalization form is none of the four known ones.
    InvalidNormalizationForm,
    /// A number is no code point: it is negative or above 0x10FFFF. The
    /// variant holds the number.
    InvalidCodePoint(i64),
    /// A repetition count is negative or infinite, or the result would be
    /// longer than a string may be.
    InvalidCount,
}

impl StringError {
    /// The text of the failure.
    pub open spec fn text(self) -> Seq<char> {
        match self {
            StringError::IndexOutOfRange => "index out of range"@,
            StringError::InvalidNormalizationForm =>
                "The normalization form should be one of NFC, NFD, NFKC, NFKD."@,
            StringError::InvalidCodePoint(_) => "invalid code point"@,
            StringError::InvalidCount =>
                "repeat count must be a positive finite number that doesn't overflow the maximum string length"@,
        }
    }

    /// The text of the failure, for a message.
    pub fn message(&self) -> (r: &'static str)
        ensures
            r@ == self.text(),
    {
        match self {
            StringError::IndexOutOfRange => "index out of range",
            StringError::InvalidNormalizationForm =>
                "The normalization form should be one of NFC, NFD, NFKC, NFKD.",
            StringError::InvalidCodePoint(_) => "invalid code point",
            StringError::InvalidCount =>
                "repeat count must be a positive finite number that doesn't overflow the maximum string length",
        }
    }
}

} // verus!
