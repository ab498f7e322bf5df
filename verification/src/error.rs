//! The ways in which a prefix can be refused.

use vstd::prelude::*;

verus! {

/// Why a prefix cannot open an identifier.
#[derive(Clone, Copy, Debug, PartialEq, Eq, Structural)]
pub enum GenerateError {
    /// Some character of the prefix is neither a letter nor a digit from `2` to `7`.
    InvalidCharacter,
    /// Every character is allowed, but the prefix starts with a digit.
    InvalidFirstCharacter,
}

impl GenerateError {
    /// The sentence that describes this error to a person.
    pub open spec fn message_text(self) -> Seq<char> {
        match self {
            GenerateError::InvalidCharacter =>
                "Prefix can include only valid base32 characters (a-z, 2-7)"@,
            GenerateError::InvalidFirstCharacter => "Prefix has to start with a letter"@,
        }
    }

    /// Describes the error in words.
    pub fn message(&self) -> (text: &'static str)
        ensures
            text@ == self.message_text(),
    {
        match self {
            GenerateError::InvalidCharacter =>
                "Prefix can include only valid base32 characters (a-z, 2-7)",
            GenerateError::InvalidFirstCharacter => "Prefix has to start with a letter",
        }
    }
}

} // verus!
