//! Errors returned by decoding and by the sharing operations.
use vstd::prelude::*;

verus! {

/// What went wrong in a decoding, recovery or resharing call.
#[derive(Clone, Copy, Debug, PartialEq, Eq)]
pub enum Error {
    /// A share's byte form is shorter than two bytes.
    TooShort,
    /// The shares given in one call do not all have the same number of y values.
    UnequalShareLength,
    /// Fewer distinct shares than the threshold were given.
    InsufficientShares,
    /// The collection handed to `recover_shares` does not have the announced length.
    WrongLength,
}

impl Error {
    /// A sentence describing the error.
    pub fn message(&self) -> (r: &'static str) {
        match self {
            Error::TooShort => "A Share must be at least 2 bytes long",
            Error::UnequalShareLength => "All shares must have the same length",
            Error::InsufficientShares => "Not enough shares to recover the secret",
            Error::WrongLength => "provide a shares array of size n; use None for unknown shares",
        }
    }
}

} // verus!
