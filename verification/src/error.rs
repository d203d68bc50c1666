//! The closed taxonomy of user-visible errors.
//!
//! Each variant carries a stable snake_case key and a human-readable
//! message; callers marshal errors as `{"key": .., "error": ..}`.

use vstd::prelude::*;

verus! {

/// Every failure a command can surface.  Lower-level failures that match
/// no specific variant collapse to `Unexpected`.
#[derive(Clone, Copy, Debug, PartialEq, Eq, Structural)]
pub enum Error {
    /// An account-level precondition failed: empty account inputs, an
    /// unknown username at login, or a passphrase-derived key that fails
    /// to unwrap or decrypt.
    InvalidKeeper,
    /// A session precondition failed: no active session, an empty
    /// credential input, a truncated file, or an in-file username mismatch.
    InvalidReader,
    /// A well-typed but unacceptable argument, such as an unknown
    /// credential id or clipboard field.
    InvalidParameter,
    /// The target vault file already exists at account creation.
    UsernameTaken,
    /// Any other failure: I/O, clipboard, poisoned lock, or an internal
    /// cryptographic failure not otherwise classified.
    Unexpected,
}

impl Error {
    /// The human-readable message of this variant.
    pub open spec fn message_spec(self) -> Seq<char> {
        match self {
            Error::InvalidKeeper => "[robo-pass] invalid keeper"@,
            Error::InvalidReader => "[robo-pass] invalid reader"@,
            Error::InvalidParameter => "[robo-pass] invalid parameter"@,
            Error::UsernameTaken => "[robo-pass] username already registered"@,
            Error::Unexpected => "[robo-pass] unexpected error occurred"@,
        }
    }

    /// The stable snake_case key of this variant.
    pub open spec fn key_spec(self) -> Seq<char> {
        match self {
            Error::InvalidKeeper => "invalid_keeper"@,
            Error::InvalidReader => "invalid_reader"@,
            Error::InvalidParameter => "invalid_parameter"@,
            Error::UsernameTaken => "username_taken"@,
            Error::Unexpected => "unexpected"@,
        }
    }

    pub fn message(&self) -> (m: &'static str)
        ensures
            m@ == self.message_spec(),
    {
        match self {
            Error::InvalidKeeper => "[robo-pass] invalid keeper",
            Error::InvalidReader => "[robo-pass] invalid reader",
            Error::InvalidParameter => "[robo-pass] invalid parameter",
            Error::UsernameTaken => "[robo-pass] username already registered",
            Error::Unexpected => "[robo-pass] unexpected error occurred",
        }
    }

    pub fn key(&self) -> (k: &'static str)
        ensures
            k@ == self.key_spec(),
    {
        match self {
            Error::InvalidKeeper => "invalid_keeper",
            Error::InvalidReader => "invalid_reader",
            Error::InvalidParameter => "invalid_parameter",
            Error::UsernameTaken => "username_taken",
            Error::Unexpected => "unexpected",
        }
    }
}

} // verus!
