//! The generic error value the request/response glue depends on: a
//! human-readable message and a numeric code naming the failing step. The
//! request builder that produces these errors performs network I/O and
//! lives outside this library.

use vstd::prelude::*;

verus! {

/// An error from the HTTP-facing glue: a message and a numeric code.
#[derive(Debug, Clone, PartialEq, Eq)]
pub struct Error {
    message: String,
    code: u8,
}

impl Error {
    /// The message's characters.
    pub closed spec fn spec_message(&self) -> Seq<char> {
        self.message@
    }

    /// The numeric code.
    pub closed spec fn spec_code(&self) -> u8 {
        self.code
    }

    /// An error carrying the given message and code.
    pub fn new(message: String, code: u8) -> (r: Error)
        ensures
            r.spec_message() == message@,
            r.spec_code() == code,
    {
        Error { message, code }
    }

    /// The message.
    pub fn message(&self) -> (r: &str)
        ensures
            r@ == self.spec_message(),
    {
        self.message.as_str()
    }

    /// The code.
    pub fn code(&self) -> (r: u8)
        ensures
            r == self.spec_code(),
    {
        self.code
    }
}

} // verus!
