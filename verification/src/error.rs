//! The ways in which a request through a session can fail.
use vstd::prelude::*;

verus! {

/// What the server under test reported when it failed to handle a request.
#[derive(Debug, PartialEq, Eq)]
pub struct Failure {
    pub status: u16,
    pub message: String,
}

/// Why a call on a session failed. No failure is replaced by a default
/// value: the caller sees each of them.
#[derive(Debug, PartialEq, Eq)]
pub enum Error {
    /// The text given as base URL is not a well-formed absolute URL.
    InvalidBaseUrl,
    /// The path does not resolve against the base URL.
    InvalidPath,
    /// The server failed; its report is passed on as it came.
    ServerError(Failure),
    /// The body of the response does not have the shape that was asked for.
    DecodeError,
}

} // verus!
