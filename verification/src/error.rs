//! The error taxonomy of the sync engine.

use vstd::prelude::*;

verus! {

/// What can go wrong while talking to the remote store or inside the engine.
///
/// `ApiError` carries the HTTP status and body of a rejected call.
/// `NetworkError` carries the description of a transport failure; it has no
/// status of its own and is reported with the sentinel code 0.
/// `InvariantViolation` marks a defect of the engine itself (the two
/// resolutions of one sync carried a directive for the same id); it is fatal
/// and never user-triggered.
#[derive(Debug, Clone, PartialEq)]
pub enum Error {
    ApiError(u16, String),
    NetworkError(String),
    InvariantViolation,
}

/// The code under which an error is reported: the HTTP status for a rejected
/// call, the sentinel 0 otherwise.
pub open spec fn spec_error_code(e: &Error) -> u16 {
    match e {
        Error::ApiError(status, _) => *status,
        Error::NetworkError(_) => 0u16,
        Error::InvariantViolation => 0u16,
    }
}

impl Error {
    pub fn code(&self) -> (r: u16)
        ensures
            r == spec_error_code(self),
    {
        match self {
            Error::ApiError(status, _) => *status,
            Error::NetworkError(_) => 0,
            Error::InvariantViolation => 0,
        }
    }
}

} // verus!
