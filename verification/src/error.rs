//! The failures that the tracker reports to its caller.

use vstd::prelude::*;

verus! {

/// Why an operation did nothing. None of these is fatal: the value that the
/// operation was called on is left as it was.
#[derive(Clone, Copy, Debug, PartialEq, Eq, Structural)]
pub enum TrackError {
    /// Persisted data was malformed, or broke an invariant of the type that
    /// it was read as.
    Deserialization,
    /// No session is registered under the handle.
    NotFound,
    /// The session has ended: nothing may change it any more.
    InvalidTransition,
}

impl TrackError {
    /// A short description for a log line or a message to the user.
    pub fn describe(&self) -> (text: &'static str)
        ensures
            text@ == (match *self {
                TrackError::Deserialization => "malformed or inconsistent persisted data"@,
                TrackError::NotFound => "no session under this handle"@,
                TrackError::InvalidTransition => "the session has already ended"@,
            }),
    {
        match self {
            TrackError::Deserialization => "malformed or inconsistent persisted data",
            TrackError::NotFound => "no session under this handle",
            TrackError::InvalidTransition => "the session has already ended",
        }
    }
}

} // verus!
