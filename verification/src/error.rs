//! The errors of the server and its sample log.

use vstd::prelude::*;

verus! {

/// The kinds of stream error that the server tells apart.
#[derive(Clone, Copy, PartialEq, Eq, Debug)]
pub enum IoErrorKind {
    NotFound,
    PermissionDenied,
    ConnectionRefused,
    ConnectionReset,
    HostUnreachable,
    NetworkUnreachable,
    ConnectionAborted,
    TimedOut,
    StorageFull,
    /// Any other kind of stream error.
    Other,
}

/// Errors that the library itself raises.
#[derive(Clone, Copy, PartialEq, Eq, Debug)]
pub enum CrateError {
    /// A sample window of zero length.
    EmptyWindow,
    /// A sample window that holds no sample.
    NoElements,
}

impl CrateError {
    /// The message that describes the error.
    pub fn message(&self) -> (m: &'static str)
        ensures
            m@ == match self {
                CrateError::EmptyWindow => "\"from\" needs to be before \"to\""@,
                CrateError::NoElements => "Could not find any elements"@,
            },
    {
        match self {
            CrateError::EmptyWindow => "\"from\" needs to be before \"to\"",
            CrateError::NoElements => "Could not find any elements",
        }
    }
}

/// An error of the server.
#[derive(Debug)]
pub enum ServerError {
    CrateError(CrateError),
    StdIoError(IoErrorKind),
    SerdeJsonError(serde_json::Error),
}

} // verus!
