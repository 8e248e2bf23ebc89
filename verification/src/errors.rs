//! Typed errors shared by every resource kind.

use vstd::prelude::*;

verus! {

/// The error taxonomy for guest-facing operations.
///
/// Every failure of a guest-facing operation is reported as one of these
/// variants; no operation panics or traps.
#[derive(Debug, PartialEq, Eq)]
pub enum Error {
    /// The capability gate rejected the label or address.
    AccessDenied,
    /// The label is not configured.
    NoSuchResource,
    /// The resource table is full.
    ResourceExhausted,
    /// The handle is stale, foreign, or of the wrong kind.
    InvalidHandle,
    /// A native backend failed; carries diagnostic text.
    BackendFailure(String),
    /// An upload or download was interrupted mid-flight.
    TransferAborted(String),
}

impl Error {
    /// The diagnostic text of this error, as a mathematical value.
    pub open spec fn message_view(self) -> Seq<char> {
        match self {
            Error::AccessDenied => "access denied"@,
            Error::NoSuchResource => "no such resource"@,
            Error::ResourceExhausted => "resource table full"@,
            Error::InvalidHandle => "invalid handle"@,
            Error::BackendFailure(m) => m@,
            Error::TransferAborted(m) => m@,
        }
    }

    /// A human-readable description of the error.
    pub fn message(&self) -> (r: String)
        ensures
            r@ == self.message_view(),
    {
        match self {
            Error::AccessDenied => "access denied".to_owned(),
            Error::NoSuchResource => "no such resource".to_owned(),
            Error::ResourceExhausted => "resource table full".to_owned(),
            Error::InvalidHandle => "invalid handle".to_owned(),
            Error::BackendFailure(m) => m.clone(),
            Error::TransferAborted(m) => m.clone(),
        }
    }
}

impl Error {
    /// An equal error value, for replaying a cached failure.
    pub fn duplicate(&self) -> (r: Error)
        ensures
            r == *self,
    {
        match self {
            Error::AccessDenied => Error::AccessDenied,
            Error::NoSuchResource => Error::NoSuchResource,
            Error::ResourceExhausted => Error::ResourceExhausted,
            Error::InvalidHandle => Error::InvalidHandle,
            Error::BackendFailure(m) => Error::BackendFailure(m.clone()),
            Error::TransferAborted(m) => Error::TransferAborted(m.clone()),
        }
    }
}

/// Returns the diagnostic text of a blobstore error, so that callers can
/// surface it on the guest boundary.
pub fn log_error(err: &Error) -> (r: String)
    ensures
        r@ == err.message_view(),
{
    err.message()
}

} // verus!
