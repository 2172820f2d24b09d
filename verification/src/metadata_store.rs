//! How the failures of the metadata store's transport are told to its
//! users.

use vstd::prelude::*;

verus! {

/// The status codes of the transport.
#[derive(Debug, Clone, Copy, PartialEq, Eq, Structural)]
pub enum Code {
    Success,
    Cancelled,
    Unknown,
    InvalidArgument,
    DeadlineExceeded,
    NotFound,
    AlreadyExists,
    PermissionDenied,
    ResourceExhausted,
    FailedPrecondition,
    Aborted,
    OutOfRange,
    Unimplemented,
    Internal,
    Unavailable,
    DataLoss,
    Unauthenticated,
}

/// The status that a call ended with: its code, its message, and the text
/// that the whole status prints as.
#[derive(Debug, PartialEq, Eq)]
pub struct Status {
    pub code: Code,
    pub message: String,
    pub rendered: String,
}

/// Why a read from the metadata store failed.
#[derive(Debug, PartialEq, Eq)]
pub enum ReadError {
    /// The store could not be reached; the read may be tried again.
    Network(Status),
    Internal(String),
}

/// Why a write to the metadata store failed.
#[derive(Debug, PartialEq, Eq)]
pub enum WriteError {
    /// The store holds another version than the write asked for.
    FailedPrecondition(String),
    /// The store could not be reached; the write may be tried again.
    Network(Status),
    Internal(String),
}

/// The failure of a read that ended with `status`: a network failure where
/// the store was unavailable, an internal failure with the status' text
/// otherwise.
pub fn map_status_to_read_error(status: Status) -> (r: ReadError)
    ensures
        status.code == Code::Unavailable ==> r == ReadError::Network(status),
        status.code != Code::Unavailable ==> r == ReadError::Internal(status.rendered),
{
    match status.code {
        Code::Unavailable => ReadError::Network(status),
        _ => ReadError::Internal(status.rendered),
    }
}

/// The failure of a write that ended with `status`: a network failure where
/// the store was unavailable, a failed precondition with the status'
/// message where the store reported one, an internal failure with the
/// status' text otherwise.
pub fn map_status_to_write_error(status: Status) -> (r: WriteError)
    ensures
        status.code == Code::Unavailable ==> r == WriteError::Network(status),
        status.code == Code::FailedPrecondition ==> r == WriteError::FailedPrecondition(
            status.message,
        ),
        status.code != Code::Unavailable && status.code != Code::FailedPrecondition ==> r
            == WriteError::Internal(status.rendered),
{
    match status.code {
        Code::Unavailable => WriteError::Network(status),
        Code::FailedPrecondition => WriteError::FailedPrecondition(status.message),
        _ => WriteError::Internal(status.rendered),
    }
}

} // verus!
