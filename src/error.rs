//! The closed taxonomy of error kinds and how each is classified: fatal
//! errors end the session or operation they came from; retryable ones may
//! be retried after a backoff.

use vstd::prelude::*;
use crate::connection::ConnectionError;
use crate::frame::ProtocolError;
use crate::room::RoomError;
use crate::storage::StorageError;

verus! {

/// Every kind of error of the system.
#[derive(Debug, Clone, Copy, PartialEq, Eq, Structural)]
pub enum ErrorKind {
    InvalidMagic,
    UnsupportedVersion,
    MalformedHeader,
    PayloadTooLarge,
    InvalidOpcode,
    InvalidState,
    UnexpectedFrame,
    RoomNotFound,
    RoomAlreadyExists,
    NotMember,
    AlreadyMember,
    CannotRemoveSelf,
    InvalidClient,
    EpochMismatch { expected: u64, actual: u64 },
    DecryptionFailed,
    StaleMessage,
    UnknownSender,
    KeyDerivationFailed,
    Unauthenticated,
    InvalidFrame,
    StorageFailure,
    TransportClosed,
    TransportIo,
}

/// Whether errors of kind `k` end the originating session or operation.
pub open spec fn spec_is_fatal(k: ErrorKind) -> bool {
    match k {
        ErrorKind::InvalidMagic | ErrorKind::UnsupportedVersion | ErrorKind::MalformedHeader
        | ErrorKind::PayloadTooLarge | ErrorKind::InvalidOpcode | ErrorKind::InvalidState
        | ErrorKind::UnexpectedFrame | ErrorKind::NotMember | ErrorKind::CannotRemoveSelf
        | ErrorKind::InvalidClient | ErrorKind::DecryptionFailed | ErrorKind::Unauthenticated
        | ErrorKind::TransportClosed => true,
        _ => false,
    }
}

/// Whether an operation that failed with kind `k` may be retried.
pub open spec fn spec_is_retryable(k: ErrorKind) -> bool {
    match k {
        ErrorKind::EpochMismatch { .. } | ErrorKind::StorageFailure | ErrorKind::TransportIo => true,
        _ => false,
    }
}

impl ErrorKind {
    /// Whether the error ends the originating session or operation.
    pub fn is_fatal(&self) -> (r: bool)
        ensures
            r == spec_is_fatal(*self),
    {
        match self {
            ErrorKind::InvalidMagic | ErrorKind::UnsupportedVersion | ErrorKind::MalformedHeader
            | ErrorKind::PayloadTooLarge | ErrorKind::InvalidOpcode | ErrorKind::InvalidState
            | ErrorKind::UnexpectedFrame | ErrorKind::NotMember | ErrorKind::CannotRemoveSelf
            | ErrorKind::InvalidClient | ErrorKind::DecryptionFailed | ErrorKind::Unauthenticated
            | ErrorKind::TransportClosed => true,
            _ => false,
        }
    }

    /// Whether the caller may retry after a backoff.
    pub fn is_retryable(&self) -> (r: bool)
        ensures
            r == spec_is_retryable(*self),
    {
        match self {
            ErrorKind::EpochMismatch { .. } | ErrorKind::StorageFailure | ErrorKind::TransportIo => true,
            _ => false,
        }
    }

    /// The kind of a frame codec error.
    pub fn of_protocol(e: ProtocolError) -> (r: ErrorKind)
        ensures
            r == protocol_kind(e),
    {
        match e {
            ProtocolError::InvalidMagic => ErrorKind::InvalidMagic,
            ProtocolError::UnsupportedVersion => ErrorKind::UnsupportedVersion,
            ProtocolError::PayloadTooLarge => ErrorKind::PayloadTooLarge,
            ProtocolError::Truncated => ErrorKind::MalformedHeader,
            ProtocolError::InvalidOpcode => ErrorKind::InvalidOpcode,
            ProtocolError::MalformedHeader => ErrorKind::MalformedHeader,
        }
    }

    /// The kind of a connection state machine error.
    pub fn of_connection(e: &ConnectionError) -> (r: ErrorKind)
        ensures
            r == (match e {
                ConnectionError::InvalidState { .. } => ErrorKind::InvalidState,
                ConnectionError::UnexpectedFrame { .. } => ErrorKind::UnexpectedFrame,
            }),
    {
        match e {
            ConnectionError::InvalidState { .. } => ErrorKind::InvalidState,
            ConnectionError::UnexpectedFrame { .. } => ErrorKind::UnexpectedFrame,
        }
    }

    /// The kind of a room manager error.
    pub fn of_room(e: RoomError) -> (r: ErrorKind)
        ensures
            r == room_kind(e),
    {
        match e {
            RoomError::RoomNotFound(_) => ErrorKind::RoomNotFound,
            RoomError::RoomAlreadyExists(_) => ErrorKind::RoomAlreadyExists,
            RoomError::NotMember { .. } => ErrorKind::NotMember,
            RoomError::Unauthenticated => ErrorKind::Unauthenticated,
            RoomError::InvalidFrame => ErrorKind::InvalidFrame,
            RoomError::StorageFailure => ErrorKind::StorageFailure,
        }
    }

    /// The kind of a storage error.
    pub fn of_storage(e: StorageError) -> (r: ErrorKind)
        ensures
            r == ErrorKind::StorageFailure,
    {
        match e {
            StorageError::StorageFailure => ErrorKind::StorageFailure,
        }
    }
}

/// The kind of a frame codec error (a short input counts as a malformed
/// header).
pub open spec fn protocol_kind(e: ProtocolError) -> ErrorKind {
    match e {
        ProtocolError::InvalidMagic => ErrorKind::InvalidMagic,
        ProtocolError::UnsupportedVersion => ErrorKind::UnsupportedVersion,
        ProtocolError::PayloadTooLarge => ErrorKind::PayloadTooLarge,
        ProtocolError::Truncated => ErrorKind::MalformedHeader,
        ProtocolError::InvalidOpcode => ErrorKind::InvalidOpcode,
        ProtocolError::MalformedHeader => ErrorKind::MalformedHeader,
    }
}

/// The kind of a room manager error.
pub open spec fn room_kind(e: RoomError) -> ErrorKind {
    match e {
        RoomError::RoomNotFound(_) => ErrorKind::RoomNotFound,
        RoomError::RoomAlreadyExists(_) => ErrorKind::RoomAlreadyExists,
        RoomError::NotMember { .. } => ErrorKind::NotMember,
        RoomError::Unauthenticated => ErrorKind::Unauthenticated,
        RoomError::InvalidFrame => ErrorKind::InvalidFrame,
        RoomError::StorageFailure => ErrorKind::StorageFailure,
    }
}

/// No kind is both fatal and retryable.
pub proof fn lemma_fatal_not_retryable(k: ErrorKind)
    ensures
        !(spec_is_fatal(k) && spec_is_retryable(k)),
{
}

} // verus!
