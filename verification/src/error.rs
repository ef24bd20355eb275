//! The error taxonomy of the engine. Every variant has a stable numeric code
//! that travels on the wire as the status field of a response frame.

use vstd::prelude::*;

verus! {

/// The kind of resource an operation failed to find or refused to duplicate.
#[derive(Clone, Copy, Debug, PartialEq, Eq, Structural)]
pub enum ResourceKind {
    Stream,
    Topic,
    Partition,
    ConsumerGroup,
    User,
    Client,
}

/// Every fallible operation of the engine reports one of these.
#[derive(Clone, Copy, Debug, PartialEq, Eq, Structural)]
pub enum IggyError {
    InvalidCommand,
    MalformedPayload,
    TooLargePayload,
    EmptyResponse,
    Unauthenticated,
    Unauthorized,
    InvalidCredentials,
    TokenExpired,
    TokenNotFound,
    ResourceNotFound(ResourceKind),
    ResourceAlreadyExists(ResourceKind),
    InvalidIdentifier,
    NameTooShort,
    NameTooLong,
    InvalidHeaderKey,
    InvalidHeaderValue,
    PartitionNotFound,
    ConsumerNotAssigned,
    OffsetOutOfRange,
    PartitionFull,
    TopicFull,
    IoError,
    Corrupted,
    CannotCreateDirectory,
    CannotOpenFile,
    NotConnected,
    ConnectionClosed,
    TlsError,
    InvalidResponse(u32),
}

impl IggyError {
    /// The stable numeric code of this error, as written into the status
    /// field of a response frame. No variant maps to 0: that value means OK.
    pub open spec fn spec_code(self) -> u32 {
        match self {
            IggyError::InvalidCommand => 1u32,
            IggyError::MalformedPayload => 2u32,
            IggyError::TooLargePayload => 3u32,
            IggyError::EmptyResponse => 4u32,
            IggyError::ResourceNotFound(_) => 20u32,
            IggyError::ResourceAlreadyExists(_) => 21u32,
            IggyError::InvalidIdentifier => 23u32,
            IggyError::NameTooShort => 24u32,
            IggyError::NameTooLong => 25u32,
            IggyError::InvalidHeaderKey => 26u32,
            IggyError::InvalidHeaderValue => 27u32,
            IggyError::PartitionNotFound => 30u32,
            IggyError::ConsumerNotAssigned => 31u32,
            IggyError::OffsetOutOfRange => 32u32,
            IggyError::PartitionFull => 33u32,
            IggyError::TopicFull => 34u32,
            IggyError::Unauthenticated => 40u32,
            IggyError::Unauthorized => 41u32,
            IggyError::InvalidCredentials => 42u32,
            IggyError::TokenExpired => 43u32,
            IggyError::TokenNotFound => 44u32,
            IggyError::IoError => 50u32,
            IggyError::Corrupted => 51u32,
            IggyError::CannotCreateDirectory => 52u32,
            IggyError::CannotOpenFile => 53u32,
            IggyError::NotConnected => 60u32,
            IggyError::ConnectionClosed => 61u32,
            IggyError::TlsError => 62u32,
            IggyError::InvalidResponse(_) => 63u32,
        }
    }

    /// The wire code of the error.
    pub fn as_code(&self) -> (r: u32)
        ensures
            r == self.spec_code(),
            r != 0,
    {
        match self {
            IggyError::InvalidCommand => 1,
            IggyError::MalformedPayload => 2,
            IggyError::TooLargePayload => 3,
            IggyError::EmptyResponse => 4,
            IggyError::ResourceNotFound(_) => 20,
            IggyError::ResourceAlreadyExists(_) => 21,
            IggyError::InvalidIdentifier => 23,
            IggyError::NameTooShort => 24,
            IggyError::NameTooLong => 25,
            IggyError::InvalidHeaderKey => 26,
            IggyError::InvalidHeaderValue => 27,
            IggyError::PartitionNotFound => 30,
            IggyError::ConsumerNotAssigned => 31,
            IggyError::OffsetOutOfRange => 32,
            IggyError::PartitionFull => 33,
            IggyError::TopicFull => 34,
            IggyError::Unauthenticated => 40,
            IggyError::Unauthorized => 41,
            IggyError::InvalidCredentials => 42,
            IggyError::TokenExpired => 43,
            IggyError::TokenNotFound => 44,
            IggyError::IoError => 50,
            IggyError::Corrupted => 51,
            IggyError::CannotCreateDirectory => 52,
            IggyError::CannotOpenFile => 53,
            IggyError::NotConnected => 60,
            IggyError::ConnectionClosed => 61,
            IggyError::TlsError => 62,
            IggyError::InvalidResponse(_) => 63,
        }
    }

    /// A short description of the error, in place of a `Display` impl.
    pub fn as_string(&self) -> String {
        match self {
            IggyError::InvalidCommand => "invalid command".to_owned(),
            IggyError::MalformedPayload => "malformed payload".to_owned(),
            IggyError::TooLargePayload => "too large payload".to_owned(),
            IggyError::EmptyResponse => "empty response".to_owned(),
            IggyError::ResourceNotFound(_) => "resource not found".to_owned(),
            IggyError::ResourceAlreadyExists(_) => "resource already exists".to_owned(),
            IggyError::InvalidIdentifier => "invalid identifier".to_owned(),
            IggyError::NameTooShort => "name too short".to_owned(),
            IggyError::NameTooLong => "name too long".to_owned(),
            IggyError::InvalidHeaderKey => "invalid header key".to_owned(),
            IggyError::InvalidHeaderValue => "invalid header value".to_owned(),
            IggyError::PartitionNotFound => "partition not found".to_owned(),
            IggyError::ConsumerNotAssigned => "consumer not assigned".to_owned(),
            IggyError::OffsetOutOfRange => "offset out of range".to_owned(),
            IggyError::PartitionFull => "partition full".to_owned(),
            IggyError::TopicFull => "topic full".to_owned(),
            IggyError::Unauthenticated => "unauthenticated".to_owned(),
            IggyError::Unauthorized => "unauthorized".to_owned(),
            IggyError::InvalidCredentials => "invalid credentials".to_owned(),
            IggyError::TokenExpired => "token expired".to_owned(),
            IggyError::TokenNotFound => "token not found".to_owned(),
            IggyError::IoError => "io error".to_owned(),
            IggyError::Corrupted => "corrupted data".to_owned(),
            IggyError::CannotCreateDirectory => "cannot create directory".to_owned(),
            IggyError::CannotOpenFile => "cannot open file".to_owned(),
            IggyError::NotConnected => "not connected".to_owned(),
            IggyError::ConnectionClosed => "connection closed".to_owned(),
            IggyError::TlsError => "tls error".to_owned(),
            IggyError::InvalidResponse(_) => "invalid response".to_owned(),
        }
    }
}

/// What went wrong on a connection, as the transport reports it.
#[derive(Clone, Copy, Debug, PartialEq, Eq, Structural)]
pub enum ConnectionError {
    UnexpectedEof,
    ConnectionAborted,
    ConnectionRefused,
    ConnectionReset,
    Other,
}

/// The line a listener logs when a connection ends: the expected endings in
/// friendly words, anything else as a failure.
pub fn handle_error(error: ConnectionError) -> (r: String)
    ensures
        error == ConnectionError::UnexpectedEof ==> r@ == "Connection has been closed."@,
        error == ConnectionError::ConnectionAborted ==> r@ == "Connection has been aborted."@,
        error == ConnectionError::ConnectionRefused ==> r@ == "Connection has been refused."@,
        error == ConnectionError::ConnectionReset ==> r@ == "Connection has been reset."@,
        error == ConnectionError::Other ==> r@ == "Connection has failed."@,
{
    match error {
        ConnectionError::UnexpectedEof => "Connection has been closed.".to_owned(),
        ConnectionError::ConnectionAborted => "Connection has been aborted.".to_owned(),
        ConnectionError::ConnectionRefused => "Connection has been refused.".to_owned(),
        ConnectionError::ConnectionReset => "Connection has been reset.".to_owned(),
        ConnectionError::Other => "Connection has failed.".to_owned(),
    }
}

} // verus!
