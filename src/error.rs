//! Error taxonomy shared by every layer of the client.
use vstd::prelude::*;

verus! {

/// Structural faults in what the peer sent, or a refusal that the protocol names.
#[derive(Debug, Clone, Copy, PartialEq, Eq, Structural)]
pub enum ProtocolError {
    /// The first four bytes of a message are not `0xFF 'S' 'M' 'B'`.
    BadSignature,
    /// A declared word or byte count disagrees with the bytes present.
    LengthMismatch,
    /// A response carries another command code than the request.
    UnknownCommand,
    /// The server selected none of the offered dialects.
    DialectRejected,
    /// The session-service envelope is malformed.
    Framing,
    /// Tree connect named a share the server does not have.
    ShareNotFound,
    /// The server refused access.
    PermissionDenied,
}

#[derive(Debug, Clone, Copy, PartialEq, Eq, Structural)]
pub enum SMBError {
    /// The transport failed to read or write.
    IO,
    Protocol(ProtocolError),
    /// The server reported a logon failure.
    Authentication,
    /// A well-formed response whose content does not fit the request.
    InvalidResponse,
    /// Create named a file that does not exist.
    FileNotFound,
    /// Create named a file that exists already.
    AlreadyExists,
    /// A non-zero status on an otherwise well-formed response.
    Remote(u32),
    /// The operation is not legal in the current session phase.
    OutOfSequence,
}

} // verus!
