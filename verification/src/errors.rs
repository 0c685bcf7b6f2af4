//! The error taxonomy of the driver.

use vstd::prelude::*;

verus! {

/// Why the value decoder rejected a byte sequence.
#[derive(Clone, Copy, PartialEq, Eq, Structural, Debug)]
pub enum DecodeError {
    /// The input ended before the bytes that a marker promised.
    Truncated,
    /// A marker byte that the wire format does not define.
    UnknownMarker(u8),
    /// A structure carried a signature byte that names no known structure.
    UnknownSignature(u8),
    /// A string payload was not valid UTF-8.
    BadUtf8,
    /// A message whose fields do not have the declared shape, such as a
    /// record whose arity differs from the stream's field list.
    WrongShape,
}

/// Why the framer rejected a chunk stream.
#[derive(Clone, Copy, PartialEq, Eq, Structural, Debug)]
pub enum FrameError {
    /// A chunk length prefix promised more bytes than remain.
    Truncated,
    /// The stream ended before the zero-length terminator chunk.
    Unterminated,
}

/// A `Failure` response from the server: fatal to the current query, not to
/// the connection or the pool.
#[derive(Clone, Debug)]
pub struct ServerFailure {
    /// The server's error code.
    pub code: String,
    /// The server's human-readable message.
    pub message: String,
}

/// Every failure a caller of the driver can observe.
#[derive(Clone, Debug)]
pub enum Error {
    /// The transport failed, or the handshake was refused.
    ConnectFailed,
    /// Malformed wire data: fatal to the connection that produced it.
    Protocol(DecodeError),
    /// A malformed chunk stream: fatal to the connection that produced it.
    Frame(FrameError),
    /// The server reported a query-level failure.
    ServerFailure(ServerFailure),
    /// The pool is at its bound and no idle connection exists.
    PoolExhausted,
    /// No connection became available within the allowed wait. The pool
    /// itself never blocks — it fails at once with `PoolExhausted` — so
    /// this class is for callers that put a bounded blocking wait above
    /// the pool and exhaust it.
    AcquireTimeout,
    /// An operation was used against its contract, such as starting a second
    /// stream on a busy connection.
    UsageError,
}

impl Error {
    /// True for errors that are fatal to the connection they occurred on.
    pub open spec fn spec_is_fatal_to_connection(&self) -> bool {
        self is ConnectFailed || self is Protocol || self is Frame
    }

    /// True for errors that are fatal to the connection they occurred on.
    pub fn is_fatal_to_connection(&self) -> (r: bool)
        ensures
            r == self.spec_is_fatal_to_connection(),
    {
        match self {
            Error::ConnectFailed => true,
            Error::Protocol(_) => true,
            Error::Frame(_) => true,
            _ => false,
        }
    }
}

} // verus!
