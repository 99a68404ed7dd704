//! A multiplexing proxy core for a length-prefixed request/response wire
//! protocol: message framing, the per-client correlation-identifier rewrite,
//! and the pending-request table a backend worker uses to route responses
//! back to the client that issued each request.

use vstd::prelude::*;

pub mod dispatch;
pub mod rewrite;
pub mod wire;
pub mod worker;

verus! {

/// The failure classes a proxy operation can report.
#[derive(Clone, Copy, Debug, PartialEq, Eq, Structural)]
pub enum ProxyError {
    /// The peer ended the stream, cleanly or abruptly.
    ConnectionClosed,
    /// A transport-level failure distinct from a clean close.
    IoError,
    /// Signaled to pending reply channels when a backend connection fails.
    BackendUnavailable,
    /// A malformed frame: the length prefix does not describe the bytes.
    ProtocolViolation,
}

} // verus!
