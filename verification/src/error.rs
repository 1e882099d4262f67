use vstd::prelude::*;

verus! {

/// Every way an operation of this crate can fail.
#[derive(Debug, Clone, Copy, PartialEq, Eq, Structural)]
pub enum SocketError {
    /// The listening endpoint could not be established.
    BindFailed,
    /// The outgoing connection could not be established.
    ConnectFailed,
    /// A peer with the same identity is already in the directory.
    DuplicateIdentity,
    /// No peer has a message waiting.
    NoMessage,
    /// A routed message needs a destination frame and at least one payload frame.
    InvalidMessage,
    /// The destination identity names no connected peer.
    DestinationNotFound,
    /// The destination's queue is full.
    SendFailed,
    /// The socket role does not offer this operation.
    UnsupportedOperation,
    /// The connection, or the socket itself, is gone.
    ConnectionClosed,
}

} // verus!
