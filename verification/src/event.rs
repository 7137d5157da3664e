//! What a transport reports of a connection.

use vstd::prelude::*;

verus! {

/// Why a connection failed, as its client sees it.
#[derive(Clone, Copy, Debug, PartialEq, Eq, Structural)]
pub enum ErrorType {
    /// The other end did not answer in time.
    Timeout,
    /// The two ends speak different versions of the protocol.
    Version,
    /// The two ends are configured differently.
    Config,
    /// The server takes no more clients.
    ServerFull,
}

/// What happened to a connection.
#[derive(Debug, PartialEq, Eq)]
pub enum Event {
    /// It is established.
    Connect,
    /// It is closed.
    Disconnect,
    /// A packet with these bytes has come.
    Receive(Vec<u8>),
    /// It failed.
    Error(ErrorType),
}

} // verus!
