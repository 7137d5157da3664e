//! Framed byte transport over TCP and UDP: the rules by which connections frame,
//! queue, route and hand over what is sent and received.
//!
//! - [`bytechannel`] and [`shared`]: bounded buffers of bytes between two tasks, and
//!   the state that their ends share.
//! - [`packet`]: the frames that carry packets through a byte channel.
//! - [`endpoint`] and [`session`]: the caller's side and the transport's side of a
//!   connection.
//! - [`udpserver`]: the routing of events to a server's many connections.
//! - [`tcp`]: what a TCP connection makes of its system calls.
//!
//! The library opens no socket and starts no thread: whoever uses it does, and
//! hands in what happened.

use vstd::prelude::*;

pub mod backoff;
pub mod backpressurebuffer;
pub mod buffer;
pub mod bytechannel;
pub mod endpoint;
pub mod errors;
pub mod event;
pub mod outbox;
pub mod packet;
pub mod peer;
pub mod session;
pub mod shared;
pub mod tcp;
pub mod udpserver;

verus! {

/// Why a value could not be read out of bytes.
#[derive(Debug)]
pub enum ReadError {
    /// There are too few bytes.
    NotEnoughBytes { needed: usize, found: usize },
    /// The bytes are no packet.
    InvalidPacket,
    /// The packet came before its time.
    PacketAheadOfTime,
}

} // verus!
