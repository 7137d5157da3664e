//! The addresses of the other ends of connections.

use vstd::prelude::*;

verus! {

/// A socket address.
#[derive(Clone, Copy, Debug, PartialEq, Eq, Structural)]
pub enum PeerAddr {
    /// An IPv4 address and a port.
    V4 { ip4: u32, port: u16 },
    /// An IPv6 address and a port, with the flow and the scope.
    V6 { ip6: u128, port: u16, flowinfo: u32, scope_id: u32 },
}

/// An address as the key of a table.
pub type PeerKey = (u8, u128, u16, u32, u32);

/// The key of an address.
pub open spec fn key_of(addr: PeerAddr) -> PeerKey {
    match addr {
        PeerAddr::V4 { ip4, port } => (4u8, ip4 as u128, port, 0u32, 0u32),
        PeerAddr::V6 { ip6, port, flowinfo, scope_id } => (6u8, ip6, port, flowinfo, scope_id),
    }
}

impl PeerAddr {
    /// The key of this address.
    pub fn key(self) -> (key: PeerKey)
        ensures
            key == key_of(self),
    {
        match self {
            PeerAddr::V4 { ip4, port } => (4, ip4 as u128, port, 0, 0),
            PeerAddr::V6 { ip6, port, flowinfo, scope_id } => (6, ip6, port, flowinfo, scope_id),
        }
    }

    /// The address that stands for none: IPv4 zero, port zero.
    pub fn unspecified() -> (addr: PeerAddr)
        ensures
            addr == (PeerAddr::V4 { ip4: 0, port: 0 }),
    {
        PeerAddr::V4 { ip4: 0, port: 0 }
    }
}

/// Two addresses have the same key only if they are the same.
pub proof fn law_keys_tell_addresses_apart(left: PeerAddr, right: PeerAddr)
    ensures
        key_of(left) == key_of(right) <==> left == right,
{
}

} // verus!
