//! Peer addresses and the keys by which sessions are told apart.

use vstd::prelude::*;

verus! {

/// A UDP peer's socket address: the values by which two addresses are
/// told apart (an IPv4 address and port, or an IPv6 address, port, flow
/// information and scope id).
#[derive(Debug, Clone, Copy, PartialEq, Eq, Structural, Hash)]
pub enum PeerAddr {
    V4 { ip: u32, port: u16 },
    V6 { ip: u128, port: u16, flowinfo: u32, scope_id: u32 },
}

/// A session's identity on a shared socket: the peer's address and the
/// conversation id.
#[derive(Debug, Clone, Copy, PartialEq, Eq, Structural, Hash)]
pub struct SessionKey {
    pub addr: PeerAddr,
    pub conv: u32,
}

impl PeerAddr {
    /// The local address a client binds to for talking to `self`: the
    /// unspecified address of the same family, with port 0.
    pub fn local_bind_for(&self) -> (a: PeerAddr)
        ensures
            a == (match *self {
                PeerAddr::V4 { .. } => PeerAddr::V4 { ip: 0, port: 0 },
                PeerAddr::V6 { .. } => PeerAddr::V6 { ip: 0, port: 0, flowinfo: 0, scope_id: 0 },
            }),
    {
        match *self {
            PeerAddr::V4 { .. } => PeerAddr::V4 { ip: 0, port: 0 },
            PeerAddr::V6 { .. } => PeerAddr::V6 { ip: 0, port: 0, flowinfo: 0, scope_id: 0 },
        }
    }
}

} // verus!
