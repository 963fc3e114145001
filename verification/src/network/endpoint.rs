//! Network endpoints: the address and port a datagram was sent from.

use vstd::prelude::*;

verus! {

/// The sender of a datagram, as the transport reports it.
///
/// An endpoint is the primary key of a connected player. Two endpoints are
/// the same client exactly when every field agrees; an IPv4 endpoint never
/// equals an IPv6 one.
#[derive(Clone, Copy, Debug, PartialEq, Eq, Hash, Structural)]
pub enum Endpoint {
    /// An IPv4 address, most significant octet first, and a port.
    V4 { ip4: u32, port: u16 },
    /// An IPv6 address, most significant octet first, with its port, flow
    /// information and scope identifier.
    V6 { ip6: u128, port: u16, flowinfo: u32, scope_id: u32 },
}

impl Endpoint {
    /// The IPv4 address `a.b.c.d` as one number, most significant octet first.
    pub open spec fn ipv4_bits(a: u8, b: u8, c: u8, d: u8) -> u32 {
        (a as u32) << 24 | (b as u32) << 16 | (c as u32) << 8 | (d as u32)
    }

    /// The IPv4 endpoint `a.b.c.d:port`.
    pub fn v4(a: u8, b: u8, c: u8, d: u8, port: u16) -> (e: Endpoint)
        ensures
            e == (Endpoint::V4 { ip4: Self::ipv4_bits(a, b, c, d), port }),
    {
        let ip4: u32 = (a as u32) << 24 | (b as u32) << 16 | (c as u32) << 8 | (d as u32);
        Endpoint::V4 { ip4, port }
    }
}

} // verus!
