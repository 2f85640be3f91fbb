//! Socket addresses as plain values, and the key that identifies one UDP flow.
use vstd::prelude::*;

verus! {

/// A socket address: an IP address of either family and a port.
#[allow(inconsistent_fields)]
#[derive(Clone, Copy, Debug, PartialEq, Eq, Hash, Structural)]
pub enum SockAddr {
    /// An IPv4 address, the four octets in network order packed into a `u32`.
    V4 { ip: u32, port: u16 },
    /// An IPv6 address, the sixteen octets in network order packed into a `u128`.
    V6 { ip: u128, port: u16, flowinfo: u32, scope_id: u32 },
}

impl SockAddr {
    pub fn is_ipv4(&self) -> (r: bool)
        ensures
            r == (*self is V4),
    {
        match self {
            SockAddr::V4 { .. } => true,
            SockAddr::V6 { .. } => false,
        }
    }

    pub fn port(&self) -> (r: u16)
        ensures
            r == self.spec_port(),
    {
        match self {
            SockAddr::V4 { port, .. } => *port,
            SockAddr::V6 { port, .. } => *port,
        }
    }

    pub open spec fn spec_port(&self) -> u16 {
        match *self {
            SockAddr::V4 { port, .. } => port,
            SockAddr::V6 { port, .. } => port,
        }
    }
}

/// The unspecified address of the given family with port zero: `0.0.0.0:0`
/// or `[::]:0`.
pub open spec fn unspecified_of(x: SockAddr) -> SockAddr {
    match x {
        SockAddr::V4 { .. } => SockAddr::V4 { ip: 0, port: 0 },
        SockAddr::V6 { .. } => SockAddr::V6 { ip: 0, port: 0, flowinfo: 0, scope_id: 0 },
    }
}

/// The address to bind a fresh local socket to so that it can reach `x`:
/// any interface, any port, in the same address family as `x`.
pub fn matching_bind_address(x: SockAddr) -> (r: SockAddr)
    ensures
        r == unspecified_of(x),
        (r is V4) == (x is V4),
        r.spec_port() == 0,
{
    if x.is_ipv4() {
        SockAddr::V4 { ip: 0, port: 0 }
    } else {
        SockAddr::V6 { ip: 0, port: 0, flowinfo: 0, scope_id: 0 }
    }
}

/// Identifies one logical UDP conversation: the local socket it arrived on,
/// the peer it came from, and the carrier's remote end. Two keys are equal
/// exactly when all three addresses are.
#[derive(Clone, Copy, Debug, PartialEq, Eq, Hash, Structural)]
pub struct TunnelCacheKey {
    pub addr_a: SockAddr,
    pub from: SockAddr,
    pub addr_b: SockAddr,
}

impl TunnelCacheKey {
    pub fn new(addr_a: SockAddr, from: SockAddr, addr_b: SockAddr) -> (r: TunnelCacheKey)
        ensures
            r.addr_a == addr_a,
            r.from == from,
            r.addr_b == addr_b,
    {
        TunnelCacheKey { addr_a, from, addr_b }
    }
}

} // verus!
