//! A mutually-authenticated tunnel engine that forwards UDP or TCP traffic
//! over a multiplexed carrier connection.
//!
//! Every decision the engine makes (which session a datagram belongs to,
//! when a session is reclaimed, how chunks are framed and compressed, which
//! transport parameters are used) lives here as verified code over plain
//! values. Sockets, tasks and the carrier transport itself are driven by the
//! surrounding application, which feeds events in and performs the actions
//! that come back.
pub mod addr;
pub mod certs;
pub mod compress;
pub mod counters;
pub mod datagram;
pub mod forward;
pub mod pem;
pub mod quic;
pub mod session;

pub use addr::TunnelCacheKey;

use vstd::prelude::*;

verus! {

/// How long, in milliseconds, a tunnel may stay idle before it is closed.
pub const TUNNEL_TIMEOUT_MS: u64 = 300_000;

/// How long to wait for a tunnel to be idle before closing it, in milliseconds.
pub fn get_tunnel_timeout() -> (r: u64)
    ensures
        r == TUNNEL_TIMEOUT_MS,
{
    TUNNEL_TIMEOUT_MS
}

} // verus!
