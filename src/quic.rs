//! Transport policy: the parameters a carrier connection or endpoint is
//! built with.
use vstd::prelude::*;
use vstd::string::StringSliceAdditionalSpecFns;
use crate::{get_tunnel_timeout, TUNNEL_TIMEOUT_MS};

pub use crate::addr::matching_bind_address;

verus! {

/// How long, in milliseconds, to wait for a handshake to complete before the
/// connection attempt fails.
pub const HANDSHAKE_TIMEOUT_MS: u64 = 30_000;

/// The bidirectional stream limit: effectively unbounded.
pub const MAX_BIDI_STREAMS: u32 = 65_535;

/// The congestion controller of a connection.
#[derive(Clone, Copy, Debug, PartialEq, Eq, Structural)]
pub enum CongestionMode {
    /// Good for high bandwidth networks.
    Brr,
    /// Good all around.
    Cubic,
    /// Good for high loss networks.
    NewReno,
}

impl Default for CongestionMode {
    fn default() -> (r: CongestionMode)
        ensures
            r == CongestionMode::NewReno,
    {
        CongestionMode::NewReno
    }
}

/// Which end of the carrier connection a policy is for.
#[derive(Clone, Copy, Debug, PartialEq, Eq, Structural)]
pub enum Role {
    /// The side that opens the connection.
    Initiator,
    /// The side that accepts connections.
    Acceptor,
}

/// The parameters a carrier connection is built with.
#[derive(Clone, Copy, Debug, PartialEq, Eq, Structural)]
pub struct TransportPolicy {
    pub congestion_mode: CongestionMode,
    /// The connection closes after this long without traffic or keep-alives.
    pub idle_timeout_ms: u64,
    /// How often to probe an idle connection; only one side probes.
    pub keep_alive_interval_ms: Option<u64>,
    pub max_concurrent_bidi_streams: u32,
    /// Always zero: the tunnel only uses bidirectional streams.
    pub max_concurrent_uni_streams: u32,
    /// Adds a round trip to the handshake to make address spoofing harder.
    pub stateless_retry: bool,
    /// Sends data before the handshake completes where the peer accepts it.
    pub early_data: bool,
}

/// The lower-case form of an ASCII letter; other bytes are unchanged.
pub open spec fn ascii_lower(b: u8) -> u8 {
    if 65 <= b <= 90 {
        (b + 32) as u8
    } else {
        b
    }
}

/// `s` spells the lower-case `name` up to ASCII case.
pub open spec fn matches_name(s: Seq<u8>, name: Seq<u8>) -> bool {
    &&& s.len() == name.len()
    &&& forall|i: int| 0 <= i < s.len() ==> ascii_lower(#[trigger] s[i]) == name[i]
}

pub open spec fn brr_name() -> Seq<u8> {
    seq![98u8, 114u8, 114u8]
}

pub open spec fn cubic_name() -> Seq<u8> {
    seq![99u8, 117u8, 98u8, 105u8, 99u8]
}

pub open spec fn new_reno_name() -> Seq<u8> {
    seq![110u8, 101u8, 119u8, 114u8, 101u8, 110u8, 111u8]
}

fn lower(b: u8) -> (r: u8)
    ensures
        r == ascii_lower(b),
{
    if 65 <= b && b <= 90 {
        b + 32
    } else {
        b
    }
}

/// Whether `s` spells the lower-case `name` up to ASCII case.
pub fn eq_ignore_case(s: &[u8], name: &[u8]) -> (r: bool)
    ensures
        r == matches_name(s@, name@),
{
    if s.len() != name.len() {
        return false;
    }
    let mut i: usize = 0;
    while i < s.len()
        invariant
            s@.len() == name@.len(),
            i <= s@.len(),
            forall|j: int| 0 <= j < i ==> ascii_lower(#[trigger] s@[j]) == name@[j],
        decreases s@.len() - i,
    {
        if lower(s[i]) != name[i] {
            return false;
        }
        i = i + 1;
    }
    true
}

impl CongestionMode {
    /// Parses a congestion mode from its name, in any ASCII case.
    pub fn parse(s: &str) -> (r: Option<CongestionMode>)
        ensures
            r == (if matches_name(s.spec_bytes(), brr_name()) {
                Some(CongestionMode::Brr)
            } else if matches_name(s.spec_bytes(), cubic_name()) {
                Some(CongestionMode::Cubic)
            } else if matches_name(s.spec_bytes(), new_reno_name()) {
                Some(CongestionMode::NewReno)
            } else {
                None
            }),
    {
        let b = s.as_bytes();
        let brr: Vec<u8> = vec![98u8, 114u8, 114u8];
        let cubic: Vec<u8> = vec![99u8, 117u8, 98u8, 105u8, 99u8];
        let new_reno: Vec<u8> = vec![110u8, 101u8, 119u8, 114u8, 101u8, 110u8, 111u8];
        assert(brr@ =~= brr_name());
        assert(cubic@ =~= cubic_name());
        assert(new_reno@ =~= new_reno_name());
        if eq_ignore_case(b, brr.as_slice()) {
            Some(CongestionMode::Brr)
        } else if eq_ignore_case(b, cubic.as_slice()) {
            Some(CongestionMode::Cubic)
        } else if eq_ignore_case(b, new_reno.as_slice()) {
            Some(CongestionMode::NewReno)
        } else {
            None
        }
    }
}

/// The policy built for the given congestion mode, with or without
/// keep-alives; used by both ends, so neither retry nor early data is
/// decided here.
pub open spec fn base_policy(keep_alive: bool, congestion_mode: CongestionMode) -> TransportPolicy {
    TransportPolicy {
        congestion_mode,
        idle_timeout_ms: TUNNEL_TIMEOUT_MS,
        keep_alive_interval_ms: if keep_alive {
            Some((TUNNEL_TIMEOUT_MS / 3) as u64)
        } else {
            None
        },
        max_concurrent_bidi_streams: MAX_BIDI_STREAMS,
        max_concurrent_uni_streams: 0,
        stateless_retry: false,
        early_data: false,
    }
}

/// Builds the transport parameters for a connection: no unidirectional
/// streams, effectively unbounded bidirectional ones, the tunnel's idle
/// timeout, and keep-alives at a third of it if `keep_alive` is set.
pub fn build_transport_config(keep_alive: bool, congestion_mode: CongestionMode) -> (r: TransportPolicy)
    ensures
        r == base_policy(keep_alive, congestion_mode),
        r.keep_alive_interval_ms is Some <==> keep_alive,
        keep_alive ==> r.keep_alive_interval_ms->Some_0 < r.idle_timeout_ms,
{
    let timeout = get_tunnel_timeout();
    let keep_alive_interval_ms = if keep_alive {
        Some(timeout / 3)
    } else {
        None
    };
    TransportPolicy {
        congestion_mode,
        idle_timeout_ms: timeout,
        keep_alive_interval_ms,
        max_concurrent_bidi_streams: MAX_BIDI_STREAMS,
        max_concurrent_uni_streams: 0,
        stateless_retry: false,
        early_data: false,
    }
}

/// Builds the policy for one end of the tunnel. The initiator probes with
/// keep-alives, since the acceptor cannot re-establish the connection; the
/// acceptor uses stateless retry against spoofed sources. Both accept early
/// data.
pub fn policy_for_role(role: Role, congestion_mode: CongestionMode) -> (r: TransportPolicy)
    ensures
        r == (TransportPolicy {
            stateless_retry: role == Role::Acceptor,
            early_data: true,
            ..base_policy(role == Role::Initiator, congestion_mode)
        }),
        r.keep_alive_interval_ms is Some <==> role == Role::Initiator,
        r.stateless_retry <==> role == Role::Acceptor,
{
    let is_initiator = match role {
        Role::Initiator => true,
        Role::Acceptor => false,
    };
    let base = build_transport_config(is_initiator, congestion_mode);
    TransportPolicy { stateless_retry: !is_initiator, early_data: true, ..base }
}

} // verus!
