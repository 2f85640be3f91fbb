//! The decisions of the UDP and TCP forwarding engines. The caller performs
//! the I/O and reports what happened; these functions say what to do next.
use vstd::prelude::*;
use crate::addr::{matching_bind_address, unspecified_of, SockAddr, TunnelCacheKey};
use crate::session::{take_reader_step, touch_step, CacheView, SessionCache};

verus! {

/// What one wait on a stream or socket produced.
#[derive(Clone, Copy, Debug, PartialEq, Eq, Structural)]
pub enum StreamEvent {
    /// `n` bytes arrived.
    Data(usize),
    /// Nothing arrived within the idle window.
    Idle,
    /// The peer ended the stream or closed the connection.
    Closed,
    /// A read or write failed.
    Failed,
}

/// What a relay task does next.
#[derive(Clone, Copy, Debug, PartialEq, Eq, Structural)]
pub enum TaskStep {
    /// Forward the `n` bytes that arrived and keep going.
    Forward(usize),
    /// Stop: this is how a flow normally ends, not an error.
    Finish,
    /// Stop and report the failure.
    Fail,
}

/// The step of a relay task after `ev`. Idleness, end of stream and a closed
/// connection end the task cleanly; only failures are errors.
pub fn reader_step(ev: StreamEvent) -> (r: TaskStep)
    ensures
        r == match ev {
            StreamEvent::Data(n) => TaskStep::Forward(n),
            StreamEvent::Idle => TaskStep::Finish,
            StreamEvent::Closed => TaskStep::Finish,
            StreamEvent::Failed => TaskStep::Fail,
        },
{
    match ev {
        StreamEvent::Data(n) => TaskStep::Forward(n),
        StreamEvent::Idle => TaskStep::Finish,
        StreamEvent::Closed => TaskStep::Finish,
        StreamEvent::Failed => TaskStep::Fail,
    }
}

/// Bookkeeping after a datagram of flow `key` was written to its session at
/// time `now`. A successful write restarts the flow's idle window; the
/// result says whether the caller must start the flow's reverse-direction
/// reader, which happens once per session. A failed write changes nothing.
pub fn after_send(cache: &mut SessionCache, key: TunnelCacheKey, sent: bool, now: u64) -> (spawn_reader: bool)
    requires
        old(cache).wf(),
    ensures
        final(cache).wf(),
        !sent ==> final(cache)@ == old(cache)@ && !spawn_reader,
        sent ==> exists|mid: CacheView, touched: bool|
            {
                &&& touch_step(old(cache)@, key, now as int, mid, touched)
                &&& take_reader_step(mid, key, final(cache)@, spawn_reader)
            },
{
    if !sent {
        return false;
    }
    let ghost pre = cache@;
    let touched = cache.touch(key, now);
    let ghost mid = cache@;
    let r = cache.take_reader(key);
    assert(touch_step(pre, key, now as int, mid, touched) && take_reader_step(mid, key, cache@, r));
    r
}

/// The outcome of accepting the next stream of a carrier connection.
#[derive(Clone, Copy, Debug, PartialEq, Eq, Structural)]
pub enum AcceptOutcome {
    Stream,
    /// The peer closed the connection at the application level.
    ApplicationClosed,
    Failed,
}

/// What the accepting side does with an accepted stream.
#[derive(Clone, Copy, Debug, PartialEq, Eq, Structural)]
pub enum ServerStep {
    /// Bind a fresh local socket to `bind`, connect it to the destination,
    /// and relay between it and the stream. Sockets are never shared between
    /// streams.
    Serve { bind: SockAddr },
    /// The connection ended cleanly: stop serving it.
    Shutdown,
    /// The connection failed: stop serving it and report the error.
    Fail,
}

/// The step after accepting a stream on a connection from `peer`.
pub fn on_stream_accepted(outcome: AcceptOutcome, peer: SockAddr) -> (r: ServerStep)
    ensures
        r == match outcome {
            AcceptOutcome::Stream => ServerStep::Serve { bind: unspecified_of(peer) },
            AcceptOutcome::ApplicationClosed => ServerStep::Shutdown,
            AcceptOutcome::Failed => ServerStep::Fail,
        },
{
    match outcome {
        AcceptOutcome::Stream => ServerStep::Serve { bind: matching_bind_address(peer) },
        AcceptOutcome::ApplicationClosed => ServerStep::Shutdown,
        AcceptOutcome::Failed => ServerStep::Fail,
    }
}

/// The nearby service a reverse-proxy client forwards carrier streams to.
#[derive(Debug)]
pub enum NearbyTarget {
    Tcp(SockAddr),
    /// A local-domain socket path.
    Unix(String),
}

#[derive(Clone, Copy, Debug, PartialEq, Eq, Structural)]
pub enum TargetError {
    /// Neither a TCP address nor a socket path was given.
    Missing,
    /// Both were given.
    Ambiguous,
}

/// Picks the nearby service: exactly one of a TCP address and a socket path
/// must be given.
pub fn nearby_target(tcp: Option<SockAddr>, unix: Option<String>) -> (r: Result<NearbyTarget, TargetError>)
    ensures
        match (tcp, unix) {
            (Some(a), None) => r is Ok && r->Ok_0 is Tcp && r->Ok_0->Tcp_0 == a,
            (None, Some(p)) => r is Ok && r->Ok_0 is Unix && r->Ok_0->Unix_0@ == p@,
            (None, None) => r == Err::<NearbyTarget, TargetError>(TargetError::Missing),
            (Some(_), Some(_)) => r == Err::<NearbyTarget, TargetError>(TargetError::Ambiguous),
        },
{
    match (tcp, unix) {
        (Some(a), None) => Ok(NearbyTarget::Tcp(a)),
        (None, Some(p)) => Ok(NearbyTarget::Unix(p)),
        (None, None) => Err(TargetError::Missing),
        (Some(_), Some(_)) => Err(TargetError::Ambiguous),
    }
}

} // verus!
