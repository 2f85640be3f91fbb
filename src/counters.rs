//! Traffic counters: packets and bytes sent and received, raw and
//! compressed. They only ever grow, wrapping at the width of `usize`, and are
//! read for observability only.
use vstd::prelude::*;

verus! {

/// `a + b`, wrapping at the width of `usize`.
pub open spec fn wrapping(a: usize, b: usize) -> usize {
    if a + b > usize::MAX {
        (a + b - usize::MAX - 1) as usize
    } else {
        (a + b) as usize
    }
}

fn add_wrapping(a: usize, b: usize) -> (r: usize)
    ensures
        r == wrapping(a, b),
{
    if a > usize::MAX - b {
        b - (usize::MAX - a) - 1
    } else {
        a + b
    }
}

#[derive(Clone, Copy, Debug, PartialEq, Eq, Structural)]
pub struct TunnelCounters {
    pub packets_sent: usize,
    pub packets_recv: usize,
    pub bytes_sent: usize,
    pub bytes_recv: usize,
    pub compressed_bytes_sent: usize,
    pub compressed_bytes_recv: usize,
}

impl TunnelCounters {
    /// All counters at zero.
    pub fn new() -> (r: TunnelCounters)
        ensures
            r == (TunnelCounters {
                packets_sent: 0,
                packets_recv: 0,
                bytes_sent: 0,
                bytes_recv: 0,
                compressed_bytes_sent: 0,
                compressed_bytes_recv: 0,
            }),
    {
        TunnelCounters {
            packets_sent: 0,
            packets_recv: 0,
            bytes_sent: 0,
            bytes_recv: 0,
            compressed_bytes_sent: 0,
            compressed_bytes_recv: 0,
        }
    }

    /// Records one packet sent: `n` bytes, `compressed` of them on the wire
    /// after compression.
    pub fn sent(&mut self, n: usize, compressed: usize)
        ensures
            *final(self) == (TunnelCounters {
                packets_sent: wrapping(old(self).packets_sent, 1),
                bytes_sent: wrapping(old(self).bytes_sent, n),
                compressed_bytes_sent: wrapping(old(self).compressed_bytes_sent, compressed),
                ..*old(self)
            }),
    {
        self.packets_sent = add_wrapping(self.packets_sent, 1);
        self.bytes_sent = add_wrapping(self.bytes_sent, n);
        self.compressed_bytes_sent = add_wrapping(self.compressed_bytes_sent, compressed);
    }

    /// Records one packet received: `n` bytes, `compressed` of them on the
    /// wire before decompression.
    pub fn recv(&mut self, n: usize, compressed: usize)
        ensures
            *final(self) == (TunnelCounters {
                packets_recv: wrapping(old(self).packets_recv, 1),
                bytes_recv: wrapping(old(self).bytes_recv, n),
                compressed_bytes_recv: wrapping(old(self).compressed_bytes_recv, compressed),
                ..*old(self)
            }),
    {
        self.packets_recv = add_wrapping(self.packets_recv, 1);
        self.bytes_recv = add_wrapping(self.bytes_recv, n);
        self.compressed_bytes_recv = add_wrapping(self.compressed_bytes_recv, compressed);
    }

    /// Whether anything was recorded since `earlier` was taken.
    pub fn changed_since(&self, earlier: &TunnelCounters) -> (r: bool)
        ensures
            r == (*self != *earlier),
    {
        !(self.packets_sent == earlier.packets_sent && self.packets_recv == earlier.packets_recv
            && self.bytes_sent == earlier.bytes_sent && self.bytes_recv == earlier.bytes_recv
            && self.compressed_bytes_sent == earlier.compressed_bytes_sent
            && self.compressed_bytes_recv == earlier.compressed_bytes_recv)
    }
}

} // verus!
