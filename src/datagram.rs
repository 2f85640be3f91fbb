//! UDP datagrams carried over a byte stream.
//!
//! A carrier stream does not keep the boundaries of what is written to it,
//! so each datagram travels as a frame: its length as a little-endian `u32`,
//! then its bytes. The receiving end cuts the stream back into the same
//! datagrams, whatever the read boundaries were.
use vstd::prelude::*;
use crate::compress::{
    frame_of, le_u32, le_u32_bytes, le_u32_value, lemma_le_u32_round_trip, parse_frame_within,
    push_all, read_le_u32, FrameError, FrameParse,
};

verus! {

/// The largest datagram a frame carries.
pub const MAX_DATAGRAM: usize = 65_535;

pub open spec fn parse_datagram(s: Seq<u8>) -> FrameParse {
    parse_frame_within(s, MAX_DATAGRAM as nat)
}

/// Cuts every complete frame off the front of `s`: the datagrams and the
/// incomplete rest, or an error at the first frame longer than a datagram.
pub open spec fn split_datagrams(s: Seq<u8>) -> Result<(Seq<Seq<u8>>, Seq<u8>), FrameError>
    decreases s.len(),
{
    match parse_datagram(s) {
        FrameParse::Incomplete => Ok((Seq::empty(), s)),
        FrameParse::Oversized => Err(FrameError::Oversized),
        FrameParse::Frame(d, rest) => {
            if rest.len() < s.len() {
                match split_datagrams(rest) {
                    Ok((ds, r)) => Ok((seq![d] + ds, r)),
                    Err(e) => Err(e),
                }
            } else {
                Err(FrameError::Corrupt)
            }
        },
    }
}

/// Concatenation of the frames of a run of datagrams.
pub open spec fn frames_of(ds: Seq<Seq<u8>>) -> Seq<u8>
    decreases ds.len(),
{
    if ds.len() == 0 {
        Seq::empty()
    } else {
        frame_of(ds[0]) + frames_of(ds.drop_first())
    }
}

/// The frame to write for one datagram.
pub fn encode_datagram(d: &[u8]) -> (r: Vec<u8>)
    requires
        d@.len() <= MAX_DATAGRAM,
    ensures
        r@ == frame_of(d@),
{
    let mut r = le_u32_bytes(d.len());
    push_all(&mut r, d);
    r
}

pub open spec fn views(v: Seq<Vec<u8>>) -> Seq<Seq<u8>> {
    v.map_values(|x: Vec<u8>| x@)
}

/// Buffers bytes read from a carrier stream and cuts them into datagrams.
pub struct DatagramDecoder {
    buf: Vec<u8>,
}

impl DatagramDecoder {
    /// The bytes received and not yet cut into datagrams.
    pub closed spec fn view(&self) -> Seq<u8> {
        self.buf@
    }

    pub fn new() -> (r: DatagramDecoder)
        ensures
            r@ == Seq::<u8>::empty(),
    {
        DatagramDecoder { buf: Vec::new() }
    }

    /// Adds `input` to the received bytes and returns every datagram that is
    /// now complete, in order.
    pub fn feed(&mut self, input: &[u8]) -> (r: Result<Vec<Vec<u8>>, FrameError>)
        ensures
            match split_datagrams(old(self)@ + input@) {
                Ok((ds, rest)) => r is Ok && views(r->Ok_0@) == ds && final(self)@ == rest,
                Err(e) => r == Err::<Vec<Vec<u8>>, FrameError>(e),
            },
    {
        let ghost total = self.buf@ + input@;
        push_all(&mut self.buf, input);
        let mut out: Vec<Vec<u8>> = Vec::new();
        loop
            invariant
                total == old(self)@ + input@,
                split_datagrams(total) == match split_datagrams(self.buf@) {
                    Ok((ds, rest)) => Ok::<(Seq<Seq<u8>>, Seq<u8>), FrameError>((views(out@) + ds, rest)),
                    Err(e) => Err(e),
                },
            decreases self.buf@.len(),
        {
            let ghost cur = self.buf@;
            if self.buf.len() < 4 {
                assert(split_datagrams(cur) == Ok::<(Seq<Seq<u8>>, Seq<u8>), FrameError>((Seq::empty(), cur)));
                assert(views(out@) + Seq::<Seq<u8>>::empty() =~= views(out@));
                return Ok(out);
            }
            let n = read_le_u32(self.buf.as_slice());
            if n > MAX_DATAGRAM {
                assert(split_datagrams(cur) == Err::<(Seq<Seq<u8>>, Seq<u8>), FrameError>(FrameError::Oversized));
                return Err(FrameError::Oversized);
            }
            if self.buf.len() - 4 < n {
                assert(split_datagrams(cur) == Ok::<(Seq<Seq<u8>>, Seq<u8>), FrameError>((Seq::empty(), cur)));
                assert(views(out@) + Seq::<Seq<u8>>::empty() =~= views(out@));
                return Ok(out);
            }
            let rest = self.buf.split_off(4 + n);
            let d = self.buf.split_off(4);
            assert(d@ =~= cur.subrange(4, 4 + n as int));
            self.buf = rest;
            let ghost before = views(out@);
            out.push(d);
            proof {
                assert(views(out@) =~= before + seq![d@]);
                match split_datagrams(self.buf@) {
                    Ok((ds, r)) => {
                        assert(before + (seq![d@] + ds) =~= (before + seq![d@]) + ds);
                    },
                    Err(_) => {},
                }
            }
        }
    }

    /// Checks that the stream ended on a frame boundary.
    pub fn finish(&self) -> (r: Result<(), FrameError>)
        ensures
            r is Ok <==> self@.len() == 0,
            r is Err ==> r == Err::<(), FrameError>(FrameError::Truncated),
    {
        if self.buf.len() == 0 {
            Ok(())
        } else {
            Err(FrameError::Truncated)
        }
    }
}

/// Datagrams keep their bytes and their boundaries: the frames written for
/// a run of datagrams, each at most `MAX_DATAGRAM` bytes, are cut back into
/// exactly those datagrams, with nothing left over.
pub proof fn lemma_datagram_round_trip(ds: Seq<Seq<u8>>)
    requires
        forall|i: int| 0 <= i < ds.len() ==> (#[trigger] ds[i]).len() <= MAX_DATAGRAM,
    ensures
        split_datagrams(frames_of(ds)) == Ok::<(Seq<Seq<u8>>, Seq<u8>), FrameError>((ds, Seq::empty())),
    decreases ds.len(),
{
    if ds.len() == 0 {
        assert(parse_datagram(Seq::<u8>::empty()) == FrameParse::Incomplete);
        assert(ds =~= Seq::<Seq<u8>>::empty());
    } else {
        let d0 = ds[0];
        assert(d0.len() <= MAX_DATAGRAM);
        let tail = frames_of(ds.drop_first());
        lemma_datagram_round_trip(ds.drop_first());
        let s = frames_of(ds);
        lemma_le_u32_round_trip(d0.len(), d0 + tail);
        assert(s =~= le_u32(d0.len()) + (d0 + tail));
        assert(s.subrange(4, 4 + d0.len() as int) =~= d0);
        assert(s.subrange(4 + d0.len() as int, s.len() as int) =~= tail);
        assert(parse_datagram(s) == FrameParse::Frame(d0, tail));
        assert(seq![d0] + ds.drop_first() =~= ds);
        assert(tail.len() < s.len());
    }
}

/// Read boundaries do not matter: cutting `a`, then the uncut rest followed
/// by `b`, gives the datagrams that cutting `a + b` at once gives.
pub proof fn lemma_datagram_split_reads(a: Seq<u8>, b: Seq<u8>)
    ensures
        split_datagrams(a + b) == match split_datagrams(a) {
            Ok((d1, r1)) => match split_datagrams(r1 + b) {
                Ok((d2, r2)) => Ok::<(Seq<Seq<u8>>, Seq<u8>), FrameError>((d1 + d2, r2)),
                Err(e) => Err(e),
            },
            Err(e) => Err(e),
        },
    decreases a.len(),
{
    let s = a + b;
    match parse_datagram(a) {
        FrameParse::Incomplete => {
            match split_datagrams(a + b) {
                Ok((d2, r2)) => {
                    assert(Seq::<Seq<u8>>::empty() + d2 =~= d2);
                },
                Err(_) => {},
            }
        },
        FrameParse::Oversized => {
            assert(le_u32_value(s) == le_u32_value(a));
            assert(parse_datagram(s) == FrameParse::Oversized);
        },
        FrameParse::Frame(d, rest) => {
            let n = le_u32_value(a) as int;
            assert(le_u32_value(s) == le_u32_value(a));
            assert(s.subrange(4, 4 + n) =~= d);
            assert(s.subrange(4 + n, s.len() as int) =~= rest + b);
            assert(parse_datagram(s) == FrameParse::Frame(d, rest + b));
            lemma_datagram_split_reads(rest, b);
            match split_datagrams(rest) {
                Ok((d1, r1)) => {
                    match split_datagrams(r1 + b) {
                        Ok((d2, r2)) => {
                            assert(seq![d] + (d1 + d2) =~= (seq![d] + d1) + d2);
                        },
                        Err(_) => {},
                    }
                },
                Err(_) => {},
            }
        },
    }
}

} // verus!
