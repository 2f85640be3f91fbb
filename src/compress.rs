//! Optional per-direction compression while relaying bytes between a local
//! stream and a carrier stream.
//!
//! Outbound, each chunk read from the source is compressed on its own with
//! LZ4 (the block format with the uncompressed size in front) and written as
//! a frame: the block's length as a little-endian `u32`, then the block.
//! Inbound, the bytes read from the carrier are buffered, cut into frames
//! whatever the read boundaries were, and each frame is decompressed. Both
//! ends must agree: a peer that does not compress sends bytes that do not
//! decode as frames.
//!
//! Compressing traffic that mixes attacker-chosen plaintext with secrets
//! exposes it to compression-oracle attacks; enabling it is the caller's
//! decision.
use vstd::prelude::*;
use vstd::string::StringSliceAdditionalSpecFns;
use crate::quic::{eq_ignore_case, matches_name};

verus! {

/// How many bytes are read from the source per chunk.
pub const CHUNK_SIZE: usize = 8192;

/// The largest block that LZ4 produces for a chunk of `CHUNK_SIZE` bytes,
/// size prefix included.
pub const MAX_BLOCK: usize = 9035;

/// The compression algorithm of a relay.
#[derive(Clone, Copy, Debug, PartialEq, Eq, Structural)]
pub enum CompressAlgo {
    /// Bytes are copied unchanged.
    Uncompressed,
    /// Each chunk is an LZ4 block.
    Lz4,
}

impl Default for CompressAlgo {
    fn default() -> (r: CompressAlgo)
        ensures
            r == CompressAlgo::Uncompressed,
    {
        CompressAlgo::Uncompressed
    }
}

impl CompressAlgo {
    /// Parses an algorithm from its name (`none` or `lz4`), in any ASCII case.
    pub fn parse(s: &str) -> (r: Option<CompressAlgo>)
        ensures
            r == (if matches_name(s.spec_bytes(), seq![110u8, 111u8, 110u8, 101u8]) {
                Some(CompressAlgo::Uncompressed)
            } else if matches_name(s.spec_bytes(), seq![108u8, 122u8, 52u8]) {
                Some(CompressAlgo::Lz4)
            } else {
                None
            }),
    {
        let b = s.as_bytes();
        let none: Vec<u8> = vec![110u8, 111u8, 110u8, 101u8];
        let lz4: Vec<u8> = vec![108u8, 122u8, 52u8];
        assert(none@ =~= seq![110u8, 111u8, 110u8, 101u8]);
        assert(lz4@ =~= seq![108u8, 122u8, 52u8]);
        if eq_ignore_case(b, none.as_slice()) {
            Some(CompressAlgo::Uncompressed)
        } else if eq_ignore_case(b, lz4.as_slice()) {
            Some(CompressAlgo::Lz4)
        } else {
            None
        }
    }
}

/// What one direction of a relay does to the bytes it copies.
#[derive(Clone, Copy, Debug, PartialEq, Eq, Structural)]
pub enum CompressDirection {
    /// Bytes are copied unchanged.
    Passthrough,
    Compress(CompressAlgo),
    Decompress(CompressAlgo),
}

/// Why an inbound byte stream could not be decoded.
#[derive(Clone, Copy, Debug, PartialEq, Eq, Structural)]
pub enum FrameError {
    /// A frame announced a block longer than any chunk compresses to.
    Oversized,
    /// A block was not valid LZ4 data for a chunk.
    Corrupt,
    /// The stream ended in the middle of a frame.
    Truncated,
}

/// What `lz4_flex::compress_prepend_size` returns for `b`.
pub uninterp spec fn lz4_block_of(b: Seq<u8>) -> Seq<u8>;

/// What `lz4_flex::decompress_size_prepended` returns for `b`: the bytes, or
/// `None` where it reports an error.
pub uninterp spec fn lz4_decompressed_of(b: Seq<u8>) -> Option<Seq<u8>>;

/// `n` as four little-endian bytes.
pub open spec fn le_u32(n: nat) -> Seq<u8> {
    seq![(n % 256) as u8, ((n / 256) % 256) as u8, ((n / 65536) % 256) as u8, ((n / 16777216) % 256) as u8]
}

/// The number held by the first four bytes of `b`, little-endian.
pub open spec fn le_u32_value(b: Seq<u8>) -> nat {
    (b[0] + 256 * b[1] + 65536 * b[2] + 16777216 * b[3]) as nat
}

/// A frame: the block's length, then the block.
pub open spec fn frame_of(block: Seq<u8>) -> Seq<u8> {
    le_u32(block.len()) + block
}

/// What the encoder writes for `chunk`.
pub open spec fn encoded(chunk: Seq<u8>) -> Seq<u8> {
    frame_of(lz4_block_of(chunk))
}

/// `block` is an LZ4 block of `chunk` as the decoder accepts it: it fits a
/// frame, announces the chunk's length, and decompresses to the chunk.
pub open spec fn sound_block(chunk: Seq<u8>, block: Seq<u8>) -> bool {
    &&& chunk.len() <= CHUNK_SIZE
    &&& 4 <= block.len() <= MAX_BLOCK
    &&& block.subrange(0, 4) == le_u32(chunk.len())
    &&& lz4_decompressed_of(block) == Some(chunk)
}

/// A block decompressed as the decoder does: its announced size must be at
/// most a chunk.
pub open spec fn decompressed(block: Seq<u8>) -> Option<Seq<u8>> {
    if block.len() >= 4 && le_u32_value(block) <= CHUNK_SIZE {
        lz4_decompressed_of(block)
    } else {
        None
    }
}

/// The first frame of a byte stream.
pub enum FrameParse {
    /// Not all of the first frame has arrived yet.
    Incomplete,
    /// The first frame announces a block longer than `MAX_BLOCK`.
    Oversized,
    /// The first frame's block, and the bytes after the frame.
    Frame(Seq<u8>, Seq<u8>),
}

/// The first frame of `s`, whose body may be at most `limit` bytes long.
pub open spec fn parse_frame_within(s: Seq<u8>, limit: nat) -> FrameParse {
    if s.len() < 4 {
        FrameParse::Incomplete
    } else if le_u32_value(s) > limit {
        FrameParse::Oversized
    } else if s.len() < 4 + le_u32_value(s) {
        FrameParse::Incomplete
    } else {
        FrameParse::Frame(
            s.subrange(4, 4 + le_u32_value(s) as int),
            s.subrange(4 + le_u32_value(s) as int, s.len() as int),
        )
    }
}

/// The first frame of a compressed stream.
pub open spec fn parse_frame(s: Seq<u8>) -> FrameParse {
    parse_frame_within(s, MAX_BLOCK as nat)
}

/// Decodes every complete frame at the front of `s`: the bytes they
/// decompress to and the incomplete rest, or the error at the first frame
/// that does not decode.
pub open spec fn drain_frames(s: Seq<u8>) -> Result<(Seq<u8>, Seq<u8>), FrameError>
    decreases s.len(),
{
    match parse_frame(s) {
        FrameParse::Incomplete => Ok((Seq::empty(), s)),
        FrameParse::Oversized => Err(FrameError::Oversized),
        FrameParse::Frame(block, rest) => {
            if rest.len() < s.len() {
                match decompressed(block) {
                    Some(d) => match drain_frames(rest) {
                        Ok((o, r)) => Ok((d + o, r)),
                        Err(e) => Err(e),
                    },
                    None => Err(FrameError::Corrupt),
                }
            } else {
                Err(FrameError::Corrupt)
            }
        },
    }
}

/// Concatenation of a sequence of byte strings.
pub open spec fn concat(parts: Seq<Seq<u8>>) -> Seq<u8>
    decreases parts.len(),
{
    if parts.len() == 0 {
        Seq::empty()
    } else {
        parts[0] + concat(parts.drop_first())
    }
}

/// Relies on `lz4_flex::compress_prepend_size`: the uncompressed length as a
/// little-endian `u32`, then the compressed block, in at most the size that
/// `get_maximum_output_size` gives plus the prefix; `decompress_size_prepended`
/// turns it back into `b`.
#[verifier::external_body]
fn lz4_compress(b: &[u8]) -> (r: Vec<u8>)
    requires
        b@.len() <= u32::MAX,
    ensures
        r@ == lz4_block_of(b@),
        4 <= r@.len() <= 24 + b@.len() * 110 / 100,
        r@.subrange(0, 4) == le_u32(b@.len()),
        lz4_decompressed_of(r@) == Some(b@),
{
    lz4_flex::compress_prepend_size(b)
}

/// The error of `lz4_flex`'s block decompression, carried through unread.
#[verifier::external_type_specification]
#[verifier::external_body]
pub struct ExDecompressError(lz4_flex::block::DecompressError);

/// Relies on `lz4_flex::decompress_size_prepended`, which reads the size
/// prefix and allocates that many bytes before decoding the block; the
/// prefix is bounded here so the allocation is.
#[verifier::external_body]
fn lz4_decompress(b: &[u8]) -> (r: Result<Vec<u8>, lz4_flex::block::DecompressError>)
    requires
        b@.len() >= 4,
        le_u32_value(b@) <= CHUNK_SIZE,
    ensures
        r is Ok <==> lz4_decompressed_of(b@) is Some,
        r is Ok ==> lz4_decompressed_of(b@) == Some(r->Ok_0@),
{
    lz4_flex::decompress_size_prepended(b)
}

pub(crate) fn le_u32_bytes(n: usize) -> (r: Vec<u8>)
    requires
        n <= u32::MAX,
    ensures
        r@ == le_u32(n as nat),
{
    let mut r: Vec<u8> = Vec::new();
    r.push((n % 256) as u8);
    r.push(((n / 256) % 256) as u8);
    r.push(((n / 65536) % 256) as u8);
    r.push(((n / 16777216) % 256) as u8);
    assert(r@ =~= le_u32(n as nat));
    r
}

pub(crate) fn read_le_u32(b: &[u8]) -> (r: usize)
    requires
        b@.len() >= 4,
    ensures
        r == le_u32_value(b@),
{
    b[0] as usize + 256 * (b[1] as usize) + 65536 * (b[2] as usize) + 16777216 * (b[3] as usize)
}

pub(crate) proof fn lemma_le_u32_round_trip(n: nat, rest: Seq<u8>)
    requires
        n <= u32::MAX,
    ensures
        le_u32_value(le_u32(n) + rest) == n,
        (le_u32(n) + rest).len() == 4 + rest.len(),
{
    let s = le_u32(n) + rest;
    assert(s[0] == (n % 256) as u8);
    assert(s[1] == ((n / 256) % 256) as u8);
    assert(s[2] == ((n / 65536) % 256) as u8);
    assert(s[3] == ((n / 16777216) % 256) as u8);
    assert(n == n % 256 + 256 * ((n / 256) % 256) + 65536 * ((n / 65536) % 256) + 16777216 * ((n / 16777216) % 256)) by (nonlinear_arith)
        requires
            n <= u32::MAX,
    {
    }
}

pub(crate) fn push_all(v: &mut Vec<u8>, s: &[u8])
    ensures
        final(v)@ == old(v)@ + s@,
{
    let mut i: usize = 0;
    while i < s.len()
        invariant
            i <= s@.len(),
            v@ == old(v)@ + s@.subrange(0, i as int),
        decreases s@.len() - i,
    {
        v.push(s[i]);
        i = i + 1;
        assert(v@ =~= old(v)@ + s@.subrange(0, i as int));
    }
    assert(s@.subrange(0, i as int) =~= s@);
}

/// Compresses one chunk and frames it.
pub fn encode_chunk(chunk: &[u8]) -> (r: Vec<u8>)
    requires
        chunk@.len() <= CHUNK_SIZE,
    ensures
        r@ == encoded(chunk@),
        sound_block(chunk@, lz4_block_of(chunk@)),
{
    let block = lz4_compress(chunk);
    let mut r = le_u32_bytes(block.len());
    push_all(&mut r, block.as_slice());
    r
}

/// Decompresses one block received in a frame.
pub fn decode_block(block: &[u8]) -> (r: Result<Vec<u8>, FrameError>)
    ensures
        match decompressed(block@) {
            Some(d) => r == Ok::<Vec<u8>, FrameError>(r->Ok_0) && r->Ok_0@ == d,
            None => r == Err::<Vec<u8>, FrameError>(FrameError::Corrupt),
        },
{
    if block.len() < 4 || read_le_u32(block) > CHUNK_SIZE {
        return Err(FrameError::Corrupt);
    }
    match lz4_decompress(block) {
        Ok(d) => Ok(d),
        Err(_) => Err(FrameError::Corrupt),
    }
}

/// Buffers inbound bytes and cuts them into frames.
pub struct FrameDecoder {
    buf: Vec<u8>,
}

impl FrameDecoder {
    /// The bytes received and not yet decoded.
    pub closed spec fn view(&self) -> Seq<u8> {
        self.buf@
    }

    pub fn new() -> (r: FrameDecoder)
        ensures
            r@ == Seq::<u8>::empty(),
    {
        FrameDecoder { buf: Vec::new() }
    }

    /// Adds `input` to the received bytes and decodes every frame that is now
    /// complete; the bytes of an incomplete last frame stay buffered.
    pub fn feed(&mut self, input: &[u8]) -> (r: Result<Vec<u8>, FrameError>)
        ensures
            match drain_frames(old(self)@ + input@) {
                Ok((out, rest)) => r == Ok::<Vec<u8>, FrameError>(r->Ok_0) && r->Ok_0@ == out && final(self)@ == rest,
                Err(e) => r == Err::<Vec<u8>, FrameError>(e),
            },
    {
        let ghost total = self.buf@ + input@;
        push_all(&mut self.buf, input);
        let mut out: Vec<u8> = Vec::new();
        loop
            invariant
                total == old(self)@ + input@,
                drain_frames(total) == match drain_frames(self.buf@) {
                    Ok((o, rest)) => Ok::<(Seq<u8>, Seq<u8>), FrameError>((out@ + o, rest)),
                    Err(e) => Err(e),
                },
            decreases self.buf@.len(),
        {
            let ghost cur = self.buf@;
            if self.buf.len() < 4 {
                assert(parse_frame(cur) == FrameParse::Incomplete);
                assert(drain_frames(cur) == Ok::<(Seq<u8>, Seq<u8>), FrameError>((Seq::empty(), cur)));
                assert(out@ + Seq::<u8>::empty() =~= out@);
                return Ok(out);
            }
            let n = read_le_u32(self.buf.as_slice());
            if n > MAX_BLOCK {
                assert(parse_frame(cur) == FrameParse::Oversized);
                assert(drain_frames(cur) == Err::<(Seq<u8>, Seq<u8>), FrameError>(FrameError::Oversized));
                return Err(FrameError::Oversized);
            }
            if self.buf.len() - 4 < n {
                assert(parse_frame(cur) == FrameParse::Incomplete);
                assert(drain_frames(cur) == Ok::<(Seq<u8>, Seq<u8>), FrameError>((Seq::empty(), cur)));
                assert(out@ + Seq::<u8>::empty() =~= out@);
                return Ok(out);
            }
            let rest = self.buf.split_off(4 + n);
            let block = self.buf.split_off(4);
            assert(block@ =~= cur.subrange(4, 4 + n as int));
            self.buf = rest;
            match decode_block(block.as_slice()) {
                Ok(d) => {
                    proof {
                        match drain_frames(self.buf@) {
                            Ok((o, r)) => {
                                assert(out@ + (d@ + o) =~= (out@ + d@) + o);
                            },
                            Err(_) => {},
                        }
                    }
                    let mut d = d;
                    out.append(&mut d);
                },
                Err(e) => {
                    return Err(e);
                },
            }
        }
    }

    /// Checks that the stream ended on a frame boundary.
    pub fn finish(&self) -> (r: Result<(), FrameError>)
        ensures
            r is Ok <==> self@.len() == 0,
            r is Err ==> r == Err::<(), FrameError>(FrameError::Truncated),
    {
        if self.buf.len() == 0 {
            Ok(())
        } else {
            Err(FrameError::Truncated)
        }
    }
}

/// What a relay direction does with each chunk.
pub enum RelayMode {
    /// Write the chunk as it is.
    Copy,
    /// Write the chunk's frame.
    Encode,
    /// Decode the frames the chunk completes.
    Decode,
}

pub open spec fn relay_mode(d: CompressDirection) -> RelayMode {
    match d {
        CompressDirection::Compress(CompressAlgo::Lz4) => RelayMode::Encode,
        CompressDirection::Decompress(CompressAlgo::Lz4) => RelayMode::Decode,
        _ => RelayMode::Copy,
    }
}

/// One direction of a relay: turns each chunk read from the source into the
/// bytes to write to the sink. An empty chunk marks the end of the source.
pub struct Relay {
    direction: CompressDirection,
    decoder: FrameDecoder,
}

impl Relay {
    pub closed spec fn direction_spec(&self) -> CompressDirection {
        self.direction
    }

    /// The inbound bytes received and not yet decoded.
    pub closed spec fn pending(&self) -> Seq<u8> {
        self.decoder@
    }

    pub fn new(direction: CompressDirection) -> (r: Relay)
        ensures
            r.direction_spec() == direction,
            r.pending() == Seq::<u8>::empty(),
    {
        Relay { direction, decoder: FrameDecoder::new() }
    }

    pub fn direction(&self) -> (r: CompressDirection)
        ensures
            r == self.direction_spec(),
    {
        self.direction
    }

    /// The bytes to write for `chunk`, read from the source. At the end of
    /// the source (`chunk` empty) nothing is written, and a decoding relay
    /// checks that no frame was left incomplete.
    pub fn on_chunk(&mut self, chunk: &[u8]) -> (r: Result<Vec<u8>, FrameError>)
        requires
            chunk@.len() <= CHUNK_SIZE,
        ensures
            final(self).direction_spec() == old(self).direction_spec(),
            match relay_mode(old(self).direction_spec()) {
                RelayMode::Copy => r == Ok::<Vec<u8>, FrameError>(r->Ok_0) && r->Ok_0@ == chunk@
                    && final(self).pending() == old(self).pending(),
                RelayMode::Encode => r == Ok::<Vec<u8>, FrameError>(r->Ok_0)
                    && r->Ok_0@ == (if chunk@.len() == 0 { Seq::empty() } else { encoded(chunk@) })
                    && final(self).pending() == old(self).pending(),
                RelayMode::Decode => if chunk@.len() == 0 {
                    &&& final(self).pending() == old(self).pending()
                    &&& (r is Ok <==> old(self).pending().len() == 0)
                    &&& r is Ok ==> r->Ok_0@ == Seq::<u8>::empty()
                    &&& r is Err ==> r == Err::<Vec<u8>, FrameError>(FrameError::Truncated)
                } else {
                    match drain_frames(old(self).pending() + chunk@) {
                        Ok((out, rest)) => r == Ok::<Vec<u8>, FrameError>(r->Ok_0) && r->Ok_0@ == out
                            && final(self).pending() == rest,
                        Err(e) => r == Err::<Vec<u8>, FrameError>(e),
                    }
                },
            },
    {
        match self.direction {
            CompressDirection::Compress(CompressAlgo::Lz4) => {
                if chunk.len() == 0 {
                    Ok(Vec::new())
                } else {
                    Ok(encode_chunk(chunk))
                }
            },
            CompressDirection::Decompress(CompressAlgo::Lz4) => {
                if chunk.len() == 0 {
                    match self.decoder.finish() {
                        Ok(()) => Ok(Vec::new()),
                        Err(e) => Err(e),
                    }
                } else {
                    self.decoder.feed(chunk)
                }
            },
            _ => {
                let mut out: Vec<u8> = Vec::new();
                push_all(&mut out, chunk);
                Ok(out)
            },
        }
    }
}

/// Compression round trip: the frames the encoder writes for a run of
/// chunks (each with a sound block, as `encode_chunk` ensures) decode, all
/// in one piece, to the chunks' bytes in order, with nothing left over.
pub proof fn lemma_compression_round_trip(chunks: Seq<Seq<u8>>, blocks: Seq<Seq<u8>>)
    requires
        chunks.len() == blocks.len(),
        forall|i: int| 0 <= i < chunks.len() ==> sound_block(#[trigger] chunks[i], blocks[i]),
    ensures
        drain_frames(concat(blocks.map_values(|b: Seq<u8>| frame_of(b))))
            == Ok::<(Seq<u8>, Seq<u8>), FrameError>((concat(chunks), Seq::empty())),
    decreases chunks.len(),
{
    let frames = blocks.map_values(|b: Seq<u8>| frame_of(b));
    if chunks.len() == 0 {
        assert(concat(frames) == Seq::<u8>::empty());
        assert(parse_frame(Seq::<u8>::empty()) == FrameParse::Incomplete);
    } else {
        let c0 = chunks[0];
        let b0 = blocks[0];
        assert(sound_block(c0, b0));
        lemma_compression_round_trip(chunks.drop_first(), blocks.drop_first());
        let tail = concat(blocks.drop_first().map_values(|b: Seq<u8>| frame_of(b)));
        assert(frames.drop_first() =~= blocks.drop_first().map_values(|b: Seq<u8>| frame_of(b)));
        let s = concat(frames);
        assert(s == frame_of(b0) + tail);
        lemma_le_u32_round_trip(b0.len(), b0 + tail);
        assert(s =~= le_u32(b0.len()) + (b0 + tail));
        assert(s.subrange(4, 4 + b0.len() as int) =~= b0);
        assert(s.subrange(4 + b0.len() as int, s.len() as int) =~= tail);
        assert(b0 =~= le_u32(c0.len()) + b0.subrange(4, b0.len() as int));
        lemma_le_u32_round_trip(c0.len(), b0.subrange(4, b0.len() as int));
        assert(decompressed(b0) == Some(c0));
        assert(parse_frame(s) == FrameParse::Frame(b0, tail));
    }
}

/// Read boundaries do not matter: decoding `a`, then the undecoded rest
/// followed by `b`, gives what decoding `a + b` at once gives.
pub proof fn lemma_split_reads(a: Seq<u8>, b: Seq<u8>)
    ensures
        drain_frames(a + b) == match drain_frames(a) {
            Ok((o1, r1)) => match drain_frames(r1 + b) {
                Ok((o2, r2)) => Ok::<(Seq<u8>, Seq<u8>), FrameError>((o1 + o2, r2)),
                Err(e) => Err(e),
            },
            Err(e) => Err(e),
        },
    decreases a.len(),
{
    let s = a + b;
    match parse_frame(a) {
        FrameParse::Incomplete => {
            match drain_frames(a + b) {
                Ok((o2, r2)) => {
                    assert(Seq::<u8>::empty() + o2 =~= o2);
                },
                Err(_) => {},
            }
        },
        FrameParse::Oversized => {
            assert(le_u32_value(s) == le_u32_value(a));
            assert(parse_frame(s) == FrameParse::Oversized);
        },
        FrameParse::Frame(block, rest) => {
            let n = le_u32_value(a) as int;
            assert(le_u32_value(s) == le_u32_value(a));
            assert(s.subrange(4, 4 + n) =~= block);
            assert(s.subrange(4 + n, s.len() as int) =~= rest + b);
            assert(parse_frame(s) == FrameParse::Frame(block, rest + b));
            lemma_split_reads(rest, b);
            match decompressed(block) {
                Some(d) => {
                    match drain_frames(rest) {
                        Ok((o1, r1)) => {
                            match drain_frames(r1 + b) {
                                Ok((o2, r2)) => {
                                    assert(d + (o1 + o2) =~= (d + o1) + o2);
                                },
                                Err(_) => {},
                            }
                        },
                        Err(_) => {},
                    }
                },
                None => {},
            }
        },
    }
}

/// A peer that does not compress is noticed: bytes whose fourth byte is not
/// zero (any four characters of text, say) announce a frame longer than any
/// block, and decoding them fails at once.
pub proof fn lemma_unframed_bytes_rejected(s: Seq<u8>)
    requires
        s.len() >= 4,
        s[3] != 0,
    ensures
        drain_frames(s) == Err::<(Seq<u8>, Seq<u8>), FrameError>(FrameError::Oversized),
{
    assert(le_u32_value(s) >= 16777216);
    assert(parse_frame(s) == FrameParse::Oversized);
}

} // verus!
