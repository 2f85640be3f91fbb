use quic_tunnel::compress::{
    encode_chunk, CompressAlgo, CompressDirection, FrameDecoder, FrameError, Relay, CHUNK_SIZE,
};

fn sample(n: usize) -> Vec<u8> {
    (0..n).map(|i| (i % 7) as u8 + b'a').collect()
}

#[test]
fn encoded_chunk_is_framed_lz4() {
    let chunk = vec![0u8; 1000];
    let frame = encode_chunk(&chunk);
    let block_len = u32::from_le_bytes([frame[0], frame[1], frame[2], frame[3]]) as usize;
    assert_eq!(frame.len(), 4 + block_len);
    assert_eq!(&frame[4..8], &1000u32.to_le_bytes());
    assert!(frame.len() < chunk.len());
    assert_ne!(&frame[8..], &chunk[..]);
}

#[test]
fn compression_round_trip_in_one_read() {
    let chunks = vec![sample(100), vec![1, 2, 3], sample(CHUNK_SIZE), b"hello".to_vec()];
    let mut wire = Vec::new();
    for c in &chunks {
        wire.extend(encode_chunk(c));
    }
    let mut decoder = FrameDecoder::new();
    let out = decoder.feed(&wire).unwrap();
    assert_eq!(out, chunks.concat());
    assert_eq!(decoder.finish(), Ok(()));
}

#[test]
fn compression_round_trip_across_any_read_boundaries() {
    let chunks = vec![sample(3000), sample(17), sample(CHUNK_SIZE)];
    let mut wire = Vec::new();
    for c in &chunks {
        wire.extend(encode_chunk(c));
    }
    for step in [1usize, 3, 5, 64, 1000, 4096] {
        let mut decoder = FrameDecoder::new();
        let mut out = Vec::new();
        for piece in wire.chunks(step) {
            out.extend(decoder.feed(piece).unwrap());
        }
        assert_eq!(out, chunks.concat());
        assert_eq!(decoder.finish(), Ok(()));
    }
}

#[test]
fn uncompressed_bytes_do_not_decode() {
    let mut decoder = FrameDecoder::new();
    assert_eq!(decoder.feed(b"ping pong ping pong"), Err(FrameError::Oversized));
}

#[test]
fn corrupt_block_is_rejected() {
    let mut frame = encode_chunk(&sample(500));
    // Claim a larger uncompressed size than a chunk can have.
    frame[4..8].copy_from_slice(&100_000u32.to_le_bytes());
    let mut decoder = FrameDecoder::new();
    assert_eq!(decoder.feed(&frame), Err(FrameError::Corrupt));

    let mut garbage = vec![8u8, 0, 0, 0, 10, 0, 0, 0];
    garbage.extend([0xFFu8; 4]);
    let mut decoder = FrameDecoder::new();
    assert_eq!(decoder.feed(&garbage), Err(FrameError::Corrupt));
}

#[test]
fn stream_ending_inside_a_frame_is_truncated() {
    let frame = encode_chunk(&sample(200));
    let mut decoder = FrameDecoder::new();
    assert_eq!(decoder.feed(&frame[..frame.len() - 1]), Ok(Vec::new()));
    assert_eq!(decoder.finish(), Err(FrameError::Truncated));
}

#[test]
fn relay_directions_compose() {
    let mut out_relay = Relay::new(CompressDirection::Compress(CompressAlgo::Lz4));
    let mut in_relay = Relay::new(CompressDirection::Decompress(CompressAlgo::Lz4));
    let data = sample(20_000);
    let mut received = Vec::new();
    for chunk in data.chunks(CHUNK_SIZE) {
        let wire = out_relay.on_chunk(chunk).unwrap();
        for piece in wire.chunks(1000) {
            received.extend(in_relay.on_chunk(piece).unwrap());
        }
    }
    assert_eq!(out_relay.on_chunk(&[]).unwrap(), Vec::<u8>::new());
    assert_eq!(in_relay.on_chunk(&[]).unwrap(), Vec::<u8>::new());
    assert_eq!(received, data);
}

#[test]
fn compression_on_one_side_only_is_detected() {
    let mut plain = Relay::new(CompressDirection::Passthrough);
    let mut in_relay = Relay::new(CompressDirection::Decompress(CompressAlgo::Lz4));
    let wire = plain.on_chunk(b"some plain text that is not framed").unwrap();
    assert!(in_relay.on_chunk(&wire).is_err());
}

#[test]
fn uncompressed_relays_copy_bytes() {
    for d in [
        CompressDirection::Passthrough,
        CompressDirection::Compress(CompressAlgo::Uncompressed),
        CompressDirection::Decompress(CompressAlgo::Uncompressed),
    ] {
        let mut relay = Relay::new(d);
        assert_eq!(relay.direction(), d);
        assert_eq!(relay.on_chunk(b"abc").unwrap(), b"abc".to_vec());
        assert_eq!(relay.on_chunk(&[]).unwrap(), Vec::<u8>::new());
    }
}

#[test]
fn compress_algo_parses_in_any_case() {
    assert_eq!(CompressAlgo::parse("none"), Some(CompressAlgo::Uncompressed));
    assert_eq!(CompressAlgo::parse("LZ4"), Some(CompressAlgo::Lz4));
    assert_eq!(CompressAlgo::parse("Lz4"), Some(CompressAlgo::Lz4));
    assert_eq!(CompressAlgo::parse("zstd"), None);
    assert_eq!(CompressAlgo::default(), CompressAlgo::Uncompressed);
}
