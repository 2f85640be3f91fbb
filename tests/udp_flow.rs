use quic_tunnel::addr::{matching_bind_address, SockAddr, TunnelCacheKey};
use quic_tunnel::compress::FrameError;
use quic_tunnel::datagram::{encode_datagram, DatagramDecoder, MAX_DATAGRAM};
use quic_tunnel::forward::{after_send, on_stream_accepted, AcceptOutcome, ServerStep};
use quic_tunnel::session::{Lookup, SessionCache};

fn v4(ip: u32, port: u16) -> SockAddr {
    SockAddr::V4 { ip, port }
}

#[test]
fn datagram_round_trip_keeps_bytes_and_length() {
    let datagrams: Vec<Vec<u8>> = vec![
        vec![],
        vec![7],
        (0..1400).map(|i| i as u8).collect(),
        vec![0xAB; MAX_DATAGRAM],
    ];
    let mut wire = Vec::new();
    for d in &datagrams {
        wire.extend(encode_datagram(d));
    }
    let mut decoder = DatagramDecoder::new();
    let out = decoder.feed(&wire).unwrap();
    assert_eq!(out, datagrams);
    for (a, b) in out.iter().zip(datagrams.iter()) {
        assert_eq!(a.len(), b.len());
    }
    assert_eq!(decoder.finish(), Ok(()));
}

#[test]
fn datagrams_written_back_to_back_stay_apart() {
    let mut wire = encode_datagram(b"first");
    wire.extend(encode_datagram(b"second"));
    for step in [1usize, 2, 7, 100] {
        let mut decoder = DatagramDecoder::new();
        let mut out = Vec::new();
        for piece in wire.chunks(step) {
            out.extend(decoder.feed(piece).unwrap());
        }
        assert_eq!(out, vec![b"first".to_vec(), b"second".to_vec()]);
    }
}

#[test]
fn oversized_datagram_frame_is_rejected() {
    let mut decoder = DatagramDecoder::new();
    let mut wire = ((MAX_DATAGRAM as u32) + 1).to_le_bytes().to_vec();
    wire.extend([0u8; 10]);
    assert_eq!(decoder.feed(&wire), Err(FrameError::Oversized));
}

#[test]
fn partial_datagram_is_truncated_at_end_of_stream() {
    let wire = encode_datagram(b"abcdef");
    let mut decoder = DatagramDecoder::new();
    assert_eq!(decoder.feed(&wire[..5]), Ok(Vec::new()));
    assert_eq!(decoder.finish(), Err(FrameError::Truncated));
}

#[test]
fn ping_pong_returns_to_the_sending_port() {
    let local = v4(0x7f00_0001, 51820);
    let client = v4(0x7f00_0001, 40123);
    let server = v4(0xc0a8_0001, 4433);
    let mut cache = SessionCache::new(10_000, 60_000);
    let key = TunnelCacheKey::new(local, client, server);

    // Initiating side: the first packet of the flow opens session 1.
    assert_eq!(cache.lookup(key, 0), Lookup::Start);
    assert!(cache.complete(key, 1, 0));
    let to_carrier = encode_datagram(b"ping");
    assert!(after_send(&mut cache, key, true, 0));

    // Accepting side: a fresh socket in the peer's family relays the datagram.
    match on_stream_accepted(AcceptOutcome::Stream, client) {
        ServerStep::Serve { bind } => assert_eq!(bind, v4(0, 0)),
        other => panic!("unexpected {:?}", other),
    }
    let mut server_side = DatagramDecoder::new();
    assert_eq!(server_side.feed(&to_carrier).unwrap(), vec![b"ping".to_vec()]);

    // The destination's reply travels back on the same stream.
    let back = encode_datagram(b"pong");
    let mut client_side = DatagramDecoder::new();
    assert_eq!(client_side.feed(&back).unwrap(), vec![b"pong".to_vec()]);
    assert_eq!(key.from.port(), 40123);

    // Later packets reuse the session and never start a second reader.
    assert_eq!(cache.lookup(key, 10), Lookup::Hit { session: 1 });
    assert!(!after_send(&mut cache, key, true, 10));
}

#[test]
fn failed_send_changes_nothing() {
    let key = TunnelCacheKey::new(v4(1, 1), v4(2, 2), v4(3, 3));
    let mut cache = SessionCache::new(4, 1_000);
    assert_eq!(cache.lookup(key, 0), Lookup::Start);
    assert!(cache.complete(key, 9, 0));
    assert!(!after_send(&mut cache, key, false, 5));
    assert!(after_send(&mut cache, key, true, 5));
}

#[test]
fn bind_address_matches_family() {
    assert_eq!(matching_bind_address(v4(0x0a00_0001, 9000)), v4(0, 0));
    let six = SockAddr::V6 { ip: 1, port: 9000, flowinfo: 3, scope_id: 4 };
    assert_eq!(
        matching_bind_address(six),
        SockAddr::V6 { ip: 0, port: 0, flowinfo: 0, scope_id: 0 }
    );
    assert!(v4(1, 2).is_ipv4());
    assert!(!six.is_ipv4());
}
