use quic_tunnel::certs::{
    cert_action, identity_files, leaf_profile, CertAction, CertError, KeyPurpose, TunnelEnd,
};
use quic_tunnel::compress::{CompressAlgo, CompressDirection, Relay, CHUNK_SIZE};
use quic_tunnel::counters::TunnelCounters;
use quic_tunnel::forward::{
    nearby_target, on_stream_accepted, reader_step, AcceptOutcome, NearbyTarget, ServerStep,
    StreamEvent, TargetError, TaskStep,
};
use quic_tunnel::addr::SockAddr;
use quic_tunnel::get_tunnel_timeout;
use quic_tunnel::quic::{
    build_transport_config, policy_for_role, CongestionMode, Role, HANDSHAKE_TIMEOUT_MS,
    MAX_BIDI_STREAMS,
};

#[test]
fn tunnel_timeout_is_five_minutes() {
    assert_eq!(get_tunnel_timeout(), 300_000);
    assert_eq!(HANDSHAKE_TIMEOUT_MS, 30_000);
}

#[test]
fn transport_config_with_keep_alive() {
    let p = build_transport_config(true, CongestionMode::Cubic);
    assert_eq!(p.congestion_mode, CongestionMode::Cubic);
    assert_eq!(p.idle_timeout_ms, 300_000);
    assert_eq!(p.keep_alive_interval_ms, Some(100_000));
    assert_eq!(p.max_concurrent_uni_streams, 0);
    assert_eq!(p.max_concurrent_bidi_streams, MAX_BIDI_STREAMS);
    let q = build_transport_config(false, CongestionMode::Brr);
    assert_eq!(q.keep_alive_interval_ms, None);
    assert_eq!(q.congestion_mode, CongestionMode::Brr);
}

#[test]
fn only_the_initiator_keeps_alive() {
    let client = policy_for_role(Role::Initiator, CongestionMode::NewReno);
    let server = policy_for_role(Role::Acceptor, CongestionMode::NewReno);
    assert!(client.keep_alive_interval_ms.is_some());
    assert!(server.keep_alive_interval_ms.is_none());
    assert!(!client.stateless_retry);
    assert!(server.stateless_retry);
    assert!(client.early_data && server.early_data);
}

#[test]
fn congestion_mode_parses_in_any_case() {
    assert_eq!(CongestionMode::parse("brr"), Some(CongestionMode::Brr));
    assert_eq!(CongestionMode::parse("CUBIC"), Some(CongestionMode::Cubic));
    assert_eq!(CongestionMode::parse("NewReno"), Some(CongestionMode::NewReno));
    assert_eq!(CongestionMode::parse("new_reno"), None);
    assert_eq!(CongestionMode::parse(""), None);
    assert_eq!(CongestionMode::default(), CongestionMode::NewReno);
}

#[test]
fn existing_pair_is_loaded_not_overwritten() {
    assert_eq!(cert_action(true, true), Ok(CertAction::Load));
    assert_eq!(cert_action(false, false), Ok(CertAction::Create));
    assert_eq!(cert_action(true, false), Err(CertError::IncompletePair));
    assert_eq!(cert_action(false, true), Err(CertError::IncompletePair));
}

#[test]
fn identity_file_names() {
    let f = identity_files("wg");
    assert_eq!(f.ca_cert, "wg_ca.pem");
    assert_eq!(f.ca_key, "wg_ca.key.pem");
    assert_eq!(f.server_cert, "wg_server.pem");
    assert_eq!(f.server_key, "wg_server.key.pem");
    assert_eq!(f.client_cert, "wg_client.pem");
    assert_eq!(f.client_key, "wg_client.key.pem");
}

#[test]
fn leaf_profiles_by_end() {
    let c = leaf_profile(TunnelEnd::Client, "wg_client");
    assert!(c.subject_alt_names.is_empty());
    assert_eq!(c.common_name, "wg_client");
    assert_eq!(c.purpose, KeyPurpose::ClientAuth);
    assert_eq!(c.serial, Some(vec![0xC0, 0xFF, 0xEE]));
    let s = leaf_profile(TunnelEnd::Server, "wg_server");
    assert_eq!(s.subject_alt_names, vec!["wg_server".to_string()]);
    assert_eq!(s.common_name, "Example Client");
    assert_eq!(s.purpose, KeyPurpose::ServerAuth);
    assert_eq!(s.serial, None);
}

#[test]
fn counters_accumulate_and_wrap() {
    let mut c = TunnelCounters::new();
    let start = c;
    assert!(!c.changed_since(&start));
    c.sent(100, 40);
    c.sent(50, 0);
    c.recv(7, 3);
    assert_eq!(c.packets_sent, 2);
    assert_eq!(c.bytes_sent, 150);
    assert_eq!(c.compressed_bytes_sent, 40);
    assert_eq!(c.packets_recv, 1);
    assert_eq!(c.bytes_recv, 7);
    assert_eq!(c.compressed_bytes_recv, 3);
    assert!(c.changed_since(&start));
    c.bytes_recv = usize::MAX;
    c.recv(2, 0);
    assert_eq!(c.bytes_recv, 1);
}

#[test]
fn reader_steps() {
    assert_eq!(reader_step(StreamEvent::Data(12)), TaskStep::Forward(12));
    assert_eq!(reader_step(StreamEvent::Idle), TaskStep::Finish);
    assert_eq!(reader_step(StreamEvent::Closed), TaskStep::Finish);
    assert_eq!(reader_step(StreamEvent::Failed), TaskStep::Fail);
}

#[test]
fn accepting_side_stops_on_close() {
    let peer = SockAddr::V4 { ip: 1, port: 2 };
    assert_eq!(on_stream_accepted(AcceptOutcome::ApplicationClosed, peer), ServerStep::Shutdown);
    assert_eq!(on_stream_accepted(AcceptOutcome::Failed, peer), ServerStep::Fail);
}

#[test]
fn nearby_target_needs_exactly_one() {
    let a = SockAddr::V4 { ip: 0x7f00_0001, port: 8080 };
    assert!(matches!(nearby_target(Some(a), None), Ok(NearbyTarget::Tcp(x)) if x == a));
    match nearby_target(None, Some("/run/app.sock".to_string())) {
        Ok(NearbyTarget::Unix(p)) => assert_eq!(p, "/run/app.sock"),
        other => panic!("unexpected {:?}", other),
    }
    assert!(matches!(nearby_target(None, None), Err(TargetError::Missing)));
    assert!(matches!(nearby_target(Some(a), Some("x".to_string())), Err(TargetError::Ambiguous)));
}

#[test]
fn tcp_bytes_arrive_in_order_both_ways() {
    for algo in [CompressAlgo::Uncompressed, CompressAlgo::Lz4] {
        let mut up_out = Relay::new(CompressDirection::Compress(algo));
        let mut up_in = Relay::new(CompressDirection::Decompress(algo));
        let request: Vec<u8> = (0..50_000u32).map(|i| (i * 31 % 251) as u8).collect();
        let mut delivered = Vec::new();
        for chunk in request.chunks(CHUNK_SIZE) {
            let wire = up_out.on_chunk(chunk).unwrap();
            delivered.extend(up_in.on_chunk(&wire).unwrap());
        }
        assert!(up_out.on_chunk(&[]).unwrap().is_empty());
        assert!(up_in.on_chunk(&[]).unwrap().is_empty());
        assert_eq!(delivered.len(), request.len());
        assert_eq!(delivered, request);

        let mut down_out = Relay::new(CompressDirection::Compress(algo));
        let mut down_in = Relay::new(CompressDirection::Decompress(algo));
        let wire = down_out.on_chunk(b"response").unwrap();
        assert_eq!(down_in.on_chunk(&wire).unwrap(), b"response".to_vec());
    }
}

#[test]
fn quick_certs_plans_files_per_name() {
    let cmd = quic_tunnel::certs::QuickCertsSubCommand {
        dir: "/etc/tunnel".to_string(),
        client_names: vec!["home".to_string(), "office".to_string()],
    };
    let plan = cmd.identities();
    assert_eq!(plan.len(), 2);
    assert_eq!(plan[0].ca_cert, "home_ca.pem");
    assert_eq!(plan[1].client_key, "office_client.key.pem");
    assert!(quic_tunnel::quic::matching_bind_address(SockAddr::V4 { ip: 5, port: 6 }).is_ipv4());
}
