use ceky::crypto::identity::PeerId;
use ceky::net::{IpAddr, SocketAddr};
use ceky::time::{Duration, Instant};
use ceky::traversal::detection::{NatDetector, NatType};
use ceky::traversal::hole_punch::{HolePunchConfig, HolePuncher, PunchAction, PunchEvent};
use ceky::traversal::relay::{RelayConfig, RelayService, RelaySessionState};
use ceky::traversal::stun::{
    build_binding_request, generate_transaction_id, parse_binding_response, parse_mapped_address,
    parse_xor_mapped_address, transaction_id_at, DiscoverStep, StunClient, StunResult, ATTR_MAPPED_ADDRESS,
    BINDING_RESPONSE, MAGIC_COOKIE, STUN_HEADER_SIZE,
};
use ceky::traversal::NatError;

fn at(millis: u64) -> Instant {
    Instant { nanos: millis as u128 * 1_000_000 }
}

fn v4(a: u8, b: u8, c: u8, d: u8) -> IpAddr {
    IpAddr::V4(u32::from_be_bytes([a, b, c, d]))
}

fn ip_addr(ip: [u8; 4], port: u16) -> SocketAddr {
    SocketAddr::v4(ip[0], ip[1], ip[2], ip[3], port)
}

#[test]
fn build_request_valid() {
    let txn_id = [0x01, 0x02, 0x03, 0x04, 0x05, 0x06, 0x07, 0x08, 0x09, 0x0A, 0x0B, 0x0C];
    let request = build_binding_request(&txn_id);

    assert_eq!(request.len(), STUN_HEADER_SIZE);
    // Message type = Binding Request
    assert_eq!(request[0], 0x00);
    assert_eq!(request[1], 0x01);
    // Length = 0
    assert_eq!(request[2], 0x00);
    assert_eq!(request[3], 0x00);
    // Magic cookie
    assert_eq!(request[4], 0x21);
    assert_eq!(request[5], 0x12);
    assert_eq!(request[6], 0xA4);
    assert_eq!(request[7], 0x42);
    // Transaction ID
    assert_eq!(&request[8..20], &txn_id);
}

#[test]
fn parse_xor_mapped_address_ipv4() {
    // Build a fake XOR-MAPPED-ADDRESS for 203.0.113.1:8080
    let ip = [203u8, 0, 113, 1];
    let port: u16 = 8080;
    let cookie_bytes = MAGIC_COOKIE.to_be_bytes();

    let xor_port = port ^ (MAGIC_COOKIE >> 16) as u16;
    let xor_ip = [
        ip[0] ^ cookie_bytes[0],
        ip[1] ^ cookie_bytes[1],
        ip[2] ^ cookie_bytes[2],
        ip[3] ^ cookie_bytes[3],
    ];

    let data = [
        0x00, 0x01, // reserved + family (IPv4)
        (xor_port >> 8) as u8, (xor_port & 0xFF) as u8,
        xor_ip[0], xor_ip[1], xor_ip[2], xor_ip[3],
    ];

    let result = parse_xor_mapped_address(&data).unwrap();
    assert_eq!(result.ip, v4(203, 0, 113, 1));
    assert_eq!(result.port, port);
}

#[test]
fn parse_mapped_address_ipv4() {
    let data = [
        0x00, 0x01, // reserved + family (IPv4)
        0x1F, 0x90, // port = 8080
        192, 168, 1, 100, // IP
    ];

    let result = parse_mapped_address(&data).unwrap();
    assert_eq!(result, ip_addr([192, 168, 1, 100], 8080));
}

fn response(kind: u16, txn: &[u8; 12], attributes: &[u8]) -> Vec<u8> {
    let mut out = Vec::new();
    out.extend_from_slice(&kind.to_be_bytes());
    out.extend_from_slice(&(attributes.len() as u16).to_be_bytes());
    out.extend_from_slice(&MAGIC_COOKIE.to_be_bytes());
    out.extend_from_slice(txn);
    out.extend_from_slice(attributes);
    out
}

#[test]
fn parse_full_binding_response() {
    let txn_id = [0xAA; 12];
    let port: u16 = 12345;

    // Build MAPPED-ADDRESS attribute
    let attr_data = [
        0x00, 0x01, // family IPv4
        (port >> 8) as u8, (port & 0xFF) as u8,
        93, 184, 216, 34,
    ];
    let mut attributes = Vec::new();
    attributes.extend_from_slice(&ATTR_MAPPED_ADDRESS.to_be_bytes());
    attributes.extend_from_slice(&(attr_data.len() as u16).to_be_bytes());
    attributes.extend_from_slice(&attr_data);
    let message = response(BINDING_RESPONSE, &txn_id, &attributes);

    let result = parse_binding_response(&message, &txn_id).unwrap();
    assert_eq!(result.ip, v4(93, 184, 216, 34));
    assert_eq!(result.port, port);
}

#[test]
fn reject_wrong_txn_id() {
    let txn_id = [0xAA; 12];
    let wrong_txn = [0xBB; 12];

    let message = response(BINDING_RESPONSE, &wrong_txn, &[]);
    let result = parse_binding_response(&message, &txn_id);
    assert!(result.is_err());
}

#[test]
fn reject_wrong_message_type() {
    let txn_id = [0xAA; 12];
    let message = response(0x0111, &txn_id, &[]);
    let result = parse_binding_response(&message, &txn_id);
    assert!(result.is_err());
}

fn reason(message: &[u8], txn: &[u8; 12]) -> String {
    match parse_binding_response(message, txn) {
        Err(NatError::StunFailed { reason }) => reason,
        _ => panic!("a bad response was read"),
    }
}

#[test]
fn stun_reasons() {
    let t = [1u8; 12];
    assert_eq!(reason(&[0; 19], &t), "response too short: 19 bytes");
    assert_eq!(reason(&response(0x0111, &t, &[]), &t), "unexpected message type: 0x0111");
    let mut m = response(BINDING_RESPONSE, &t, &[]);
    m[4] = 0;
    assert_eq!(reason(&m, &t), "invalid magic cookie: 0x0012a442");
    assert_eq!(reason(&response(BINDING_RESPONSE, &[2; 12], &[]), &t), "transaction ID mismatch");
    let mut m = response(BINDING_RESPONSE, &t, &[]);
    m[3] = 1;
    assert_eq!(reason(&m, &t), "truncated response");
    assert_eq!(reason(&response(BINDING_RESPONSE, &t, &[]), &t), "no mapped address in response");
    // an attribute that runs over the end ends the search
    assert_eq!(reason(&response(BINDING_RESPONSE, &t, &[0, 1, 0, 9, 0, 0, 0, 0]), &t), "no mapped address in response");
    assert_eq!(reason(&response(BINDING_RESPONSE, &t, &[0, 1, 0, 4, 0, 0, 0, 0]), &t), "MAPPED-ADDRESS too short");
    assert_eq!(reason(&response(BINDING_RESPONSE, &t, &[0, 0x20, 0, 0]), &t), "XOR-MAPPED-ADDRESS too short");
    assert_eq!(
        reason(&response(BINDING_RESPONSE, &t, &[0, 1, 0, 8, 0, 2, 0, 0, 0, 0, 0, 0]), &t),
        "unsupported address family: 0x02"
    );
    // unknown attributes are skipped, with their padding
    let m = response(
        BINDING_RESPONSE,
        &t,
        &[0x80, 0x22, 0, 5, 1, 2, 3, 4, 5, 0, 0, 0, 0, 1, 0, 8, 0, 1, 0x1F, 0x90, 10, 0, 0, 7],
    );
    assert_eq!(parse_binding_response(&m, &t).unwrap(), ip_addr([10, 0, 0, 7], 8080));
}

#[test]
fn transaction_ids() {
    assert_eq!(transaction_id_at(0x0102_0304), [4, 3, 2, 1, 0, 0, 0, 0, 0, 0, 0, 0]);
    assert_ne!(generate_transaction_id(), [0; 12]);
}

#[test]
fn servers_are_tried_in_turn() {
    let client = StunClient::new();
    assert_eq!(client.servers, vec![ip_addr([74, 125, 250, 129], 19302), ip_addr([64, 233, 163, 127], 19302)]);
    assert_eq!(client.timeout.as_secs(), 3);
    assert!(matches!(client.discover(0, None), DiscoverStep::Probe(s) if s == client.servers[0]));
    assert!(matches!(client.discover(1, None), DiscoverStep::Probe(s) if s == client.servers[1]));
    match client.discover(2, None) {
        DiscoverStep::Failed(NatError::StunFailed { reason }) => assert_eq!(reason, "all STUN servers failed"),
        _ => panic!("more servers than there are"),
    }
    let found = stun_result(ip_addr([1, 2, 3, 4], 5), client.servers[1]);
    assert!(matches!(client.discover(2, Some(found)), DiscoverStep::Found(r) if r == found));
    let none = StunClient::with_servers(vec![]);
    assert!(matches!(none.discover(0, None), DiscoverStep::Failed(NatError::NoStunServers)));
    let slow = StunClient::new().with_timeout(Duration::from_millis(1500));
    assert!(matches!(slow.probe_outcome(&[0; 12], None), Err(NatError::StunTimeout { timeout_ms: 1500 })));
    let from = client.servers[0];
    let m = response(BINDING_RESPONSE, &[3; 12], &[0, 1, 0, 8, 0, 1, 0, 80, 9, 8, 7, 6]);
    assert_eq!(
        slow.probe_outcome(&[3; 12], Some((m, from))).unwrap(),
        stun_result(ip_addr([9, 8, 7, 6], 80), from)
    );
}

fn stun_result(mapped: SocketAddr, server: SocketAddr) -> StunResult {
    StunResult { mapped_addr: mapped, server_addr: server }
}

#[test]
fn classify_no_nat() {
    let local = ip_addr([203, 0, 113, 1], 9000);
    let probe = stun_result(ip_addr([203, 0, 113, 1], 9000), ip_addr([74, 125, 250, 129], 19302));
    assert_eq!(NatDetector::classify(local, &probe, None), NatType::NoNat);
}

#[test]
fn classify_cone_nat() {
    let local = ip_addr([192, 168, 1, 100], 9000);
    let server1 = ip_addr([74, 125, 250, 129], 19302);
    let server2 = ip_addr([64, 233, 163, 127], 19302);

    // Same mapped address from two servers → Cone NAT
    let mapped = ip_addr([203, 0, 113, 50], 12345);
    let probe1 = stun_result(mapped, server1);
    let probe2 = stun_result(mapped, server2);

    assert_eq!(NatDetector::classify(local, &probe1, Some(&probe2)), NatType::Restricted);
}

#[test]
fn classify_symmetric_nat() {
    let local = ip_addr([192, 168, 1, 100], 9000);
    let server1 = ip_addr([74, 125, 250, 129], 19302);
    let server2 = ip_addr([64, 233, 163, 127], 19302);

    // Different mapped addresses → Symmetric
    let probe1 = stun_result(ip_addr([203, 0, 113, 50], 12345), server1);
    let probe2 = stun_result(ip_addr([198, 51, 100, 10], 54321), server2);

    assert_eq!(NatDetector::classify(local, &probe1, Some(&probe2)), NatType::Symmetric);
}

#[test]
fn classify_port_restricted() {
    let local = ip_addr([192, 168, 1, 100], 9000);
    let server1 = ip_addr([74, 125, 250, 129], 19302);
    let server2 = ip_addr([64, 233, 163, 127], 19302);

    // Same IP, different port → Port-Restricted
    let probe1 = stun_result(ip_addr([203, 0, 113, 50], 12345), server1);
    let probe2 = stun_result(ip_addr([203, 0, 113, 50], 12346), server2);

    assert_eq!(NatDetector::classify(local, &probe1, Some(&probe2)), NatType::PortRestricted);
}

#[test]
fn nat_type_hole_punch_capability() {
    assert!(NatType::NoNat.supports_hole_punch());
    assert!(NatType::FullCone.supports_hole_punch());
    assert!(NatType::Restricted.supports_hole_punch());
    assert!(NatType::PortRestricted.supports_hole_punch());
    assert!(!NatType::Symmetric.supports_hole_punch());
    assert!(!NatType::Unknown.supports_hole_punch());
}

#[test]
fn detection_by_two_probes() {
    let local = ip_addr([192, 168, 1, 100], 9000);
    let detector = NatDetector::new();
    let s = &detector.stun_client.servers;
    let a = stun_result(ip_addr([203, 0, 113, 50], 12345), s[0]);
    let b = stun_result(ip_addr([198, 51, 100, 10], 54321), s[1]);
    assert_eq!(detector.second_server(local, &a), Some(s[1]));
    assert_eq!(detector.second_server(a.mapped_addr, &a), None);
    let unknown = NatDetector::detect(local, None, None);
    assert_eq!(unknown.nat_type, NatType::Unknown);
    assert!(!unknown.hole_punch_capable);
    assert_eq!(NatDetector::detect(a.mapped_addr, Some(a), None).nat_type, NatType::NoNat);
    let one = NatDetector::detect(local, Some(a), None);
    assert_eq!(one.nat_type, NatType::Restricted);
    assert_eq!(one.external_addr, Some(a.mapped_addr));
    assert!(one.hole_punch_capable);
    let two = NatDetector::detect(local, Some(a), Some(b));
    assert_eq!(two.nat_type, NatType::Symmetric);
    assert!(!two.hole_punch_capable);
    assert_eq!(NatType::Symmetric.to_string(), "Symmetric NAT (relay required)");
}

#[test]
fn punch_packet_format() {
    let puncher = HolePuncher::new();
    let packet = puncher.build_punch_packet(5, 2);

    assert_eq!(packet.len(), 12);
    assert_eq!(&packet[..4], b"CEKY");
    assert_eq!(u32::from_be_bytes([packet[4], packet[5], packet[6], packet[7]]), 5);
    assert_eq!(u32::from_be_bytes([packet[8], packet[9], packet[10], packet[11]]), 2);
}

#[test]
fn detect_punch_packet() {
    let puncher = HolePuncher::new();
    let packet = puncher.build_punch_packet(0, 0);
    assert!(puncher.is_punch_packet(&packet));
    assert!(!puncher.is_punch_packet(b"NOPE"));
    assert!(!puncher.is_punch_packet(&[]));
}

#[test]
fn punching_runs_its_rounds() {
    let config = HolePunchConfig { packets_per_round: 2, max_rounds: 2, ..Default::default() };
    let puncher = HolePuncher::with_config(config);
    let (mut p, mut action) = puncher.punch("10.0.0.1:9", at(0));
    let mut steps = Vec::new();
    loop {
        let event = match action {
            PunchAction::Send(d) => {
                steps.push(format!("send {} {}", d[7], d[11]));
                PunchEvent::Done
            }
            PunchAction::Pause(d) => {
                assert_eq!(d, Duration::from_millis(50));
                steps.push("pause".to_string());
                PunchEvent::Done
            }
            PunchAction::Listen(d) => {
                assert_eq!(d, Duration::from_millis(500));
                steps.push("listen".to_string());
                PunchEvent::Nothing
            }
            PunchAction::Failed(NatError::HolePunchFailed { reason }) => {
                assert_eq!(reason, "no response after 2 rounds to 10.0.0.1:9");
                break;
            }
            _ => panic!("there was nobody to hear"),
        };
        action = puncher.on_event(&mut p, event, "10.0.0.1:9");
    }
    assert_eq!(
        steps,
        vec!["send 0 0", "pause", "send 0 1", "listen", "send 1 0", "pause", "send 1 1", "listen"]
    );
}

#[test]
fn punching_succeeds() {
    let puncher = HolePuncher::with_config(HolePunchConfig { packets_per_round: 1, ..Default::default() });
    let from = ip_addr([1, 2, 3, 4], 5);
    let (mut p, _) = puncher.punch("x", at(100));
    assert!(matches!(puncher.on_event(&mut p, PunchEvent::Done, "x"), PunchAction::Listen(_)));
    let noise = PunchEvent::Received { data: b"NOPE".to_vec(), from, now: at(150) };
    assert!(matches!(puncher.on_event(&mut p, noise, "x"), PunchAction::Send(_)));
    puncher.on_event(&mut p, PunchEvent::Done, "x");
    let hit = PunchEvent::Received { data: puncher.build_punch_packet(3, 0), from, now: at(250) };
    match puncher.on_event(&mut p, hit, "x") {
        PunchAction::Succeeded(r) => {
            assert_eq!(r.peer_addr, from);
            assert_eq!(r.rounds, 2);
            assert_eq!(r.duration, Duration::from_millis(150));
        }
        _ => panic!("the other side was not heard"),
    }
}

fn peer(byte: u8) -> PeerId {
    PeerId::from_bytes([byte; 32])
}

fn addr(port: u16) -> SocketAddr {
    SocketAddr::v4(127, 0, 0, 1, port)
}

#[test]
fn create_and_activate_session() {
    let mut relay = RelayService::with_defaults();

    let session_id = relay.create_session(peer(1), addr(9001), peer(2), addr(9002), at(0)).unwrap();

    assert_eq!(relay.total_sessions(), 1);
    let session = relay.get_session(session_id).unwrap();
    assert_eq!(session.state, RelaySessionState::Pending);

    relay.activate_session(session_id, at(1)).unwrap();
    let session = relay.get_session(session_id).unwrap();
    assert_eq!(session.state, RelaySessionState::Active);
    assert_eq!(relay.active_sessions(), 1);
}

#[test]
fn relay_forwarding() {
    let mut relay = RelayService::with_defaults();

    let id = relay.create_session(peer(1), addr(9001), peer(2), addr(9002), at(0)).unwrap();
    relay.activate_session(id, at(0)).unwrap();

    // Peer A sends → should forward to Peer B's address
    let fwd = relay.get_forward_addr(id, &peer(1));
    assert_eq!(fwd, Some(addr(9002)));

    // Peer B sends → should forward to Peer A's address
    let fwd = relay.get_forward_addr(id, &peer(2));
    assert_eq!(fwd, Some(addr(9001)));

    // Unknown peer → None
    let fwd = relay.get_forward_addr(id, &peer(3));
    assert_eq!(fwd, None);
}

#[test]
fn record_relay_bytes() {
    let mut relay = RelayService::with_defaults();

    let id = relay.create_session(peer(1), addr(9001), peer(2), addr(9002), at(0)).unwrap();
    relay.activate_session(id, at(0)).unwrap();

    relay.record_relay(id, 1024, true, at(10)).unwrap();
    relay.record_relay(id, 512, false, at(20)).unwrap();

    let session = relay.get_session(id).unwrap();
    assert_eq!(session.bytes_relayed, 1536);
    assert_eq!(session.peer_a.bytes_sent, 1024);
    assert_eq!(session.peer_b.bytes_sent, 512);
    assert_eq!(session.peer_b.bytes_received, 1024);
}

#[test]
fn capacity_limit() {
    let config = RelayConfig { max_sessions: 2, ..Default::default() };
    let mut relay = RelayService::new(config);

    relay.create_session(peer(1), addr(9001), peer(2), addr(9002), at(0)).unwrap();
    let second = relay.create_session(peer(3), addr(9003), peer(4), addr(9004), at(0)).unwrap();

    // Third should fail
    let result = relay.create_session(peer(5), addr(9005), peer(6), addr(9006), at(0));
    assert!(result.is_err());
    // unless one of the others can make way
    relay.close_session(second);
    assert_eq!(relay.create_session(peer(5), addr(9005), peer(6), addr(9006), at(0)).unwrap(), 3);
}

#[test]
fn close_and_cleanup() {
    let mut relay = RelayService::with_defaults();

    let id1 = relay.create_session(peer(1), addr(9001), peer(2), addr(9002), at(0)).unwrap();
    let _id2 = relay.create_session(peer(3), addr(9003), peer(4), addr(9004), at(0)).unwrap();

    relay.close_session(id1);
    assert_eq!(relay.total_sessions(), 2);

    let cleaned = relay.cleanup_expired(at(0));
    assert_eq!(cleaned, 1); // Only the closed one
    assert_eq!(relay.total_sessions(), 1);
    assert_eq!(relay.cleanup_expired(at(60_000)), 0);
    assert_eq!(relay.cleanup_expired(at(60_001)), 1);
}

fn refusal(r: Result<(), NatError>) -> String {
    match r {
        Err(NatError::RelayRefused { reason }) => reason,
        _ => panic!("it was not refused"),
    }
}

#[test]
fn relay_refusals() {
    let mut relay = RelayService::new(RelayConfig { max_bandwidth_bps: 1000, ..Default::default() });
    assert_eq!(refusal(relay.activate_session(7, at(0))), "session 7 not found");
    assert_eq!(refusal(relay.record_relay(7, 1, true, at(0))), "session 7 not found");
    let id = relay.create_session(peer(1), addr(1), peer(2), addr(2), at(0)).unwrap();
    assert_eq!(refusal(relay.record_relay(id, 1, true, at(0))), "session not active");
    relay.activate_session(id, at(0)).unwrap();
    assert_eq!(refusal(relay.activate_session(id, at(0))), "session 1 not in pending state");
    relay.record_relay(id, 5000, true, at(999)).unwrap();
    relay.record_relay(id, 0, true, at(999)).unwrap();
    assert_eq!(refusal(relay.record_relay(id, 1, true, at(1000))), "bandwidth limit exceeded");
    relay.record_relay(id, 1, true, at(5000)).unwrap();
    assert_eq!(refusal(relay.record_relay(id, 1, true, at(5000))), "bandwidth limit exceeded");
}
