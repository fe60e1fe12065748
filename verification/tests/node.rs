use ceky::crypto::identity::{Identity, PeerId};
use ceky::net::SocketAddr;
use ceky::node::api::{connect_peer, get_metrics, get_status, is_authorized, send_file, ApiCommand, ApiEvent, ConnectRequest, TransferRequest};
use ceky::node::config::{BootstrapConfig, ConfigFile, NetworkConfig, NodeInfoConfig, ResolvedConfig};
use ceky::node::control::{Node, NodeAction};
use ceky::protocol::transfer::{FileOffer, TransferId};
use ceky::protocol::types::{Flags, Frame, MessageType};
use ceky::telemetry::app::{is_quit_key, TuiApp};
use ceky::telemetry::logger::{LogMessage, StringVisitor};
use ceky::telemetry::metrics::{GlobalMetrics, TransferProgress};
use ceky::telemetry::ui::{level_color, transfer_line, visible_logs, LogColor};
use ceky::transfer::manager::TransferAction;
use ceky::transport::pool::ConnectionPool;
use ceky::transport::TransportEvent;
use bytes::Bytes;
use std::sync::Arc;

fn addr(port: u16) -> SocketAddr {
    SocketAddr::v4(127, 0, 0, 1, port)
}

fn frame_from(peer_addr: SocketAddr, frame: Frame) -> TransportEvent {
    TransportEvent::FrameReceived { peer_addr, frame }
}

fn only_frame(mut actions: Vec<NodeAction>, expected: SocketAddr) -> Frame {
    assert_eq!(actions.len(), 1);
    match actions.remove(0) {
        NodeAction::Send { to, frame } => {
            assert_eq!(to, expected);
            frame
        }
        other => panic!("not a frame: {other:?}"),
    }
}

/// Two nodes with a session between them: the first at address 1, the second at 2.
fn connected() -> (Node, Node) {
    let mut a = Node::new(Arc::new(Identity::generate()));
    let mut b = Node::new(Arc::new(Identity::generate()));
    let (handshake, msg1) = a.begin_handshake();
    a.await_answer(addr(2), handshake);
    let told = a.on_transport_event(TransportEvent::Connected { peer_addr: addr(2) });
    assert!(matches!(told[0], NodeAction::Emit(ApiEvent::PeerConnected { .. })));
    b.on_transport_event(TransportEvent::Connected { peer_addr: addr(1) });
    let msg2 = only_frame(b.on_transport_event(frame_from(addr(1), msg1)), addr(1));
    let msg3 = only_frame(a.on_transport_event(frame_from(addr(2), msg2)), addr(2));
    assert!(b.on_transport_event(frame_from(addr(1), msg3)).is_empty());
    (a, b)
}

fn message(node: &mut Node, target: SocketAddr, text: &str) -> Option<Frame> {
    let command = ApiCommand::SendMessage { target, message: text.to_string() };
    node.on_command(command).map(|a| only_frame(vec![a], target))
}

#[test]
fn messages_between_nodes() {
    let (mut a, mut b) = connected();
    for text in ["hello", "grüße", ""] {
        let frame = message(&mut a, addr(2), text).unwrap();
        assert!(frame.header.flags.is_encrypted());
        let actions = b.on_transport_event(frame_from(addr(1), frame.clone()));
        assert_eq!(actions.len(), 1);
        match &actions[0] {
            NodeAction::Emit(ApiEvent::MessageReceived { peer, message }) => {
                assert_eq!(*peer, addr(1));
                assert_eq!(message, text);
            }
            other => panic!("not a message: {other:?}"),
        }
        // a second time it is a replay
        assert!(b.on_transport_event(frame_from(addr(1), frame)).is_empty());
    }
    let back = message(&mut b, addr(1), "and back").unwrap();
    assert_eq!(a.on_transport_event(frame_from(addr(2), back)).len(), 1);
}

#[test]
fn frames_that_are_rejected() {
    let (mut a, mut b) = connected();
    // not encrypted
    let plain = Frame::new(MessageType::Data, Flags::empty(), 0, Bytes::from_static(b"hi"));
    assert!(b.on_transport_event(frame_from(addr(1), plain)).is_empty());
    // from somebody unknown
    let frame = message(&mut a, addr(2), "x").unwrap();
    assert!(b.on_transport_event(frame_from(addr(9), frame.clone())).is_empty());
    // a handshake frame does not disturb the session
    let hello = Frame::new(MessageType::Handshake, Flags::empty(), 0, Bytes::from_static(&[0; 32]));
    assert!(b.on_transport_event(frame_from(addr(1), hello.clone())).is_empty());
    assert_eq!(b.on_transport_event(frame_from(addr(1), frame)).len(), 1);
    // after the connection is gone there is no session
    let told = b.on_transport_event(TransportEvent::Disconnected { peer_addr: addr(1), reason: "gone".to_string() });
    assert!(matches!(&told[0], NodeAction::Emit(ApiEvent::PeerDisconnected { reason, .. }) if reason == "gone"));
    assert!(message(&mut b, addr(1), "x").is_none());
    assert!(b.on_transport_event(frame_from(addr(1), hello)).is_empty());
    // nor after an error
    let error = TransportEvent::Error { peer_addr: Some(addr(2)), error: "bad".to_string() };
    assert!(a.on_transport_event(error).is_empty());
    assert!(message(&mut a, addr(2), "x").is_none());
}

#[test]
fn failed_handshake_drops_the_peer() {
    let mut b = Node::new(Arc::new(Identity::generate()));
    b.on_transport_event(TransportEvent::Connected { peer_addr: addr(1) });
    let short = Frame::new(MessageType::Handshake, Flags::empty(), 0, Bytes::from_static(&[0; 31]));
    assert!(b.on_transport_event(frame_from(addr(1), short)).is_empty());
    let command = ApiCommand::SendFile { target: addr(1), file_path: "f".to_string() };
    assert!(b.on_command(command).is_none());
}

#[test]
fn file_offer_between_nodes() {
    let (mut a, mut b) = connected();
    let command = ApiCommand::SendFile { target: addr(2), file_path: "dir/f.bin".to_string() };
    assert!(matches!(
        a.on_command(command),
        Some(NodeAction::OfferFile { peer, file_path }) if peer == addr(2) && file_path == "dir/f.bin"
    ));
    let content = b"0123456789abcdef";
    let (id, action) = a.transfers_mut().offer_file(addr(2), "f.bin".to_string(), 16, 10, [3; 32]).unwrap();
    let TransferAction::Send { peer, frame } = action else { panic!("no offer") };
    let sealed = a.on_transfer_frame(peer, frame).unwrap();
    assert_eq!(sealed.header.msg_type, MessageType::FileOffer);
    let mut actions = b.on_transport_event(frame_from(addr(1), sealed));
    assert_eq!(actions.len(), 2);
    assert!(matches!(
        &actions[0],
        NodeAction::Emit(ApiEvent::FileOfferReceived { file_name, total_size: 16, .. }) if file_name == "f.bin"
    ));
    let Some(NodeAction::OpenFile { peer, offer }) = actions.pop() else { panic!("no file to open") };
    let (accept, credit) = b.transfers_mut().handle_offer(peer, offer, "f.bin".to_string());
    let mut requests = Vec::new();
    for action in [accept, credit] {
        let TransferAction::Send { peer, frame } = action else { panic!("no frame") };
        let sealed = b.on_transfer_frame(peer, frame).unwrap();
        requests.extend(a.on_transport_event(frame_from(addr(2), sealed)));
    }
    assert_eq!(requests.len(), 2);
    let NodeAction::Transfer(TransferAction::SendChunk { transfer_id, index, start, end, .. }) = &requests[1] else {
        panic!("no chunk")
    };
    assert_eq!((*transfer_id, *index, *start, *end), (id, 1, 10, 16));
    let chunk = ceky::transfer::manager::chunk_frame(*transfer_id, *index, &content[10..16]);
    let sealed = a.on_transfer_frame(addr(2), chunk).unwrap();
    let done = b.on_transport_event(frame_from(addr(1), sealed));
    assert_eq!(done.len(), 3);
    assert!(matches!(&done[0], NodeAction::Transfer(TransferAction::Write { start: 10, .. })));
    assert_eq!(b.transfers().snapshot_transfers()[0].3, 1);
}

#[test]
fn dispatch_of_messages() {
    let mut n = Node::new(Arc::new(Identity::generate()));
    let offer = FileOffer::new(TransferId::from_u128(1), "x".to_string(), 5, 5, [0; 32]).unwrap();
    assert_eq!(n.dispatch(addr(1), MessageType::FileOffer, offer.encode().to_vec()).len(), 2);
    assert!(n.dispatch(addr(1), MessageType::FileOffer, vec![1]).is_empty());
    assert!(n.dispatch(addr(1), MessageType::CreditUpdate, vec![0; 19]).is_empty());
    assert!(n.dispatch(addr(1), MessageType::Data, vec![0xFF]).is_empty());
    assert_eq!(n.dispatch(addr(1), MessageType::Data, b"ok".to_vec()).len(), 1);
    assert!(n.dispatch(addr(1), MessageType::Store, b"ok".to_vec()).is_empty());
}

#[test]
fn connect_command() {
    let mut n = Node::new(Arc::new(Identity::generate()));
    assert!(matches!(n.on_command(ApiCommand::Connect(addr(5))), Some(NodeAction::Connect(a)) if a == addr(5)));
}

#[test]
fn settings_by_precedence() {
    let r = ResolvedConfig::merge(None, None, None, None, None, None, false, ConfigFile::default());
    assert_eq!(r.tcp_addr, SocketAddr::v4(0, 0, 0, 0, 9741));
    assert_eq!(r.udp_addr, SocketAddr::v4(0, 0, 0, 0, 9742));
    assert_eq!(r.key_file, "identity.key");
    assert!(r.seeds.is_empty());
    assert_eq!(r.max_connections, 1024);
    assert_eq!(r.log_level, "info");
    assert!(!r.skip_nat);
    let file = || ConfigFile {
        network: Some(NetworkConfig {
            tcp_addr: Some(addr(1)),
            udp_addr: None,
            max_connections: Some(7),
            skip_nat: Some(true),
        }),
        bootstrap: Some(BootstrapConfig { seeds: Some(vec![addr(2)]) }),
        node: Some(NodeInfoConfig { key_file: Some("k".to_string()), log_level: None }),
    };
    let r = ResolvedConfig::merge(None, None, None, None, None, None, false, file());
    assert_eq!((r.tcp_addr, r.max_connections, r.key_file.as_str(), r.skip_nat), (addr(1), 7, "k", true));
    assert_eq!(r.seeds, vec![addr(2)]);
    let r = ResolvedConfig::merge(
        Some(addr(3)),
        Some(addr(4)),
        Some("c".to_string()),
        Some(vec![]),
        Some(9),
        Some("debug".to_string()),
        true,
        file(),
    );
    assert_eq!((r.tcp_addr, r.udp_addr, r.max_connections), (addr(3), addr(4), 9));
    assert_eq!((r.key_file.as_str(), r.log_level.as_str(), r.seeds.len()), ("c", "debug", 0));
}

#[test]
fn authorization() {
    let key = Some("secret123".to_string());
    assert!(!is_authorized(&key, None));
    assert!(!is_authorized(&key, Some("Bearer wrong")));
    assert!(!is_authorized(&key, Some("secret123")));
    assert!(is_authorized(&key, Some("Bearer secret123")));
    assert!(is_authorized(&None, None));
}

#[test]
fn requests() {
    let wish = || ConnectRequest { peer_addr: "127.0.0.1:9999".to_string() };
    assert!(matches!(connect_peer(wish(), Some(addr(9999))), (202, Some(ApiCommand::Connect(a))) if a == addr(9999)));
    assert!(matches!(connect_peer(wish(), None), (400, None)));
    let request = || TransferRequest { target_peer: "p".to_string(), file_path: "f".to_string() };
    assert!(matches!(
        send_file(request(), Some(addr(1))),
        (202, Some(ApiCommand::SendFile { target, file_path })) if target == addr(1) && file_path == "f"
    ));
    assert!(matches!(send_file(request(), None), (400, None)));
}

#[test]
fn figures() {
    let mut pool = ConnectionPool::with_defaults();
    let now = ceky::time::Instant { nanos: 0 };
    pool.insert(addr(1), now).unwrap();
    pool.with_connection(&addr(1), |mut c| {
        c.record_send(300, now);
        c.record_recv(100, now);
        (c, ())
    });
    let mut m = GlobalMetrics::new();
    m.update(&pool.stats(), vec![]);
    pool.with_connection(&addr(1), |mut c| {
        c.record_send(50, now);
        (c, ())
    });
    let lines = vec![
        (TransferId::from_u128(0xAB), "f".to_string(), 4, 1, true),
        (TransferId::from_u128(1), "g".to_string(), 0, 0, false),
    ];
    m.update(&pool.stats(), lines);
    assert_eq!((m.tx_bytes, m.rx_bytes, m.tx_rate, m.rx_rate), (350, 100, 50, 0));
    assert_eq!(m.active_tcp_connections, 1);
    assert_eq!(m.transfers[0].transfer_id, "000000000000000000000000000000ab");
    assert_eq!(transfer_line(&m.transfers[0]), "[Tx] f - 25% (1/4)");
    assert_eq!(transfer_line(&m.transfers[1]), "[Rx] g - 0% (0/0)");
    let r = get_metrics(&m);
    assert_eq!((r.tx_bytes, r.transfers.len()), (350, 2));
    let s = get_status(&PeerId::from_bytes([0xCD; 32]), "t".to_string(), "u".to_string(), &m);
    assert_eq!((s.peer_id.as_str(), s.active_connections), ("cdcdcdcd…cdcd", 1));
}

fn log(n: usize) -> LogMessage {
    LogMessage {
        timestamp: String::new(),
        level: "INFO".to_string(),
        target: String::new(),
        message: n.to_string(),
    }
}

#[test]
fn screen_state() {
    let mut app = TuiApp::new();
    for n in 0..105 {
        app.push_log(log(n));
    }
    assert_eq!(app.logs.len(), 100);
    assert_eq!(app.logs[0].message, "5");
    app.on_tick(7, 8);
    app.on_tick(9, 10);
    assert_eq!(&app.tx_history[97..], &[0, 7, 9]);
    assert_eq!(&app.rx_history[97..], &[0, 8, 10]);
    assert_eq!(app.tx_history.len(), 100);
    assert_eq!(visible_logs(&app.logs, 5), vec![99, 98, 97]);
    assert!(visible_logs(&app.logs, 2).is_empty());
    assert!(is_quit_key('q', false) && is_quit_key('Q', false) && is_quit_key('c', true));
    assert!(!is_quit_key('c', false));
}

#[test]
fn log_lines() {
    let mut v = StringVisitor::new();
    v.record_debug("message", "\"started\"");
    v.record_debug("port", "9000");
    assert_eq!(v.message, "started port=9000");
    v.record_debug("message", "plain");
    assert_eq!(v.message, "plain");
    assert_eq!(level_color("ERROR"), LogColor::Red);
    assert_eq!(level_color("WARN"), LogColor::Yellow);
    assert_eq!(level_color("DEBUG"), LogColor::DarkGray);
    assert_eq!(level_color("INFO"), LogColor::White);
    let p = TransferProgress {
        transfer_id: String::new(),
        file_name: "x".to_string(),
        total_chunks: u32::MAX,
        completed_chunks: u32::MAX,
        is_sending: false,
    };
    assert_eq!(transfer_line(&p), "[Rx] x - 100% (4294967295/4294967295)");
}
