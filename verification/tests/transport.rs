use bytes::Bytes;
use ceky::net::{IpAddr, SocketAddr};
use ceky::protocol::types::{Flags, Frame, MessageType};
use ceky::table::Table;
use ceky::time::{Duration, Instant};
use ceky::transport::connection::{ConnectionConfig, ConnectionInfo, ConnectionState};
use ceky::transport::pool::ConnectionPool;
use ceky::transport::tcp::{on_closed, on_connected, on_disconnect, on_frame, on_queued, on_read_error, on_written, FrameAction};
use ceky::transport::udp::{decode_datagram, encode_datagram, on_datagram};
use ceky::transport::{TransportError, TransportEvent};

fn at(millis: u64) -> Instant {
    Instant { nanos: millis as u128 * 1_000_000 }
}

fn addr(port: u16) -> SocketAddr {
    SocketAddr::v4(127, 0, 0, 1, port)
}

#[test]
fn connection_lifecycle() {
    let mut conn = ConnectionInfo::new(addr(9000), ConnectionConfig::default(), at(0));
    assert_eq!(conn.state, ConnectionState::Connecting);
    assert!(conn.is_active());

    conn.set_established();
    assert_eq!(conn.state, ConnectionState::Established);
    assert!(conn.is_active());

    conn.set_closing();
    assert_eq!(conn.state, ConnectionState::Closing);
    assert!(!conn.is_active());

    conn.set_closed();
    assert_eq!(conn.state, ConnectionState::Closed);
    assert!(!conn.is_active());
    assert_eq!(conn.uptime(at(5)), Duration::from_millis(5));
}

#[test]
fn heartbeat_tracking() {
    let config = ConnectionConfig {
        heartbeat_interval: Duration::from_millis(10),
        heartbeat_timeout: Duration::from_millis(50),
        max_missed_heartbeats: 2,
    };
    let mut conn = ConnectionInfo::new(addr(9000), config, at(0));
    conn.set_established();

    // Initially shouldn't need ping (just connected)
    assert!(!conn.should_send_ping(at(0)));
    assert!(!conn.should_send_ping(at(9)));
    assert!(conn.should_send_ping(at(10)));

    // After receiving PONG, missed counter resets
    conn.record_ping_sent(at(10));
    assert!(!conn.should_send_ping(at(10))); // waiting for PONG
    conn.record_pong_received(at(20));
    assert_eq!(conn.missed_heartbeats, 0);
    assert!(!conn.should_send_ping(at(20)));
}

#[test]
fn dead_peer_detection() {
    let config = ConnectionConfig {
        heartbeat_interval: Duration::from_millis(1),
        heartbeat_timeout: Duration::from_millis(1),
        max_missed_heartbeats: 2,
    };
    let mut conn = ConnectionInfo::new(addr(9000), config, at(0));
    conn.set_established();

    assert!(!conn.is_dead(at(0)));
    conn.record_missed_heartbeat();
    assert!(!conn.is_dead(at(0))); // 1 miss, need 2
    conn.record_ping_sent(at(0));
    assert!(conn.is_dead(at(1))); // the second is overdue
    conn.record_missed_heartbeat();
    assert!(conn.is_dead(at(1))); // 2 misses, dead
}

#[test]
fn byte_accounting() {
    let mut conn = ConnectionInfo::new(addr(9000), ConnectionConfig::default(), at(0));
    conn.record_recv(100, at(1));
    conn.record_recv(200, at(2));
    conn.record_send(50, at(3));

    assert_eq!(conn.bytes_recv, 300);
    assert_eq!(conn.bytes_sent, 50);
    assert_eq!(conn.frames_recv, 2);
    assert_eq!(conn.frames_sent, 1);
}

#[test]
fn insert_and_lookup() {
    let mut pool = ConnectionPool::with_defaults();
    assert!(pool.is_empty());

    pool.insert(addr(9001), at(0)).unwrap();
    pool.insert(addr(9002), at(0)).unwrap();

    assert_eq!(pool.len(), 2);
    assert!(pool.contains(&addr(9001)));
    assert!(pool.contains(&addr(9002)));
    assert!(!pool.contains(&addr(9999)));
}

#[test]
fn remove() {
    let mut pool = ConnectionPool::with_defaults();
    pool.insert(addr(9001), at(0)).unwrap();
    assert_eq!(pool.len(), 1);

    let removed = pool.remove(&addr(9001));
    assert!(removed.is_some());
    assert!(pool.is_empty());

    // Removing non-existent should return None
    assert!(pool.remove(&addr(9001)).is_none());
}

#[test]
fn pool_full() {
    let mut pool = ConnectionPool::new(2, ConnectionConfig::default());
    pool.insert(addr(9001), at(0)).unwrap();
    pool.insert(addr(9002), at(0)).unwrap();

    let result = pool.insert(addr(9003), at(0));
    assert!(matches!(result, Err(TransportError::PoolFull { max: 2 })));
}

#[test]
fn duplicate_insert_is_idempotent() {
    let mut pool = ConnectionPool::with_defaults();
    pool.insert(addr(9001), at(0)).unwrap();
    pool.insert(addr(9001), at(0)).unwrap(); // should not error
    assert_eq!(pool.len(), 1);
}

#[test]
fn with_connection_mutation() {
    let mut pool = ConnectionPool::with_defaults();
    pool.insert(addr(9001), at(0)).unwrap();

    pool.with_connection(&addr(9001), |mut conn| {
        conn.set_established();
        conn.record_recv(1024, at(1));
        (conn, ())
    });

    let state = pool.with_connection_ref(&addr(9001), |conn| conn.state);
    assert_eq!(state, Some(ConnectionState::Established));

    let bytes = pool.with_connection_ref(&addr(9001), |conn| conn.bytes_recv);
    assert_eq!(bytes, Some(1024));
    assert_eq!(pool.with_connection(&addr(1), |c| (c, 5)), None);
}

#[test]
fn established_peers() {
    let mut pool = ConnectionPool::with_defaults();
    pool.insert(addr(9001), at(0)).unwrap();
    pool.insert(addr(9002), at(0)).unwrap();
    pool.insert(addr(9003), at(0)).unwrap();

    for port in [9001, 9003] {
        pool.with_connection(&addr(port), |mut c| {
            c.set_established();
            (c, ())
        });
    }

    let established = pool.established_peers();
    assert_eq!(established.len(), 2);
    assert!(established.contains(&addr(9001)));
    assert!(established.contains(&addr(9003)));
    assert_eq!(pool.peer_addrs().len(), 3);
}

#[test]
fn pool_stats() {
    let mut pool = ConnectionPool::new(100, ConnectionConfig::default());
    pool.insert(addr(9001), at(0)).unwrap();
    pool.insert(addr(9002), at(0)).unwrap();
    pool.with_connection(&addr(9001), |mut c| {
        c.set_established();
        c.record_recv(500, at(1));
        c.record_send(300, at(1));
        (c, ())
    });

    let stats = pool.stats();
    assert_eq!(stats.active, 2);
    assert_eq!(stats.established, 1);
    assert_eq!(stats.connecting, 1);
    assert_eq!(stats.total_created, 2);
    assert_eq!(stats.total_bytes_recv, 500);
    assert_eq!(stats.total_bytes_sent, 300);
    assert_eq!(stats.to_string(), "Pool[2/100 active, 1 established, 1 connecting, recv=500B sent=300B]");
}

#[test]
fn evictions() {
    let config = ConnectionConfig { max_missed_heartbeats: 1, ..Default::default() };
    let mut pool = ConnectionPool::new(10, config);
    for port in 1..=4 {
        pool.insert(addr(port), at(0)).unwrap();
    }
    pool.with_connection(&addr(2), |mut c| {
        c.record_recv(1, at(100));
        (c, ())
    });
    let mut idle = pool.evict_idle(Duration::from_millis(50), at(100));
    idle.sort_by_key(|a| a.port);
    assert_eq!(idle, vec![addr(1), addr(3), addr(4)]);
    assert_eq!(pool.peer_addrs(), vec![addr(2)]);
    assert!(pool.dead_peers(at(100)).is_empty());
    pool.with_connection(&addr(2), |mut c| {
        c.record_missed_heartbeat();
        (c, ())
    });
    assert_eq!(pool.evict_dead(at(100)), vec![addr(2)]);
    let stats = pool.stats();
    assert_eq!((stats.active, stats.total_created, stats.total_removed), (0, 4, 4));
}

#[test]
fn pings_that_are_due() {
    let mut pool = ConnectionPool::with_defaults();
    for port in 1..=2 {
        on_connected(&mut pool, addr(port), at(0)).unwrap();
    }
    pool.with_connection(&addr(1), |mut c| {
        c.record_ping_sent(at(15_000));
        (c, ())
    });
    assert_eq!(pool.peers_needing_ping(at(15_000)), vec![addr(2)]);
}

#[test]
fn frames_on_a_connection() {
    let mut pool = ConnectionPool::new(1, ConnectionConfig::default());
    let event = on_connected(&mut pool, addr(1), at(0)).unwrap();
    assert!(matches!(event, TransportEvent::Connected { peer_addr } if peer_addr == addr(1)));
    assert_eq!(pool.get(&addr(1)).unwrap().state, ConnectionState::Established);
    assert!(matches!(on_connected(&mut pool, addr(2), at(0)), Err(TransportError::PoolFull { max: 1 })));

    // A ping is answered by a pong with the same number
    match on_frame(&mut pool, addr(1), Frame::simple(MessageType::Ping, 0xBEEF), at(1)) {
        FrameAction::Reply(f) => {
            assert_eq!(f.header.msg_type, MessageType::Pong);
            assert_eq!(f.header.request_id, 0xBEEF);
        }
        _ => panic!("a ping was not answered"),
    }
    assert_eq!(pool.get(&addr(1)).unwrap().bytes_recv, 21);
    pool.with_connection(&addr(1), |mut c| {
        c.record_ping_sent(at(2));
        (c, ())
    });
    assert!(matches!(
        on_frame(&mut pool, addr(1), Frame::simple(MessageType::Pong, 1), at(3)),
        FrameAction::Done
    ));
    assert_eq!(pool.get(&addr(1)).unwrap().last_ping_sent, None);

    // Anything else goes up
    let frame = Frame::new(MessageType::Data, Flags::empty(), 42, Bytes::from_static(b"hello from A"));
    match on_frame(&mut pool, addr(1), frame, at(4)) {
        FrameAction::Emit(TransportEvent::FrameReceived { peer_addr, frame }) => {
            assert_eq!(peer_addr, addr(1));
            assert_eq!(frame.header.request_id, 42);
            assert_eq!(frame.payload, &b"hello from A"[..]);
        }
        _ => panic!("a frame was kept back"),
    }
    on_queued(&mut pool, addr(1), at(5));
    on_written(&mut pool, addr(1), 33, at(6));
    let info = pool.get(&addr(1)).unwrap();
    assert_eq!((info.bytes_sent, info.frames_sent, info.bytes_recv, info.frames_recv), (33, 1, 75, 3));
    assert_eq!(info.last_send, at(6));
    on_disconnect(&mut pool, addr(1));
    assert_eq!(pool.get(&addr(1)).unwrap().state, ConnectionState::Closing);
    assert!(matches!(
        on_read_error(addr(1), "bad"),
        TransportEvent::Error { peer_addr: Some(a), error } if a == addr(1) && error == "bad"
    ));
    assert!(matches!(
        on_closed(&mut pool, addr(1)),
        TransportEvent::Disconnected { reason, .. } if reason == "connection closed"
    ));
    assert!(pool.is_empty());
}

#[test]
fn datagrams() {
    let payload = Bytes::from_static(b"UDP zero-copy test");
    let frame = Frame::new(MessageType::FindNode, Flags::empty(), 0xCAFE, payload.clone());
    let data = encode_datagram(frame).unwrap();
    match on_datagram(addr(7), &data) {
        Some(TransportEvent::FrameReceived { peer_addr, frame }) => {
            assert_eq!(peer_addr, addr(7));
            assert_eq!(frame.header.msg_type, MessageType::FindNode);
            assert_eq!(frame.header.request_id, 0xCAFE);
            assert_eq!(frame.payload, payload);
        }
        _ => panic!("the frame was lost"),
    }
    assert!(decode_datagram(&data[..30]).unwrap().is_none());
    assert!(on_datagram(addr(7), &data[..30]).is_none());
    assert!(decode_datagram(&[0; 21]).is_err());
    assert!(on_datagram(addr(7), &[0; 21]).is_none());
}

#[test]
fn address_keys() {
    let a = addr(9001);
    let b = SocketAddr::new(IpAddr::V6(0x7F00_0001), 9001);
    assert_ne!(a.key(), b.key());
    assert_ne!(a.key(), addr(9002).key());
    assert_eq!(a.key()[13..17], [127, 0, 0, 1]);
    assert!(a.is_ipv4() && !b.is_ipv4());
}

#[test]
fn table_of_values() {
    let mut t: Table<u32> = Table::new();
    for i in 0..50u8 {
        assert_eq!(t.insert([i; 32], i as u32), None);
    }
    assert_eq!(t.insert([7; 32], 700), Some(7));
    for i in (0..50u8).step_by(3) {
        assert!(t.remove(&[i; 32]).is_some());
        assert!(t.remove(&[i; 32]).is_none());
    }
    assert_eq!(t.len(), 33);
    let mut sum = 0;
    for i in 0..t.len() {
        assert_eq!(t.get(&t.key_at(i)), Some(t.value_at(i)));
        sum += t.value_at(i);
    }
    let expected: u32 = (0..50u32).filter(|i| i % 3 != 0).sum();
    assert_eq!(sum, expected - 7 + 700);
    assert!(t.contains(&[1; 32]) && !t.contains(&[0; 32]));
}
