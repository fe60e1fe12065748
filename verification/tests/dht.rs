use ceky::crypto::identity::PeerId;
use ceky::dht::bootstrap::{BootstrapConfig, BootstrapManager, BootstrapState};
use ceky::dht::operations::{IterativeLookup, PeerEntry};
use ceky::dht::peer_info::{PeerInfo, PeerScore, PeerState};
use ceky::dht::routing::{KBucket, RoutingTable, ALPHA, K};
use ceky::dht::storage::{
    expired_keys, row_is_due, BatchWriter, CacheLookup, PersistentStore, Row, StoredEntry, WriterAction, WriterEvent,
};
use ceky::dht::supernode::{Latency, PromotionCriteria, Ratio, SuperNodeManager, SuperNodeTier};
use ceky::dht::DhtError;
use ceky::net::SocketAddr;
use ceky::time::{Clock, Duration, Instant};
use std::collections::{HashMap, HashSet};

fn at(secs: u64) -> Instant {
    Instant { nanos: secs as u128 * 1_000_000_000 }
}

fn make_peer_id(byte: u8) -> PeerId {
    let mut bytes = [0u8; 32];
    bytes[0] = byte;
    PeerId::from_bytes(bytes)
}

fn addr(port: u16) -> SocketAddr {
    SocketAddr::v4(127, 0, 0, 1, port)
}

fn test_peer() -> PeerInfo {
    PeerInfo::new(PeerId::from_bytes([0x42; 32]), addr(9000), at(0))
}

#[test]
fn peer_lifecycle() {
    let mut peer = test_peer();
    assert_eq!(peer.state, PeerState::Discovered);
    assert!(peer.is_usable());

    peer.mark_active(Duration::from_millis(50), at(1));
    assert_eq!(peer.state, PeerState::Active);
    assert!(peer.is_usable());

    peer.mark_suspect(at(2));
    assert_eq!(peer.state, PeerState::Suspect);
    assert!(!peer.is_usable());

    peer.mark_dead();
    assert_eq!(peer.state, PeerState::Dead);
    assert!(!peer.is_usable());
    assert_eq!(peer.idle_time(at(5)).as_secs(), 4);
}

#[test]
fn score_tracking() {
    let mut score = PeerScore::new(at(0));
    score.record_success(Duration::from_millis(50), at(1));
    score.record_success(Duration::from_millis(30), at(2));
    assert_eq!(score.successes, 2);
    let avg_latency_ms = score.avg_latency().nanos as f64 / 1_000_000.0;
    assert!((avg_latency_ms - 40.0).abs() < 0.1);

    score.record_failure(at(3));
    assert_eq!(score.failures, 1);
    let total = score.successes + score.failures;
    let success_rate = score.successes as f64 / total as f64 * 100.0;
    assert!((success_rate - 66.666).abs() < 1.0);
    assert_eq!(score.uptime.as_secs(), 3);
    score.record_relay(10);
    assert_eq!(score.bytes_relayed, 10);
}

#[test]
fn insert_and_find() {
    let local = make_peer_id(0x00);
    let mut rt = RoutingTable::new(local, at(0));

    let peer1 = make_peer_id(0x01);
    let peer2 = make_peer_id(0x02);

    rt.insert(peer1, addr(9001), at(0)).unwrap();
    rt.insert(peer2, addr(9002), at(0)).unwrap();

    assert_eq!(rt.total_peers(), 2);
    assert!(rt.get(&peer1).is_some());
    assert!(rt.get(&peer2).is_some());
    assert_eq!(rt.local_id(), &local);
}

#[test]
fn dont_insert_self() {
    let local = make_peer_id(0x00);
    let mut rt = RoutingTable::new(local, at(0));

    let result = rt.insert(local, addr(9000), at(0));
    assert!(matches!(result, Ok(false)));
    assert_eq!(rt.total_peers(), 0);
}

#[test]
fn find_closest_returns_sorted() {
    let local = make_peer_id(0x00);
    let mut rt = RoutingTable::new(local, at(0));

    // Insert peers at various distances
    for i in 1..=10u8 {
        let peer_id = make_peer_id(i);
        rt.insert(peer_id, addr(9000 + i as u16), at(0)).unwrap();
    }

    let target = make_peer_id(0x01);
    let closest = rt.find_closest(&target, 5);
    assert_eq!(closest.len(), 5);

    // Verify sorted by XOR distance
    for window in closest.windows(2) {
        let d0 = window[0].peer_id.xor_distance(&target);
        let d1 = window[1].peer_id.xor_distance(&target);
        assert!(d0 <= d1, "results should be sorted by distance");
    }
    let ids: Vec<u8> = closest.iter().map(|p| p.peer_id.as_bytes()[0]).collect();
    assert_eq!(ids, vec![1, 3, 2, 5, 4]);
}

#[test]
fn unusable_peers_are_not_found() {
    let mut rt = RoutingTable::new(make_peer_id(0x00), at(0));
    rt.insert(make_peer_id(1), addr(1), at(0)).unwrap();
    rt.insert(make_peer_id(2), addr(2), at(0)).unwrap();
    rt.mark_suspect(&make_peer_id(1), at(1));
    assert_eq!(rt.find_closest(&make_peer_id(1), 5).len(), 1);
    assert_eq!(rt.active_peers().len(), 1);
    assert_eq!(rt.all_peers().len(), 2);
    assert!(rt.find_closest(&make_peer_id(1), 0).is_empty());
}

#[test]
fn update_existing_peer() {
    let local = make_peer_id(0x00);
    let mut rt = RoutingTable::new(local, at(0));

    let peer = make_peer_id(0x01);
    rt.insert(peer, addr(9001), at(0)).unwrap();
    assert_eq!(rt.total_peers(), 1);

    // Insert again (should update, not duplicate)
    let inserted = rt.insert(peer, addr(9002), at(7)).unwrap();
    assert!(!inserted); // Updated, not newly inserted
    assert_eq!(rt.total_peers(), 1);

    // Address should be updated
    assert_eq!(rt.get(&peer).unwrap().addr, addr(9002));
    assert_eq!(rt.get(&peer).unwrap().last_seen, at(7));
}

#[test]
fn remove_peer() {
    let local = make_peer_id(0x00);
    let mut rt = RoutingTable::new(local, at(0));

    let peer = make_peer_id(0x01);
    rt.insert(peer, addr(9001), at(0)).unwrap();

    let removed = rt.remove(&peer);
    assert!(removed.is_some());
    assert_eq!(rt.total_peers(), 0);
    assert!(rt.get(&peer).is_none());
    assert!(rt.remove(&peer).is_none());
    assert!(rt.remove(&local).is_none());
}

#[test]
fn mark_active_and_suspect() {
    let local = make_peer_id(0x00);
    let mut rt = RoutingTable::new(local, at(0));

    let peer = make_peer_id(0x01);
    rt.insert(peer, addr(9001), at(0)).unwrap();

    rt.mark_active(&peer, Duration::from_millis(50), at(1));
    assert_eq!(rt.get(&peer).unwrap().state, PeerState::Active);

    rt.mark_suspect(&peer, at(2));
    assert_eq!(rt.get(&peer).unwrap().state, PeerState::Suspect);
}

#[test]
fn evict_dead_peers() {
    let local = make_peer_id(0x00);
    let mut rt = RoutingTable::new(local, at(0));

    let peer1 = make_peer_id(0x01);
    let peer2 = make_peer_id(0x02);
    let peer3 = make_peer_id(0x03);
    rt.insert(peer1, addr(9001), at(0)).unwrap();
    rt.insert(peer2, addr(9002), at(0)).unwrap();
    rt.insert(peer3, addr(9003), at(0)).unwrap();

    // Mark peer2 as dead
    if let Some(p) = rt.get_mut(&peer2) {
        p.mark_dead();
    }

    let evicted = rt.evict_dead();
    assert_eq!(evicted, 1);
    assert_eq!(rt.total_peers(), 2);
    assert!(rt.get(&peer2).is_none());
}

fn same_bucket(low: u8) -> PeerId {
    let mut bytes = [0u8; 32];
    bytes[0] = 0x01; // Same highest bit
    bytes[31] = low; // Vary low bytes for uniqueness
    PeerId::from_bytes(bytes)
}

#[test]
fn bucket_overflow_evicts_worst() {
    let local = PeerId::from_bytes([0u8; 32]);
    let mut rt = RoutingTable::new(local, at(0));

    for i in 0..K {
        rt.insert(same_bucket(i as u8), addr(9000 + i as u16), at(0)).unwrap();
    }
    assert_eq!(rt.total_peers(), K);

    // Next insert should fail (bucket full, no dead/suspect peers)
    let overflow_peer = same_bucket(K as u8);
    let result = rt.insert(overflow_peer, addr(9999), at(1));
    assert!(matches!(result, Err(DhtError::BucketFull { .. })));

    // Mark one peer as dead → should allow insert
    let dead_peer = same_bucket(0);
    if let Some(p) = rt.get_mut(&dead_peer) {
        p.mark_dead();
    }

    let result = rt.insert(overflow_peer, addr(9999), at(2));
    assert!(result.is_ok());
    assert_eq!(rt.total_peers(), K);
    assert!(rt.get(&dead_peer).is_none());
}

#[test]
fn lowest_rank_is_evicted_first() {
    let mut rt = RoutingTable::new(PeerId::from_bytes([0u8; 32]), at(0));
    for i in 0..K {
        rt.insert(same_bucket(i as u8), addr(9000 + i as u16), at(0)).unwrap();
    }
    rt.mark_dead(&same_bucket(3));
    rt.mark_suspect(&same_bucket(5), at(1));
    rt.set_rank(&same_bucket(3), 10);
    rt.set_rank(&same_bucket(5), -4);
    rt.set_rank(&same_bucket(7), -100); // not evictable
    rt.insert(same_bucket(100), addr(1), at(2)).unwrap();
    assert!(rt.get(&same_bucket(5)).is_none());
    assert!(rt.get(&same_bucket(3)).is_some());
    assert!(rt.get(&same_bucket(7)).is_some());
}

#[test]
fn routing_stats() {
    let local = make_peer_id(0x00);
    let mut rt = RoutingTable::new(local, at(0));

    rt.insert(make_peer_id(0x01), addr(9001), at(0)).unwrap();
    rt.insert(make_peer_id(0x02), addr(9002), at(0)).unwrap();
    rt.insert(make_peer_id(0x80), addr(9003), at(0)).unwrap(); // Different bucket

    rt.mark_active(&make_peer_id(0x01), Duration::from_millis(10), at(1));

    let stats = rt.stats();
    assert_eq!(stats.total_peers, 3);
    assert!(stats.non_empty_buckets >= 2);
    assert_eq!(stats.active, 1);
    assert_eq!(stats.discovered, 2);
    assert_eq!(stats.to_string(), "RT[3 peers in 3 buckets: 1 active, 0 suspect, 2 discovered]");
}

#[test]
fn large_scale_routing() {
    let local = PeerId::from_bytes([0u8; 32]);
    let mut rt = RoutingTable::new(local, at(0));

    let mut inserted = 0u16;
    for byte_idx in 0..32u8 {
        for bit in 0..8u8 {
            let mut bytes = [0u8; 32];
            bytes[byte_idx as usize] = 1 << bit;
            let peer = PeerId::from_bytes(bytes);
            if rt.insert(peer, addr(9000 + inserted), at(0)).is_ok() {
                inserted += 1;
            }
        }
    }

    // 256 unique peers, each in a different bucket
    assert!(inserted > 200, "should insert most of the 256 peers, got {inserted}");

    // find_closest should return at most K peers
    let target = make_peer_id(0x42);
    let closest = rt.find_closest(&target, K);
    assert!(closest.len() <= K);
    assert!(!closest.is_empty());
}

#[test]
fn stale_buckets_by_age() {
    let mut rt = RoutingTable::new(make_peer_id(0), at(0));
    rt.insert(make_peer_id(0x80), addr(1), at(0)).unwrap();
    rt.insert(make_peer_id(0x01), addr(2), at(0)).unwrap();
    assert!(rt.stale_buckets(Duration::from_secs(10), at(10)).is_empty());
    assert_eq!(rt.stale_buckets(Duration::from_secs(10), at(11)), vec![0, 7]);
    rt.mark_refreshed(0, at(11));
    assert_eq!(rt.stale_buckets(Duration::from_secs(10), at(11)), vec![7]);
}

fn make_entry(byte: u8, target: &PeerId) -> PeerEntry {
    let peer_id = make_peer_id(byte);
    PeerEntry { peer_id, addr: addr(9000 + byte as u16), distance: peer_id.xor_distance(target) }
}

#[test]
fn iterative_lookup_converges() {
    let target = make_peer_id(0x42);

    // Seed with a few peers
    let seeds = vec![make_entry(0x40, &target), make_entry(0x44, &target), make_entry(0x50, &target)];

    let mut lookup = IterativeLookup::new(target, seeds);

    // Round 1: get ALPHA peers to query
    let to_query = lookup.next_to_query();
    assert_eq!(to_query.len(), ALPHA);

    // Simulate responses with closer peers
    let closer = vec![make_entry(0x43, &target), make_entry(0x41, &target)];
    lookup.process_responses(closer);

    // Round 2
    let to_query = lookup.next_to_query();
    assert!(!to_query.is_empty());

    // No more new peers → should converge
    lookup.process_responses(vec![]);
    let to_query = lookup.next_to_query();
    if to_query.is_empty() {
        assert!(lookup.is_complete());
    }

    let result = lookup.result();
    assert!(result.hops >= 2);
    assert!(!result.closest.is_empty());
    assert_eq!(result.queried_count, 5);
    assert_eq!(lookup.round(), 3);
}

#[test]
fn iterative_lookup_deduplicates() {
    let target = make_peer_id(0x42);
    let seeds = vec![make_entry(0x40, &target)];

    let mut lookup = IterativeLookup::new(target, seeds);
    let _ = lookup.next_to_query();

    // Add same peer again
    lookup.process_responses(vec![make_entry(0x40, &target)]);

    // Should not have duplicates in result
    let result = lookup.result();
    let ids: HashSet<_> = result.closest.iter().map(|p| p.peer_id).collect();
    assert_eq!(ids.len(), result.closest.len());
}

#[test]
fn find_node_result_sorted_by_distance() {
    let target = make_peer_id(0x00);
    let seeds = vec![
        make_entry(0x80, &target), // Far
        make_entry(0x01, &target), // Close
        make_entry(0x40, &target), // Medium
        make_entry(0x02, &target), // Close
    ];

    let lookup = IterativeLookup::new(target, seeds);
    let result = lookup.result();

    // Should be sorted by distance
    for window in result.closest.windows(2) {
        assert!(window[0].distance <= window[1].distance, "results should be sorted by distance");
    }
    let ids: Vec<u8> = result.closest.iter().map(|p| p.peer_id.as_bytes()[0]).collect();
    assert_eq!(ids, vec![0x01, 0x02, 0x40, 0x80]);
}

#[test]
fn lookup_keeps_the_closest_sixty() {
    let target = make_peer_id(0x00);
    let mut lookup = IterativeLookup::new(target, vec![]);
    for b in (1..=100u8).rev() {
        lookup.add_peer(make_entry(b, &target));
    }
    let mut asked = Vec::new();
    loop {
        let batch = lookup.next_to_query();
        if batch.is_empty() {
            break;
        }
        asked.extend(batch.iter().map(|p| p.peer_id.as_bytes()[0]));
    }
    assert!(lookup.is_complete());
    assert_eq!(asked, (1..=60u8).collect::<Vec<_>>());
    assert_eq!(lookup.result().closest.len(), K);
}

#[test]
fn lookup_finds_the_nearest_ever_heard_of() {
    let target = make_peer_id(0x00);
    let mut lookup = IterativeLookup::new(target, vec![make_entry(200, &target), make_entry(150, &target)]);
    let mut asked = Vec::new();
    let mut rounds = 0;
    for turn in 0..30u8 {
        let heard = (1..=5).map(|i| make_entry(149 - turn * 4 - i, &target)).collect();
        lookup.process_responses(heard);
        let batch = lookup.next_to_query();
        rounds += 1;
        assert!(!batch.is_empty());
        assert!(!lookup.is_complete());
        asked.extend(batch.iter().map(|p| p.peer_id));
    }
    let distinct: HashSet<_> = asked.iter().collect();
    assert_eq!(distinct.len(), asked.len());
    let result = lookup.result();
    let found: Vec<u8> = result.closest.iter().map(|p| p.peer_id.as_bytes()[0]).collect();
    assert_eq!(found, (28..48u8).collect::<Vec<_>>());
    assert_eq!((result.hops, result.queried_count), (rounds, asked.len()));
}

#[test]
fn bootstrap_lifecycle() {
    let seeds = vec![addr(9001), addr(9002)];
    let mut bm = BootstrapManager::with_seeds(seeds);

    assert_eq!(bm.state(), BootstrapState::Idle);
    assert_eq!(bm.seed_addrs().len(), 2);

    bm.seeds_contacted(1, 2);
    assert_eq!(bm.state(), BootstrapState::ContactingSeeds);
    let lookup = bm.prepare_self_lookup(&make_peer_id(1), vec![make_entry(3, &make_peer_id(1))]);
    assert_eq!(lookup.result().closest.len(), 1);
    assert_eq!(bm.state(), BootstrapState::SelfLookup);
    bm.begin_bucket_fill();
    assert_eq!(bm.state(), BootstrapState::BucketFill);
    assert_eq!(bm.refresh_interval().as_secs(), 3600);
}

#[test]
fn generate_fill_targets() {
    let local = PeerId::from_bytes([0x00; 32]);
    let bm = BootstrapManager::new(BootstrapConfig { random_lookups: 5, ..Default::default() });

    let targets = bm.generate_bucket_fill_targets(&local);
    assert_eq!(targets.len(), 5);

    // All targets should be different from local
    for t in &targets {
        assert_ne!(*t, local);
    }
    let buckets: Vec<_> = targets.iter().map(|t| local.bucket_index(t).unwrap()).collect();
    assert_eq!(buckets, vec![0, 51, 102, 153, 204]);
    assert_eq!(targets[1].as_bytes()[6], 0x08);
    assert_eq!(targets[1].as_bytes()[7], 0x9E + 0x37);
}

#[test]
fn stale_bucket_refresh() {
    let local = PeerId::from_bytes([0x00; 32]);
    let mut rt = RoutingTable::new(local, at(0));
    let bm = BootstrapManager::new(BootstrapConfig {
        refresh_interval: Duration::from_secs(0), // Everything is stale
        ..Default::default()
    });

    // Empty routing table has no stale buckets (empty buckets aren't stale)
    let targets = bm.stale_bucket_targets(&local, &rt, at(1));
    assert!(targets.is_empty());
    rt.insert(make_peer_id(0x20), addr(1), at(0)).unwrap();
    assert_eq!(bm.stale_bucket_targets(&local, &rt, at(1)), vec![make_peer_id(0x20)]);
}

#[test]
fn complete_with_peers() {
    let local = PeerId::from_bytes([0x00; 32]);
    let mut rt = RoutingTable::new(local, at(0));
    let peer = PeerId::from_bytes([0x01; 32]);
    rt.insert(peer, addr(9001), at(0)).unwrap();

    let mut bm = BootstrapManager::new(Default::default());
    let result = bm.complete(&rt);

    assert_eq!(result.state, BootstrapState::Complete);
    assert_eq!(result.peers_discovered, 1);
}

#[test]
fn complete_without_peers() {
    let local = PeerId::from_bytes([0x00; 32]);
    let rt = RoutingTable::new(local, at(0));

    let mut bm = BootstrapManager::new(Default::default());
    let result = bm.complete(&rt);

    assert_eq!(result.state, BootstrapState::Failed);
    assert_eq!(result.peers_discovered, 0);
}

#[test]
fn serialization_roundtrip() {
    let key = [0x42; 32];
    let publisher = make_peer_id(0x01);
    let value = b"hello distributed world".to_vec();

    let entry = StoredEntry::new(key, value.clone(), publisher, 3600);
    let encoded = entry.encode();

    let decoded = StoredEntry::decode(&encoded).expect("should decode");
    assert_eq!(decoded.key, key);
    assert_eq!(decoded.value, value);
    assert_eq!(decoded.publisher.as_bytes(), publisher.as_bytes());
    assert_eq!(decoded.expires_at, entry.expires_at);
    assert_eq!(encoded.len(), 76 + value.len());
}

#[test]
fn stored_entry_expiry() {
    let e = StoredEntry::new_at([1; 32], vec![], make_peer_id(1), 10, 100);
    assert_eq!(e.expires_at, 110);
    assert!(!e.is_expired_at(109));
    assert!(e.is_expired_at(110));
    assert!(StoredEntry::new_at([1; 32], vec![], make_peer_id(1), 0, 0).is_expired());
    assert!(!StoredEntry::new([1; 32], vec![], make_peer_id(1), 3600).is_expired());
    assert_eq!(StoredEntry::new_at([1; 32], vec![], make_peer_id(1), u64::MAX, 1).expires_at, u64::MAX);
}

fn invalid_key(payload: &[u8]) -> String {
    match StoredEntry::decode(payload) {
        Err(DhtError::InvalidKey { reason }) => reason,
        _ => panic!("a bad row was read"),
    }
}

#[test]
fn stored_entry_errors() {
    assert_eq!(invalid_key(&[0; 75]), "payload too short for stored entry");
    let mut row = vec![0; 80];
    row[75] = 5;
    assert_eq!(invalid_key(&row), "payload too short for value");
    row[75] = 4;
    assert_eq!(StoredEntry::decode(&row).unwrap().value.len(), 4);
}

/// The disk of the store, for tests: rows under their keys.
fn write_rows(disk: &mut HashMap<[u8; 32], Vec<u8>>, rows: Vec<Row>) {
    for row in rows {
        disk.insert(row.key, row.data);
    }
}

#[test]
fn persistent_store_put_get() {
    let mut disk: HashMap<[u8; 32], Vec<u8>> = HashMap::new();
    let mut store = PersistentStore::new();
    let mut writer = BatchWriter::new();

    let key = [0x99; 32];
    let entry = StoredEntry::new_at(key, b"persistent data".to_vec(), make_peer_id(2), 3600, 1000);

    store.put(entry.clone()).unwrap();

    // Should be in hot cache immediately
    match store.get_hot(&key, 1000) {
        CacheLookup::Fresh(e) => assert_eq!(e.value, b"persistent data"),
        _ => panic!("should find in cache"),
    }

    // The batch writer writes it once the time is up
    for e in store.take_pending() {
        assert!(matches!(writer.on_event(WriterEvent::Entry(e)), WriterAction::Gather));
    }
    match writer.on_event(WriterEvent::Timeout) {
        WriterAction::Write(rows) => write_rows(&mut disk, rows),
        _ => panic!("should write"),
    }

    // Clear hot cache to force disk read
    store.remove(&key);
    assert!(store.is_empty());
    assert!(matches!(store.get_hot(&key, 1000), CacheLookup::Absent));

    // Retrieve again, this time from DB
    let retrieved = store.get_cold(&key, disk.get(&key).cloned(), 1000).expect("should find in db");
    assert_eq!(retrieved.value, b"persistent data");

    // Cache should be populated again
    assert!(!store.is_empty());
    assert_eq!(store.len(), 1);
    // and expires
    assert!(matches!(store.get_hot(&key, 4600), CacheLookup::Expired));
    assert!(store.get_cold(&[1; 32], disk.get(&key).cloned(), 4600).is_none());
    assert!(store.get_cold(&[1; 32], None, 0).is_none());
    let index = vec![(4600u64, key), (5000, [7; 32])];
    assert_eq!(expired_keys(&index, 4600), vec![(4600, key)]);
    store.collect(&expired_keys(&index, 4600), 4600);
    assert!(store.is_empty());
}

#[test]
fn last_entry_under_a_key_outlives_the_first() {
    let key = [3; 32];
    let first = StoredEntry::new_at(key, b"first".to_vec(), make_peer_id(1), 5, 0);
    let second = StoredEntry::new_at(key, b"second".to_vec(), make_peer_id(1), 100, 0);
    let mut disk: HashMap<[u8; 32], Vec<u8>> = HashMap::new();
    let mut index = vec![(5u64, key)];
    let mut store = PersistentStore::new();
    store.put(first.clone()).unwrap();
    disk.insert(key, first.encode());
    store.mark_written(1);
    store.put(second.clone()).unwrap();

    // nothing is cleared away while the second is still to be written
    assert!(store.settled(&expired_keys(&index, 10)).is_empty());
    disk.insert(key, second.encode());
    index.push((100, key));
    store.mark_written(1);

    let due = store.settled(&expired_keys(&index, 10));
    assert_eq!(due, vec![(5, key)]);
    assert!(row_is_due(&first.encode(), 10));
    assert!(!row_is_due(&disk[&key], 10));
    store.collect(&due, 10);
    match store.get_hot(&key, 10) {
        CacheLookup::Fresh(e) => assert_eq!(e.value, b"second"),
        _ => panic!("the second entry has not expired"),
    }
    assert!(!store.needs_row(&key));
    assert_eq!(store.get(&key, None, 99).unwrap().value, b"second");
    assert!(store.get(&key, None, 100).is_none());
    // the row on disk yields it when the cache has lost it
    let mut fresh = PersistentStore::new();
    assert!(fresh.needs_row(&key));
    assert!(fresh.get(&key, None, 10).is_none());
    assert!(fresh.get(&key, disk.get(&key).cloned(), 100).is_none());
    assert_eq!(fresh.get(&key, disk.get(&key).cloned(), 10).unwrap().value, b"second");
    assert!(!fresh.needs_row(&key));
    assert_eq!(fresh.remove(&key).unwrap().value, b"second");
    assert!(fresh.needs_row(&key));

    let due = store.settled(&expired_keys(&index, 100));
    assert_eq!(due, index);
    assert!(row_is_due(&disk[&key], 100));
    assert!(row_is_due(b"no row at all", 0));
    store.collect(&due, 100);
    assert!(matches!(store.get_hot(&key, 100), CacheLookup::Absent));
    store.mark_written(7);
    assert_eq!(store.settled(&index), index);
}

#[test]
fn batches_of_a_hundred() {
    let mut writer = BatchWriter::new();
    for i in 0..99u8 {
        let e = StoredEntry::new_at([i; 32], vec![i], make_peer_id(1), 1, 1);
        assert!(matches!(writer.on_event(WriterEvent::Entry(e)), WriterAction::Gather));
    }
    let last = StoredEntry::new_at([99; 32], vec![], make_peer_id(1), 1, 1);
    match writer.on_event(WriterEvent::Entry(last)) {
        WriterAction::Write(rows) => {
            assert_eq!(rows.len(), 100);
            assert_eq!(rows[42].key, [42; 32]);
            assert_eq!(rows[42].expires_at, 2);
        }
        _ => panic!("a full batch was not written"),
    }
    assert!(matches!(writer.on_event(WriterEvent::Timeout), WriterAction::Wait));
    assert!(matches!(writer.on_event(WriterEvent::Closed), WriterAction::Stop));
}

#[test]
fn most_recently_heard_peer_stands_last() {
    let mut rt = RoutingTable::new(make_peer_id(0), at(0));
    let ids: Vec<PeerId> = (0x80..0x83u8).map(make_peer_id).collect();
    for (i, id) in ids.iter().enumerate() {
        rt.insert(*id, addr(9000), at(i as u64)).unwrap();
    }
    let order = |rt: &RoutingTable| rt.all_peers().iter().map(|p| p.peer_id).collect::<Vec<_>>();
    assert_eq!(order(&rt), ids);
    rt.mark_active(&ids[0], Duration::from_millis(5), at(10));
    assert_eq!(order(&rt), vec![ids[1], ids[2], ids[0]]);
    assert_eq!(rt.get(&ids[0]).unwrap().last_seen, at(10));
    // time does not run backwards
    rt.insert(ids[1], addr(9001), at(9)).unwrap();
    assert_eq!(order(&rt), vec![ids[2], ids[0], ids[1]]);
    assert_eq!(rt.get(&ids[1]).unwrap().last_seen, at(10));
}

#[test]
fn bucket_lists_the_best_ranked_first() {
    let mut bucket = KBucket::new(at(0));
    for (byte, rank) in [(1u8, 5i64), (2, 9), (3, 5), (4, 7), (5, -1)] {
        let mut p = PeerInfo::new(make_peer_id(byte), addr(9000), at(0));
        p.score.rank = rank;
        if byte == 4 {
            p.mark_dead();
        }
        bucket.peers.push(p);
    }
    let order: Vec<PeerId> = bucket.closest_peers().iter().map(|p| p.peer_id).collect();
    assert_eq!(order, vec![make_peer_id(2), make_peer_id(1), make_peer_id(3), make_peer_id(5)]);
}

fn peer(byte: u8) -> PeerId {
    PeerId::from_bytes([byte; 32])
}

fn latency(ms: f64) -> Latency {
    Latency { order: ms.to_bits() as i64 }
}

/// Records a query; the average of the answers is kept as a running mean.
fn record(mgr: &mut SuperNodeManager, id: PeerId, addr: SocketAddr, success: bool, latency_ms: Option<f64>) {
    let (mean, count) = match mgr.get(&id) {
        Some(info) => (f64::from_bits(info.avg_latency.order as u64), info.total_successes),
        None => (0.0, 0),
    };
    let n = count as f64 + 1.0;
    let avg = latency_ms.map(|l| latency(mean * ((n - 1.0) / n) + l / n));
    mgr.record_performance(id, addr, success, avg, at(0));
}

fn fast_criteria(percent: u64, min_successes: u64, elite_min_successes: u64) -> PromotionCriteria {
    PromotionCriteria {
        candidate_uptime: Duration::from_millis(0),
        supernode_uptime: Duration::from_millis(0),
        elite_uptime: Duration::from_millis(0),
        min_success_rate: Ratio { num: percent, den: 100 },
        max_avg_latency: latency(200.0),
        min_successes,
        elite_min_successes,
        observation_period: Duration::from_millis(0),
    }
}

#[test]
fn regular_by_default() {
    let mut mgr = SuperNodeManager::with_defaults();
    record(&mut mgr, peer(1), addr(9001), true, Some(50.0));

    let info = mgr.get(&peer(1)).unwrap();
    assert_eq!(info.tier, SuperNodeTier::Regular);
    assert_eq!(PromotionCriteria::default().max_avg_latency, latency(100.0));
}

#[test]
fn promotion_with_fast_criteria() {
    let mut mgr = SuperNodeManager::new(fast_criteria(90, 5, 20), 100);

    // Record enough successes for SuperNode
    for _ in 0..10 {
        record(&mut mgr, peer(1), addr(9001), true, Some(50.0));
    }

    let changes = mgr.evaluate_all(at(0));
    assert!(!changes.is_empty());
    assert_eq!(changes, vec![(peer(1), SuperNodeTier::Regular, SuperNodeTier::SuperNode)]);

    let info = mgr.get(&peer(1)).unwrap();
    assert!(info.tier >= SuperNodeTier::SuperNode);
    assert_eq!(info.promoted_at, Some(at(0)));
    assert!(mgr.evaluate_all(at(0)).is_empty());

    // The time of the first promotion stays
    for _ in 0..10 {
        record(&mut mgr, peer(1), addr(9001), false, None);
    }
    mgr.evaluate_all(at(1));
    assert_eq!(mgr.get(&peer(1)).unwrap().tier, SuperNodeTier::Regular);
    for _ in 0..1000 {
        record(&mut mgr, peer(1), addr(9001), true, Some(50.0));
    }
    mgr.evaluate_all(at(2));
    let info = mgr.get(&peer(1)).unwrap();
    assert!(info.tier >= SuperNodeTier::SuperNode);
    assert_eq!((info.promoted_at, info.tier_since), (Some(at(0)), at(2)));
}

#[test]
fn demotion_on_failures() {
    let mut mgr = SuperNodeManager::new(fast_criteria(90, 5, 20), 100);

    // First, promote
    for _ in 0..10 {
        record(&mut mgr, peer(1), addr(9001), true, Some(50.0));
    }
    mgr.evaluate_all(at(0));
    assert!(mgr.get(&peer(1)).unwrap().tier >= SuperNodeTier::SuperNode);

    // Now add many failures to drop success rate below threshold
    for _ in 0..100 {
        record(&mut mgr, peer(1), addr(9001), false, None);
    }
    mgr.evaluate_all(at(0));
    assert_eq!(mgr.get(&peer(1)).unwrap().tier, SuperNodeTier::Regular);
}

#[test]
fn relay_capable_filter() {
    let mut mgr = SuperNodeManager::new(fast_criteria(80, 3, 100), 100);

    // Make peer 1 a SuperNode
    for _ in 0..5 {
        record(&mut mgr, peer(1), addr(9001), true, Some(30.0));
    }
    // Keep peer 2 as Regular (only 1 success)
    record(&mut mgr, peer(2), addr(9002), true, Some(30.0));

    mgr.evaluate_all(at(0));

    let relays = mgr.relay_capable();
    assert_eq!(relays.len(), 1);
    assert_eq!(relays[0].peer_id, peer(1));
    assert_eq!(mgr.best_relay().unwrap().peer_id, peer(1));
    assert_eq!(mgr.nodes_by_tier(SuperNodeTier::Candidate).len(), 1);
}

#[test]
fn slow_peers_are_regular() {
    let mut mgr = SuperNodeManager::new(fast_criteria(80, 3, 100), 100);
    for _ in 0..11 {
        record(&mut mgr, peer(1), addr(9001), true, Some(250.0));
    }
    mgr.evaluate_all(at(0));
    assert_eq!(mgr.get(&peer(1)).unwrap().tier, SuperNodeTier::Regular);
}

#[test]
fn tiers_by_uptime() {
    let mut mgr = SuperNodeManager::with_defaults();
    for _ in 0..1000 {
        record(&mut mgr, peer(1), addr(1), true, Some(20.0));
    }
    let mut tier_at = |secs: u64| {
        mgr.evaluate_all(at(secs));
        mgr.get(&peer(1)).unwrap().tier
    };
    assert_eq!(tier_at(3599), SuperNodeTier::Regular);
    assert_eq!(tier_at(3600), SuperNodeTier::Candidate);
    assert_eq!(tier_at(14400), SuperNodeTier::SuperNode);
    assert_eq!(tier_at(86400), SuperNodeTier::Elite);
    assert!(SuperNodeTier::Elite.can_bootstrap() && SuperNodeTier::Elite.can_relay());
}

#[test]
fn best_relay_has_the_best_rate() {
    let mut mgr = SuperNodeManager::new(fast_criteria(50, 3, 1000), 100);
    for id in 1..=3u8 {
        for _ in 0..9 {
            record(&mut mgr, peer(id), addr(id as u16), true, Some(10.0));
        }
        for _ in 0..id % 3 {
            record(&mut mgr, peer(id), addr(id as u16), false, None);
        }
    }
    assert!(mgr.best_relay().is_none());
    mgr.evaluate_all(at(0));
    assert_eq!(mgr.best_relay().unwrap().peer_id, peer(3));
}

#[test]
fn pruning_drops_the_weakest() {
    let mut mgr = SuperNodeManager::new(PromotionCriteria::default(), 2);
    for id in 1..=4u8 {
        for _ in 0..id {
            record(&mut mgr, peer(id), addr(id as u16), true, None);
        }
    }
    assert_eq!(mgr.prune(), 2);
    assert!(mgr.get(&peer(1)).is_none() && mgr.get(&peer(2)).is_none());
    assert!(mgr.get(&peer(3)).is_some() && mgr.get(&peer(4)).is_some());
    assert_eq!(mgr.prune(), 0);
    mgr.record_relay(&peer(3), 77);
    assert_eq!(mgr.remove(&peer(3)).unwrap().bytes_relayed, 77);
}

#[test]
fn tier_ordering() {
    assert!(SuperNodeTier::Elite > SuperNodeTier::SuperNode);
    assert!(SuperNodeTier::SuperNode > SuperNodeTier::Candidate);
    assert!(SuperNodeTier::Candidate > SuperNodeTier::Regular);
}

#[test]
fn supernode_stats() {
    let mut mgr = SuperNodeManager::with_defaults();
    record(&mut mgr, peer(1), addr(9001), true, Some(10.0));
    record(&mut mgr, peer(2), addr(9002), true, Some(20.0));

    let stats = mgr.stats();
    assert_eq!(stats.total_tracked, 2);
    assert_eq!(stats.regular, 2);
    assert_eq!(stats.to_string(), "SuperNodes[2 tracked: 2 regular, 0 candidate, 0 super, 0 elite]");
    assert_eq!(SuperNodeTier::SuperNode.to_string(), "SuperNode");
}

#[test]
fn clocks() {
    let clock = Clock::start();
    let a = clock.now();
    let b = clock.now();
    assert!(b >= a);
    assert_eq!(a.since(b).nanos, 0);
    assert!(ceky::time::unix_secs() > 1_600_000_000);
    assert!(ceky::time::unix_nanos() / 1_000_000_000 >= ceky::time::unix_secs() as u128 - 1);
}
