use bytes::Bytes;
use ceky::net::SocketAddr;
use ceky::protocol::transfer::{
    bitmap_is_missing, ChunkAckStatus, FileAccept, FileChunk, FileChunkAck, FileComplete, FileOffer, TransferId,
};
use ceky::protocol::types::{Frame, MessageType};
use ceky::transfer::manager::{chunk_frame, TransferAction, TransferError, TransferManager};
use ceky::transfer::merkle::{calculate_file_hash, hash_chunk};
use ceky::transfer::state::ReceivingState;
use sha2::{Digest, Sha256};
use std::collections::HashMap;

fn addr(port: u16) -> SocketAddr {
    SocketAddr::v4(127, 0, 0, 1, port)
}

#[test]
fn test_hash_chunk() {
    let data = b"hello zero-copy world";
    let hash = hash_chunk(data);
    assert_ne!(hash, [0u8; 32]);
    let expected: [u8; 32] = Sha256::digest(data).into();
    assert_eq!(hash, expected);
}

#[test]
fn test_calculate_file_hash() {
    let content = vec![0x42; 1024 * 5]; // 5 KB

    let hash_1kb = calculate_file_hash(&content, 1024);
    let hash_2kb = calculate_file_hash(&content, 2048);

    // Hashes should differ based on chunk size since Merkle structure changes
    assert_ne!(hash_1kb, hash_2kb);
    let mut root = Sha256::new();
    for chunk in content.chunks(2048) {
        root.update(Sha256::digest(chunk));
    }
    let expected: [u8; 32] = root.finalize().into();
    assert_eq!(hash_2kb, expected);
    let empty: [u8; 32] = Sha256::digest(b"").into();
    assert_eq!(calculate_file_hash(&[], 1024), empty);
    assert_eq!(calculate_file_hash(&content, 0), empty);
}

fn sent(action: TransferAction) -> Frame {
    match action {
        TransferAction::Send { frame, .. } => frame,
        other => panic!("not a frame: {other:?}"),
    }
}

/// Runs a whole transfer between two managers; gives what the receiver has written.
fn run(content: &[u8], chunk_size: u32) -> (Vec<u8>, Vec<MessageType>) {
    let (a, b) = (addr(1), addr(2));
    let mut sender = TransferManager::new();
    let mut receiver = TransferManager::new();
    let mut kinds = Vec::new();
    let hash = calculate_file_hash(content, chunk_size);
    let (id, offer) = sender.offer_content(b, "f".to_string(), content, chunk_size).unwrap();
    let offer = FileOffer::decode(&sent(offer).payload).unwrap();
    assert_eq!((offer.file_hash, offer.file_size), (hash, content.len() as u64));
    let mut file = vec![0u8; offer.file_size as usize];
    let (accept, credit) = receiver.handle_offer(a, offer, "f".to_string());
    let mut to_sender = vec![sent(accept), sent(credit)];
    while !to_sender.is_empty() {
        let frame = to_sender.remove(0);
        kinds.push(frame.header.msg_type);
        let actions = match frame.header.msg_type {
            MessageType::FileAccept => {
                sender.handle_accept(FileAccept::decode(&frame.payload).unwrap()).unwrap();
                vec![]
            }
            MessageType::CreditUpdate => {
                let n = u32::from_le_bytes(frame.payload[16..20].try_into().unwrap());
                sender.handle_credit_update(id, n)
            }
            MessageType::FileChunkAck => {
                let ack = FileChunkAck::decode(&frame.payload).unwrap();
                assert_eq!(ack.status, ChunkAckStatus::Received);
                sender.handle_chunk_ack(ack)
            }
            MessageType::FileComplete => {
                assert_eq!(FileComplete::decode(&frame.payload).unwrap().file_hash, [0; 32]);
                vec![]
            }
            _ => panic!("an odd frame"),
        };
        for action in actions {
            let TransferAction::SendChunk { peer, transfer_id, index, start, end } = action else {
                panic!("not a chunk");
            };
            assert_eq!(peer, b);
            let frame = chunk_frame(transfer_id, index, &content[start as usize..end as usize]);
            assert_eq!(frame.header.msg_type, MessageType::FileChunk);
            let (r, actions) = receiver.handle_chunk(FileChunk::decode(frame.payload).unwrap());
            r.unwrap();
            for action in actions {
                match action {
                    TransferAction::Write { start, data, .. } => {
                        file[start as usize..start as usize + data.len()].copy_from_slice(&data)
                    }
                    TransferAction::Send { peer, frame } => {
                        assert_eq!(peer, a);
                        to_sender.push(frame)
                    }
                    TransferAction::Finish { transfer_id } => assert_eq!(transfer_id, id),
                    TransferAction::SendChunk { .. } => panic!("the receiver sends nothing"),
                }
            }
        }
    }
    assert!(receiver.snapshot_transfers().is_empty());
    (file, kinds)
}

#[test]
fn whole_transfer() {
    let content: Vec<u8> = (0..100_001u32).map(|i| (i * 7 % 251) as u8).collect();
    let (file, kinds) = run(&content, 1000);
    assert_eq!(file, content);
    assert_eq!(kinds.iter().filter(|k| **k == MessageType::FileChunkAck).count(), 101);
    assert_eq!(*kinds.last().unwrap(), MessageType::FileComplete);
    assert_eq!(run(&[1, 2, 3], 1000).0, vec![1, 2, 3]);
}

fn offered(n: u64) -> (TransferManager, TransferId) {
    let mut m = TransferManager::new();
    let id = TransferId::from_u128(77);
    m.offer_file_with(id, addr(9), "name".to_string(), n, 10, [1; 32]).unwrap();
    (m, id)
}

fn indices(actions: &[TransferAction]) -> Vec<u32> {
    actions
        .iter()
        .map(|a| match a {
            TransferAction::SendChunk { index, .. } => *index,
            _ => panic!("not a chunk"),
        })
        .collect()
}

#[test]
fn credits_and_missing_chunks() {
    let (mut m, id) = offered(95);
    assert!(m.pump_send(id).is_empty());
    assert_eq!(indices(&m.handle_credit_update(id, 2)), vec![0, 1]);
    // chunks 3 and 9 are missing, of those that are left
    m.handle_accept(FileAccept::new(id, vec![0b0000_1001, 0b10])).unwrap();
    let actions = m.handle_credit_update(id, 5);
    assert_eq!(indices(&actions), vec![3, 9]);
    assert!(matches!(actions[1], TransferAction::SendChunk { start: 90, end: 95, .. }));
    // a bad chunk is sent again
    let bad = FileChunkAck { transfer_id: id, chunk_index: 2, status: ChunkAckStatus::BadHash };
    assert_eq!(indices(&m.handle_chunk_ack(bad)), vec![2, 3, 9]);
    let lines = m.snapshot_transfers();
    assert_eq!(lines.len(), 1);
    assert_eq!((lines[0].1.as_str(), lines[0].2, lines[0].3, lines[0].4), ("sending", 10, 10, true));
    assert!(m.handle_credit_update(TransferId::from_u128(1), 5).is_empty());
}

#[test]
fn offer_errors() {
    let mut m = TransferManager::new();
    assert!(matches!(
        m.offer_file(addr(1), "x".repeat(256), 10, 10, [0; 32]),
        Err(TransferError::InvalidState)
    ));
    assert!(matches!(m.offer_file(addr(1), "x".to_string(), 10, 0, [0; 32]), Err(TransferError::InvalidState)));
    assert!(matches!(m.offer_content(addr(1), "x".to_string(), b"abc", 0), Err(TransferError::InvalidState)));
    assert!(m.snapshot_transfers().is_empty());
    let (a, _) = m.offer_file(addr(1), "x".to_string(), 10, 5, [0; 32]).unwrap();
    let (b, _) = m.offer_file(addr(1), "x".to_string(), 10, 5, [0; 32]).unwrap();
    assert_ne!(a, b);
    assert_eq!(m.snapshot_transfers().len(), 2);
    assert!(matches!(m.handle_accept(FileAccept::new(TransferId::from_u128(0), vec![])), Err(TransferError::NotFound)));
}

fn receiving() -> (TransferManager, TransferId) {
    let mut m = TransferManager::new();
    let id = TransferId::from_u128(5);
    let hash = calculate_file_hash(b"0123456789abcdefghijABCDE", 10);
    let offer = FileOffer::new(id, "name".to_string(), 25, 10, hash).unwrap();
    let (accept, credit) = m.handle_offer(addr(3), offer, "name".to_string());
    let accept = FileAccept::decode(&sent(accept).payload).unwrap();
    assert!(accept.resume);
    assert_eq!(accept.missing_bitmap, vec![0xFF]);
    assert!(bitmap_is_missing(&accept.missing_bitmap, 2));
    let credit = sent(credit);
    assert_eq!(credit.header.msg_type, MessageType::CreditUpdate);
    assert_eq!(&credit.payload[16..], &[50, 0, 0, 0]);
    (m, id)
}

fn chunk(id: TransferId, index: u32, data: &'static [u8]) -> FileChunk {
    FileChunk { transfer_id: id, chunk_index: index, chunk_hash: hash_chunk(data), data: Bytes::from_static(data) }
}

#[test]
fn chunks_that_are_not_taken() {
    let (mut m, id) = receiving();
    let mut bad = chunk(id, 1, b"0123456789");
    bad.chunk_hash[0] ^= 1;
    let (r, mut actions) = m.handle_chunk(bad);
    assert!(matches!(r, Err(TransferError::BadHash)));
    let ack = FileChunkAck::decode(&sent(actions.remove(0)).payload).unwrap();
    assert_eq!((ack.chunk_index, ack.status), (1, ChunkAckStatus::BadHash));
    assert!(actions.is_empty());
    // beyond the end of the file
    let (r, actions) = m.handle_chunk(chunk(id, 2, b"0123456789"));
    assert!(r.is_ok() && actions.is_empty());
    let (r, actions) = m.handle_chunk(chunk(id, u32::MAX, b"0"));
    assert!(r.is_ok() && actions.is_empty());
    let (r, _) = m.handle_chunk(chunk(TransferId::from_u128(6), 0, b"0"));
    assert!(matches!(r, Err(TransferError::NotFound)));
    let line = &m.snapshot_transfers()[0];
    assert_eq!((line.1.as_str(), line.2, line.3, line.4), ("name", 3, 0, false));
}

#[test]
fn chunks_that_are_taken() {
    let (mut m, id) = receiving();
    let (_, actions) = m.handle_chunk(chunk(id, 2, b"ABCDE"));
    assert_eq!(actions.len(), 3);
    match &actions[0] {
        TransferAction::Write { start, data, .. } => {
            assert_eq!(*start, 20);
            assert_eq!(&data[..], b"ABCDE");
        }
        _ => panic!("nothing is written"),
    }
    assert_eq!(m.snapshot_transfers()[0].3, 1);
    m.handle_chunk(chunk(id, 0, b"0123456789"));
    let (r, mut actions) = m.handle_chunk(chunk(id, 1, b"abcdefghij"));
    assert!(r.is_ok());
    assert_eq!(actions.len(), 5);
    assert!(matches!(actions[3], TransferAction::Finish { .. }));
    let complete = FileComplete::decode(&sent(actions.remove(4)).payload).unwrap();
    assert_eq!((complete.transfer_id, complete.file_hash), (id, [0; 32]));
    assert!(m.snapshot_transfers().is_empty());
    assert!(matches!(m.handle_chunk(chunk(id, 1, b"abcdefghij")).0, Err(TransferError::NotFound)));
}

#[test]
fn chunk_that_comes_twice_counts_once() {
    let (mut m, id) = receiving();
    for _ in 0..3 {
        let (r, actions) = m.handle_chunk(chunk(id, 0, b"0123456789"));
        assert!(r.is_ok());
        assert_eq!(actions.len(), 3);
        assert_eq!(m.snapshot_transfers()[0].3, 1);
    }
}

#[test]
fn file_with_another_hash_is_not_complete() {
    let (mut m, id) = receiving();
    m.handle_chunk(chunk(id, 2, b"ABCDE"));
    m.handle_chunk(chunk(id, 1, b"abcdefghij"));
    let (r, actions) = m.handle_chunk(chunk(id, 0, b"9876543210"));
    assert!(matches!(r, Err(TransferError::BadHash)));
    assert_eq!(actions.len(), 3);
    assert_eq!(m.snapshot_transfers()[0].3, 3);
    // data that runs on into the next chunk leaves that one in doubt
    let (r, _) = m.handle_chunk(chunk(id, 0, b"0123456789ab"));
    assert!(matches!(r, Err(TransferError::BadHash)));
    let (r, _) = m.handle_chunk(chunk(id, 0, b"0123456789"));
    assert!(matches!(r, Err(TransferError::BadHash)));
    // the right chunks mend it
    let (r, actions) = m.handle_chunk(chunk(id, 1, b"abcdefghij"));
    assert!(r.is_ok());
    assert_eq!(actions.len(), 5);
    assert!(m.snapshot_transfers().is_empty());
}

fn one_chunk_state(expected_root: [u8; 32]) -> ReceivingState {
    ReceivingState {
        peer: addr(4),
        file_len: 3,
        expected_root,
        bitfield: vec![1],
        chunk_size: 10,
        total_chunks: 1,
        received_chunks: 0,
        file_name: "n".to_string(),
        hashes: HashMap::new(),
    }
}

#[test]
fn hash_decides_about_a_chunk() {
    let (m, id) = offered(95);
    drop(m);
    let mut m = TransferManager::new();
    let mut c = chunk(id, 0, b"abc");
    c.chunk_hash = [9; 32];
    let root: [u8; 32] = Sha256::digest([9; 32]).into();
    let (r, actions) = m.finish_chunk(c, one_chunk_state(root), [9; 32]);
    assert!(r.is_ok());
    assert_eq!(actions.len(), 5);
    assert!(m.snapshot_transfers().is_empty());

    let mut c = chunk(id, 0, b"abc");
    c.chunk_hash = [9; 32];
    let (r, actions) = m.finish_chunk(c, one_chunk_state([0; 32]), [9; 32]);
    assert!(matches!(r, Err(TransferError::BadHash)));
    assert_eq!(actions.len(), 3);
}

#[test]
fn root_decides_about_completion() {
    let id = TransferId::from_u128(8);
    let mut m = TransferManager::new();
    let full = one_chunk_state([4; 32]).record(0, 3, [9; 32]);
    assert_eq!((full.received_chunks, full.bitfield[0]), (1, 0));
    assert_eq!(full.joined_hashes(), Some(vec![9; 32]));
    let (r, actions) = m.conclude_chunk(chunk(id, 0, b"abc"), full, Some([4; 32]));
    assert!(r.is_ok());
    assert_eq!(actions.len(), 5);

    for root in [Some([5; 32]), None] {
        let full = one_chunk_state([4; 32]).record(0, 3, [9; 32]);
        let (r, actions) = m.conclude_chunk(chunk(id, 0, b"abc"), full, root);
        assert!(matches!(r, Err(TransferError::BadHash)));
        assert_eq!(actions.len(), 3);
    }
    let (r, actions) = m.conclude_chunk(chunk(id, 0, b"abc"), one_chunk_state([4; 32]), Some([4; 32]));
    assert!(r.is_ok());
    assert_eq!(actions.len(), 3);
}
