use bytes::{BufMut, Bytes, BytesMut};
use ceky::net::{IpAddr, SocketAddr};
use ceky::protocol::codec::{check_checksum, put_header, FrameCodec};
use ceky::protocol::dht::{DhtError, FindNode, FindNodeResp};
use ceky::protocol::error::ProtocolError;
use ceky::protocol::transfer::{
    bitmap_is_missing, bitmap_len, bitmap_set_missing, compute_total_chunks, ChunkAckStatus, FileAccept, FileCancel,
    FileCancelReason, FileChunk, FileChunkAck, FileComplete, FileOffer, FileReject, FileRejectReason, TransferError,
    TransferId, FILE_HASH_LEN,
};
use ceky::protocol::types::{Flags, Frame, MessageType};
use ceky::protocol::{HEADER_SIZE, MAGIC, MAX_PAYLOAD_SIZE, VERSION};

#[test]
fn message_type_roundtrip() {
    for code in 0u8..=255 {
        if let Some(mt) = MessageType::from_byte(code) {
            assert_eq!(mt.as_byte(), code);
        }
    }
}

#[test]
fn message_type_codes() {
    assert_eq!(MessageType::Handshake.as_byte(), 0x01);
    assert_eq!(MessageType::FindValueResp.as_byte(), 0x15);
    assert_eq!(MessageType::FileCancel.as_byte(), 0x29);
    assert_eq!(MessageType::RelayData.as_byte(), 0x35);
    assert_eq!(MessageType::from_byte(0x05), None);
    assert_eq!(MessageType::from_byte(0x2A), None);
    assert_eq!((0u8..=255).filter(|b| MessageType::from_byte(*b).is_some()).count(), 26);
    assert_eq!(MessageType::FindNodeResp.to_string(), "FIND_NODE_RESP");
}

#[test]
fn flags_composition() {
    let f = Flags::empty().with_encrypted().with_priority();
    assert!(f.is_encrypted());
    assert!(!f.is_compressed());
    assert!(!f.is_fragmented());
    assert!(f.is_priority());
    assert_eq!(f.bits(), 0b0000_1001);
}

#[test]
fn flags_text() {
    assert_eq!(Flags::empty().to_string(), "NONE");
    assert_eq!(Flags::new(0xF0).to_string(), "NONE");
    assert_eq!(Flags::new(0x0F).to_string(), "ENC|CMP|FRG|PRI");
    assert_eq!(Flags::empty().with_compressed().with_fragmented().to_string(), "CMP|FRG");
    assert_eq!(Flags::default().bits(), 0);
}

#[test]
fn frame_display() {
    let frame = Frame::simple(MessageType::Ping, 42);
    let s = frame.to_string();
    assert!(s.contains("PING"));
    assert_eq!(s, "Frame[PING flags=NONE req=0x2a payload=0B]");
    assert_eq!(frame.wire_size(), 21);
}

/// Round-trip: encode → decode must produce identical frame.
#[test]
fn roundtrip_empty_payload() {
    let mut codec = FrameCodec::new();
    let original = Frame::simple(MessageType::Ping, 0xDEADBEEF);

    let mut buf = BytesMut::new();
    codec.encode(original.clone(), &mut buf).unwrap();

    let decoded = codec.decode(&mut buf).unwrap().expect("should decode");
    assert_eq!(decoded.header.msg_type, MessageType::Ping);
    assert_eq!(decoded.header.request_id, 0xDEADBEEF);
    assert!(decoded.payload.is_empty());
}

/// Round-trip with payload data.
#[test]
fn roundtrip_with_payload() {
    let mut codec = FrameCodec::new();
    let data = Bytes::from_static(b"cekyP2P raw binary data - no JSON allowed!");
    let original = Frame::new(MessageType::Data, Flags::empty().with_encrypted(), 42, data.clone());

    let mut buf = BytesMut::new();
    codec.encode(original, &mut buf).unwrap();

    let decoded = codec.decode(&mut buf).unwrap().expect("should decode");
    assert_eq!(decoded.header.msg_type, MessageType::Data);
    assert!(decoded.header.flags.is_encrypted());
    assert_eq!(decoded.header.request_id, 42);
    assert_eq!(decoded.payload, data);
}

/// Partial data should return Ok(None) and not consume the buffer.
#[test]
fn partial_header() {
    let mut codec = FrameCodec::new();
    let mut buf = BytesMut::from(&[0xCE, 0x4B][..]); // Only magic, not enough
    assert!(codec.decode(&mut buf).unwrap().is_none());
    assert_eq!(buf.len(), 2); // Nothing consumed
}

/// Invalid magic should error immediately.
#[test]
fn invalid_magic() {
    let mut codec = FrameCodec::new();
    let mut buf = BytesMut::from(
        &[
            0xFF, 0xFF, 0x01, 0x02, 0x00,
            0, 0, 0, 0, // payload len
            0, 0, 0, 0, 0, 0, 0, 0, // request id
            0, 0, 0, 0, // checksum
        ][..],
    );
    let err = codec.decode(&mut buf).unwrap_err();
    assert!(matches!(err, ProtocolError::InvalidMagic { .. }));
}

/// Payload exceeding MAX_PAYLOAD_SIZE should error.
#[test]
fn payload_too_large() {
    let mut codec = FrameCodec::new();
    let huge_len: u32 = MAX_PAYLOAD_SIZE + 1;
    let mut buf = BytesMut::new();
    buf.put_u16(MAGIC);
    buf.put_u8(VERSION);
    buf.put_u8(MessageType::Data.as_byte());
    buf.put_u8(0);
    buf.put_u32(huge_len);
    buf.put_u64(0);
    buf.put_u32(0);
    let err = codec.decode(&mut buf).unwrap_err();
    assert!(matches!(err, ProtocolError::PayloadTooLarge { .. }));
}

/// Corrupted payload should trigger checksum mismatch.
#[test]
fn checksum_corruption() {
    let mut codec = FrameCodec::new();
    let data = Bytes::from_static(b"important data");
    let frame = Frame::new(MessageType::Data, Flags::empty(), 1, data);

    let mut buf = BytesMut::new();
    codec.encode(frame, &mut buf).unwrap();

    // Corrupt one byte in the payload
    let last = buf.len() - 1;
    buf[last] ^= 0xFF;

    let err = codec.decode(&mut buf).unwrap_err();
    assert!(matches!(err, ProtocolError::ChecksumMismatch { .. }));
}

/// Multiple frames in one buffer should decode sequentially.
#[test]
fn multiple_frames_in_buffer() {
    let mut codec = FrameCodec::new();
    let mut buf = BytesMut::new();

    let f1 = Frame::simple(MessageType::Ping, 1);
    let f2 = Frame::simple(MessageType::Pong, 2);
    let f3 = Frame::new(MessageType::Data, Flags::empty(), 3, Bytes::from_static(b"hello"));

    codec.encode(f1, &mut buf).unwrap();
    codec.encode(f2, &mut buf).unwrap();
    codec.encode(f3, &mut buf).unwrap();

    let d1 = codec.decode(&mut buf).unwrap().unwrap();
    assert_eq!(d1.header.msg_type, MessageType::Ping);
    assert_eq!(d1.header.request_id, 1);

    let d2 = codec.decode(&mut buf).unwrap().unwrap();
    assert_eq!(d2.header.msg_type, MessageType::Pong);
    assert_eq!(d2.header.request_id, 2);

    let d3 = codec.decode(&mut buf).unwrap().unwrap();
    assert_eq!(d3.header.msg_type, MessageType::Data);
    assert_eq!(d3.payload, &b"hello"[..]);

    // Buffer should be empty now
    assert!(codec.decode(&mut buf).unwrap().is_none());
}

/// All message types should roundtrip correctly.
#[test]
fn all_message_types_roundtrip() {
    let types = [
        MessageType::Handshake, MessageType::Ping, MessageType::Pong,
        MessageType::Disconnect, MessageType::FindNode, MessageType::FindNodeResp,
        MessageType::Store, MessageType::StoreResp, MessageType::FindValue,
        MessageType::FindValueResp, MessageType::Data, MessageType::DataAck,
        MessageType::CreditUpdate, MessageType::NatProbe, MessageType::NatProbeResp,
        MessageType::HolePunch, MessageType::HolePunchResp,
        MessageType::RelayRequest, MessageType::RelayData,
    ];

    for (i, &mt) in types.iter().enumerate() {
        let mut codec = FrameCodec::new();
        let frame = Frame::simple(mt, i as u64);
        let mut buf = BytesMut::new();
        codec.encode(frame, &mut buf).unwrap();
        let decoded = codec.decode(&mut buf).unwrap().unwrap();
        assert_eq!(decoded.header.msg_type, mt, "failed for {}", mt.to_string());
    }
}

#[test]
fn frame_bytes_on_the_wire() {
    let mut codec = FrameCodec::new();
    let mut buf = BytesMut::new();
    let frame = Frame::new(MessageType::Data, Flags::new(9), 0x0102030405060708, Bytes::from_static(b"xyz"));
    codec.encode(frame, &mut buf).unwrap();
    assert_eq!(buf.len(), HEADER_SIZE + 3);
    let head = [0xCE, 0x4B, 1, 0x20, 9, 0, 0, 0, 3, 1, 2, 3, 4, 5, 6, 7, 8];
    assert_eq!(&buf[..17], &head[..]);
    // the checksum is the CRC-32C of those bytes followed by the payload
    let crc = crc32c::crc32c(b"\xCE\x4B\x01\x20\x09\x00\x00\x00\x03\x01\x02\x03\x04\x05\x06\x07\x08xyz");
    assert_eq!(&buf[17..21], &crc.to_be_bytes()[..]);
    assert_eq!(&buf[21..], b"xyz");
}

#[test]
fn frame_arrives_byte_by_byte() {
    let mut codec = FrameCodec::new();
    let mut wire = BytesMut::new();
    let frame = Frame::new(MessageType::Store, Flags::empty(), 7, Bytes::from_static(b"some payload"));
    codec.encode(frame, &mut wire).unwrap();
    let mut buf = BytesMut::new();
    for (i, b) in wire.iter().enumerate() {
        buf.put_u8(*b);
        let r = codec.decode(&mut buf).unwrap();
        if i + 1 < wire.len() {
            assert!(r.is_none());
            assert_eq!(buf.len(), i + 1);
        } else {
            assert_eq!(r.unwrap().payload, &b"some payload"[..]);
            assert!(buf.is_empty());
        }
    }
}

#[test]
fn decode_errors() {
    let mut out = Vec::new();
    put_header(&mut out, MessageType::Ping, Flags::empty(), 0, 5, 0);
    assert_eq!(out.len(), HEADER_SIZE);
    let mut version = out.clone();
    version[2] = 9;
    let mut kind = out.clone();
    kind[3] = 0xEE;
    assert!(matches!(
        FrameCodec::decode_header(&version),
        Err(ProtocolError::UnsupportedVersion { version: 9 })
    ));
    assert!(matches!(
        FrameCodec::decode_header(&kind),
        Err(ProtocolError::UnknownMessageType { code: 0xEE })
    ));
    let header = FrameCodec::decode_header(&out).unwrap();
    assert_eq!(header.request_id, 5);
    assert!(check_checksum(&header, 0).is_ok());
    assert!(matches!(
        check_checksum(&header, 3),
        Err(ProtocolError::ChecksumMismatch { expected: 0, got: 3 })
    ));
}

#[test]
fn encode_refuses_large_payload() {
    let mut codec = FrameCodec::new();
    let mut buf = BytesMut::new();
    let payload = Bytes::from(vec![0u8; MAX_PAYLOAD_SIZE as usize + 1]);
    let err = codec.encode(Frame::new(MessageType::Data, Flags::empty(), 0, payload), &mut buf).unwrap_err();
    assert!(matches!(err, ProtocolError::PayloadTooLarge { size } if size == MAX_PAYLOAD_SIZE + 1));
    assert!(buf.is_empty());
}

#[test]
fn file_offer_roundtrip() {
    let transfer_id = TransferId::from_u128(0xAABBCCDDEEFF00112233445566778899);
    let file_hash = [0xAB; FILE_HASH_LEN];
    let offer = FileOffer::new(transfer_id, "test.bin".to_string(), 10_000, 1024, file_hash).expect("valid offer");

    let encoded = offer.encode();
    let decoded = FileOffer::decode(&encoded).expect("decode offer");
    assert_eq!(decoded, offer);
    assert_eq!(offer.total_chunks, 10);
}

#[test]
fn file_accept_roundtrip() {
    let transfer_id = TransferId::from_u128(0x0102030405060708090A0B0C0D0E0F10);
    let mut bitmap = vec![0u8; 2];
    bitmap_set_missing(&mut bitmap, 3, true);
    bitmap_set_missing(&mut bitmap, 9, true);

    let accept = FileAccept::new(transfer_id, bitmap.clone());
    let encoded = accept.encode();
    let decoded = FileAccept::decode(&encoded).expect("decode accept");

    assert_eq!(decoded.transfer_id.to_u128(), accept.transfer_id.to_u128());
    assert_eq!(decoded.resume, true);
    assert_eq!(decoded.missing_bitmap, bitmap);
}

#[test]
fn file_chunk_roundtrip() {
    let transfer_id = TransferId::from_u128(0x0F0E0D0C0B0A09080706050403020100);
    let chunk_hash = [0x11; FILE_HASH_LEN];
    let data = Bytes::from_static(b"chunk-data");

    let chunk = FileChunk { transfer_id, chunk_index: 7, chunk_hash, data: data.clone() };

    let encoded = chunk.encode();
    let decoded = FileChunk::decode(encoded).expect("decode chunk");

    assert_eq!(decoded.transfer_id.to_u128(), chunk.transfer_id.to_u128());
    assert_eq!(decoded.chunk_index, 7);
    assert_eq!(decoded.chunk_hash, chunk_hash);
    assert_eq!(decoded.data, data);
}

#[test]
fn bitmap_helpers() {
    let mut bitmap = vec![0u8; 1];
    assert!(!bitmap_is_missing(&bitmap, 0));
    bitmap_set_missing(&mut bitmap, 0, true);
    assert!(bitmap_is_missing(&bitmap, 0));
    bitmap_set_missing(&mut bitmap, 0, false);
    assert!(!bitmap_is_missing(&bitmap, 0));
}

#[test]
fn bitmap_edges() {
    assert_eq!(bitmap_len(0), 0);
    assert_eq!(bitmap_len(8), 1);
    assert_eq!(bitmap_len(9), 2);
    let mut bitmap = vec![0u8; 2];
    bitmap_set_missing(&mut bitmap, 16, true); // beyond the end
    assert_eq!(bitmap, vec![0, 0]);
    assert!(!bitmap_is_missing(&bitmap, 16));
    bitmap_set_missing(&mut bitmap, 10, true);
    assert_eq!(bitmap, vec![0, 4]);
    bitmap_set_missing(&mut bitmap, 10, false);
    assert_eq!(bitmap, vec![0, 0]);
}

#[test]
fn total_chunks() {
    assert_eq!(compute_total_chunks(0, 1024), 0);
    assert_eq!(compute_total_chunks(10, 0), 0);
    assert_eq!(compute_total_chunks(1024, 1024), 1);
    assert_eq!(compute_total_chunks(1025, 1024), 2);
    assert_eq!(compute_total_chunks(u64::MAX, 1), u32::MAX);
}

#[test]
fn transfer_messages_roundtrip() {
    let transfer_id = TransferId::from_u128(5);
    assert_eq!(transfer_id.as_bytes()[15], 5);
    assert_eq!(transfer_id.to_u128(), 5);
    let reject = FileReject { transfer_id, reason: FileRejectReason::Busy };
    assert_eq!(FileReject::decode(&reject.encode()).unwrap(), reject);
    let ack = FileChunkAck { transfer_id, chunk_index: 9, status: ChunkAckStatus::BadHash };
    assert_eq!(FileChunkAck::decode(&ack.encode()).unwrap(), ack);
    let complete = FileComplete { transfer_id, file_hash: [7; 32] };
    assert_eq!(FileComplete::decode(&complete.encode()).unwrap(), complete);
    let cancel = FileCancel { transfer_id, reason: FileCancelReason::Timeout };
    assert_eq!(FileCancel::decode(&cancel.encode()).unwrap(), cancel);
}

#[test]
fn transfer_message_errors() {
    let transfer_id = TransferId::from_u128(5);
    assert!(matches!(
        FileOffer::new(transfer_id, "a".to_string(), 1, 0, [0; 32]),
        Err(TransferError::InvalidField { field: "chunk_size" })
    ));
    assert!(matches!(
        FileOffer::new(transfer_id, "a".repeat(256), 1, 1, [0; 32]),
        Err(TransferError::InvalidField { field: "file_name" })
    ));
    assert!(matches!(
        FileOffer::decode(&[1, 2, 3]),
        Err(TransferError::BufferTooShort { needed: 67, got: 3 })
    ));
    let offer = FileOffer::new(transfer_id, "ab".to_string(), 1, 1, [0; 32]).unwrap();
    let wire = offer.encode().to_vec();
    let mut bad = wire.clone();
    bad[0] = 2;
    assert!(matches!(FileOffer::decode(&bad), Err(TransferError::UnsupportedVersion { version: 2 })));
    let mut bad = wire.clone();
    bad[67] = 0xFF;
    assert!(matches!(FileOffer::decode(&bad), Err(TransferError::InvalidFileName)));
    let mut bad = wire.clone();
    bad[65] = 1;
    assert!(matches!(FileOffer::decode(&bad), Err(TransferError::InvalidField { field: "file_name" })));
    let mut bad = wire.clone();
    bad[66] = 9;
    assert!(matches!(
        FileOffer::decode(&bad),
        Err(TransferError::BufferTooShort { needed: 9, got: 2 })
    ));
    let mut bad = wire.clone();
    bad[28] = 0;
    assert!(matches!(FileOffer::decode(&bad), Err(TransferError::InvalidField { field: "chunk_size" })));
    let mut accept = FileAccept::new(transfer_id, vec![1]).encode().to_vec();
    accept[17] = 0;
    assert!(matches!(
        FileAccept::decode(&accept),
        Err(TransferError::InvalidField { field: "missing_bitmap" })
    ));
    let mut reject = FileReject { transfer_id, reason: FileRejectReason::Declined }.encode().to_vec();
    reject[17] = 6;
    assert!(matches!(
        FileReject::decode(&reject),
        Err(TransferError::UnknownEnum { field: "FileRejectReason", value: 6 })
    ));
    assert!(matches!(
        ChunkAckStatus::from_byte(3),
        Err(TransferError::UnknownEnum { field: "ChunkAckStatus", value: 3 })
    ));
    assert!(matches!(
        FileCancelReason::from_byte(0),
        Err(TransferError::UnknownEnum { field: "FileCancelReason", value: 0 })
    ));
}

#[test]
fn dht_messages_roundtrip() {
    let q = FindNode { target: [9; 32] };
    assert_eq!(FindNode::decode(&q.encode()).unwrap(), q);
    let a = FindNodeResp {
        peers: vec![
            ([1; 32], SocketAddr::v4(10, 0, 0, 1, 9000)),
            ([2; 32], SocketAddr::new(IpAddr::V6(1), 65535)),
        ],
    };
    let wire = a.encode();
    assert_eq!(wire.len(), 2 + 32 + 7 + 32 + 19);
    assert_eq!(FindNodeResp::decode(&wire).unwrap(), a);
    let many = FindNodeResp { peers: vec![([3; 32], SocketAddr::v4(1, 2, 3, 4, 5)); 300] };
    assert_eq!(FindNodeResp::decode(&many.encode()).unwrap().peers.len(), 255);
}

#[test]
fn dht_message_errors() {
    assert!(matches!(FindNode::decode(&[1]), Err(DhtError::BufferTooShort { needed: 33, got: 1 })));
    assert!(matches!(FindNode::decode(&[7; 33]), Err(DhtError::UnsupportedVersion { version: 7 })));
    assert!(matches!(FindNodeResp::decode(&[]), Err(DhtError::BufferTooShort { needed: 2, got: 0 })));
    let mut wire = vec![1u8, 1];
    wire.extend_from_slice(&[0; 32]);
    assert!(matches!(FindNodeResp::decode(&wire), Err(DhtError::BufferTooShort { needed: 1, got: 0 })));
    wire.push(5);
    assert!(matches!(FindNodeResp::decode(&wire), Err(DhtError::InvalidAddressFamily { family: 5 })));
    wire[34] = 6;
    assert!(matches!(FindNodeResp::decode(&wire), Err(DhtError::BufferTooShort { needed: 18, got: 0 })));
}
