use ceky::crypto::error::CryptoError;
use ceky::crypto::identity::{hex_decode, hex_encode, Identity, PeerId};
use ceky::crypto::noise::{hmac_sha256, NoiseHandshake, SessionKeys};
use ceky::crypto::session::{build_nonce, ReplayWindow, SecureSession, MAX_NONCE, TAG_SIZE};
use ed25519_dalek::{Signature, Verifier, VerifyingKey};
use sha2::{Digest, Sha256};
use std::sync::Arc;

#[test]
fn generate_identity() {
    let id = Identity::generate();
    // PeerId should be deterministically derived
    let expected = PeerId::from_public_key(&id.ed25519_public_key);
    assert_eq!(id.peer_id, expected);
    let hash: [u8; 32] = Sha256::digest(id.ed25519_public_key).into();
    assert_eq!(id.peer_id.as_bytes(), &hash);
}

#[test]
fn peer_id_xor_distance() {
    let a = PeerId::from_bytes([0xFF; 32]);
    let b = PeerId::from_bytes([0x00; 32]);
    let dist = a.xor_distance(&b);
    assert_eq!(dist, [0xFF; 32]); // Maximum distance

    let self_dist = a.xor_distance(&a);
    assert_eq!(self_dist, [0x00; 32]); // Zero distance to self
}

#[test]
fn peer_id_bucket_index() {
    let a = PeerId::from_bytes([0x00; 32]);
    let mut b_bytes = [0x00; 32];
    b_bytes[0] = 0x80;
    let b = PeerId::from_bytes(b_bytes);
    assert_eq!(a.bucket_index(&b), Some(7));

    b_bytes[0] = 0x01;
    let c = PeerId::from_bytes(b_bytes);
    assert_eq!(a.bucket_index(&c), Some(0));

    // Same peer → None
    assert_eq!(a.bucket_index(&a), None);

    let mut d_bytes = [0x00; 32];
    d_bytes[31] = 0x05;
    assert_eq!(a.bucket_index(&PeerId::from_bytes(d_bytes)), Some(250));
    assert_eq!(PeerId::from_bytes(d_bytes).bucket_index(&a), Some(250));
}

#[test]
fn verify_x25519_binding() {
    let id = Identity::generate();
    let result = Identity::verify_peer_binding(&id.ed25519_public_key, &id.x25519_public_key, &id.x25519_signature);
    assert!(result.is_ok());
    assert_eq!(result.unwrap(), id.peer_id);
}

#[test]
fn reject_invalid_binding() {
    let id_a = Identity::generate();
    let id_b = Identity::generate();

    // Try to verify A's X25519 key with B's signature → should fail
    let result = Identity::verify_peer_binding(
        &id_a.ed25519_public_key,
        &id_a.x25519_public_key,
        &id_b.x25519_signature, // Wrong signature!
    );
    assert!(matches!(result, Err(CryptoError::InvalidSignature)));
}

#[test]
fn sign_and_verify() {
    let id = Identity::generate();
    let data = b"cekyP2P zero-trust test";
    let sig = id.sign(data);
    let key = VerifyingKey::from_bytes(&id.ed25519_public_key).unwrap();
    assert!(key.verify(data, &Signature::from_bytes(&sig)).is_ok());
}

#[test]
fn peer_id_display_roundtrip() {
    let id = Identity::generate();
    let display = id.peer_id.to_string();
    // Should be 8 hex chars + "…" + 4 hex chars = 13 chars
    assert!(display.contains('…'));
    assert!(display.len() > 0);
    assert_eq!(PeerId::from_bytes([0xAB; 32]).to_string(), "abababab…abab");
}

#[test]
fn peer_id_from_str() {
    let hex = "00".repeat(32); // 64 hex chars = 32 bytes
    let pid: PeerId = hex.parse().unwrap();
    assert_eq!(pid, PeerId::from_bytes([0x00; 32]));

    // Bad length
    let bad = "0011";
    let result: Result<PeerId, _> = bad.parse();
    assert!(result.is_err());
}

fn peer_id_reason(s: &str) -> String {
    match PeerId::parse(s) {
        Err(CryptoError::InvalidPeerId { reason }) => reason,
        _ => panic!("not a malformed identifier"),
    }
}

#[test]
fn peer_id_errors() {
    assert_eq!(peer_id_reason("0011"), "expected 32 bytes, got 2");
    assert_eq!(peer_id_reason("001"), "invalid hex: odd-length hex string");
    assert_eq!(peer_id_reason("00zz"), "invalid hex: invalid hex at 2: invalid digit found in string");
}

#[test]
fn hexadecimal() {
    assert_eq!(hex_encode(&[0x00, 0xFF, 0x1a]), "00ff1a");
    assert_eq!(hex_decode("00fF1A").unwrap(), vec![0x00, 0xFF, 0x1A]);
    assert_eq!(hex_decode("+f").unwrap(), vec![0x0F]);
    assert!(hex_decode("é").is_err());
}

#[test]
fn hex_roundtrip() {
    let bytes: Vec<u8> = (0..=255).collect();
    assert_eq!(hex_decode(&hex_encode(&bytes)).unwrap(), bytes);
    let id = PeerId::from_bytes([0x5A; 32]);
    assert_eq!(PeerId::parse(&hex_encode(id.as_bytes())).unwrap(), id);
}

#[test]
fn distances_obey_the_triangle() {
    let d = |a: u8, b: u8| {
        PeerId::from_bytes([a; 32]).xor_distance(&PeerId::from_bytes([b; 32]))[0] as u16
    };
    for (a, b, c) in [(1, 2, 3), (0x0F, 0xF0, 0xFF), (7, 7, 9), (0x80, 0x7F, 0)] {
        assert!(d(a, c) <= d(a, b) + d(b, c));
        assert_eq!(d(a, b), d(b, a));
    }
}

#[test]
fn save_and_load_identity() {
    let original = Identity::generate();
    let file = original.to_file_bytes();
    assert_eq!(file.len(), 64);

    let loaded = Identity::from_file_bytes(&file).unwrap();

    assert_eq!(original.peer_id, loaded.peer_id);
    assert_eq!(original.ed25519_public_key, loaded.ed25519_public_key);
    assert_eq!(original.x25519_public_key, loaded.x25519_public_key);
    match Identity::from_file_bytes(&file[..63]) {
        Err(CryptoError::Serialization(text)) => assert_eq!(text, "identity file should be 64 bytes, got 0"),
        _ => panic!("a file of the wrong length was loaded"),
    }
}

#[test]
fn identity_from_known_secrets() {
    let id = Identity::from_secrets([1; 32], [2; 32]);
    let key = ed25519_dalek::SigningKey::from_bytes(&[1; 32]);
    assert_eq!(id.ed25519_public_key, key.verifying_key().to_bytes());
    let secret = x25519_dalek::StaticSecret::from([2; 32]);
    assert_eq!(id.x25519_public_key, x25519_dalek::PublicKey::from(&secret).to_bytes());
}

#[test]
fn full_handshake_roundtrip() {
    let identity_a = Arc::new(Identity::generate());
    let identity_b = Arc::new(Identity::generate());

    let mut initiator = NoiseHandshake::new_initiator(Arc::clone(&identity_a));
    let mut responder = NoiseHandshake::new_responder(Arc::clone(&identity_b));

    // Msg1: Initiator → Responder
    let msg1 = initiator.create_message1().unwrap();
    assert_eq!(msg1.len(), 32); // Ephemeral public key

    // Msg2: Responder → Initiator
    let msg2 = responder.process_message1_create_message2(&msg1).unwrap();
    assert!(msg2.len() >= 32 + 48 + 16); // ephemeral + encrypted static + tag

    // Msg3: Initiator → Responder
    let msg3 = initiator.process_message2_create_message3(&msg2).unwrap();
    assert!(initiator.is_complete());

    // Responder processes msg3
    responder.process_message3(&msg3).unwrap();
    assert!(responder.is_complete());

    // Extract session keys
    let keys_a = initiator.into_session_keys().unwrap();
    let keys_b = responder.into_session_keys().unwrap();

    // Verify: A's send key == B's recv key and vice versa
    assert_eq!(keys_a.send_key, keys_b.recv_key);
    assert_eq!(keys_a.recv_key, keys_b.send_key);
    assert_eq!(keys_a.remote_static, identity_b.x25519_public_key);
    assert_eq!(keys_b.remote_static, identity_a.x25519_public_key);
}

#[test]
fn handshake_with_given_secrets_repeats() {
    let id = Arc::new(Identity::from_secrets([1; 32], [2; 32]));
    let mut first = NoiseHandshake::new_initiator(Arc::clone(&id));
    let mut second = NoiseHandshake::new_initiator(Arc::clone(&id));
    let msg = first.create_message1_with([3; 32]).unwrap();
    assert_eq!(msg, second.create_message1_with([3; 32]).unwrap());
    let public = x25519_dalek::PublicKey::from(&x25519_dalek::StaticSecret::from([3; 32]));
    assert_eq!(msg, public.to_bytes().to_vec());
    let mut a = NoiseHandshake::new_responder(Arc::clone(&id));
    let mut b = NoiseHandshake::new_responder(id);
    assert_eq!(a.answer_message1_with(&msg, [4; 32]).unwrap(), b.answer_message1_with(&msg, [4; 32]).unwrap());
}

#[test]
fn handshake_rejects_tampered_msg1() {
    let identity_b = Arc::new(Identity::generate());
    let mut responder = NoiseHandshake::new_responder(identity_b);

    // Send garbage
    let bad_msg1 = vec![0xFF; 31]; // Wrong length
    match responder.process_message1_create_message2(&bad_msg1) {
        Err(CryptoError::HandshakeFailed { reason }) => assert_eq!(reason, "msg1 should be 32 bytes, got 31"),
        _ => panic!("a short message was answered"),
    }
}

#[test]
fn handshake_rejects_tampered_msg2() {
    let identity_a = Arc::new(Identity::generate());
    let identity_b = Arc::new(Identity::generate());

    let mut initiator = NoiseHandshake::new_initiator(identity_a);
    let mut responder = NoiseHandshake::new_responder(identity_b);

    let msg1 = initiator.create_message1().unwrap();
    let mut msg2 = responder.process_message1_create_message2(&msg1).unwrap();

    // Corrupt msg2
    if let Some(last) = msg2.last_mut() {
        *last ^= 0xFF;
    }

    assert!(initiator.process_message2_create_message3(&msg2).is_err());
}

#[test]
fn handshake_out_of_turn() {
    let id = Arc::new(Identity::generate());
    let mut h = NoiseHandshake::new_initiator(Arc::clone(&id));
    match h.process_message2_create_message3(&[0; 96]) {
        Err(CryptoError::InvalidHandshakeState { expected, got }) => {
            assert_eq!(expected, "InitSentMsg1");
            assert_eq!(got, "other");
        }
        _ => panic!("a second message was taken first"),
    }
    h.create_message1().unwrap();
    match h.create_message1() {
        Err(CryptoError::InvalidHandshakeState { expected, got }) => {
            assert_eq!(expected, "New");
            assert_eq!(got, "\"not New\"");
        }
        _ => panic!("a first message was created twice"),
    }
    match h.process_message2_create_message3(&[0; 95]) {
        Err(CryptoError::HandshakeFailed { reason }) => assert_eq!(reason, "msg2 too short: 95 bytes"),
        _ => panic!("a short message was taken"),
    }
    assert!(matches!(h.process_message3(&[0; 48]), Err(CryptoError::InvalidHandshakeState { .. })));
    assert!(!h.is_complete());
    assert!(h.into_session_keys().is_err());
    let mut r = NoiseHandshake::new_responder(id);
    r.process_message1_create_message2(&[9; 32]).unwrap();
    assert!(matches!(r.try_message3(&[0; 10]), Some(Err(CryptoError::DecryptionFailed))));
}

#[test]
fn hmac_sha256_basic() {
    let key = [0x0b; 20];
    let data = b"Hi There";
    let result = hmac_sha256(&key, data);
    let result2 = hmac_sha256(&key, data);
    assert_eq!(result, result2);
    // RFC 4231, first and sixth vectors
    assert_eq!(
        hex_encode(&result),
        "b0344c61d8db38535ca8afceaf0bf12b881dc200c9833da726e9376c2e32cff7"
    );
    assert_eq!(
        hex_encode(&hmac_sha256(&[0xaa; 131], b"Test Using Larger Than Block-Size Key - Hash Key First")),
        "60e431591ee0b67f0d8a26aacbf5b77f8e0bc6213728c5140546040f0ee37f54"
    );
}

fn make_session_pair() -> (SecureSession, SecureSession) {
    // Create complementary key pairs (A's send = B's recv)
    let key_a = [0x42u8; 32];
    let key_b = [0x84u8; 32];
    let remote = [0xFFu8; 32];

    let session_a =
        SecureSession::from_keys(SessionKeys { send_key: key_a, recv_key: key_b, remote_static: remote }).unwrap();

    let session_b =
        SecureSession::from_keys(SessionKeys { send_key: key_b, recv_key: key_a, remote_static: remote }).unwrap();

    (session_a, session_b)
}

#[test]
fn encrypt_decrypt_roundtrip() {
    let (mut session_a, mut session_b) = make_session_pair();

    let plaintext = b"cekyP2P encrypted payload - zero-trust!";
    let (nonce, ciphertext) = session_a.encrypt(plaintext).unwrap();

    // Ciphertext should be larger than plaintext (16-byte tag)
    assert_eq!(ciphertext.len(), plaintext.len() + TAG_SIZE);

    let decrypted = session_b.decrypt(nonce, &ciphertext).unwrap();
    assert_eq!(decrypted, plaintext);
}

#[test]
fn tampered_ciphertext_fails() {
    let (mut session_a, mut session_b) = make_session_pair();

    let (nonce, mut ciphertext) = session_a.encrypt(b"sensitive data").unwrap();

    // Corrupt one byte
    ciphertext[0] ^= 0xFF;

    let result = session_b.decrypt(nonce, &ciphertext);
    assert!(matches!(result, Err(CryptoError::DecryptionFailed)));
}

#[test]
fn replay_protection() {
    let (mut session_a, mut session_b) = make_session_pair();

    let (nonce, ciphertext) = session_a.encrypt(b"first message").unwrap();

    // First decryption should succeed
    session_b.decrypt(nonce, &ciphertext).unwrap();

    // Same nonce again → replay detected
    let result = session_b.decrypt(nonce, &ciphertext);
    assert!(matches!(result, Err(CryptoError::ReplayDetected { .. })));
}

#[test]
fn out_of_order_decryption() {
    let (mut session_a, mut session_b) = make_session_pair();

    // Encrypt 3 messages
    let (n1, c1) = session_a.encrypt(b"message 1").unwrap();
    let (n2, c2) = session_a.encrypt(b"message 2").unwrap();
    let (n3, c3) = session_a.encrypt(b"message 3").unwrap();

    // Decrypt in reverse order (simulates network reordering)
    assert!(session_b.decrypt(n3, &c3).is_ok());
    assert!(session_b.decrypt(n1, &c1).is_ok());
    assert!(session_b.decrypt(n2, &c2).is_ok());
    assert_eq!(session_b.recv_nonce_max(), 2);

    // But not again
    assert!(session_b.decrypt(n2, &c2).is_err());
}

#[test]
fn encrypt_with_ad_roundtrip() {
    let (mut session_a, mut session_b) = make_session_pair();

    let ad = b"frame header bytes";
    let plaintext = b"payload";

    let (nonce, ciphertext) = session_a.encrypt_with_ad(plaintext, ad).unwrap();

    // Correct AD succeeds
    let decrypted = session_b.decrypt_with_ad(nonce, &ciphertext, ad).unwrap();
    assert_eq!(decrypted, plaintext);
}

#[test]
fn wrong_ad_fails() {
    let (mut session_a, mut session_b) = make_session_pair();

    let ad = b"correct header";
    let (nonce, ciphertext) = session_a.encrypt_with_ad(b"data", ad).unwrap();

    // Wrong AD should fail
    let result = session_b.decrypt_with_ad(nonce, &ciphertext, b"wrong header");
    assert!(matches!(result, Err(CryptoError::DecryptionFailed)));
}

#[test]
fn nonce_counter_increments() {
    let (mut session_a, _) = make_session_pair();

    assert_eq!(session_a.send_nonce(), 0);
    session_a.encrypt(b"a").unwrap();
    assert_eq!(session_a.send_nonce(), 1);
    session_a.encrypt(b"b").unwrap();
    assert_eq!(session_a.send_nonce(), 2);
}

#[test]
fn nonce_layout() {
    assert_eq!(build_nonce(0x0102), [0, 0, 0, 0, 2, 1, 0, 0, 0, 0, 0, 0]);
    assert_eq!(MAX_NONCE, (1u64 << 48) - 1);
}

#[test]
fn outcomes_of_sealing_and_opening() {
    assert_eq!(SecureSession::sealed_outcome(4, Some(vec![1])).unwrap(), (4, vec![1]));
    assert!(matches!(SecureSession::sealed_outcome(4, None), Err(CryptoError::HandshakeFailed { .. })));
    let (mut s, _) = make_session_pair();
    assert_eq!(s.opened_outcome(9, Some(vec![2])).unwrap(), vec![2]);
    assert_eq!(s.recv_nonce_max(), 9);
    assert!(matches!(s.opened_outcome(10, None), Err(CryptoError::DecryptionFailed)));
    assert_eq!(s.recv_nonce_max(), 9);
    assert!(matches!(
        Identity::binding_outcome(false, PeerId::from_bytes([0; 32])),
        Err(CryptoError::InvalidSignature)
    ));
}

#[test]
fn replay_window_basic() {
    let mut window = ReplayWindow::new();

    // First nonce should be accepted
    assert!(window.check_and_mark(0));
    // Replay should be rejected
    assert!(!window.check_and_mark(0));

    // Sequential nonces
    assert!(window.check_and_mark(1));
    assert!(window.check_and_mark(2));
    assert!(window.check_and_mark(5));

    // Gap-filled nonces
    assert!(window.check_and_mark(3));
    assert!(window.check_and_mark(4));

    // All should be marked now
    assert!(!window.check_and_mark(3));
    assert!(!window.check_and_mark(5));
}

#[test]
fn replay_window_against_a_set() {
    let mut window = ReplayWindow::new();
    let mut seen = std::collections::HashSet::new();
    let mut highest = 0u64;
    let mut x = 12345u64;
    for _ in 0..5000 {
        x = x.wrapping_mul(6364136223846793005).wrapping_add(1442695040888963407);
        let n = (highest + (x >> 33) % 400).saturating_sub(300);
        let fresh = n > highest || (highest - n < 256 && !seen.contains(&n));
        assert_eq!(window.check_and_mark(n), fresh);
        if fresh {
            seen.insert(n);
            highest = highest.max(n);
        }
    }
}
