//! The handshake: three messages after which both sides hold the same two keys and know
//! each other's static public key.
//!
//! The initiator sends an ephemeral public key. The responder answers with its own
//! ephemeral key and its static key, sealed. The initiator sends its static key, sealed.
use std::sync::Arc;
use vstd::prelude::*;
use vstd::string::*;
use vstd::utf8::encode_utf8;
use crate::crypto::error::CryptoError;
use crate::crypto::identity::Identity;
use crate::crypto::primitives::{aead_open, aead_seal, agrees, opened, seals, sha256, sha256_digest, x25519_diffie_hellman, x25519_public, x25519_public_key, x25519_random_secret, x25519_shared};
use crate::crypto::session::{build_nonce, nonce_bytes};
use crate::text::{dec, text_dec};
use crate::wire::{copy_array, copy_range, put_bytes};

verus! {

/// The keys that a handshake yields.
#[derive(Debug)]
pub struct SessionKeys {
    pub send_key: [u8; 32],
    pub recv_key: [u8; 32],
    pub remote_static: [u8; 32],
}

/// The keyed block of a hash-based message authentication code: the key, or its hash if
/// it is long, filled up with zeros.
pub open spec fn key_block(key: Seq<u8>) -> Seq<u8> {
    let k = if key.len() <= 64 { key } else { sha256(key) };
    Seq::new(64, |i: int| if i < k.len() { k[i] } else { 0 })
}

/// The key block under a mask.
pub open spec fn masked(key: Seq<u8>, mask: u8) -> Seq<u8> {
    Seq::new(64, |i: int| mask ^ key_block(key)[i])
}

/// HMAC-SHA256: `H((K ^ opad) || H((K ^ ipad) || m))`.
pub open spec fn hmac(key: Seq<u8>, data: Seq<u8>) -> Seq<u8> {
    sha256(masked(key, 0x5c) + sha256(masked(key, 0x36) + data))
}

/// The two outputs of the key derivation.
pub open spec fn hkdf(chaining_key: Seq<u8>, input: Seq<u8>) -> (Seq<u8>, Seq<u8>) {
    let prk = hmac(chaining_key, input);
    let t1 = hmac(prk, seq![1u8]);
    (t1, hmac(prk, t1 + seq![2u8]))
}

/// The handshake hash after more data.
pub open spec fn mixed(h: Seq<u8>, data: Seq<u8>) -> Seq<u8> {
    sha256(h + data)
}

/// The hash and the chaining key that a handshake starts with.
pub open spec fn initial_hash() -> Seq<u8> {
    sha256(encode_utf8("Noise_XX_25519_ChaChaPoly_SHA256"@))
}

/// The nonce of every message that the handshake seals.
pub open spec fn zero_nonce() -> Seq<u8> {
    nonce_bytes(0)
}

fn concat(a: &[u8], b: &[u8]) -> (r: Vec<u8>)
    ensures
        r@ == a@ + b@,
{
    let mut out: Vec<u8> = Vec::new();
    put_bytes(&mut out, a);
    put_bytes(&mut out, b);
    assert(out@ =~= a@ + b@);
    out
}

/// The key block under a mask.
fn mask_key(key: &[u8], mask: u8) -> (r: Vec<u8>)
    ensures
        r@ == masked(key@, mask),
{
    let hashed: [u8; 32] = sha256_digest(key);
    let k: &[u8] = if key.len() <= 64 {
        key
    } else {
        hashed.as_slice()
    };
    let mut out: Vec<u8> = Vec::new();
    let mut i: usize = 0;
    while i < 64
        invariant
            i <= 64,
            out@.len() == i,
            k@ == (if key@.len() <= 64 { key@ } else { sha256(key@) }),
            forall|j: int| 0 <= j < i ==> out@[j] == mask ^ key_block(key@)[j],
        decreases 64 - i,
    {
        let b: u8 = if i < k.len() {
            k[i]
        } else {
            0
        };
        out.push(mask ^ b);
        i += 1;
    }
    assert(out@ =~= masked(key@, mask));
    out
}

/// HMAC-SHA256.
pub fn hmac_sha256(key: &[u8], data: &[u8]) -> (r: [u8; 32])
    ensures
        r@ == hmac(key@, data@),
{
    let inner = sha256_digest(concat(mask_key(key, 0x36).as_slice(), data).as_slice());
    sha256_digest(concat(mask_key(key, 0x5c).as_slice(), inner.as_slice()).as_slice())
}

/// The two outputs of the key derivation.
fn derive(chaining_key: &[u8; 32], input: &[u8]) -> (r: ([u8; 32], [u8; 32]))
    ensures
        r.0@ == hkdf(chaining_key@, input@).0,
        r.1@ == hkdf(chaining_key@, input@).1,
{
    let prk = hmac_sha256(chaining_key.as_slice(), input);
    let one: [u8; 1] = [1u8];
    let two: [u8; 1] = [2u8];
    assert(one@ =~= seq![1u8]);
    assert(two@ =~= seq![2u8]);
    let t1 = hmac_sha256(prk.as_slice(), one.as_slice());
    let t2 = hmac_sha256(prk.as_slice(), concat(t1.as_slice(), two.as_slice()).as_slice());
    (t1, t2)
}

/// The key derivation without input.
fn derive_next(chaining_key: &[u8; 32]) -> (r: ([u8; 32], [u8; 32]))
    ensures
        r.0@ == hkdf(chaining_key@, Seq::empty()).0,
        r.1@ == hkdf(chaining_key@, Seq::empty()).1,
{
    let none: [u8; 0] = [];
    assert(none@ =~= Seq::empty());
    derive(chaining_key, none.as_slice())
}

fn mix(h: &[u8; 32], data: &[u8]) -> (r: [u8; 32])
    ensures
        r@ == mixed(h@, data@),
{
    sha256_digest(concat(h.as_slice(), data).as_slice())
}

/// How far a handshake has come.
#[derive(Debug)]
#[allow(inconsistent_fields)]
pub enum HandshakeState {
    New,
    /// Initiator: the first message was sent.
    InitSentMsg1 { secret: [u8; 32], public: [u8; 32] },
    /// Responder: the second message was sent.
    RespSentMsg2 { remote_ephemeral: [u8; 32], secret: [u8; 32] },
    /// The keys are there.
    Complete { send_key: [u8; 32], recv_key: [u8; 32], remote_static: [u8; 32] },
}

/// How far a handshake has come, in terms of byte strings.
#[allow(inconsistent_fields)]
pub enum Stage {
    New,
    InitSentMsg1 { secret: Seq<u8>, public: Seq<u8> },
    RespSentMsg2 { remote_ephemeral: Seq<u8>, secret: Seq<u8> },
    Complete { send_key: Seq<u8>, recv_key: Seq<u8>, remote_static: Seq<u8> },
}

impl HandshakeState {
    pub open spec fn view(self) -> Stage {
        match self {
            HandshakeState::New => Stage::New,
            HandshakeState::InitSentMsg1 { secret, public } => Stage::InitSentMsg1 {
                secret: secret@,
                public: public@,
            },
            HandshakeState::RespSentMsg2 { remote_ephemeral, secret } => Stage::RespSentMsg2 {
                remote_ephemeral: remote_ephemeral@,
                secret: secret@,
            },
            HandshakeState::Complete { send_key, recv_key, remote_static } => Stage::Complete {
                send_key: send_key@,
                recv_key: recv_key@,
                remote_static: remote_static@,
            },
        }
    }
}

/// A handshake in terms of byte strings.
pub struct HandshakeModel {
    /// Who runs it.
    pub identity: Identity,
    pub initiator: bool,
    /// The running hash.
    pub h: Seq<u8>,
    /// The chaining key.
    pub ck: Seq<u8>,
    pub stage: Stage,
}

/// One side of a handshake.
pub struct NoiseHandshake {
    identity: Arc<Identity>,
    is_initiator: bool,
    h: [u8; 32],
    ck: [u8; 32],
    state: HandshakeState,
}

/// A handshake that has not begun.
pub open spec fn fresh_handshake(m: HandshakeModel, identity: Identity, initiator: bool) -> bool {
    m == (HandshakeModel { identity, initiator, h: initial_hash(), ck: initial_hash(), stage: Stage::New })
}

/// The initiator's first message: its ephemeral public key.
pub open spec fn creates_message1(before: HandshakeModel, after: HandshakeModel, secret: Seq<u8>, msg1: Seq<u8>) -> bool {
    &&& secret.len() == 32
    &&& msg1 == x25519_public(secret)
    &&& msg1.len() == 32
    &&& agrees(secret)
    &&& after == (HandshakeModel {
        h: mixed(before.h, msg1),
        stage: Stage::InitSentMsg1 { secret, public: msg1 },
        ..before
    })
}

/// The responder's answer: its ephemeral public key, its static public key sealed under
/// the ephemeral keys, and an empty message sealed under the static key as well.
pub open spec fn answers_message1(
    before: HandshakeModel,
    after: HandshakeModel,
    secret: Seq<u8>,
    msg1: Seq<u8>,
    msg2: Seq<u8>,
) -> bool {
    let e = x25519_public(secret);
    let c1 = msg2.subrange(32, 80);
    let c2 = msg2.subrange(80, 96);
    let h2 = mixed(mixed(before.h, msg1), e);
    let (ck1, k1) = hkdf(before.ck, x25519_shared(secret, msg1));
    let h3 = mixed(h2, c1);
    let (ck2, k2) = hkdf(ck1, x25519_shared(before.identity.static_secret(), msg1));
    &&& secret.len() == 32
    &&& agrees(secret)
    &&& msg2.len() == 96
    &&& msg2.subrange(0, 32) == e
    &&& seals(k1, zero_nonce(), h2, before.identity.x25519_public_key@, c1)
    &&& seals(k2, zero_nonce(), h3, Seq::empty(), c2)
    &&& after == (HandshakeModel {
        h: mixed(h3, c2),
        ck: ck2,
        stage: Stage::RespSentMsg2 { remote_ephemeral: msg1, secret },
        ..before
    })
}

/// The initiator's last message, and the keys.
pub open spec fn answers_message2(
    before: HandshakeModel,
    after: HandshakeModel,
    msg2: Seq<u8>,
    r: Result<Vec<u8>, CryptoError>,
) -> bool {
    if before.stage is InitSentMsg1 {
        let secret = before.stage->InitSentMsg1_secret;
        let re = msg2.subrange(0, 32);
        let c1 = msg2.subrange(32, 80);
        let c2 = msg2.subrange(80, msg2.len() as int);
        let h1 = mixed(before.h, re);
        let (ck1, k1) = hkdf(before.ck, x25519_shared(secret, re));
        let opened1 = opened(k1, zero_nonce(), h1, c1);
        let h2 = mixed(h1, c1);
        let (ck2, k2) = hkdf(ck1, x25519_shared(secret, opened1->0));
        let h3 = mixed(h2, c2);
        let (ck3, k3) = hkdf(ck2, Seq::empty());
        let (ck4, _) = hkdf(ck3, x25519_shared(before.identity.static_secret(), re));
        let (send_key, recv_key) = hkdf(ck4, Seq::empty());
        if msg2.len() < 96 {
            &&& r matches Err(e) && e.is_handshake_failed("msg2 too short: "@ + dec(msg2.len()) + " bytes"@)
            &&& after == before
        } else if opened1 is None {
            &&& r == Err::<Vec<u8>, CryptoError>(CryptoError::DecryptionFailed)
            &&& after == (HandshakeModel { h: h1, ck: ck1, ..before })
        } else if opened(k2, zero_nonce(), h2, c2) is None {
            &&& r == Err::<Vec<u8>, CryptoError>(CryptoError::DecryptionFailed)
            &&& after == (HandshakeModel { h: h2, ck: ck2, ..before })
        } else {
            &&& r matches Ok(msg3) && seals(k3, zero_nonce(), h3, before.identity.x25519_public_key@, msg3@) && after
                == (HandshakeModel {
                h: mixed(h3, msg3@),
                ck: ck4,
                stage: Stage::Complete { send_key, recv_key, remote_static: opened1->0 },
                ..before
            })
        }
    } else {
        &&& r matches Err(e) && e.is_invalid_state("InitSentMsg1"@, "other"@)
        &&& after == before
    }
}

/// What the responder finds in the initiator's last message.
pub open spec fn opened_message3(before: HandshakeModel, msg3: Seq<u8>) -> Option<Seq<u8>> {
    opened(hkdf(before.ck, Seq::empty()).1, zero_nonce(), before.h, msg3)
}

/// The end of the handshake on the responder's side.
pub open spec fn completes(
    before: HandshakeModel,
    after: HandshakeModel,
    msg3: Seq<u8>,
    r: Result<(), CryptoError>,
) -> bool {
    if before.stage is RespSentMsg2 {
        let secret = before.stage->RespSentMsg2_secret;
        let (ck1, _) = hkdf(before.ck, Seq::empty());
        let found = opened_message3(before, msg3);
        let (ck2, _) = hkdf(ck1, x25519_shared(secret, found->0));
        let (recv_key, send_key) = hkdf(ck2, Seq::empty());
        if found is None {
            &&& r == Err::<(), CryptoError>(CryptoError::DecryptionFailed)
            &&& after == (HandshakeModel { ck: ck1, ..before })
        } else {
            &&& r == Ok::<(), CryptoError>(())
            &&& after == (HandshakeModel {
                h: mixed(before.h, msg3),
                ck: ck2,
                stage: Stage::Complete { send_key, recv_key, remote_static: found->0 },
                ..before
            })
        }
    } else {
        &&& r matches Err(e) && e.is_invalid_state("RespSentMsg2"@, "other"@)
        &&& after == before
    }
}

impl NoiseHandshake {
    pub closed spec fn view(self) -> HandshakeModel {
        HandshakeModel {
            identity: *self.identity,
            initiator: self.is_initiator,
            h: self.h@,
            ck: self.ck@,
            stage: self.state@,
        }
    }

    /// A new handshake for the side that starts it.
    pub fn new_initiator(identity: Arc<Identity>) -> (r: Self)
        ensures
            fresh_handshake(r@, *identity, true),
    {
        let h = sha256_digest("Noise_XX_25519_ChaChaPoly_SHA256".as_bytes());
        NoiseHandshake { identity, is_initiator: true, h, ck: h, state: HandshakeState::New }
    }

    /// A new handshake for the side that answers.
    pub fn new_responder(identity: Arc<Identity>) -> (r: Self)
        ensures
            fresh_handshake(r@, *identity, false),
    {
        let h = sha256_digest("Noise_XX_25519_ChaChaPoly_SHA256".as_bytes());
        NoiseHandshake { identity, is_initiator: false, h, ck: h, state: HandshakeState::New }
    }

    /// Seals a message under a key that is used once.
    fn seal(key: &[u8; 32], h: &[u8; 32], message: &[u8]) -> (r: Result<Vec<u8>, CryptoError>)
        ensures
            r matches Ok(c) ==> seals(key@, zero_nonce(), h@, message@, c@),
            message@.len() <= 32 ==> r is Ok,
    {
        match aead_seal(key, &build_nonce(0), h.as_slice(), message) {
            Some(c) => Ok(c),
            None => Err(CryptoError::handshake_failed("AEAD encryption failed")),
        }
    }

    /// Whether the first message may be created now: an initiator does so once.
    pub open spec fn may_create_message1(m: HandshakeModel) -> bool {
        !m.initiator || m.stage is New
    }

    /// The initiator's first message, under a given ephemeral secret key.
    pub fn create_message1_with(&mut self, secret: [u8; 32]) -> (r: Result<Vec<u8>, CryptoError>)
        ensures
            match r {
                Ok(msg1) => {
                    &&& Self::may_create_message1(old(self)@)
                    &&& creates_message1(old(self)@, final(self)@, secret@, msg1@)
                },
                Err(e) => {
                    &&& !Self::may_create_message1(old(self)@)
                    &&& e.is_invalid_state("New"@, "\"not New\""@)
                    &&& final(self)@ == old(self)@
                },
            },
    {
        if self.is_initiator {
            match self.state {
                HandshakeState::New => {},
                _ => return Err(CryptoError::invalid_state("New", "\"not New\"")),
            }
        }
        let public = x25519_public_key(&secret);
        self.h = mix(&self.h, public.as_slice());
        self.state = HandshakeState::InitSentMsg1 { secret, public };
        let r = copy_range(public.as_slice(), 0, 32);
        assert(r@ =~= public@);
        Ok(r)
    }

    /// The initiator's first message, under a fresh ephemeral key.
    pub fn create_message1(&mut self) -> (r: Result<Vec<u8>, CryptoError>)
        ensures
            match r {
                Ok(msg1) => {
                    &&& Self::may_create_message1(old(self)@)
                    &&& exists|secret: Seq<u8>| #[trigger] creates_message1(old(self)@, final(self)@, secret, msg1@)
                },
                Err(e) => {
                    &&& !Self::may_create_message1(old(self)@)
                    &&& e.is_invalid_state("New"@, "\"not New\""@)
                    &&& final(self)@ == old(self)@
                },
            },
    {
        self.create_message1_with(x25519_random_secret())
    }

    /// The responder's answer to the first message, under a given ephemeral secret key.
    pub fn answer_message1_with(&mut self, msg1: &[u8], secret: [u8; 32]) -> (r: Result<Vec<u8>, CryptoError>)
        ensures
            match r {
                Ok(msg2) => {
                    &&& msg1@.len() == 32
                    &&& answers_message1(old(self)@, final(self)@, secret@, msg1@, msg2@)
                },
                Err(e) => {
                    &&& msg1@.len() != 32
                    &&& e.is_handshake_failed("msg1 should be 32 bytes, got "@ + dec(msg1@.len()))
                    &&& final(self)@ == old(self)@
                },
            },
    {
        if msg1.len() != 32 {
            return Err(
                CryptoError::HandshakeFailed { reason: text_dec("msg1 should be 32 bytes, got ", msg1.len() as u128) },
            );
        }
        let remote_ephemeral = copy_array::<32>(msg1, 0);
        assert(remote_ephemeral@ =~= msg1@);
        self.h = mix(&self.h, remote_ephemeral.as_slice());
        let public = x25519_public_key(&secret);
        self.h = mix(&self.h, public.as_slice());
        let ee = x25519_diffie_hellman(&secret, &remote_ephemeral);
        let (ck1, k1) = derive(&self.ck, ee.as_slice());
        self.ck = ck1;
        let our_static = self.identity.x25519_public_key;
        let sealed_static = match Self::seal(&k1, &self.h, our_static.as_slice()) {
            Ok(c) => c,
            Err(e) => return Err(e),
        };
        self.h = mix(&self.h, sealed_static.as_slice());
        let es = x25519_diffie_hellman(self.identity.x25519_secret(), &remote_ephemeral);
        let (ck2, k2) = derive(&self.ck, es.as_slice());
        self.ck = ck2;
        let none: [u8; 0] = [];
        assert(none@ =~= Seq::empty());
        let sealed_payload = match Self::seal(&k2, &self.h, none.as_slice()) {
            Ok(c) => c,
            Err(e) => return Err(e),
        };
        self.h = mix(&self.h, sealed_payload.as_slice());
        let mut msg2: Vec<u8> = Vec::new();
        put_bytes(&mut msg2, public.as_slice());
        put_bytes(&mut msg2, sealed_static.as_slice());
        put_bytes(&mut msg2, sealed_payload.as_slice());
        self.state = HandshakeState::RespSentMsg2 { remote_ephemeral, secret };
        assert(msg2@.subrange(0, 32) =~= public@);
        assert(msg2@.subrange(32, 80) =~= sealed_static@);
        assert(msg2@.subrange(80, 96) =~= sealed_payload@);
        Ok(msg2)
    }

    /// The responder's answer to the first message, under a fresh ephemeral key.
    pub fn process_message1_create_message2(&mut self, msg1: &[u8]) -> (r: Result<Vec<u8>, CryptoError>)
        ensures
            match r {
                Ok(msg2) => {
                    &&& msg1@.len() == 32
                    &&& exists|secret: Seq<u8>| #[trigger]
                        answers_message1(old(self)@, final(self)@, secret, msg1@, msg2@)
                },
                Err(e) => {
                    &&& msg1@.len() != 32
                    &&& e.is_handshake_failed("msg1 should be 32 bytes, got "@ + dec(msg1@.len()))
                    &&& final(self)@ == old(self)@
                },
            },
    {
        self.answer_message1_with(msg1, x25519_random_secret())
    }

    /// The initiator's answer to the second message. With it the initiator has its keys.
    pub fn process_message2_create_message3(&mut self, msg2: &[u8]) -> (r: Result<Vec<u8>, CryptoError>)
        ensures
            answers_message2(old(self)@, final(self)@, msg2@, r),
    {
        let secret: [u8; 32] = match self.state {
            HandshakeState::InitSentMsg1 { secret, public } => secret,
            _ => return Err(CryptoError::invalid_state("InitSentMsg1", "other")),
        };
        if msg2.len() < 96 {
            let mut reason: String = text_dec("msg2 too short: ", msg2.len() as u128);
            reason.append(" bytes");
            return Err(CryptoError::HandshakeFailed { reason });
        }
        let remote_ephemeral = copy_array::<32>(msg2, 0);
        self.h = mix(&self.h, remote_ephemeral.as_slice());
        let ee = x25519_diffie_hellman(&secret, &remote_ephemeral);
        let (ck1, k1) = derive(&self.ck, ee.as_slice());
        self.ck = ck1;
        let sealed_static = vstd::slice::slice_subrange(msg2, 32, 80);
        let opened_static = match aead_open(&k1, &build_nonce(0), self.h.as_slice(), sealed_static) {
            Some(m) => m,
            None => return Err(CryptoError::DecryptionFailed),
        };
        self.h = mix(&self.h, sealed_static);
        let remote_static = copy_array::<32>(opened_static.as_slice(), 0);
        assert(remote_static@ =~= opened_static@);
        let es = x25519_diffie_hellman(&secret, &remote_static);
        let (ck2, k2) = derive(&self.ck, es.as_slice());
        self.ck = ck2;
        let sealed_payload = vstd::slice::slice_subrange(msg2, 80, msg2.len());
        match aead_open(&k2, &build_nonce(0), self.h.as_slice(), sealed_payload) {
            Some(_) => {},
            None => return Err(CryptoError::DecryptionFailed),
        }
        self.h = mix(&self.h, sealed_payload);
        let our_static = self.identity.x25519_public_key;
        let (ck3, k3) = derive_next(&self.ck);
        self.ck = ck3;
        let msg3 = match Self::seal(&k3, &self.h, our_static.as_slice()) {
            Ok(c) => c,
            Err(e) => return Err(e),
        };
        self.h = mix(&self.h, msg3.as_slice());
        let se = x25519_diffie_hellman(self.identity.x25519_secret(), &remote_ephemeral);
        let (ck4, _) = derive(&self.ck, se.as_slice());
        self.ck = ck4;
        let (send_key, recv_key) = derive_next(&self.ck);
        self.state = HandshakeState::Complete { send_key, recv_key, remote_static };
        Ok(msg3)
    }

    /// The responder's end of the handshake. A message that opens must hold a static key
    /// of 32 bytes.
    pub fn process_message3(&mut self, msg3: &[u8]) -> (r: Result<(), CryptoError>)
        requires
            msg3@.len() == 48 || !(old(self)@.stage is RespSentMsg2) || opened_message3(old(self)@, msg3@) is None,
        ensures
            completes(old(self)@, final(self)@, msg3@, r),
    {
        let secret: [u8; 32] = match self.state {
            HandshakeState::RespSentMsg2 { remote_ephemeral, secret } => secret,
            _ => return Err(CryptoError::invalid_state("RespSentMsg2", "other")),
        };
        let (ck1, k3) = derive_next(&self.ck);
        self.ck = ck1;
        let opened_static = match aead_open(&k3, &build_nonce(0), self.h.as_slice(), msg3) {
            Some(m) => m,
            None => return Err(CryptoError::DecryptionFailed),
        };
        self.h = mix(&self.h, msg3);
        let remote_static = copy_array::<32>(opened_static.as_slice(), 0);
        assert(remote_static@ =~= opened_static@);
        let se = x25519_diffie_hellman(&secret, &remote_static);
        let (ck2, _) = derive(&self.ck, se.as_slice());
        self.ck = ck2;
        let (recv_key, send_key) = derive_next(&self.ck);
        self.state = HandshakeState::Complete { send_key, recv_key, remote_static };
        Ok(())
    }

    /// The responder's end of the handshake, for any message. One that opens but does not
    /// hold a static key of 32 bytes is left aside, with nothing changed.
    pub fn try_message3(&mut self, msg3: &[u8]) -> (r: Option<Result<(), CryptoError>>)
        ensures
            match r {
                Some(x) => completes(old(self)@, final(self)@, msg3@, x),
                None => {
                    &&& msg3@.len() != 48
                    &&& old(self)@.stage is RespSentMsg2
                    &&& opened_message3(old(self)@, msg3@) is Some
                    &&& final(self)@ == old(self)@
                },
            },
    {
        if msg3.len() != 48 {
            let waiting = matches!(self.state, HandshakeState::RespSentMsg2 { .. });
            let (_, k3) = derive_next(&self.ck);
            if waiting && aead_open(&k3, &build_nonce(0), self.h.as_slice(), msg3).is_some() {
                return None;
            }
        }
        Some(self.process_message3(msg3))
    }

    /// The keys of a handshake that is complete.
    pub fn into_session_keys(self) -> (r: Result<SessionKeys, CryptoError>)
        ensures
            match r {
                Ok(k) => self@.stage == (Stage::Complete {
                    send_key: k.send_key@,
                    recv_key: k.recv_key@,
                    remote_static: k.remote_static@,
                }),
                Err(e) => !(self@.stage is Complete) && e.is_invalid_state("Complete"@, "not complete"@),
            },
    {
        match self.state {
            HandshakeState::Complete { send_key, recv_key, remote_static } => Ok(
                SessionKeys { send_key, recv_key, remote_static },
            ),
            _ => Err(CryptoError::invalid_state("Complete", "not complete")),
        }
    }

    pub fn is_complete(&self) -> (r: bool)
        ensures
            r == (self@.stage is Complete),
    {
        matches!(self.state, HandshakeState::Complete { .. })
    }
}

/// The second message of a handshake is answered, and its answer is one that the responder
/// can open: it holds the initiator's static public key.
pub proof fn law_second_message_is_answered(
    i0: HandshakeModel,
    i1: HandshakeModel,
    i2: HandshakeModel,
    r0: HandshakeModel,
    r1: HandshakeModel,
    ea: Seq<u8>,
    eb: Seq<u8>,
    msg1: Seq<u8>,
    msg2: Seq<u8>,
    third: Result<Vec<u8>, CryptoError>,
)
    requires
        fresh_handshake(i0, i0.identity, true),
        fresh_handshake(r0, r0.identity, false),
        i0.identity.derived(),
        r0.identity.derived(),
        creates_message1(i0, i1, ea, msg1),
        answers_message1(r0, r1, eb, msg1, msg2),
        answers_message2(i1, i2, msg2, third),
    ensures
        third matches Ok(msg3) && msg3@.len() == 48 && opened_message3(r1, msg3@) == Some(
            i0.identity.x25519_public_key@,
        ),
{
    let sb = r0.identity.static_secret();
    let e = x25519_public(eb);
    assert(x25519_shared(ea, e) == x25519_shared(eb, msg1));
    assert(x25519_shared(ea, x25519_public(sb)) == x25519_shared(sb, msg1));
    assert(msg2.subrange(80, msg2.len() as int) == msg2.subrange(80, 96));
}

/// A handshake that runs its course succeeds on both sides, and leaves them with matching
/// keys, each knowing the other's static public key.
pub proof fn law_handshake_agrees(
    i0: HandshakeModel,
    i1: HandshakeModel,
    i2: HandshakeModel,
    r0: HandshakeModel,
    r1: HandshakeModel,
    r2: HandshakeModel,
    ea: Seq<u8>,
    eb: Seq<u8>,
    msg1: Seq<u8>,
    msg2: Seq<u8>,
    msg3: Vec<u8>,
    third: Result<Vec<u8>, CryptoError>,
    last: Result<(), CryptoError>,
)
    requires
        fresh_handshake(i0, i0.identity, true),
        fresh_handshake(r0, r0.identity, false),
        i0.identity.derived(),
        r0.identity.derived(),
        creates_message1(i0, i1, ea, msg1),
        answers_message1(r0, r1, eb, msg1, msg2),
        answers_message2(i1, i2, msg2, third),
        third matches Ok(m) ==> m == msg3,
        completes(r1, r2, msg3@, last),
    ensures
        third is Ok,
        last is Ok,
        msg3@.len() == 48,
        i2.stage is Complete,
        r2.stage is Complete,
        i2.stage->send_key == r2.stage->recv_key,
        i2.stage->recv_key == r2.stage->send_key,
        i2.stage->remote_static == r0.identity.x25519_public_key@,
        r2.stage->remote_static == i0.identity.x25519_public_key@,
{
    let sa = i0.identity.static_secret();
    let sb = r0.identity.static_secret();
    let e = x25519_public(eb);
    // the three shared secrets are the same on both sides
    assert(x25519_shared(ea, e) == x25519_shared(eb, msg1));
    assert(x25519_shared(ea, x25519_public(sb)) == x25519_shared(sb, msg1));
    assert(x25519_shared(sa, e) == x25519_shared(eb, x25519_public(sa)));
    assert(msg2.subrange(80, msg2.len() as int) == msg2.subrange(80, 96));
}

/// The keyed block of a message authentication code: 64 bytes, the key and then zeros. A longer
/// key stands for its hash.
pub proof fn law_key_block(key: Seq<u8>, i: int)
    requires
        0 <= i < 64,
    ensures
        key_block(key).len() == 64,
        key.len() <= 64 && i < key.len() ==> key_block(key)[i] == key[i],
        key.len() <= 64 && i >= key.len() ==> key_block(key)[i] == 0,
        key.len() > 64 && sha256(key).len() <= 64 ==> key_block(key) == key_block(sha256(key)),
{
    if key.len() > 64 && sha256(key).len() <= 64 {
        assert(key_block(key) =~= key_block(sha256(key)));
    }
}

/// The message authentication code is that of the hash: an inner one over the key under the mask
/// 0x36 and the data, and an outer one over the key under the mask 0x5c and the inner one.
pub proof fn law_authentication_code(key: Seq<u8>, data: Seq<u8>, outer: Seq<u8>, inner: Seq<u8>)
    requires
        key.len() <= 64,
        outer.len() == 64,
        inner.len() == 64,
        forall|i: int| 0 <= i < 64 ==> #[trigger] outer[i] == (if i < key.len() { 0x5cu8 ^ key[i] } else { 0x5cu8 }),
        forall|i: int| 0 <= i < 64 ==> #[trigger] inner[i] == (if i < key.len() { 0x36u8 ^ key[i] } else { 0x36u8 }),
    ensures
        hmac(key, data) == sha256(outer + sha256(inner + data)),
{
    assert(0x5cu8 ^ 0u8 == 0x5cu8 && 0x36u8 ^ 0u8 == 0x36u8) by (bit_vector);
    assert(masked(key, 0x5c) =~= outer);
    assert(masked(key, 0x36) =~= inner);
}

/// Two keys are derived: the first from the extracted key and 1, the second from the extracted
/// key, the first one and 2.
pub proof fn law_key_derivation(chaining_key: Seq<u8>, input: Seq<u8>)
    ensures
        hkdf(chaining_key, input).0 == hmac(hmac(chaining_key, input), seq![1u8]),
        hkdf(chaining_key, input).1 == hmac(hmac(chaining_key, input), hkdf(chaining_key, input).0 + seq![2u8]),
{
}

/// The initiator goes on only if both sealed parts of the second message open: the responder's
/// static key under what the ephemeral keys share, and the empty message under what that static
/// key shares as well. Each is bound to all that was said before it.
pub proof fn law_second_message_is_authenticated(
    before: HandshakeModel,
    after: HandshakeModel,
    msg2: Seq<u8>,
    msg3: Vec<u8>,
    secret: Seq<u8>,
)
    requires
        answers_message2(before, after, msg2, Ok(msg3)),
        before.stage matches Stage::InitSentMsg1 { secret: s, .. } && s == secret,
    ensures
        msg2.len() >= 96,
        ({
            let re = msg2.subrange(0, 32);
            let c1 = msg2.subrange(32, 80);
            let c2 = msg2.subrange(80, msg2.len() as int);
            let h1 = sha256(before.h + re);
            let h2 = sha256(h1 + c1);
            let h3 = sha256(h2 + c2);
            let first = hkdf(before.ck, x25519_shared(secret, re));
            let rs = opened(first.1, nonce_bytes(0), h1, c1);
            let second = hkdf(first.0, x25519_shared(secret, rs->0));
            let third = hkdf(second.0, Seq::empty());
            let fourth = hkdf(third.0, x25519_shared(before.identity.static_secret(), re));
            let keys = hkdf(fourth.0, Seq::empty());
            &&& rs is Some
            &&& opened(second.1, nonce_bytes(0), h2, c2) is Some
            &&& opened(third.1, nonce_bytes(0), h3, msg3@) == Some(before.identity.x25519_public_key@)
            &&& after.stage == (Stage::Complete { send_key: keys.0, recv_key: keys.1, remote_static: rs->0 })
            &&& after.h == sha256(h3 + msg3@)
            &&& after.identity == before.identity && after.initiator == before.initiator
        }),
{
}

/// The responder is done only if the third message opens, to the initiator's static key; its keys
/// rest on what its ephemeral key shares with that, and are the initiator's the other way round.
pub proof fn law_third_message_is_authenticated(before: HandshakeModel, after: HandshakeModel, msg3: Seq<u8>, secret: Seq<u8>)
    requires
        completes(before, after, msg3, Ok(())),
        before.stage matches Stage::RespSentMsg2 { secret: s, .. } && s == secret,
    ensures
        ({
            let first = hkdf(before.ck, Seq::empty());
            let is = opened(first.1, nonce_bytes(0), before.h, msg3);
            let keys = hkdf(hkdf(first.0, x25519_shared(secret, is->0)).0, Seq::empty());
            &&& is is Some
            &&& after.stage == (Stage::Complete { send_key: keys.1, recv_key: keys.0, remote_static: is->0 })
            &&& after.h == sha256(before.h + msg3)
            &&& after.identity == before.identity && after.initiator == before.initiator
        }),
{
}

/// The responder's answer holds its ephemeral public key, its static public key sealed, and a
/// seal over nothing; each seal is bound to all that was said before it.
pub proof fn law_answer_is_bound_to_the_first_message(
    before: HandshakeModel,
    after: HandshakeModel,
    secret: Seq<u8>,
    msg1: Seq<u8>,
    msg2: Seq<u8>,
)
    requires
        answers_message1(before, after, secret, msg1, msg2),
    ensures
        msg2.len() == 96,
        msg2.subrange(0, 32) == x25519_public(secret),
        ({
            let h2 = sha256(sha256(before.h + msg1) + x25519_public(secret));
            let h3 = sha256(h2 + msg2.subrange(32, 80));
            let first = hkdf(before.ck, x25519_shared(secret, msg1));
            let second = hkdf(first.0, x25519_shared(before.identity.static_secret(), msg1));
            &&& opened(first.1, nonce_bytes(0), h2, msg2.subrange(32, 80)) == Some(before.identity.x25519_public_key@)
            &&& opened(second.1, nonce_bytes(0), h3, msg2.subrange(80, 96)) == Some(Seq::<u8>::empty())
            &&& after.h == sha256(h3 + msg2.subrange(80, 96))
            &&& after.ck == second.0
            &&& after.stage == (Stage::RespSentMsg2 { remote_ephemeral: msg1, secret })
            &&& after.identity == before.identity && after.initiator == before.initiator
        }),
{
}

/// A handshake goes step by step: a message that is not awaited is an error and changes nothing,
/// and what does not open completes nothing.
pub proof fn law_handshake_goes_step_by_step(
    before: HandshakeModel,
    after: HandshakeModel,
    msg: Seq<u8>,
    r2: Result<Vec<u8>, CryptoError>,
    r3: Result<(), CryptoError>,
)
    ensures
        answers_message2(before, after, msg, r2) && !(before.stage is InitSentMsg1) ==> r2 is Err && after == before,
        completes(before, after, msg, r3) && !(before.stage is RespSentMsg2) ==> r3 is Err && after == before,
        answers_message2(before, after, msg, r2) && before.stage is InitSentMsg1 ==> (r2 is Ok <==> after.stage is Complete),
        completes(before, after, msg, r3) && before.stage is RespSentMsg2 ==> (r3 is Ok <==> after.stage is Complete),
        answers_message2(before, after, msg, r2) && r2 is Err ==> after.stage == before.stage,
        completes(before, after, msg, r3) && r3 is Err ==> after.stage == before.stage,
        NoiseHandshake::may_create_message1(before) <==> !before.initiator || before.stage is New,
{
}

/// A handshake starts from the name of the protocol alone, and its first message is the ephemeral
/// public key, taken into the hash.
pub proof fn law_handshake_begins(
    m: HandshakeModel,
    identity: Identity,
    initiator: bool,
    after: HandshakeModel,
    secret: Seq<u8>,
    msg1: Seq<u8>,
)
    requires
        fresh_handshake(m, identity, initiator),
        creates_message1(m, after, secret, msg1),
    ensures
        m.h == sha256(encode_utf8("Noise_XX_25519_ChaChaPoly_SHA256"@)) && m.ck == m.h,
        m.stage is New && m.identity == identity && m.initiator == initiator,
        msg1 == x25519_public(secret) && msg1.len() == 32,
        after.h == sha256(m.h + msg1) && after.ck == m.ck,
        after.stage == (Stage::InitSentMsg1 { secret, public: msg1 }),
{
}

/// The second message is answered just if it is long enough and both of its sealed parts open; the
/// third ends the handshake just if it opens.
pub proof fn law_what_opens_is_accepted(
    before: HandshakeModel,
    after: HandshakeModel,
    msg: Seq<u8>,
    r2: Result<Vec<u8>, CryptoError>,
    r3: Result<(), CryptoError>,
)
    ensures
        answers_message2(before, after, msg, r2) && before.stage is InitSentMsg1 ==> (r2 is Ok <==> {
            let secret = before.stage->InitSentMsg1_secret;
            let re = msg.subrange(0, 32);
            let h1 = sha256(before.h + re);
            let first = hkdf(before.ck, x25519_shared(secret, re));
            let rs = opened(first.1, nonce_bytes(0), h1, msg.subrange(32, 80));
            let second = hkdf(first.0, x25519_shared(secret, rs->0));
            &&& msg.len() >= 96
            &&& rs is Some
            &&& opened(second.1, nonce_bytes(0), sha256(h1 + msg.subrange(32, 80)), msg.subrange(80, msg.len() as int)) is Some
        }),
        completes(before, after, msg, r3) && before.stage is RespSentMsg2 ==> (r3 is Ok <==> opened(
            hkdf(before.ck, Seq::empty()).1,
            nonce_bytes(0),
            before.h,
            msg,
        ) is Some),
        answers_message2(before, after, msg, r2) && before.stage is InitSentMsg1 && msg.len() < 96 ==> after == before,
        answers_message2(before, after, msg, r2) && before.stage is InitSentMsg1 && msg.len() >= 96 && r2 is Err ==> r2 == Err::<
            Vec<u8>,
            CryptoError,
        >(CryptoError::DecryptionFailed),
        completes(before, after, msg, r3) && before.stage is RespSentMsg2 && r3 is Err ==> r3 == Err::<(), CryptoError>(
            CryptoError::DecryptionFailed,
        ),
{
}

/// What the steps of a handshake do: each answers the message before it, or fails and says so.
pub proof fn law_steps_of_a_handshake(
    msg: &[u8],
    r: Result<Vec<u8>, CryptoError>,
    last: Result<(), CryptoError>,
    h: NoiseHandshake,
    done: bool,
    keys: Result<SessionKeys, CryptoError>,
)
    requires
        call_ensures(NoiseHandshake::is_complete, (&h,), done),
        call_ensures(NoiseHandshake::into_session_keys, (h,), keys),
    ensures
        forall|n: &mut NoiseHandshake| #[trigger]
            call_ensures(NoiseHandshake::create_message1, (n,), r) ==> (r is Ok <==> !n@.initiator || n@.stage is New) && (r is Ok
                ==> final(n)@.stage is InitSentMsg1 && r->Ok_0@.len() == 32) && (r is Err ==> final(n)@ == n@),
        forall|n: &mut NoiseHandshake| #[trigger]
            call_ensures(NoiseHandshake::process_message1_create_message2, (n, msg), r) ==> (r is Ok <==> msg@.len() == 32) && (r is Ok
                ==> final(n)@.stage is RespSentMsg2 && r->Ok_0@.len() == 96) && (r is Err ==> final(n)@ == n@),
        forall|n: &mut NoiseHandshake| #[trigger]
            call_ensures(NoiseHandshake::process_message2_create_message3, (n, msg), r) ==> answers_message2(n@, final(n)@, msg@, r)
                && (r is Ok <==> final(n)@.stage is Complete && n@.stage is InitSentMsg1),
        forall|n: &mut NoiseHandshake| #[trigger]
            call_ensures(NoiseHandshake::process_message3, (n, msg), last) ==> completes(n@, final(n)@, msg@, last) && (last is Ok
                <==> final(n)@.stage is Complete && n@.stage is RespSentMsg2),
        done <==> h@.stage is Complete,
        keys is Ok <==> h@.stage is Complete,
        keys is Ok ==> keys->Ok_0.send_key@ == h@.stage->send_key && keys->Ok_0.recv_key@ == h@.stage->recv_key
            && keys->Ok_0.remote_static@ == h@.stage->remote_static,
{
}

} // verus!
