//! The cryptographic primitives that outside crates supply, under names that contracts
//! can speak of.
use chacha20poly1305::aead::{Aead, KeyInit, Payload};
use chacha20poly1305::{ChaCha20Poly1305, Nonce};
use ed25519_dalek::{Signature, Signer, SigningKey, Verifier, VerifyingKey};
use rand::rngs::OsRng;
use sha2::{Digest, Sha256};
use vstd::prelude::*;
use x25519_dalek::{PublicKey, StaticSecret};

verus! {

/// The SHA-256 hash of a byte string.
pub uninterp spec fn sha256(data: Seq<u8>) -> Seq<u8>;

/// The X25519 public key of a secret key.
pub uninterp spec fn x25519_public(secret: Seq<u8>) -> Seq<u8>;

/// The X25519 shared secret of a secret key and a public key.
pub uninterp spec fn x25519_shared(secret: Seq<u8>, public: Seq<u8>) -> Seq<u8>;

/// The Ed25519 public key of a secret key.
pub uninterp spec fn ed25519_public(secret: Seq<u8>) -> Seq<u8>;

/// The Ed25519 signature over a message.
pub uninterp spec fn ed25519_signature(secret: Seq<u8>, message: Seq<u8>) -> Seq<u8>;

/// Whether an Ed25519 signature over a message is accepted under a public key.
pub uninterp spec fn ed25519_accepts(public: Seq<u8>, message: Seq<u8>, signature: Seq<u8>) -> bool;

/// What ChaCha20-Poly1305 seals a message to.
pub uninterp spec fn aead_sealed(key: Seq<u8>, nonce: Seq<u8>, ad: Seq<u8>, message: Seq<u8>) -> Option<Seq<u8>>;

/// What ChaCha20-Poly1305 opens a sealed message to; nothing for one that does not
/// authenticate.
pub uninterp spec fn aead_opened(key: Seq<u8>, nonce: Seq<u8>, ad: Seq<u8>, sealed: Seq<u8>) -> Option<Seq<u8>>;

/// A secret key whose public key agrees with every other key pair: both sides of an
/// exchange arrive at the same shared secret.
pub open spec fn agrees(secret: Seq<u8>) -> bool {
    forall|other: Seq<u8>|
        other.len() == 32 ==> #[trigger] x25519_shared(other, x25519_public(secret)) == x25519_shared(
            secret,
            x25519_public(other),
        )
}

/// A sealed message that opens to what was sealed.
pub open spec fn seals(key: Seq<u8>, nonce: Seq<u8>, ad: Seq<u8>, message: Seq<u8>, sealed: Seq<u8>) -> bool {
    &&& aead_sealed(key, nonce, ad, message) == Some(sealed)
    &&& aead_opened(key, nonce, ad, sealed) == Some(message)
    &&& sealed.len() == message.len() + 16
    &&& sealable(message.len())
}

/// `sha2::Sha256::digest`: its result depends on the bytes alone.
#[verifier::external_body]
pub(crate) fn sha256_digest(data: &[u8]) -> (r: [u8; 32])
    ensures
        r@ == sha256(data@),
{
    Sha256::digest(data).into()
}

/// `x25519_dalek::StaticSecret::random_from_rng` on the operating system's random
/// numbers. Nothing is claimed of the key.
#[verifier::external_body]
pub(crate) fn x25519_random_secret() -> (r: [u8; 32])
{
    StaticSecret::random_from_rng(OsRng).to_bytes()
}

/// `x25519_dalek::PublicKey::from` a secret key: the result depends on the secret key
/// alone. With it, both sides of a Diffie-Hellman exchange get one shared secret.
#[verifier::external_body]
pub(crate) fn x25519_public_key(secret: &[u8; 32]) -> (r: [u8; 32])
    ensures
        r@ == x25519_public(secret@),
        forall|other: Seq<u8>|
            other.len() == 32 ==> #[trigger] x25519_shared(other, r@) == x25519_shared(secret@, x25519_public(other)),
{
    PublicKey::from(&StaticSecret::from(*secret)).to_bytes()
}

/// `x25519_dalek::StaticSecret::diffie_hellman`: the result depends on the two keys alone.
#[verifier::external_body]
pub(crate) fn x25519_diffie_hellman(secret: &[u8; 32], public: &[u8; 32]) -> (r: [u8; 32])
    ensures
        r@ == x25519_shared(secret@, public@),
{
    StaticSecret::from(*secret).diffie_hellman(&PublicKey::from(*public)).to_bytes()
}

/// `ed25519_dalek::SigningKey::generate` on the operating system's random numbers.
/// Nothing is claimed of the key.
#[verifier::external_body]
pub(crate) fn ed25519_random_secret() -> (r: [u8; 32])
{
    SigningKey::generate(&mut OsRng).to_bytes()
}

/// `ed25519_dalek::SigningKey::verifying_key`: the result depends on the secret key alone.
#[verifier::external_body]
pub(crate) fn ed25519_public_key(secret: &[u8; 32]) -> (r: [u8; 32])
    ensures
        r@ == ed25519_public(secret@),
{
    SigningKey::from_bytes(secret).verifying_key().to_bytes()
}

/// `ed25519_dalek::SigningKey::sign`: the signature depends on the secret key and the
/// message alone, and is accepted under the public key of the same secret key.
#[verifier::external_body]
pub(crate) fn ed25519_sign(secret: &[u8; 32], message: &[u8]) -> (r: [u8; 64])
    ensures
        r@ == ed25519_signature(secret@, message@),
        ed25519_accepts(ed25519_public(secret@), message@, r@),
{
    SigningKey::from_bytes(secret).sign(message).to_bytes()
}

/// `ed25519_dalek::VerifyingKey::verify`: the verdict depends on the key, the message and
/// the signature alone. A key that is no point of the curve accepts nothing.
#[verifier::external_body]
pub(crate) fn ed25519_verify(public: &[u8; 32], message: &[u8], signature: &[u8; 64]) -> (r: bool)
    ensures
        r == ed25519_accepts(public@, message@, signature@),
{
    match VerifyingKey::from_bytes(public) {
        Ok(key) => key.verify(message, &Signature::from_bytes(signature)).is_ok(),
        Err(_) => false,
    }
}

/// The longest message that the cipher takes: 2^32 - 2 blocks of 64 bytes.
pub open spec fn sealable(n: nat) -> bool {
    n <= 64 * 0xFFFF_FFFE
}

/// What a sealed message opens to. One that is longer than any that can be sealed does not
/// open.
pub open spec fn opened(key: Seq<u8>, nonce: Seq<u8>, ad: Seq<u8>, sealed: Seq<u8>) -> Option<Seq<u8>> {
    if sealed.len() > 64 * 0xFFFF_FFFE + 16 {
        None
    } else {
        aead_opened(key, nonce, ad, sealed)
    }
}

/// `Aead::encrypt` of `ChaCha20Poly1305`: the result depends on the four arguments alone.
/// A message that the block counter has room for is sealed; on one that runs over it, the
/// cipher may panic. What was sealed is 16 bytes longer than the message and opens to it
/// again.
#[verifier::external_body]
fn aead_encrypt(key: &[u8; 32], nonce: &[u8; 12], ad: &[u8], message: &[u8]) -> (r: Option<Vec<u8>>)
    requires
        sealable(message@.len()),
    ensures
        r is Some,
        r matches Some(c) ==> aead_sealed(key@, nonce@, ad@, message@) == Some(c@),
        r matches Some(c) ==> aead_opened(key@, nonce@, ad@, c@) == Some(message@),
        r matches Some(c) ==> c@.len() == message@.len() + 16,
{
    let cipher = ChaCha20Poly1305::new(key.into());
    cipher.encrypt(Nonce::from_slice(nonce), Payload { msg: message, aad: ad }).ok()
}

/// `Aead::decrypt` of `ChaCha20Poly1305`: the result depends on the four arguments alone.
/// What opens is 16 bytes longer than the message that comes out. On a message that the
/// block counter has no room for, the cipher may panic.
#[verifier::external_body]
fn aead_decrypt(key: &[u8; 32], nonce: &[u8; 12], ad: &[u8], sealed: &[u8]) -> (r: Option<Vec<u8>>)
    requires
        sealed@.len() <= 64 * 0xFFFF_FFFE + 16,
    ensures
        r is Some <==> aead_opened(key@, nonce@, ad@, sealed@) is Some,
        r matches Some(m) ==> aead_opened(key@, nonce@, ad@, sealed@) == Some(m@) && sealed@.len() == m@.len() + 16,
{
    let cipher = ChaCha20Poly1305::new(key.into());
    cipher.decrypt(Nonce::from_slice(nonce), Payload { msg: sealed, aad: ad }).ok()
}

/// Seals a message, unless it is too long.
pub(crate) fn aead_seal(key: &[u8; 32], nonce: &[u8; 12], ad: &[u8], message: &[u8]) -> (r: Option<Vec<u8>>)
    ensures
        r is Some <==> sealable(message@.len()),
        r matches Some(c) ==> seals(key@, nonce@, ad@, message@, c@),
{
    if message.len() as u64 <= 64 * 0xFFFF_FFFE {
        aead_encrypt(key, nonce, ad, message)
    } else {
        None
    }
}

/// Opens a sealed message.
pub(crate) fn aead_open(key: &[u8; 32], nonce: &[u8; 12], ad: &[u8], sealed: &[u8]) -> (r: Option<Vec<u8>>)
    ensures
        r is Some <==> opened(key@, nonce@, ad@, sealed@) is Some,
        r matches Some(m) ==> opened(key@, nonce@, ad@, sealed@) == Some(m@) && sealed@.len() == m@.len() + 16,
{
    if sealed.len() as u64 <= 64 * 0xFFFF_FFFE + 16 {
        aead_decrypt(key, nonce, ad, sealed)
    } else {
        None
    }
}

/// What was sealed is opened again with the same key, nonce and associated data, and is sixteen
/// bytes longer than the message. Up to 2^38 - 128 bytes can be sealed.
pub proof fn law_sealed_is_opened(key: Seq<u8>, nonce: Seq<u8>, ad: Seq<u8>, message: Seq<u8>, sealed: Seq<u8>)
    requires
        seals(key, nonce, ad, message, sealed),
    ensures
        opened(key, nonce, ad, sealed) == Some(message),
        sealed.len() == message.len() + 16,
        aead_sealed(key, nonce, ad, message) == Some(sealed),
        message.len() <= 0x40_0000_0000 - 128,
{
}

/// What can be sealed, and what opening goes by.
pub proof fn law_cipher_limits(key: Seq<u8>, nonce: Seq<u8>, ad: Seq<u8>, sealed: Seq<u8>, n: nat)
    ensures
        sealable(n) <==> n <= 0x40_0000_0000 - 128,
        sealed.len() <= 0x40_0000_0000 - 112 ==> opened(key, nonce, ad, sealed) == aead_opened(key, nonce, ad, sealed),
        sealed.len() > 0x40_0000_0000 - 112 ==> opened(key, nonce, ad, sealed) is None,
{
}

} // verus!
