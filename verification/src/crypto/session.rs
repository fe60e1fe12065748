//! Encryption of frames after the handshake, with protection against replays.
use vstd::prelude::*;
use crate::crypto::error::CryptoError;
use crate::crypto::noise::SessionKeys;
use crate::crypto::primitives::{aead_open, aead_opened, aead_seal, aead_sealed, law_sealed_is_opened, opened, sealable, seals};
use crate::wire::{copy_array, le, le_val, lemma_le_len, lemma_le_roundtrip, lemma_pow256_values, put_le};

verus! {

/// The size of an authentication tag.
pub const TAG_SIZE: usize = 16;

/// The highest nonce: 2^48 - 1.
pub const MAX_NONCE: u64 = 0xFFFF_FFFF_FFFF;

/// How many nonces the replay window covers.
pub const REPLAY_WINDOW_SIZE: usize = 256;

/// Bit `i` of a bitmap of 64-bit words.
pub open spec fn bit(words: Seq<u64>, i: int) -> bool {
    words[i / 64] & (1u64 << ((i % 64) as u64)) != 0
}

/// The window of nonces that have been seen. Bit `i` stands for the nonce `i` below the
/// highest.
#[derive(Debug)]
pub struct ReplayWindow {
    max_nonce: u64,
    bitmap: [u64; 4],
}

impl ReplayWindow {
    /// The highest nonce that was seen.
    pub closed spec fn highest(self) -> u64 {
        self.max_nonce
    }

    /// The nonce was seen, and is recent enough for that to be remembered.
    pub closed spec fn seen(self, nonce: u64) -> bool {
        nonce <= self.max_nonce && self.max_nonce - nonce < 256 && bit(self.bitmap@, self.max_nonce - nonce)
    }

    /// The nonce is accepted: it is new, and not too old to tell.
    pub open spec fn fresh(self, nonce: u64) -> bool {
        nonce > self.highest() || (self.highest() - nonce < 256 && !self.seen(nonce))
    }

    /// What accepting a nonce changes: the window moves up to it if it is the highest,
    /// and it is seen from then on.
    pub open spec fn marks(self, nonce: u64, after: ReplayWindow) -> bool {
        &&& after.highest() == (if nonce > self.highest() { nonce } else { self.highest() })
        &&& forall|n: u64| #[trigger]
            after.seen(n) <==> (n == nonce || (self.seen(n) && after.highest() - n < 256))
    }

    pub fn new() -> (r: Self)
        ensures
            r.highest() == 0,
            forall|n: u64| !(#[trigger] r.seen(n)),
    {
        let r = ReplayWindow { max_nonce: 0, bitmap: [0u64; 4] };
        assert forall|n: u64| !(#[trigger] r.seen(n)) by {
            assert(0u64 & (1u64 << 0) == 0) by (bit_vector);
            assert(r.bitmap@[0] == 0);
        }
        r
    }

    /// Accepts a nonce that was not seen before, and remembers it.
    pub fn check_and_mark(&mut self, nonce: u64) -> (r: bool)
        ensures
            r == old(self).fresh(nonce),
            r ==> old(self).marks(nonce, *final(self)),
            !r ==> *final(self) == *old(self),
    {
        let ghost before = *self;
        if nonce > self.max_nonce {
            let shift: u64 = nonce - self.max_nonce;
            if shift >= 256 {
                self.bitmap = [0u64; 4];
            } else {
                self.shift_left(shift as usize);
            }
            self.max_nonce = nonce;
            let ghost shifted = self.bitmap@;
            let w: u64 = self.bitmap[0];
            self.bitmap[0] = w | 1;
            proof {
                assert forall|n: u64| #[trigger] self.seen(n) <==> (n == nonce || (before.seen(n) && self.highest() - n < 256)) by {
                    if n <= nonce && nonce - n < 256 {
                        let i = nonce - n;
                        let k = (i % 64) as u64;
                        lemma_or_bit(w, 0, k);
                        if shift >= 256 {
                            assert(0u64 & (1u64 << k) == 0) by (bit_vector);
                            assert(shifted[i / 64] == 0);
                            assert(!bit(shifted, i));
                        }
                        assert(bit(self.bitmap@, i) == (i == 0 || bit(shifted, i)));
                    }
                }
            }
            true
        } else {
            if self.max_nonce - nonce >= 256 {
                return false;
            }
            let diff: usize = (self.max_nonce - nonce) as usize;
            let word: usize = diff / 64;
            let k: u64 = (diff % 64) as u64;
            let w: u64 = self.bitmap[word];
            if w & (1u64 << k) != 0 {
                return false;
            }
            self.bitmap[word] = w | (1u64 << k);
            proof {
                assert forall|n: u64| #[trigger] self.seen(n) <==> (n == nonce || (before.seen(n) && self.highest() - n < 256)) by {
                    if n <= self.max_nonce && self.max_nonce - n < 256 {
                        let i = self.max_nonce - n;
                        let j = (i % 64) as u64;
                        lemma_or_bit(w, k, j);
                        assert(bit(self.bitmap@, i) == (i == diff || bit(before.bitmap@, i)));
                    }
                }
            }
            true
        }
    }

    /// Moves every bit up by `amount` places; bits at the end fall out.
    fn shift_left(&mut self, amount: usize)
        requires
            0 < amount < 256,
        ensures
            final(self).max_nonce == old(self).max_nonce,
            forall|i: int| 0 <= i < 256 ==> (#[trigger] bit(final(self).bitmap@, i) <==> (i >= amount && bit(
                old(self).bitmap@,
                i - amount,
            ))),
    {
        let words = self.bitmap;
        let word_shift: usize = amount / 64;
        let bit_shift: u64 = (amount % 64) as u64;
        let mut shifted: [u64; 4] = [0u64; 4];
        let mut i: usize = 0;
        while i < 4
            invariant
                i <= 4,
                word_shift == amount / 64,
                bit_shift == amount % 64,
                forall|j: int|
                    0 <= j < 64 * i ==> (#[trigger] bit(shifted@, j) <==> (j >= amount && bit(words@, j - amount))),
            decreases 4 - i,
        {
            let high: u64 = if i >= word_shift {
                words[i - word_shift]
            } else {
                0
            };
            let low: u64 = if i >= word_shift + 1 {
                words[i - word_shift - 1]
            } else {
                0
            };
            let ghost was = shifted@;
            shifted[i] = if bit_shift == 0 {
                high
            } else {
                (high << bit_shift) | (low >> (64 - bit_shift))
            };
            proof {
                let w = shifted@[i as int];
                assert forall|j: int| 0 <= j < 64 * (i + 1) implies (#[trigger] bit(shifted@, j) <==> (j >= amount && bit(
                    words@,
                    j - amount,
                ))) by {
                    if j < 64 * i {
                        assert(bit(was, j) == bit(shifted@, j));
                    } else {
                        let k = (j % 64) as u64;
                        assert(j / 64 == i);
                        assert(0u64 & (1u64 << k) == 0) by (bit_vector);
                        if bit_shift == 0 {
                            if j >= amount {
                                assert((j - amount) / 64 == i - word_shift);
                                assert((j - amount) % 64 == j % 64);
                            }
                        } else {
                            lemma_shift_bit(high, low, bit_shift, k);
                            assert(0u64 & (1u64 << ((k - bit_shift) as u64)) == 0) by (bit_vector);
                            assert(0u64 & (1u64 << ((64 - bit_shift + k) as u64)) == 0) by (bit_vector);
                            if j >= amount {
                                if k >= bit_shift {
                                    assert((j - amount) / 64 == i - word_shift);
                                    assert((j - amount) % 64 == k - bit_shift);
                                } else {
                                    assert((j - amount) / 64 == i - word_shift - 1);
                                    assert((j - amount) % 64 == 64 - bit_shift + k);
                                }
                            }
                        }
                    }
                }
            }
            i += 1;
        }
        self.bitmap = shifted;
    }
}

proof fn lemma_or_bit(w: u64, k: u64, j: u64)
    requires
        k < 64,
        j < 64,
    ensures
        (w | (1u64 << k)) & (1u64 << j) != 0 <==> (j == k || w & (1u64 << j) != 0),
        k == 0 ==> 1u64 << k == 1u64,
{
    assert((w | (1u64 << k)) & (1u64 << j) != 0 <==> (j == k || w & (1u64 << j) != 0)) by (bit_vector)
        requires
            k < 64,
            j < 64,
    ;
    assert(k == 0 ==> 1u64 << k == 1u64) by (bit_vector);
}

proof fn lemma_shift_bit(high: u64, low: u64, s: u64, k: u64)
    requires
        0 < s < 64,
        k < 64,
    ensures
        k >= s ==> (((high << s) | (low >> ((64 - s) as u64))) & (1u64 << k) != 0 <==> high & (1u64 << ((k - s) as u64)) != 0),
        k < s ==> (((high << s) | (low >> ((64 - s) as u64))) & (1u64 << k) != 0 <==> low & (1u64 << ((64 - s + k) as u64)) != 0),
{
    let r: u64 = (64 - s) as u64;
    if k >= s {
        let d: u64 = (k - s) as u64;
        assert(((high << s) | (low >> r)) & (1u64 << k) != 0 <==> high & (1u64 << d) != 0) by (bit_vector)
            requires
                0 < s < 64,
                k < 64,
                k >= s,
                d == k - s,
                r == 64 - s,
        ;
    } else {
        let d: u64 = (64 - s + k) as u64;
        assert(((high << s) | (low >> r)) & (1u64 << k) != 0 <==> low & (1u64 << d) != 0) by (bit_vector)
            requires
                0 < s < 64,
                k < s,
                d == 64 - s + k,
                r == 64 - s,
        ;
    }
}

/// No nonce is accepted twice: an accepted nonce is refused from then on, and one that
/// is refused stays refused whatever else is accepted.
pub proof fn law_no_replay(before: ReplayWindow, after: ReplayWindow, accepted: u64, refused: u64)
    requires
        before.fresh(accepted),
        before.marks(accepted, after),
    ensures
        !after.fresh(accepted),
        !before.fresh(refused) ==> !after.fresh(refused),
{
    assert(after.seen(accepted));
    if !before.fresh(refused) {
        assert(before.seen(refused) || before.highest() - refused >= 256);
        assert(after.seen(refused) <==> (refused == accepted || (before.seen(refused) && after.highest() - refused < 256)));
    }
}

/// Accepting a nonce spoils no other one: what was acceptable before is acceptable still,
/// unless the window has moved past it. So messages may arrive out of order.
pub proof fn law_out_of_order_is_accepted(before: ReplayWindow, after: ReplayWindow, accepted: u64, n: u64)
    requires
        before.fresh(accepted),
        before.marks(accepted, after),
        before.fresh(n),
        n != accepted,
        n > after.highest() || after.highest() - n < 256,
    ensures
        after.fresh(n),
{
}

/// The nonce of the cipher for a counter: four zero bytes, then the counter.
pub open spec fn nonce_bytes(counter: u64) -> Seq<u8> {
    le(0, 4) + le(counter as nat, 8)
}

/// The nonce of the cipher for a counter.
pub fn build_nonce(counter: u64) -> (r: [u8; 12])
    ensures
        r@ == nonce_bytes(counter),
{
    broadcast use lemma_le_len;

    let mut out: Vec<u8> = Vec::new();
    put_le(&mut out, 0, 4);
    put_le(&mut out, counter as u128, 8);
    assert(out@ =~= nonce_bytes(counter));
    let r = copy_array::<12>(out.as_slice(), 0);
    assert(r@ =~= out@);
    r
}

/// An encrypted session.
pub struct SecureSession {
    send_key: [u8; 32],
    recv_key: [u8; 32],
    send_nonce: u64,
    recv_nonce_max: u64,
    replay_window: ReplayWindow,
    /// The other side's static public key.
    pub remote_static: [u8; 32],
}

impl SecureSession {
    pub closed spec fn sending_key(self) -> Seq<u8> {
        self.send_key@
    }

    pub closed spec fn receiving_key(self) -> Seq<u8> {
        self.recv_key@
    }

    /// The other side's static public key.
    pub closed spec fn remote(self) -> Seq<u8> {
        self.remote_static@
    }

    /// The nonce of the next message that is sent.
    pub closed spec fn next_nonce(self) -> u64 {
        self.send_nonce
    }

    /// The highest nonce of a message that was decrypted.
    pub closed spec fn highest_received(self) -> u64 {
        self.recv_nonce_max
    }

    pub closed spec fn window(self) -> ReplayWindow {
        self.replay_window
    }

    /// Nothing but the counter of sent messages differs.
    pub open spec fn same_but_next_nonce(self, o: SecureSession) -> bool {
        &&& self.sending_key() == o.sending_key()
        &&& self.receiving_key() == o.receiving_key()
        &&& self.highest_received() == o.highest_received()
        &&& self.window() == o.window()
        &&& self.remote() == o.remote()
    }

    /// Nothing but the record of received nonces differs.
    pub open spec fn same_but_received(self, o: SecureSession) -> bool {
        &&& self.sending_key() == o.sending_key()
        &&& self.receiving_key() == o.receiving_key()
        &&& self.next_nonce() == o.next_nonce()
        &&& self.remote() == o.remote()
    }

    /// A session with the keys of a handshake.
    pub fn from_keys(keys: SessionKeys) -> (r: Result<Self, CryptoError>)
        ensures
            r matches Ok(s) && s.sending_key() == keys.send_key@ && s.receiving_key() == keys.recv_key@
                && s.remote() == keys.remote_static@ && s.next_nonce() == 0 && s.highest_received() == 0
                && s.window().highest() == 0 && (forall|n: u64| !(#[trigger] s.window().seen(n))),
    {
        Ok(
            SecureSession {
                send_key: keys.send_key,
                recv_key: keys.recv_key,
                send_nonce: 0,
                recv_nonce_max: 0,
                replay_window: ReplayWindow::new(),
                remote_static: keys.remote_static,
            },
        )
    }

    /// Takes the nonce for a message that is to be sent. The counter moves on even where
    /// the nonces have run out.
    pub fn take_nonce(&mut self) -> (r: Result<u64, CryptoError>)
        ensures
            r == (if old(self).next_nonce() > MAX_NONCE {
                Err(CryptoError::NonceOverflow)
            } else {
                Ok(old(self).next_nonce())
            }),
            final(self).next_nonce() == (if old(self).next_nonce() == u64::MAX {
                0
            } else {
                (old(self).next_nonce() + 1) as u64
            }),
            final(self).same_but_next_nonce(*old(self)),
    {
        let nonce: u64 = self.send_nonce;
        self.send_nonce = nonce.wrapping_add(1);
        if nonce > MAX_NONCE {
            return Err(CryptoError::NonceOverflow);
        }
        Ok(nonce)
    }

    /// The outcome of sealing a message.
    pub fn sealed_outcome(nonce: u64, sealed: Option<Vec<u8>>) -> (r: Result<(u64, Vec<u8>), CryptoError>)
        ensures
            match r {
                Ok(m) => sealed is Some && m == (nonce, sealed->0),
                Err(e) => sealed is None && e.is_handshake_failed("AEAD encrypt failed"@),
            },
    {
        match sealed {
            Some(c) => Ok((nonce, c)),
            None => Err(CryptoError::handshake_failed("AEAD encrypt failed")),
        }
    }

    /// Encrypts a message. The nonce is to be sent along with it.
    pub fn encrypt(&mut self, plaintext: &[u8]) -> (r: Result<(u64, Vec<u8>), CryptoError>)
        ensures
            encrypts(*old(self), *final(self), plaintext@, Seq::empty(), r),
    {
        let none: [u8; 0] = [];
        let r = self.encrypt_with_ad(plaintext, none.as_slice());
        assert(none@ =~= Seq::empty());
        r
    }

    /// Encrypts a message and authenticates the associated data with it.
    pub fn encrypt_with_ad(&mut self, plaintext: &[u8], ad: &[u8]) -> (r: Result<(u64, Vec<u8>), CryptoError>)
        ensures
            encrypts(*old(self), *final(self), plaintext@, ad@, r),
    {
        let nonce: u64 = match self.take_nonce() {
            Ok(n) => n,
            Err(e) => return Err(e),
        };
        let sealed = aead_seal(&self.send_key, &build_nonce(nonce), ad, plaintext);
        Self::sealed_outcome(nonce, sealed)
    }

    /// Accepts the nonce of a message that has arrived, once.
    pub fn accept_nonce(&mut self, nonce: u64) -> (r: Result<(), CryptoError>)
        ensures
            r == (if old(self).window().fresh(nonce) {
                Ok(())
            } else {
                Err(CryptoError::ReplayDetected { nonce })
            }),
            r is Ok ==> old(self).window().marks(nonce, final(self).window()),
            r is Err ==> final(self).window() == old(self).window(),
            final(self).same_but_received(*old(self)),
            final(self).highest_received() == old(self).highest_received(),
    {
        if !self.replay_window.check_and_mark(nonce) {
            return Err(CryptoError::ReplayDetected { nonce });
        }
        Ok(())
    }

    /// The outcome of opening a message; the highest nonce is kept for those that open.
    pub fn opened_outcome(&mut self, nonce: u64, opened: Option<Vec<u8>>) -> (r: Result<Vec<u8>, CryptoError>)
        ensures
            r == (match opened {
                Some(m) => Ok(m),
                None => Err(CryptoError::DecryptionFailed),
            }),
            final(self).highest_received() == (if opened is Some && nonce > old(self).highest_received() {
                nonce
            } else {
                old(self).highest_received()
            }),
            final(self).same_but_received(*old(self)),
            final(self).window() == old(self).window(),
    {
        match opened {
            Some(m) => {
                if nonce > self.recv_nonce_max {
                    self.recv_nonce_max = nonce;
                }
                Ok(m)
            },
            None => Err(CryptoError::DecryptionFailed),
        }
    }

    /// Decrypts a message that was not received before.
    pub fn decrypt(&mut self, nonce: u64, ciphertext: &[u8]) -> (r: Result<Vec<u8>, CryptoError>)
        ensures
            decrypts(*old(self), *final(self), nonce, ciphertext@, Seq::empty(), r),
    {
        let none: [u8; 0] = [];
        let r = self.decrypt_with_ad(nonce, ciphertext, none.as_slice());
        assert(none@ =~= Seq::empty());
        r
    }

    /// Decrypts a message that was not received before, and checks the associated data.
    pub fn decrypt_with_ad(&mut self, nonce: u64, ciphertext: &[u8], ad: &[u8]) -> (r: Result<Vec<u8>, CryptoError>)
        ensures
            decrypts(*old(self), *final(self), nonce, ciphertext@, ad@, r),
    {
        match self.accept_nonce(nonce) {
            Ok(_) => {},
            Err(e) => return Err(e),
        }
        let opened = aead_open(&self.recv_key, &build_nonce(nonce), ad, ciphertext);
        self.opened_outcome(nonce, opened)
    }

    pub fn send_nonce(&self) -> (r: u64)
        ensures
            r == self.next_nonce(),
    {
        self.send_nonce
    }

    pub fn recv_nonce_max(&self) -> (r: u64)
        ensures
            r == self.highest_received(),
    {
        self.recv_nonce_max
    }
}

/// What encrypting does: it takes the next nonce and seals the message under it.
pub open spec fn encrypts(
    before: SecureSession,
    after: SecureSession,
    plaintext: Seq<u8>,
    ad: Seq<u8>,
    r: Result<(u64, Vec<u8>), CryptoError>,
) -> bool {
    let n = before.next_nonce();
    &&& after.same_but_next_nonce(before)
    &&& after.next_nonce() == (if n == u64::MAX { 0 } else { (n + 1) as u64 })
    &&& match r {
        Ok(m) => {
            &&& n <= MAX_NONCE
            &&& m.0 == n
            &&& sealable(plaintext.len())
            &&& seals(before.sending_key(), nonce_bytes(n), ad, plaintext, m.1@)
        },
        Err(e) => if n > MAX_NONCE {
            e is NonceOverflow
        } else {
            &&& !sealable(plaintext.len())
            &&& e.is_handshake_failed("AEAD encrypt failed"@)
        },
    }
}

/// What decrypting does: it accepts the nonce once, then opens the message.
pub open spec fn decrypts(
    before: SecureSession,
    after: SecureSession,
    nonce: u64,
    ciphertext: Seq<u8>,
    ad: Seq<u8>,
    r: Result<Vec<u8>, CryptoError>,
) -> bool {
    let found = opened(before.receiving_key(), nonce_bytes(nonce), ad, ciphertext);
    &&& after.same_but_received(before)
    &&& if !before.window().fresh(nonce) {
        &&& r == Err::<Vec<u8>, CryptoError>(CryptoError::ReplayDetected { nonce })
        &&& after.window() == before.window()
        &&& after.highest_received() == before.highest_received()
    } else {
        &&& before.window().marks(nonce, after.window())
        &&& match r {
            Ok(m) => {
                &&& found == Some(m@)
                &&& after.highest_received() == (if nonce > before.highest_received() {
                    nonce
                } else {
                    before.highest_received()
                })
            },
            Err(e) => {
                &&& found is None
                &&& e is DecryptionFailed
                &&& after.highest_received() == before.highest_received()
            },
        }
    }
}

/// What one side encrypts, the other decrypts: with matching keys, the same associated
/// data, and a nonce that has not been used up.
pub proof fn law_decrypt_gives_back(
    a: SecureSession,
    a_after: SecureSession,
    plaintext: Seq<u8>,
    ad: Seq<u8>,
    sent: (u64, Vec<u8>),
    b: SecureSession,
    b_after: SecureSession,
    received: Result<Vec<u8>, CryptoError>,
)
    requires
        encrypts(a, a_after, plaintext, ad, Ok(sent)),
        b.receiving_key() == a.sending_key(),
        b.window().fresh(sent.0),
        decrypts(b, b_after, sent.0, sent.1@, ad, received),
    ensures
        received matches Ok(m) && m@ == plaintext,
        sent.1@.len() == plaintext.len() + TAG_SIZE,
{
}

/// A message that was received is not received again.
pub proof fn law_replay_is_refused(
    b: SecureSession,
    b_after: SecureSession,
    b_later: SecureSession,
    nonce: u64,
    first: Seq<u8>,
    second: Seq<u8>,
    ad: Seq<u8>,
    r1: Result<Vec<u8>, CryptoError>,
    r2: Result<Vec<u8>, CryptoError>,
)
    requires
        decrypts(b, b_after, nonce, first, ad, r1),
        decrypts(b_after, b_later, nonce, second, ad, r2),
    ensures
        r2 == Err::<Vec<u8>, CryptoError>(CryptoError::ReplayDetected { nonce }),
{
    if b.window().fresh(nonce) {
        law_no_replay(b.window(), b_after.window(), nonce, nonce);
    }
}

/// Two messages in a row are encrypted under different nonces, the second above the first.
pub proof fn law_nonces_increase(
    a: SecureSession,
    b: SecureSession,
    c: SecureSession,
    p: Seq<u8>,
    q: Seq<u8>,
    ad: Seq<u8>,
    first: (u64, Vec<u8>),
    second: (u64, Vec<u8>),
)
    requires
        encrypts(a, b, p, ad, Ok(first)),
        encrypts(b, c, q, ad, Ok(second)),
    ensures
        first.0 < second.0,
{
}

/// The window reaches 256 nonces back: what is above it is fresh, what is below it is not, and
/// within it a nonce is fresh until it has been seen.
pub proof fn law_window_reaches_back(w: ReplayWindow, n: u64)
    ensures
        n > w.highest() ==> w.fresh(n),
        n <= w.highest() && w.highest() - n >= 256 ==> !w.fresh(n),
        n <= w.highest() && w.highest() - n < 256 ==> w.fresh(n) == !w.seen(n),
{
}

/// Accepting a nonce marks it and no other, forgets only what falls out of the window, and never
/// moves the window back.
pub proof fn law_accepting_marks_one_nonce(before: ReplayWindow, after: ReplayWindow, nonce: u64, n: u64)
    requires
        before.fresh(nonce),
        before.marks(nonce, after),
    ensures
        after.seen(nonce),
        after.highest() >= before.highest() && after.highest() >= nonce,
        after.highest() == before.highest() || after.highest() == nonce,
        after.seen(n) && n != nonce ==> before.seen(n),
        before.seen(n) && after.highest() - n < 256 ==> after.seen(n),
{
    assert(after.seen(nonce));
    assert(after.seen(n) <==> (n == nonce || (before.seen(n) && after.highest() - n < 256)));
}

/// The nonce of a counter: four zero bytes and the counter, little-endian. Different counters
/// have different nonces.
pub proof fn law_nonces_are_distinct(a: u64, b: u64)
    ensures
        nonce_bytes(a).len() == 12,
        forall|i: int| 0 <= i < 4 ==> nonce_bytes(a)[i] == 0,
        le_val(nonce_bytes(a).subrange(4, 12)) == a,
        nonce_bytes(a) == nonce_bytes(b) ==> a == b,
{
    broadcast use lemma_le_len;

    reveal_with_fuel(le, 5);
    lemma_pow256_values();
    lemma_le_roundtrip(a as nat, 8);
    lemma_le_roundtrip(b as nat, 8);
    assert(nonce_bytes(a).subrange(4, 12) =~= le(a as nat, 8));
    assert(nonce_bytes(b).subrange(4, 12) =~= le(b as nat, 8));
}

/// Encrypting uses the next nonce and goes on to the one after it. It fails just if the nonces
/// have come to an end, at 2^48, or if the message is too long; the keys stay.
pub proof fn law_encrypting_uses_up_a_nonce(
    before: SecureSession,
    after: SecureSession,
    plaintext: Seq<u8>,
    ad: Seq<u8>,
    r: Result<(u64, Vec<u8>), CryptoError>,
)
    requires
        encrypts(before, after, plaintext, ad, r),
    ensures
        before.next_nonce() < u64::MAX ==> after.next_nonce() == before.next_nonce() + 1,
        r is Ok <==> before.next_nonce() < 0x1_0000_0000_0000 && plaintext.len() <= 0x40_0000_0000 - 128,
        before.next_nonce() >= 0x1_0000_0000_0000 ==> r == Err::<(u64, Vec<u8>), CryptoError>(CryptoError::NonceOverflow),
        r matches Ok(m) ==> m.0 == before.next_nonce() && aead_sealed(before.sending_key(), nonce_bytes(m.0), ad, plaintext)
            == Some(m.1@),
        after.sending_key() == before.sending_key() && after.receiving_key() == before.receiving_key() && after.remote()
            == before.remote() && after.window() == before.window() && after.highest_received() == before.highest_received(),
{
}

/// Decrypting gives a message only if its nonce is fresh and it opens under the receiving key;
/// a nonce that is not fresh is a replay, and whatever else fails is a failure to decrypt.
pub proof fn law_only_what_opens_is_decrypted(
    before: SecureSession,
    after: SecureSession,
    nonce: u64,
    ciphertext: Seq<u8>,
    ad: Seq<u8>,
    r: Result<Vec<u8>, CryptoError>,
)
    requires
        decrypts(before, after, nonce, ciphertext, ad, r),
        ciphertext.len() <= 0x40_0000_0000 - 112,
    ensures
        r is Ok <==> before.window().fresh(nonce) && aead_opened(before.receiving_key(), nonce_bytes(nonce), ad, ciphertext) is Some,
        r matches Ok(m) ==> aead_opened(before.receiving_key(), nonce_bytes(nonce), ad, ciphertext) == Some(m@),
        !before.window().fresh(nonce) <==> r == Err::<Vec<u8>, CryptoError>(CryptoError::ReplayDetected { nonce }),
        before.window().fresh(nonce) && r is Err ==> r == Err::<Vec<u8>, CryptoError>(CryptoError::DecryptionFailed),
        r is Ok ==> after.highest_received() >= nonce && after.highest_received() >= before.highest_received(),
        after.highest_received() == before.highest_received() || after.highest_received() == nonce,
        r is Err ==> after.highest_received() == before.highest_received(),
        !after.window().fresh(nonce),
        after.next_nonce() == before.next_nonce() && after.sending_key() == before.sending_key() && after.receiving_key()
            == before.receiving_key() && after.remote() == before.remote(),
{
    if before.window().fresh(nonce) {
        law_no_replay(before.window(), after.window(), nonce, nonce);
    }
}

/// A nonce is taken once, if it is not too old. What a session sends can be opened with its key and the
/// nonce that is told; what it receives is given out only if it opens and the nonce was not taken.
pub proof fn law_what_a_session_does(nonce: u64, data: &[u8], ad: &[u8], taken: bool, sent: (u64, Vec<u8>), got: Vec<u8>)
    ensures
        forall|w: &mut ReplayWindow| #[trigger]
            call_ensures(ReplayWindow::check_and_mark, (w, nonce), taken) ==> (taken <==> nonce > w.highest() || w.highest() - nonce
                < 256 && !w.seen(nonce)) && (taken ==> final(w).seen(nonce) && final(w).highest() >= nonce) && (!taken ==> *final(w)
                == *w),
        forall|s: &mut SecureSession| #[trigger]
            call_ensures(SecureSession::encrypt, (s, data), Ok(sent)) ==> sent.0 == s.next_nonce() && final(s).next_nonce() == sent.0 + 1
                && opened(s.sending_key(), nonce_bytes(sent.0), Seq::empty(), sent.1@) == Some(data@),
        forall|s: &mut SecureSession| #[trigger]
            call_ensures(SecureSession::encrypt_with_ad, (s, data, ad), Ok(sent)) ==> sent.0 == s.next_nonce() && final(s).next_nonce()
                == sent.0 + 1 && opened(s.sending_key(), nonce_bytes(sent.0), ad@, sent.1@) == Some(data@),
        forall|s: &mut SecureSession| #[trigger]
            call_ensures(SecureSession::decrypt, (s, nonce, data), Ok(got)) ==> s.window().fresh(nonce) && !final(s).window().fresh(nonce)
                && opened(s.receiving_key(), nonce_bytes(nonce), Seq::empty(), data@) == Some(got@),
        forall|s: &mut SecureSession| #[trigger]
            call_ensures(SecureSession::decrypt_with_ad, (s, nonce, data, ad), Ok(got)) ==> s.window().fresh(nonce)
                && !final(s).window().fresh(nonce) && opened(s.receiving_key(), nonce_bytes(nonce), ad@, data@) == Some(got@),
{
    assert forall|w: &mut ReplayWindow| #[trigger] call_ensures(ReplayWindow::check_and_mark, (w, nonce), taken) && taken
        implies final(w).seen(nonce) by {
        law_accepting_marks_one_nonce(*w, *final(w), nonce, nonce);
    }
    assert forall|s: &mut SecureSession| #[trigger] call_ensures(SecureSession::decrypt, (s, nonce, data), Ok(got))
        implies !final(s).window().fresh(nonce) by {
        law_no_replay(s.window(), final(s).window(), nonce, nonce);
    }
    assert forall|s: &mut SecureSession| #[trigger] call_ensures(SecureSession::decrypt_with_ad, (s, nonce, data, ad), Ok(got))
        implies !final(s).window().fresh(nonce) by {
        law_no_replay(s.window(), final(s).window(), nonce, nonce);
    }
    assert forall|s: &mut SecureSession| #[trigger] call_ensures(SecureSession::encrypt, (s, data), Ok(sent)) implies opened(
        s.sending_key(),
        nonce_bytes(sent.0),
        Seq::empty(),
        sent.1@,
    ) == Some(data@) by {
        law_sealed_is_opened(s.sending_key(), nonce_bytes(sent.0), Seq::empty(), data@, sent.1@);
    }
    assert forall|s: &mut SecureSession| #[trigger] call_ensures(SecureSession::encrypt_with_ad, (s, data, ad), Ok(sent)) implies opened(
        s.sending_key(),
        nonce_bytes(sent.0),
        ad@,
        sent.1@,
    ) == Some(data@) by {
        law_sealed_is_opened(s.sending_key(), nonce_bytes(sent.0), ad@, data@, sent.1@);
    }
}

/// A session that is made has the keys that it is made of, and has sent and received nothing. Its
/// nonces go up by one, up to a limit; each that comes is taken once.
pub proof fn law_sessions_begin_unused(
    keys: SessionKeys,
    s: Result<SecureSession, CryptoError>,
    n: u64,
    r: Result<u64, CryptoError>,
    t: Result<(), CryptoError>,
)
    requires
        call_ensures(SecureSession::from_keys, (keys,), s),
    ensures
        s is Ok && s->Ok_0.sending_key() == keys.send_key@ && s->Ok_0.receiving_key() == keys.recv_key@ && s->Ok_0.remote()
            == keys.remote_static@ && s->Ok_0.next_nonce() == 0,
        s->Ok_0.window().fresh(n),
        forall|x: &mut SecureSession| #[trigger]
            call_ensures(SecureSession::take_nonce, (x,), r) ==> (r is Ok <==> x.next_nonce() < 0x1_0000_0000_0000) && (r is Ok
                ==> r->Ok_0 == x.next_nonce() && final(x).next_nonce() == x.next_nonce() + 1),
        forall|x: &mut SecureSession| #[trigger]
            call_ensures(SecureSession::accept_nonce, (x, n), t) ==> (t is Ok <==> x.window().fresh(n)) && (t is Err ==> t == Err::<
                (),
                CryptoError,
            >(CryptoError::ReplayDetected { nonce: n })) && !final(x).window().fresh(n),
{
    law_window_reaches_back(s->Ok_0.window(), n);
    assert forall|x: &mut SecureSession| #[trigger] call_ensures(SecureSession::accept_nonce, (x, n), t) implies !final(x).window().fresh(
        n,
    ) by {
        if t is Ok {
            law_no_replay(x.window(), final(x).window(), n, n);
        }
    }
}

} // verus!
