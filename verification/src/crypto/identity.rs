//! Who a node is: an Ed25519 key for signing, an X25519 key for handshakes that the
//! former vouches for, and the peer identifier that is derived from them.
use vstd::prelude::*;
use vstd::string::*;
use vstd::utf8::{encode_utf8, is_ascii_chars, is_ascii_chars_encode_utf8};
use crate::crypto::error::CryptoError;
use crate::crypto::primitives::{agrees, ed25519_accepts, ed25519_public, ed25519_public_key, ed25519_random_secret, ed25519_sign, ed25519_signature, ed25519_verify, sha256, sha256_digest, x25519_public, x25519_public_key, x25519_random_secret};
use crate::text::{dec, digit_char, hex_bytes, push_dec, push_hex_bytes, text_dec};
use crate::wire::{be_val, bytes_equal, copy_array, lemma_array_eq, put_bytes};

verus! {

/// The identifier of a peer: the SHA-256 hash of its Ed25519 public key. It is also the
/// peer's address in the hash table.
#[derive(Clone, Copy, Debug, PartialEq, Eq, Hash)]
pub struct PeerId(pub [u8; 32]);

/// The position of the highest set bit of a byte.
pub open spec fn high_bit(b: u8) -> nat
    decreases b,
{
    if b < 2 {
        0
    } else {
        1 + high_bit(b / 2)
    }
}

fn high_bit_of(b: u8) -> (r: usize)
    ensures
        r == high_bit(b),
        r < 8,
        b < 2 ==> r == 0,
        b < 4 ==> r < 2,
        b < 8 ==> r < 3,
        b < 16 ==> r < 4,
        b < 32 ==> r < 5,
        b < 64 ==> r < 6,
        b < 128 ==> r < 7,
    decreases b,
{
    if b < 2 {
        0
    } else {
        1 + high_bit_of(b / 2)
    }
}

/// Byte by byte exclusive or.
pub open spec fn xor(a: Seq<u8>, b: Seq<u8>) -> Seq<u8> {
    Seq::new(a.len(), |i: int| a[i] ^ b[i])
}

/// The distance of two identifiers, as a number.
pub open spec fn distance(a: PeerId, b: PeerId) -> nat {
    be_val(xor(a@, b@))
}

/// The bucket for the first byte in which two identifiers differ, from byte `i` on.
pub open spec fn bucket_from(a: Seq<u8>, b: Seq<u8>, i: int) -> Option<nat>
    decreases 32 - i,
{
    if i < 0 || i >= 32 {
        None
    } else if a[i] != b[i] {
        Some((i * 8 + high_bit(a[i] ^ b[i])) as nat)
    } else {
        bucket_from(a, b, i + 1)
    }
}

/// The bucket of one identifier as seen from another.
pub open spec fn bucket_of(a: PeerId, b: PeerId) -> Option<nat> {
    bucket_from(a@, b@, 0)
}

impl PeerId {
    pub open spec fn view(self) -> Seq<u8> {
        self.0@
    }

    pub fn from_bytes(bytes: [u8; 32]) -> (r: Self)
        ensures
            r == PeerId(bytes),
    {
        PeerId(bytes)
    }

    pub fn as_bytes(&self) -> (r: &[u8; 32])
        ensures
            *r == self.0,
    {
        &self.0
    }

    /// Whether two identifiers are the same.
    pub fn same(&self, other: &PeerId) -> (r: bool)
        ensures
            r == (*self == *other),
            r == (self@ == other@),
    {
        let r = bytes_equal(self.0.as_slice(), other.0.as_slice());
        proof {
            if self@ == other@ {
                lemma_array_eq(self.0, other.0);
            }
        }
        r
    }

    /// The XOR distance of two identifiers.
    pub fn xor_distance(&self, other: &PeerId) -> (r: [u8; 32])
        ensures
            r@ == xor(self@, other@),
            be_val(r@) == distance(*self, *other),
    {
        let mut result: [u8; 32] = [0u8; 32];
        let mut i: usize = 0;
        while i < 32
            invariant
                i <= 32,
                forall|j: int| 0 <= j < i ==> result@[j] == self@[j] ^ other@[j],
            decreases 32 - i,
        {
            result[i] = self.0[i] ^ other.0[i];
            i += 1;
        }
        assert(result@ =~= xor(self@, other@));
        result
    }

    /// The k-bucket that `other` belongs to, as seen from here: eight buckets for each
    /// byte, by the highest bit that differs in the first byte that differs. There is none
    /// for the identifier itself.
    pub fn bucket_index(&self, other: &PeerId) -> (r: Option<usize>)
        ensures
            r is None <==> bucket_of(*self, *other) is None,
            r matches Some(n) ==> bucket_of(*self, *other) == Some(n as nat) && n < 256,
    {
        let distance = self.xor_distance(other);
        let mut i: usize = 0;
        while i < 32
            invariant
                i <= 32,
                distance@ == xor(self@, other@),
                bucket_of(*self, *other) == bucket_from(self@, other@, i as int),
            decreases 32 - i,
        {
            let byte: u8 = distance[i];
            proof {
                lemma_xor_zero(self@[i as int], other@[i as int]);
            }
            if byte != 0 {
                let bit: usize = high_bit_of(byte);
                return Some(i * 8 + bit);
            }
            i += 1;
        }
        None
    }

    /// The identifier that belongs to an Ed25519 public key.
    pub fn from_public_key(public_key: &[u8; 32]) -> (r: Self)
        ensures
            r@ == sha256(public_key@),
    {
        PeerId(sha256_digest(public_key.as_slice()))
    }

    /// The short form: the first four and the last two bytes.
    pub open spec fn short_form(self) -> Seq<char> {
        hex_bytes(self@.subrange(0, 4)) + "…"@ + hex_bytes(self@.subrange(30, 32))
    }

    /// The short form, for people to read.
    pub fn to_string(&self) -> (r: String)
        ensures
            r@ == self.short_form(),
    {
        let mut out: String = String::new();
        push_hex_bytes(&mut out, vstd::slice::slice_subrange(self.0.as_slice(), 0, 4));
        out.append("…");
        push_hex_bytes(&mut out, vstd::slice::slice_subrange(self.0.as_slice(), 30, 32));
        assert(out@ =~= self.short_form());
        out
    }

    /// What comes of reading text as an identifier: the bytes that its 64 hexadecimal digits
    /// denote, or an error that tells what is wrong with it.
    pub open spec fn parsed(s: Seq<u8>, r: Result<PeerId, CryptoError>) -> bool {
        &&& match r {
            Ok(p) => is_hex_of(s, p@),
            Err(e) => if s.len() % 2 != 0 {
                e.is_invalid_peer_id("invalid hex: "@ + "odd-length hex string"@)
            } else {
                ||| exists|i: int| #[trigger] first_bad_pair(s, i) && e.is_invalid_peer_id("invalid hex: "@ + bad_pair_text(i))
                ||| {
                    &&& s.len() != 64
                    &&& exists|v: Seq<u8>| #[trigger] is_hex_of(s, v)
                    &&& e.is_invalid_peer_id("expected 32 bytes, got "@ + dec(s.len() / 2))
                }
            },
        }
        &&& r is Ok <==> exists|v: Seq<u8>| v.len() == 32 && #[trigger] is_hex_of(s, v)
    }

    /// The identifier that 64 hexadecimal digits denote.
    pub fn parse(s: &str) -> (r: Result<Self, CryptoError>)
        ensures
            Self::parsed(s.spec_bytes(), r),
    {
        let bytes = match hex_decode(s) {
            Ok(b) => b,
            Err(text) => {
                let mut reason: String = String::new();
                reason.append("invalid hex: ");
                reason.append(text.as_str());
                proof {
                    assert forall|v: Seq<u8>| !(#[trigger] is_hex_of(s.spec_bytes(), v)) by {
                        if s.spec_bytes().len() % 2 == 0 {
                            let i = choose|i: int| #[trigger] first_bad_pair(s.spec_bytes(), i);
                            assert(is_hex_of(s.spec_bytes(), v) ==> pair_value(s.spec_bytes()[2 * i], s.spec_bytes()[2 * i + 1]) == Some(v[i]));
                        }
                    }
                    assert(reason@ =~= "invalid hex: "@ + text@);
                }
                return Err(CryptoError::InvalidPeerId { reason });
            },
        };
        assert(is_hex_of(s.spec_bytes(), bytes@));
        if bytes.len() != 32 {
            return Err(CryptoError::InvalidPeerId { reason: text_dec("expected 32 bytes, got ", bytes.len() as u128) });
        }
        let r = PeerId(copy_array::<32>(bytes.as_slice(), 0));
        assert(r@ =~= bytes@);
        Ok(r)
    }
}

impl std::str::FromStr for PeerId {
    type Err = CryptoError;

    fn from_str(s: &str) -> (r: Result<Self, CryptoError>)
        ensures
            Self::parsed(s.spec_bytes(), r),
    {
        PeerId::parse(s)
    }
}

proof fn lemma_xor_zero(x: u8, y: u8)
    ensures
        x ^ y == 0 <==> x == y,
{
    assert(x ^ y == 0 <==> x == y) by (bit_vector);
}

proof fn lemma_xor_commutes(x: u8, y: u8)
    ensures
        x ^ y == y ^ x,
{
    assert(x ^ y == y ^ x) by (bit_vector);
}

/// The distance is symmetric.
pub proof fn law_distance_symmetric(a: PeerId, b: PeerId)
    ensures
        distance(a, b) == distance(b, a),
        bucket_of(a, b) == bucket_of(b, a),
{
    assert forall|i: int| 0 <= i < 32 implies a@[i] ^ b@[i] == b@[i] ^ a@[i] by {
        lemma_xor_commutes(a@[i], b@[i]);
    }
    assert(xor(a@, b@) =~= xor(b@, a@));
    lemma_bucket_symmetric(a@, b@, 0);
}

proof fn lemma_bucket_symmetric(a: Seq<u8>, b: Seq<u8>, i: int)
    requires
        0 <= i,
    ensures
        bucket_from(a, b, i) == bucket_from(b, a, i),
    decreases 32 - i,
{
    if i < 32 {
        lemma_xor_commutes(a[i], b[i]);
        lemma_bucket_symmetric(a, b, i + 1);
    }
}

/// The distance is zero from an identifier to itself and to no other, and just then there
/// is no bucket.
pub proof fn law_distance_zero(a: PeerId, b: PeerId)
    ensures
        distance(a, b) == 0 <==> a == b,
        bucket_of(a, b) is None <==> a == b,
{
    let x = xor(a@, b@);
    if a == b {
        assert forall|i: int| 0 <= i < 32 implies x[i] == 0 by {
            lemma_xor_zero(a@[i], b@[i]);
        }
        lemma_zero_val(x);
        lemma_no_bucket(a@, b@, 0);
    } else {
        if forall|i: int| 0 <= i < 32 ==> a@[i] == b@[i] {
            assert(a@ =~= b@);
            lemma_array_eq(a.0, b.0);
        }
        let i = choose|i: int| 0 <= i < 32 && a@[i] != b@[i];
        lemma_xor_zero(a@[i], b@[i]);
        lemma_nonzero_val(x, i);
        lemma_some_bucket(a@, b@, 0, i);
    }
}

proof fn lemma_zero_val(x: Seq<u8>)
    requires
        forall|i: int| 0 <= i < x.len() ==> x[i] == 0,
    ensures
        be_val(x) == 0,
    decreases x.len(),
{
    if x.len() > 0 {
        lemma_zero_val(x.drop_last());
    }
}

proof fn lemma_nonzero_val(x: Seq<u8>, i: int)
    requires
        0 <= i < x.len(),
        x[i] != 0,
    ensures
        be_val(x) > 0,
    decreases x.len(),
{
    if i < x.len() - 1 {
        lemma_nonzero_val(x.drop_last(), i);
    }
}

proof fn lemma_no_bucket(a: Seq<u8>, b: Seq<u8>, i: int)
    requires
        0 <= i,
        a == b,
    ensures
        bucket_from(a, b, i) is None,
    decreases 32 - i,
{
    if i < 32 {
        lemma_no_bucket(a, b, i + 1);
    }
}

proof fn lemma_some_bucket(a: Seq<u8>, b: Seq<u8>, i: int, k: int)
    requires
        0 <= i <= k < 32,
        a[k] != b[k],
    ensures
        bucket_from(a, b, i) is Some,
    decreases 32 - i,
{
    if a[i] == b[i] {
        lemma_some_bucket(a, b, i + 1, k);
    }
}

/// No two identifiers lie at the same distance from a third.
pub proof fn law_distance_injective(target: PeerId, a: PeerId, b: PeerId)
    requires
        distance(target, a) == distance(target, b),
    ensures
        a == b,
{
    let x = xor(target@, a@);
    let y = xor(target@, b@);
    crate::wire::lemma_be_of_val(x);
    crate::wire::lemma_be_of_val(y);
    assert(x == y);
    assert forall|i: int| 0 <= i < 32 implies a@[i] == b@[i] by {
        let t = target@[i];
        let p = a@[i];
        let q = b@[i];
        assert(x[i] == y[i]);
        assert(t ^ p == t ^ q ==> p == q) by (bit_vector);
    }
    assert(a@ =~= b@);
    lemma_array_eq(a.0, b.0);
}

proof fn lemma_xor_bound(x: Seq<u8>, y: Seq<u8>)
    requires
        x.len() == y.len(),
    ensures
        be_val(xor(x, y)) <= be_val(x) + be_val(y),
    decreases x.len(),
{
    if x.len() > 0 {
        let p = x.drop_last();
        let q = y.drop_last();
        lemma_xor_bound(p, q);
        assert(xor(x, y).drop_last() =~= xor(p, q));
        let a = x.last();
        let b = y.last();
        assert(a ^ b <= (a as u16) + (b as u16)) by (bit_vector);
    }
}

/// The way over a third identifier is no shorter.
pub proof fn law_distance_triangle(a: PeerId, b: PeerId, c: PeerId)
    ensures
        distance(a, c) <= distance(a, b) + distance(b, c),
{
    let x = xor(a@, b@);
    let y = xor(b@, c@);
    assert forall|i: int| 0 <= i < 32 implies #[trigger] xor(x, y)[i] == xor(a@, c@)[i] by {
        let p = a@[i];
        let q = b@[i];
        let r = c@[i];
        assert((p ^ q) ^ (q ^ r) == p ^ r) by (bit_vector);
    }
    assert(xor(x, y) =~= xor(a@, c@));
    lemma_xor_bound(x, y);
}

/// Whether the first of two distances is the smaller number: byte by byte from the front.
pub fn distance_less(a: &[u8; 32], b: &[u8; 32]) -> (r: bool)
    ensures
        r == (be_val(a@) < be_val(b@)),
{
    let mut i: usize = 0;
    while i < 32
        invariant
            i <= 32,
            forall|j: int| 0 <= j < i ==> a@[j] == b@[j],
        decreases 32 - i,
    {
        if a[i] != b[i] {
            proof {
                lemma_first_difference(a@, b@, i as int);
            }
            return a[i] < b[i];
        }
        i += 1;
    }
    assert(a@ =~= b@);
    false
}

proof fn lemma_first_difference(a: Seq<u8>, b: Seq<u8>, i: int)
    requires
        a.len() == b.len(),
        0 <= i < a.len(),
        forall|j: int| 0 <= j < i ==> a[j] == b[j],
        a[i] != b[i],
    ensures
        (be_val(a) < be_val(b)) == (a[i] < b[i]),
        be_val(a) != be_val(b),
    decreases a.len(),
{
    let x = a.drop_last();
    let y = b.drop_last();
    if i == a.len() - 1 {
        assert(x =~= y);
    } else {
        lemma_first_difference(x, y, i);
    }
}

/// The value of a hexadecimal digit.
pub open spec fn digit_value(c: u8) -> Option<nat> {
    if 0x30 <= c <= 0x39 {
        Some((c - 0x30) as nat)
    } else if 0x41 <= c <= 0x46 {
        Some((c - 0x41 + 10) as nat)
    } else if 0x61 <= c <= 0x66 {
        Some((c - 0x61 + 10) as nat)
    } else {
        None
    }
}

fn digit_of(c: u8) -> (r: Option<u8>)
    ensures
        r is Some <==> digit_value(c) is Some,
        r matches Some(d) ==> digit_value(c) == Some(d as nat) && d < 16,
{
    if 0x30 <= c && c <= 0x39 {
        Some(c - 0x30)
    } else if 0x41 <= c && c <= 0x46 {
        Some(c - 0x41 + 10)
    } else if 0x61 <= c && c <= 0x66 {
        Some(c - 0x61 + 10)
    } else {
        None
    }
}

/// The byte that two characters denote: two digits, or a plus sign and one digit.
pub open spec fn pair_value(a: u8, b: u8) -> Option<u8> {
    if digit_value(b) is None || (a != 0x2B && digit_value(a) is None) {
        None
    } else if a == 0x2B {
        Some(digit_value(b)->0 as u8)
    } else {
        Some((digit_value(a)->0 * 16 + digit_value(b)->0) as u8)
    }
}

/// `v` is what the text `s` denotes, two characters to a byte.
pub open spec fn is_hex_of(s: Seq<u8>, v: Seq<u8>) -> bool {
    &&& s.len() == 2 * v.len()
    &&& forall|i: int| 0 <= i < v.len() ==> pair_value(s[2 * i], s[2 * i + 1]) == Some(#[trigger] v[i])
}

/// Pair `i` of the text is the first that denotes no byte.
pub open spec fn first_bad_pair(s: Seq<u8>, i: int) -> bool {
    &&& 0 <= i
    &&& 2 * i + 1 < s.len()
    &&& pair_value(s[2 * i], s[2 * i + 1]) is None
    &&& forall|j: int| #![trigger s[2 * j]] 0 <= j < i ==> pair_value(s[2 * j], s[2 * j + 1]) is Some
}

/// What is said of a pair that denotes no byte.
pub open spec fn bad_pair_text(i: int) -> Seq<char> {
    "invalid hex at "@ + dec((2 * i) as nat) + ": invalid digit found in string"@
}

proof fn lemma_hex_digits(v: Seq<u8>)
    ensures
        hex_bytes(v).len() == 2 * v.len(),
        forall|i: int|
            0 <= i < v.len() ==> hex_bytes(v)[2 * i] == digit_char((#[trigger] v[i]) as nat / 16) && hex_bytes(v)[2 * i + 1]
                == digit_char(v[i] as nat % 16),
    decreases v.len(),
{
    if v.len() > 0 {
        let d = v.drop_last();
        lemma_hex_digits(d);
        assert forall|i: int| 0 <= i < v.len() implies hex_bytes(v)[2 * i] == digit_char((#[trigger] v[i]) as nat / 16) && hex_bytes(
            v,
        )[2 * i + 1] == digit_char(v[i] as nat % 16) by {
            if i < d.len() {
                assert(d[i] == v[i]);
                assert(hex_bytes(v)[2 * i] == hex_bytes(d)[2 * i]);
                assert(hex_bytes(v)[2 * i + 1] == hex_bytes(d)[2 * i + 1]);
            }
        }
    }
}

/// Bytes survive the way over their hexadecimal form: the text that is written for them is
/// read as them.
pub proof fn law_hex_roundtrip(v: Seq<u8>)
    ensures
        is_hex_of(encode_utf8(hex_bytes(v)), v),
{
    let t = hex_bytes(v);
    lemma_hex_digits(v);
    assert forall|j: int| 0 <= j < t.len() implies '\0' <= #[trigger] t[j] <= '\u{7f}' by {
        let i = j / 2;
        assert(v[i] as nat / 16 < 16 && v[i] as nat % 16 < 16);
        if j % 2 == 0 {
            assert(t[2 * i] == digit_char(v[i] as nat / 16));
        } else {
            assert(t[2 * i + 1] == digit_char(v[i] as nat % 16));
        }
    }
    assert(is_ascii_chars(t));
    is_ascii_chars_encode_utf8(t);
    let s = encode_utf8(t);
    assert forall|i: int| 0 <= i < v.len() implies pair_value(s[2 * i], s[2 * i + 1]) == Some(#[trigger] v[i]) by {
        let hi = v[i] as nat / 16;
        let lo = v[i] as nat % 16;
        assert(t[2 * i] as u8 == s[2 * i]);
        assert(t[2 * i + 1] as u8 == s[2 * i + 1]);
        assert(digit_value(digit_char(hi) as u8) == Some(hi));
        assert(digit_value(digit_char(lo) as u8) == Some(lo));
    }
}

/// Two lower-case hexadecimal digits for each byte.
pub fn hex_encode(bytes: &[u8]) -> (r: String)
    ensures
        r@ == hex_bytes(bytes@),
{
    let mut out: String = String::new();
    push_hex_bytes(&mut out, bytes);
    assert(out@ =~= hex_bytes(bytes@));
    out
}

/// The bytes that a text in hexadecimal denotes.
pub fn hex_decode(s: &str) -> (r: Result<Vec<u8>, String>)
    ensures
        match r {
            Ok(v) => is_hex_of(s.spec_bytes(), v@),
            Err(e) => if s.spec_bytes().len() % 2 != 0 {
                e@ == "odd-length hex string"@
            } else {
                exists|i: int| #[trigger] first_bad_pair(s.spec_bytes(), i) && e@ == bad_pair_text(i)
            },
        },
{
    let b = s.as_bytes();
    if b.len() % 2 != 0 {
        return Err(String::from_str("odd-length hex string"));
    }
    let mut out: Vec<u8> = Vec::new();
    let mut i: usize = 0;
    while i < b.len()
        invariant
            b@ == s.spec_bytes(),
            b@.len() % 2 == 0,
            i <= b@.len(),
            i == 2 * out@.len(),
            forall|j: int| 0 <= j < out@.len() ==> pair_value(b@[2 * j], b@[2 * j + 1]) == Some(#[trigger] out@[j]),
        decreases b@.len() - i,
    {
        let hi = digit_of(b[i]);
        let lo = digit_of(b[i + 1]);
        let ghost k = out@.len() as int;
        let value: Option<u8> = match lo {
            None => None,
            Some(l) => if b[i] == 0x2B {
                Some(l)
            } else {
                match hi {
                    None => None,
                    Some(h) => Some(h * 16 + l),
                }
            },
        };
        assert(value == pair_value(b@[2 * k], b@[2 * k + 1]));
        match value {
            Some(v) => {
                out.push(v);
            },
            None => {
                let mut text: String = String::new();
                text.append("invalid hex at ");
                push_dec(&mut text, i as u128);
                text.append(": invalid digit found in string");
                proof {
                    assert(text@ =~= bad_pair_text(k));
                    assert forall|j: int| #![trigger b@[2 * j]] 0 <= j < k implies pair_value(b@[2 * j], b@[2 * j + 1]) is Some by {
                        assert(pair_value(b@[2 * j], b@[2 * j + 1]) == Some(out@[j]));
                    }
                    assert(first_bad_pair(s.spec_bytes(), k));
                }
                return Err(text);
            },
        }
        i += 2;
    }
    Ok(out)
}

/// The secret keys of a node.
pub struct SecretKeys {
    ed25519: [u8; 32],
    x25519: [u8; 32],
}

impl SecretKeys {
    /// The Ed25519 secret key.
    pub closed spec fn signing(self) -> Seq<u8> {
        self.ed25519@
    }

    /// The X25519 secret key.
    pub closed spec fn agreement(self) -> Seq<u8> {
        self.x25519@
    }
}

/// The complete identity of a node.
pub struct Identity {
    /// The secret keys, which nobody but the identity itself can read.
    pub secrets: SecretKeys,
    /// The Ed25519 public key.
    pub ed25519_public_key: [u8; 32],
    /// The X25519 public key.
    pub x25519_public_key: [u8; 32],
    /// The Ed25519 signature over the X25519 public key.
    pub x25519_signature: [u8; 64],
    /// The identifier that is derived from the Ed25519 key.
    pub peer_id: PeerId,
}

impl Identity {
    /// The Ed25519 secret key.
    pub open spec fn signing_secret(self) -> Seq<u8> {
        self.secrets.signing()
    }

    /// The X25519 secret key.
    pub open spec fn static_secret(self) -> Seq<u8> {
        self.secrets.agreement()
    }

    /// Everything follows from the two secret keys: the public keys, the signature that
    /// binds the X25519 key to the Ed25519 key, and the identifier.
    pub open spec fn derived(self) -> bool {
        &&& self.ed25519_public_key@ == ed25519_public(self.signing_secret())
        &&& self.x25519_public_key@ == x25519_public(self.static_secret())
        &&& self.x25519_signature@ == ed25519_signature(self.signing_secret(), self.x25519_public_key@)
        &&& self.peer_id@ == sha256(self.ed25519_public_key@)
        &&& ed25519_accepts(self.ed25519_public_key@, self.x25519_public_key@, self.x25519_signature@)
        &&& agrees(self.static_secret())
        &&& self.signing_secret().len() == 32
        &&& self.static_secret().len() == 32
    }

    /// The identity with the given secret keys.
    pub fn from_secrets(ed25519_secret: [u8; 32], x25519_secret: [u8; 32]) -> (r: Self)
        ensures
            r.derived(),
            r.signing_secret() == ed25519_secret@,
            r.static_secret() == x25519_secret@,
    {
        let ed25519_public_key = ed25519_public_key(&ed25519_secret);
        let x25519_public_key = x25519_public_key(&x25519_secret);
        let x25519_signature = ed25519_sign(&ed25519_secret, x25519_public_key.as_slice());
        let peer_id = PeerId::from_public_key(&ed25519_public_key);
        let secrets = SecretKeys { ed25519: ed25519_secret, x25519: x25519_secret };
        Identity {
            secrets,
            ed25519_public_key,
            x25519_public_key,
            x25519_signature,
            peer_id,
        }
    }

    /// A new identity with fresh keys.
    pub fn generate() -> (r: Self)
        ensures
            r.derived(),
    {
        Self::from_secrets(ed25519_random_secret(), x25519_random_secret())
    }

    /// The outcome of a binding whose signature was or was not accepted.
    pub fn binding_outcome(accepted: bool, peer_id: PeerId) -> (r: Result<PeerId, CryptoError>)
        ensures
            r == (if accepted {
                Ok(peer_id)
            } else {
                Err(CryptoError::InvalidSignature)
            }),
    {
        if accepted {
            Ok(peer_id)
        } else {
            Err(CryptoError::InvalidSignature)
        }
    }

    /// Whether an X25519 key is bound to an Ed25519 identity by the signature, and whose
    /// identity that is.
    pub fn verify_peer_binding(ed25519_pk: &[u8; 32], x25519_pk: &[u8; 32], signature: &[u8; 64]) -> (r: Result<
        PeerId,
        CryptoError,
    >)
        ensures
            match r {
                Ok(p) => {
                    &&& ed25519_accepts(ed25519_pk@, x25519_pk@, signature@)
                    &&& p@ == sha256(ed25519_pk@)
                },
                Err(e) => {
                    &&& !ed25519_accepts(ed25519_pk@, x25519_pk@, signature@)
                    &&& e is InvalidSignature
                },
            },
    {
        let accepted = ed25519_verify(ed25519_pk, x25519_pk.as_slice(), signature);
        Self::binding_outcome(accepted, PeerId::from_public_key(ed25519_pk))
    }

    /// Signs data with the Ed25519 key.
    pub fn sign(&self, data: &[u8]) -> (r: [u8; 64])
        ensures
            r@ == ed25519_signature(self.signing_secret(), data@),
            ed25519_accepts(ed25519_public(self.signing_secret()), data@, r@),
    {
        ed25519_sign(&self.secrets.ed25519, data)
    }

    /// The X25519 secret key, for the handshake.
    pub(crate) fn x25519_secret(&self) -> (r: &[u8; 32])
        ensures
            r@ == self.static_secret(),
    {
        &self.secrets.x25519
    }

    /// What an identity file holds: the two secret keys, one behind the other.
    pub fn to_file_bytes(&self) -> (r: Vec<u8>)
        ensures
            r@ == self.signing_secret() + self.static_secret(),
    {
        let mut out: Vec<u8> = Vec::new();
        put_bytes(&mut out, self.secrets.ed25519.as_slice());
        put_bytes(&mut out, self.secrets.x25519.as_slice());
        assert(out@ =~= self.signing_secret() + self.static_secret());
        out
    }

    /// The identity that an identity file holds. The file's length is not told in the
    /// error: the bytes are wiped before the text is made, and count as none.
    pub fn from_file_bytes(data: &[u8]) -> (r: Result<Self, CryptoError>)
        ensures
            match r {
                Ok(id) => {
                    &&& data@.len() == 64
                    &&& id.derived()
                    &&& id.signing_secret() == data@.subrange(0, 32)
                    &&& id.static_secret() == data@.subrange(32, 64)
                },
                Err(e) => {
                    &&& data@.len() != 64
                    &&& e matches CryptoError::Serialization(text) && text@
                        == "identity file should be 64 bytes, got 0"@
                },
            },
    {
        if data.len() != 64 {
            return Err(CryptoError::Serialization(String::from_str("identity file should be 64 bytes, got 0")));
        }
        Ok(Self::from_secrets(copy_array::<32>(data, 0), copy_array::<32>(data, 32)))
    }
}

/// An identity that was saved is loaded again: the same secret keys, and so the same
/// public keys, signature and identifier.
pub proof fn law_identity_file_roundtrip(id: Identity, loaded: Identity)
    requires
        id.derived(),
        loaded.derived(),
        loaded.signing_secret() == (id.signing_secret() + id.static_secret()).subrange(0, 32),
        loaded.static_secret() == (id.signing_secret() + id.static_secret()).subrange(32, 64),
    ensures
        (id.signing_secret() + id.static_secret()).len() == 64,
        loaded == id,
{
    let file = id.signing_secret() + id.static_secret();
    assert(file.subrange(0, 32) =~= id.signing_secret());
    assert(file.subrange(32, 64) =~= id.static_secret());
    lemma_array_eq(loaded.secrets.ed25519, id.secrets.ed25519);
    lemma_array_eq(loaded.secrets.x25519, id.secrets.x25519);
    lemma_array_eq(loaded.ed25519_public_key, id.ed25519_public_key);
    lemma_array_eq(loaded.x25519_public_key, id.x25519_public_key);
    lemma_array_eq(loaded.x25519_signature, id.x25519_signature);
    lemma_array_eq(loaded.peer_id.0, id.peer_id.0);
}

/// The binding of a node's own X25519 key is verified, and yields the node's identifier.
pub proof fn law_own_binding_is_verified(id: Identity)
    requires
        id.derived(),
    ensures
        ed25519_accepts(id.ed25519_public_key@, id.x25519_public_key@, id.x25519_signature@),
        id.peer_id@ == sha256(id.ed25519_public_key@),
{
}

/// The bucket of a peer is that of the highest bit of the first byte in which the identifiers
/// differ: all bytes before it are the same, and the difference in it has just that highest
/// bit.
pub proof fn law_bucket_tells_the_first_difference(a: PeerId, b: PeerId, n: nat)
    requires
        bucket_of(a, b) == Some(n),
    ensures
        n < 256,
        forall|j: int| 0 <= j < n / 8 ==> a@[j] == b@[j],
        ({
            let x = a@[n as int / 8] ^ b@[n as int / 8];
            &&& x > 0
            &&& n % 8 == 0 ==> 1 <= x < 2
            &&& n % 8 == 1 ==> 2 <= x < 4
            &&& n % 8 == 2 ==> 4 <= x < 8
            &&& n % 8 == 3 ==> 8 <= x < 16
            &&& n % 8 == 4 ==> 16 <= x < 32
            &&& n % 8 == 5 ==> 32 <= x < 64
            &&& n % 8 == 6 ==> 64 <= x < 128
            &&& n % 8 == 7 ==> 128 <= x < 256
        }),
{
    lemma_bucket_difference(a@, b@, 0, n);
}

proof fn lemma_bucket_difference(a: Seq<u8>, b: Seq<u8>, i: int, n: nat)
    requires
        0 <= i,
        bucket_from(a, b, i) == Some(n),
        forall|j: int| 0 <= j < i ==> a[j] == b[j],
    ensures
        n < 256,
        forall|j: int| 0 <= j < n / 8 ==> a[j] == b[j],
        ({
            let x = a[n as int / 8] ^ b[n as int / 8];
            &&& x > 0
            &&& n % 8 == 0 ==> 1 <= x < 2
            &&& n % 8 == 1 ==> 2 <= x < 4
            &&& n % 8 == 2 ==> 4 <= x < 8
            &&& n % 8 == 3 ==> 8 <= x < 16
            &&& n % 8 == 4 ==> 16 <= x < 32
            &&& n % 8 == 5 ==> 32 <= x < 64
            &&& n % 8 == 6 ==> 64 <= x < 128
            &&& n % 8 == 7 ==> 128 <= x < 256
        }),
    decreases 32 - i,
{
    if a[i] != b[i] {
        reveal_with_fuel(high_bit, 9);
        lemma_xor_zero(a[i], b[i]);
        let x = a[i] ^ b[i];
        assert(high_bit(x) < 8);
        assert(n / 8 == i && n % 8 == high_bit(x));
    } else {
        lemma_bucket_difference(a, b, i + 1, n);
    }
}

/// Of two peers, the one is closer to a target whose first byte in which the two differ differs
/// less from that of the target.
pub proof fn law_first_difference_decides(target: PeerId, a: PeerId, b: PeerId, i: int)
    requires
        0 <= i < 32,
        forall|j: int| 0 <= j < i ==> a@[j] == b@[j],
        a@[i] ^ target@[i] < b@[i] ^ target@[i],
    ensures
        distance(a, target) < distance(b, target),
{
    lemma_first_difference(xor(a@, target@), xor(b@, target@), i);
}

/// Hexadecimal digits: ten figures, and six letters, small or capital.
pub proof fn law_digits(c: u8, d: nat)
    ensures
        digit_value(c) == Some(d) ==> d < 16 && (c == 48 + d && d < 10 || c == 87 + d && d >= 10 || c == 55 + d && d >= 10),
        digit_value(c) is None <==> c < 48 || 57 < c < 65 || 70 < c < 97 || 102 < c,
        d < 10 ==> digit_value((48 + d) as u8) == Some(d),
        10 <= d < 16 ==> digit_value((87 + d) as u8) == Some(d) && digit_value((55 + d) as u8) == Some(d),
{
}

/// Two digits make a byte, the first one counting sixteen times.
pub proof fn law_digit_pairs(a: u8, b: u8, x: nat, y: nat)
    requires
        digit_value(a) == Some(x),
        digit_value(b) == Some(y),
    ensures
        pair_value(a, b) is Some,
        pair_value(a, b)->0 == 16 * x + y,
{
}

/// Text denotes one identifier at most.
pub proof fn law_hex_is_unambiguous(s: Seq<u8>, v: Seq<u8>, w: Seq<u8>)
    requires
        is_hex_of(s, v),
        is_hex_of(s, w),
    ensures
        v == w,
        2 * v.len() == s.len(),
{
    assert forall|i: int| 0 <= i < v.len() implies v[i] == w[i] by {
        assert(pair_value(s[2 * i], s[2 * i + 1]) == Some(v[i]));
        assert(pair_value(s[2 * i], s[2 * i + 1]) == Some(w[i]));
    }
    assert(v =~= w);
}

/// What belongs to an identity follows from its two secret keys: the public keys, the signature
/// of the one over the other, and the identifier.
pub proof fn law_identity_follows_from_its_secrets(id: Identity)
    requires
        id.derived(),
    ensures
        id.ed25519_public_key@ == ed25519_public(id.signing_secret()),
        id.x25519_public_key@ == x25519_public(id.static_secret()),
        id.x25519_signature@ == ed25519_signature(id.signing_secret(), id.x25519_public_key@),
        id.peer_id@ == sha256(ed25519_public(id.signing_secret())),
{
}

/// The short form of an identifier: its first eight digits, and its last four behind an ellipsis.
pub proof fn law_short_form(id: PeerId, i: int)
    ensures
        id.short_form().len() == 13,
        0 <= i < 8 ==> id.short_form()[i] == hex_bytes(id@)[i],
        id.short_form()[8] == '\u{2026}',
        9 <= i < 13 ==> id.short_form()[i] == hex_bytes(id@)[i + 51],
{
    reveal_strlit("…");
    let (a, b) = (id@.subrange(0, 4), id@.subrange(30, 32));
    lemma_hex_digits(a);
    lemma_hex_digits(b);
    lemma_hex_digits(id@);
    if 0 <= i < 8 {
        let k = i / 2;
        assert(hex_bytes(a)[2 * k] == hex_bytes(id@)[2 * k] && hex_bytes(a)[2 * k + 1] == hex_bytes(id@)[2 * k + 1]) by {
            assert(a[k] == id@[k]);
        }
    } else if 9 <= i < 13 {
        let k = (i - 9) / 2;
        assert(b[k] == id@[30 + k]);
        assert(hex_bytes(b)[2 * k] == hex_bytes(id@)[2 * (30 + k)] && hex_bytes(b)[2 * k + 1] == hex_bytes(id@)[2 * (30 + k) + 1]);
    }
}

/// Text is read as an identifier just if it is 64 characters, each a hexadecimal digit; the first of
/// two may also be a plus sign, which counts nothing.
pub proof fn law_what_reads_as_an_identifier(s: Seq<u8>, r: Result<PeerId, CryptoError>)
    requires
        PeerId::parsed(s, r),
    ensures
        r is Ok <==> s.len() == 64 && forall|i: int|
            0 <= i < 64 ==> digit_value(#[trigger] s[i]) is Some || i % 2 == 0 && s[i] == 43,
        r matches Ok(p) ==> forall|i: int|
            0 <= i < 32 ==> (#[trigger] p@[i]) == digit_value(s[2 * i + 1])->0 + (if s[2 * i] == 43 {
                0
            } else {
                16 * digit_value(s[2 * i])->0
            }),
{
    if s.len() == 64 && forall|i: int| 0 <= i < 64 ==> digit_value(#[trigger] s[i]) is Some || i % 2 == 0 && s[i] == 43 {
        let v = Seq::new(32, |i: int| pair_value(s[2 * i], s[2 * i + 1])->0);
        assert forall|i: int| 0 <= i < v.len() implies pair_value(s[2 * i], s[2 * i + 1]) == Some(#[trigger] v[i]) by {
            assert(digit_value(s[2 * i]) is Some || s[2 * i] == 43);
            assert(digit_value(s[2 * i + 1]) is Some);
        }
        assert(is_hex_of(s, v));
    }
    if let Ok(p) = r {
        assert forall|i: int| 0 <= i < 64 implies digit_value(#[trigger] s[i]) is Some || i % 2 == 0 && s[i] == 43 by {
            let k = i / 2;
            assert(pair_value(s[2 * k], s[2 * k + 1]) == Some(p@[k]));
            assert(i == 2 * k || i == 2 * k + 1);
        }
        assert forall|i: int| 0 <= i < 32 implies (#[trigger] p@[i]) == digit_value(s[2 * i + 1])->0 + (if s[2 * i] == 43 {
            0
        } else {
            16 * digit_value(s[2 * i])->0
        }) by {
            assert(pair_value(s[2 * i], s[2 * i + 1]) == Some(p@[i]));
        }
    }
}

/// A peer is who it claims to be just if its signature was accepted.
pub proof fn law_signature_decides(accepted: bool, peer_id: PeerId, r: Result<PeerId, CryptoError>)
    requires
        call_ensures(Identity::binding_outcome, (accepted, peer_id), r),
    ensures
        r is Ok <==> accepted,
        r matches Ok(p) ==> p == peer_id,
        r matches Err(e) ==> e is InvalidSignature,
{
}

/// The distance of two identifiers is their difference, bit by bit; an identifier is the hash of a
/// public key; a peer is who it claims to be just if its signature over the one key is accepted under
/// the other.
pub proof fn law_what_is_said_of_identifiers(
    a: PeerId,
    b: PeerId,
    d: [u8; 32],
    bucket: Option<usize>,
    same: bool,
    key: [u8; 32],
    named: PeerId,
    other_key: [u8; 32],
    signature: [u8; 64],
    bound: Result<PeerId, CryptoError>,
    i: int,
)
    requires
        call_ensures(PeerId::xor_distance, (&a, &b), d),
        call_ensures(PeerId::bucket_index, (&a, &b), bucket),
        call_ensures(PeerId::same, (&a, &b), same),
        call_ensures(PeerId::from_public_key, (&key,), named),
        call_ensures(Identity::verify_peer_binding, (&key, &other_key, &signature), bound),
    ensures
        0 <= i < 32 ==> d@[i] == a@[i] ^ b@[i],
        same <==> a == b,
        bucket is None <==> a == b,
        bucket is Some ==> bucket->0 < 256 && (forall|j: int| 0 <= j < bucket->0 as int / 8 ==> a@[j] == b@[j]) && a@[bucket->0 as int / 8]
            != b@[bucket->0 as int / 8],
        named@ == sha256(key@),
        bound is Ok <==> ed25519_accepts(key@, other_key@, signature@),
        bound is Ok ==> bound->Ok_0 == named,
{
    if let Some(n) = bucket {
        law_bucket_tells_the_first_difference(a, b, n as nat);
        let x = a@[n as int / 8];
        assert(x ^ x == 0u8) by (bit_vector);
    }
    law_distance_zero(a, b);
    if let Ok(p) = bound {
        assert(p@ =~= named@);
        lemma_array_eq(p.0, named.0);
    }
}

/// An identity is read back from its file as what it was, and a file of another length than 64 bytes is
/// no identity. What it signs is accepted under its key.
pub proof fn law_identities_are_kept(
    id: Identity,
    file: Vec<u8>,
    data: &[u8],
    r: Result<Identity, CryptoError>,
    other: &[u8],
    s: Result<Identity, CryptoError>,
    text: &[u8],
    signature: [u8; 64],
    a: [u8; 32],
    b: [u8; 32],
    less: bool,
)
    requires
        id.derived(),
        call_ensures(Identity::to_file_bytes, (&id,), file),
        data@ == file@,
        call_ensures(Identity::from_file_bytes, (data,), r),
        call_ensures(Identity::from_file_bytes, (other,), s),
        call_ensures(Identity::sign, (&id, text), signature),
        call_ensures(distance_less, (&a, &b), less),
    ensures
        r is Ok && r->Ok_0 == id,
        s is Ok <==> other@.len() == 64,
        ed25519_accepts(id.ed25519_public_key@, text@, signature@),
        less <==> be_val(a@) < be_val(b@),
{
    let secrets = id.signing_secret() + id.static_secret();
    assert(data@ == secrets);
    lemma_identity_file_len(id);
    if let Ok(loaded) = r {
        law_identity_file_roundtrip(id, loaded);
    }
}

proof fn lemma_identity_file_len(id: Identity)
    requires
        id.derived(),
    ensures
        (id.signing_secret() + id.static_secret()).len() == 64,
{
}

/// The text of an identifier is read as that identifier.
pub proof fn law_identifiers_are_read_back(id: PeerId, bytes: &[u8], text: String, s: &str, r: Result<PeerId, CryptoError>)
    requires
        bytes@ == id@,
        call_ensures(hex_encode, (bytes,), text),
        s@ == text@,
        call_ensures(PeerId::parse, (s,), r),
    ensures
        r is Ok && r->Ok_0 == id,
{
    law_hex_roundtrip(id@);
    assert(is_hex_of(s.spec_bytes(), id@));
    if let Ok(p) = r {
        law_hex_is_unambiguous(s.spec_bytes(), p@, id@);
        lemma_array_eq(p.0, id.0);
    }
}

} // verus!
