//! The byte buffers of the `bytes` crate.
use vstd::prelude::*;
use bytes::{Buf, Bytes, BytesMut};

verus! {

/// An immutable byte string of the `bytes` crate.
#[verifier::external_type_specification]
#[verifier::external_body]
pub struct ExBytes(bytes::Bytes);

/// A growing byte buffer of the `bytes` crate.
#[verifier::external_type_specification]
#[verifier::external_body]
pub struct ExBytesMut(bytes::BytesMut);

/// What a byte string holds.
pub uninterp spec fn bytes_contents(b: Bytes) -> Seq<u8>;

/// What a buffer holds, from its read position to its end.
pub uninterp spec fn buf_contents(b: BytesMut) -> Seq<u8>;

/// `Bytes::from` on a vector: a byte string with the vector's bytes.
#[verifier::external_body]
pub(crate) fn bytes_from_vec(v: Vec<u8>) -> (r: Bytes)
    ensures
        bytes_contents(r) == v@,
{
    Bytes::from(v)
}

/// `Bytes` as a slice: the bytes that it holds.
#[verifier::external_body]
pub(crate) fn bytes_as_slice(b: &Bytes) -> (r: &[u8])
    ensures
        r@ == bytes_contents(*b),
{
    b.as_ref()
}

/// `Bytes::clone`: a second handle on the same bytes.
pub assume_specification[ <bytes::Bytes as std::clone::Clone>::clone ](b: &Bytes) -> (r: Bytes)
    ensures
        bytes_contents(r) == bytes_contents(*b),
;

/// `Bytes::slice` from a position to the end: the bytes from there on. It panics beyond
/// the end.
#[verifier::external_body]
pub(crate) fn bytes_from(b: &Bytes, start: usize) -> (r: Bytes)
    requires
        start <= bytes_contents(*b).len(),
    ensures
        bytes_contents(r) == bytes_contents(*b).subrange(start as int, bytes_contents(*b).len() as int),
{
    b.slice(start..)
}

/// `BytesMut::from` a slice: a buffer with the slice's bytes.
#[verifier::external_body]
pub(crate) fn buf_from_slice(s: &[u8]) -> (r: BytesMut)
    ensures
        buf_contents(r) == s@,
{
    BytesMut::from(s)
}

/// `BytesMut` as a slice: the bytes that it holds.
#[verifier::external_body]
pub(crate) fn buf_as_slice(b: &BytesMut) -> (r: &[u8])
    ensures
        r@ == buf_contents(*b),
{
    b.as_ref()
}

/// `BytesMut::extend_from_slice`: appends the bytes.
#[verifier::external_body]
pub(crate) fn buf_extend(b: &mut BytesMut, s: &[u8])
    ensures
        buf_contents(*final(b)) == buf_contents(*old(b)) + s@,
{
    b.extend_from_slice(s)
}

/// `Buf::advance` on a `BytesMut`: drops the first `n` bytes. It panics beyond the end.
#[verifier::external_body]
pub(crate) fn buf_advance(b: &mut BytesMut, n: usize)
    requires
        n <= buf_contents(*old(b)).len(),
    ensures
        buf_contents(*final(b)) == buf_contents(*old(b)).subrange(n as int, buf_contents(*old(b)).len() as int),
{
    b.advance(n)
}

/// `BytesMut::split_to`: takes the first `n` bytes out into a buffer of their own. It
/// panics beyond the end.
#[verifier::external_body]
pub(crate) fn buf_split_to(b: &mut BytesMut, n: usize) -> (r: BytesMut)
    requires
        n <= buf_contents(*old(b)).len(),
    ensures
        buf_contents(r) == buf_contents(*old(b)).subrange(0, n as int),
        buf_contents(*final(b)) == buf_contents(*old(b)).subrange(n as int, buf_contents(*old(b)).len() as int),
{
    b.split_to(n)
}

/// `BytesMut::freeze`: the same bytes, immutable.
#[verifier::external_body]
pub(crate) fn buf_freeze(b: BytesMut) -> (r: Bytes)
    ensures
        bytes_contents(r) == buf_contents(b),
{
    b.freeze()
}

} // verus!
