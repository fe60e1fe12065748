//! The hashes of chunks and files.
use vstd::prelude::*;
use vstd::slice::slice_subrange;
use crate::crypto::primitives::{sha256, sha256_digest};
use crate::wire::put_bytes;

verus! {

/// The hash of a chunk.
pub fn hash_chunk(data: &[u8]) -> (r: [u8; 32])
    ensures
        r@ == sha256(data@),
{
    sha256_digest(data)
}

/// The hashes of the chunks of a file, one behind the other. The last chunk may be
/// shorter than the others.
pub open spec fn chunk_hashes(content: Seq<u8>, chunk_size: nat) -> Seq<u8>
    decreases content.len(),
{
    if content.len() == 0 || chunk_size == 0 {
        Seq::empty()
    } else if content.len() <= chunk_size {
        sha256(content)
    } else {
        sha256(content.take(chunk_size as int)) + chunk_hashes(content.skip(chunk_size as int), chunk_size)
    }
}

/// The hash of a file: the hash of the hashes of its chunks.
pub open spec fn file_hash(content: Seq<u8>, chunk_size: nat) -> Seq<u8> {
    sha256(chunk_hashes(content, chunk_size))
}

/// The hash of a file.
pub fn calculate_file_hash(content: &[u8], chunk_size: u32) -> (r: [u8; 32])
    ensures
        r@ == file_hash(content@, chunk_size as nat),
{
    let mut hashes: Vec<u8> = Vec::new();
    let n: usize = content.len();
    let step: usize = chunk_size as usize;
    let mut at: usize = 0;
    assert(content@.skip(0) =~= content@);
    assert(hashes@ + chunk_hashes(content@.skip(0), chunk_size as nat) =~= chunk_hashes(content@, chunk_size as nat));
    while step > 0 && at < n
        invariant
            n == content@.len(),
            step == chunk_size,
            at <= n,
            hashes@ + chunk_hashes(content@.skip(at as int), chunk_size as nat) == chunk_hashes(content@, chunk_size as nat),
        decreases n - at,
    {
        let end: usize = if n - at <= step {
            n
        } else {
            at + step
        };
        let ghost rest = content@.skip(at as int);
        let ghost before = hashes@;
        let h = hash_chunk(slice_subrange(content, at, end));
        put_bytes(&mut hashes, h.as_slice());
        proof {
            if n - at <= step {
                assert(content@.subrange(at as int, end as int) =~= rest);
                assert(content@.skip(end as int) =~= Seq::empty());
            } else {
                assert(content@.subrange(at as int, end as int) =~= rest.take(step as int));
                assert(content@.skip(end as int) =~= rest.skip(step as int));
            }
            assert(hashes@ + chunk_hashes(content@.skip(end as int), chunk_size as nat) =~= before + chunk_hashes(
                rest,
                chunk_size as nat,
            ));
        }
        at = end;
    }
    assert(chunk_hashes(content@.skip(at as int), chunk_size as nat) =~= Seq::empty());
    assert(hashes@ =~= chunk_hashes(content@, chunk_size as nat));
    sha256_digest(hashes.as_slice())
}

/// The hash of a file is the hash of the hashes of its chunks, in their order: each chunk but the
/// last is as long as the chunk size, the last at most. A file without content has the hash of
/// nothing.
pub proof fn law_hash_of_a_file(first: Seq<u8>, rest: Seq<u8>, chunk_size: nat)
    ensures
        file_hash(Seq::empty(), chunk_size) == sha256(Seq::empty()),
        0 < first.len() <= chunk_size ==> file_hash(first, chunk_size) == sha256(sha256(first)),
        0 < first.len() == chunk_size ==> chunk_hashes(first + rest, chunk_size) == sha256(first) + chunk_hashes(rest, chunk_size),
        0 < first.len() == chunk_size && 0 < rest.len() <= chunk_size ==> file_hash(first + rest, chunk_size) == sha256(
            sha256(first) + sha256(rest),
        ),
{
    if 0 < first.len() == chunk_size {
        let all = first + rest;
        assert(all.take(chunk_size as int) =~= first);
        assert(all.skip(chunk_size as int) =~= rest);
        if rest.len() == 0 {
            assert(all =~= first);
            assert(sha256(first) + chunk_hashes(rest, chunk_size) =~= sha256(first));
        } else if rest.len() <= chunk_size {
            assert(chunk_hashes(rest, chunk_size) == sha256(rest));
        }
    }
}

/// What is computed as the hash of a file that is one chunk, or two.
pub proof fn law_hash_that_is_computed(
    one: &[u8],
    two: &[u8],
    first: Seq<u8>,
    rest: Seq<u8>,
    chunk_size: u32,
    r: [u8; 32],
    s: [u8; 32],
    h: [u8; 32],
)
    requires
        call_ensures(calculate_file_hash, (one, chunk_size), r),
        call_ensures(calculate_file_hash, (two, chunk_size), s),
        call_ensures(hash_chunk, (one,), h),
        two@ == first + rest,
        0 < first.len() == chunk_size,
        0 < rest.len() <= chunk_size,
    ensures
        one@.len() == 0 ==> r@ == sha256(Seq::empty()),
        0 < one@.len() <= chunk_size ==> r@ == sha256(sha256(one@)),
        s@ == sha256(sha256(first) + sha256(rest)),
        h@ == sha256(one@),
{
    law_hash_of_a_file(one@, Seq::empty(), chunk_size as nat);
    law_hash_of_a_file(first, rest, chunk_size as nat);
    if one@.len() == 0 {
        assert(one@ =~= Seq::<u8>::empty());
    }
}

} // verus!
