//! Transfers that are under way.
use std::collections::HashMap;
use vstd::prelude::*;
use crate::net::SocketAddr;
use crate::protocol::transfer::{
    bitmap_is_missing, bitmap_set_missing, law_mark_touches_one_chunk, marked, total_chunks_of, with_mark, TransferId,
};
use crate::wire::put_bytes;

verus! {

/// A file that is being sent.
#[derive(Debug)]
pub struct SendingState {
    pub peer: SocketAddr,
    /// The length of the file.
    pub file_len: u64,
    /// The chunks that the receiver lacks.
    pub bitfield: Vec<u8>,
    /// Chunks that may be sent.
    pub credits: u32,
    pub chunk_size: u32,
    pub total_chunks: u32,
    /// The next chunk to look at.
    pub current_chunk_idx: u32,
}

/// A file that is being received.
#[derive(Debug)]
pub struct ReceivingState {
    pub peer: SocketAddr,
    /// The length of the file.
    pub file_len: u64,
    /// The hash that the file has to have.
    pub expected_root: [u8; 32],
    /// The chunks that are lacking.
    pub bitfield: Vec<u8>,
    pub chunk_size: u32,
    pub total_chunks: u32,
    /// How many chunks are there.
    pub received_chunks: u32,
    /// The name of the file on disk.
    pub file_name: String,
    /// The hashes of the chunks of the file on disk, as far as they are known.
    pub hashes: HashMap<u32, [u8; 32]>,
}

/// A transfer.
#[derive(Debug)]
pub enum TransferState {
    Sending(SendingState),
    Receiving(ReceivingState),
}

impl TransferState {
    /// A file that is sent has as many chunks as its size says. Of a file that is received,
    /// the chunks that are there are counted.
    pub open spec fn wf(self) -> bool {
        match self {
            TransferState::Sending(s) => s.chunk_size > 0 && s.total_chunks == total_chunks_of(s.file_len, s.chunk_size),
            TransferState::Receiving(s) => s.wf(),
        }
    }
}

/// A transfer under its number.
#[derive(Debug)]
pub struct ActiveTransfer {
    pub id: TransferId,
    pub state: TransferState,
}

/// Where a chunk begins in the file.
pub open spec fn chunk_start(index: u32, chunk_size: u32) -> int {
    index * chunk_size
}

/// Where a chunk ends in the file.
pub open spec fn chunk_end(index: u32, chunk_size: u32, file_len: u64) -> int {
    if index * chunk_size + chunk_size < file_len {
        index * chunk_size + chunk_size
    } else {
        file_len as int
    }
}

/// How many chunks make up a file.
pub open spec fn chunk_count(file_len: u64, chunk_size: u32) -> int {
    if file_len == 0 || chunk_size == 0 {
        0
    } else {
        (file_len - 1) / (chunk_size as int) + 1
    }
}

/// How many of the first `n` chunks are not marked as missing.
pub open spec fn present(bitmap: Seq<u8>, n: int) -> int
    decreases n,
{
    if n <= 0 {
        0
    } else {
        present(bitmap, n - 1) + (if marked(bitmap, (n - 1) as u32) {
            0int
        } else {
            1int
        })
    }
}

pub proof fn lemma_present(bitmap: Seq<u8>, n: int)
    requires
        0 <= n <= u32::MAX,
    ensures
        0 <= present(bitmap, n) <= n,
        present(bitmap, n) == n <==> forall|i: u32| i < n ==> !(#[trigger] marked(bitmap, i)),
        (forall|i: u32| i < n ==> #[trigger] marked(bitmap, i)) ==> present(bitmap, n) == 0,
    decreases n,
{
    if n > 0 {
        lemma_present(bitmap, n - 1);
        let last = (n - 1) as u32;
        if present(bitmap, n) == n {
            assert forall|i: u32| i < n implies !(#[trigger] marked(bitmap, i)) by {
                if i != last {
                    assert(i < n - 1);
                }
            }
        }
        if forall|i: u32| i < n ==> !(#[trigger] marked(bitmap, i)) {
            assert(!marked(bitmap, last));
        }
    }
}

proof fn lemma_present_after(bitmap: Seq<u8>, index: u32, n: int)
    requires
        0 <= n <= u32::MAX,
    ensures
        present(with_mark(bitmap, index, false), n) == present(bitmap, n) + (if index < n && marked(bitmap, index) {
            1int
        } else {
            0int
        }),
    decreases n,
{
    if n > 0 {
        lemma_present_after(bitmap, index, n - 1);
        law_mark_touches_one_chunk(bitmap, index, false, (n - 1) as u32);
    }
}

/// The hashes of the first `n` chunks, one behind the other.
pub open spec fn joined(hashes: Map<u32, [u8; 32]>, n: int) -> Seq<u8>
    decreases n,
{
    if n <= 0 {
        Seq::empty()
    } else {
        joined(hashes, n - 1) + hashes[(n - 1) as u32]@
    }
}

impl ReceivingState {
    /// There is a bit for each chunk, and the chunks that are there are counted.
    pub open spec fn wf(self) -> bool {
        &&& self.bitfield@.len() == (self.total_chunks + 7) / 8
        &&& self.received_chunks == present(self.bitfield@, self.total_chunks as int)
    }

    /// No chunk is lacking.
    pub open spec fn nothing_missing(self) -> bool {
        forall|i: u32| i < self.total_chunks ==> !(#[trigger] marked(self.bitfield@, i))
    }

    /// The data from the start of chunk `index` on is that chunk, neither more nor less.
    pub open spec fn is_chunk(self, index: u32, len: int) -> bool {
        &&& self.chunk_size > 0
        &&& chunk_start(index, self.chunk_size) < self.file_len
        &&& len == chunk_end(index, self.chunk_size, self.file_len) - chunk_start(index, self.chunk_size)
    }

    /// Data of this length from the start of chunk `index` on lies in chunk `k`.
    pub open spec fn touches(self, index: u32, len: int, k: u32) -> bool {
        &&& self.chunk_size > 0
        &&& index <= k
        &&& chunk_start(k, self.chunk_size) < chunk_start(index, self.chunk_size) + len
    }

    /// The hashes that are known after data was written from the start of chunk `index` on:
    /// that of the chunk, if the data is that chunk; else those of the chunks that were
    /// touched are not known any more.
    pub open spec fn hashes_after(self, index: u32, len: int, hash: [u8; 32]) -> Map<u32, [u8; 32]> {
        if self.is_chunk(index, len) {
            self.hashes@.insert(index, hash)
        } else {
            Map::new(|k: u32| self.hashes@.contains_key(k) && !self.touches(index, len, k), |k: u32| self.hashes@[k])
        }
    }

    /// The state after data with this hash was written from the start of chunk `index` on: the
    /// chunk is not lacking any more, and is counted if it was.
    pub open spec fn recorded(self, index: u32, len: int, hash: [u8; 32], t: ReceivingState) -> bool {
        &&& t == (ReceivingState {
            received_chunks: if index < self.total_chunks && marked(self.bitfield@, index) {
                (self.received_chunks + 1) as u32
            } else {
                self.received_chunks
            },
            bitfield: t.bitfield,
            hashes: t.hashes,
            ..self
        })
        &&& t.bitfield@ == with_mark(self.bitfield@, index, false)
        &&& t.hashes@ == self.hashes_after(index, len, hash)
    }

    /// Records that data with this hash was written from the start of chunk `index` on.
    pub fn record(self, index: u32, len: u64, hash: [u8; 32]) -> (t: ReceivingState)
        requires
            self.wf(),
            chunk_start(index, self.chunk_size) + len <= self.file_len,
        ensures
            t.wf(),
            self.recorded(index, len as int, hash, t),
    {
        broadcast use vstd::std_specs::hash::group_hash_axioms;

        let ghost before = self;
        let mut s = self;
        proof {
            lemma_present(before.bitfield@, before.total_chunks as int);
            lemma_present(with_mark(before.bitfield@, index, false), before.total_chunks as int);
            lemma_present_after(before.bitfield@, index, before.total_chunks as int);
            lemma_start_fits(index, s.chunk_size);
        }
        if index < s.total_chunks && bitmap_is_missing(s.bitfield.as_slice(), index) {
            s.received_chunks = s.received_chunks + 1;
        }
        let mut bits = s.bitfield;
        bitmap_set_missing(bits.as_mut_slice(), index, false);
        s.bitfield = bits;
        let start: u64 = index as u64 * s.chunk_size as u64;
        let mut hashes = s.hashes;
        let whole: bool = if s.chunk_size == 0 || start >= s.file_len {
            false
        } else if s.file_len - start > s.chunk_size as u64 {
            len == s.chunk_size as u64
        } else {
            len == s.file_len - start
        };
        if whole {
            let _ = hashes.insert(index, hash);
        } else if s.chunk_size > 0 {
            forget_touched(&mut hashes, index, s.chunk_size, start + len);
        }
        assert(hashes@ =~= before.hashes_after(index, len as int, hash));
        s.hashes = hashes;
        s
    }

    /// The chunks make up the file, none is lacking, and the hash of each is known.
    pub open spec fn covered(self) -> bool {
        &&& self.nothing_missing()
        &&& self.total_chunks == chunk_count(self.file_len, self.chunk_size)
        &&& forall|i: u32| i < self.total_chunks ==> #[trigger] self.hashes@.contains_key(i)
    }

    /// Whether no chunk is lacking.
    pub fn is_filled(&self) -> (r: bool)
        requires
            self.wf(),
        ensures
            r == self.nothing_missing(),
    {
        proof {
            lemma_present(self.bitfield@, self.total_chunks as int);
        }
        self.received_chunks == self.total_chunks
    }

    /// The hashes of all chunks, one behind the other, once they are there.
    pub fn joined_hashes(&self) -> (r: Option<Vec<u8>>)
        requires
            self.wf(),
        ensures
            r is Some <==> self.covered(),
            r matches Some(v) ==> v@ == joined(self.hashes@, self.total_chunks as int),
    {
        broadcast use vstd::std_specs::hash::group_hash_axioms;

        if !self.is_filled() {
            return None;
        }
        let count: u64 = if self.file_len == 0 || self.chunk_size == 0 {
            0
        } else {
            proof {
                let q = (self.file_len - 1) / (self.chunk_size as int);
                assert(0 <= q <= self.file_len - 1) by (nonlinear_arith)
                    requires
                        q == (self.file_len - 1) / (self.chunk_size as int),
                        self.file_len > 0,
                        self.chunk_size > 0,
                ;
            }
            (self.file_len - 1) / (self.chunk_size as u64) + 1
        };
        if self.total_chunks as u64 != count {
            return None;
        }
        let mut out: Vec<u8> = Vec::new();
        let mut i: u32 = 0;
        while i < self.total_chunks
            invariant
                i <= self.total_chunks,
                out@ == joined(self.hashes@, i as int),
                forall|k: u32| k < i ==> #[trigger] self.hashes@.contains_key(k),
            decreases self.total_chunks - i,
        {
            broadcast use vstd::std_specs::hash::group_hash_axioms;

            match self.hashes.get(&i) {
                Some(h) => put_bytes(&mut out, h.as_slice()),
                None => return None,
            }
            i += 1;
        }
        Some(out)
    }
}

pub proof fn lemma_start_fits(index: u32, chunk_size: u32)
    ensures
        0 <= chunk_start(index, chunk_size) <= 0xFFFF_FFFF * 0xFFFF_FFFF,
{
    assert(0 <= index * chunk_size <= 0xFFFF_FFFF * 0xFFFF_FFFF) by (nonlinear_arith)
        requires
            0 <= index <= 0xFFFF_FFFF,
            0 <= chunk_size <= 0xFFFF_FFFF,
    ;
}

/// Forgets the hashes of the chunks from `index` on that begin before `end`.
fn forget_touched(hashes: &mut HashMap<u32, [u8; 32]>, index: u32, chunk_size: u32, end: u64)
    requires
        chunk_size > 0,
    ensures
        forall|k: u32| #[trigger]
            final(hashes)@.contains_key(k) <==> old(hashes)@.contains_key(k) && !(index <= k && chunk_start(k, chunk_size) < end),
        forall|k: u32| #[trigger] final(hashes)@.contains_key(k) ==> final(hashes)@[k] == old(hashes)@[k],
{
    broadcast use vstd::std_specs::hash::group_hash_axioms;

    proof {
        lemma_start_fits(index, chunk_size);
    }
    let mut k: u64 = index as u64;
    let mut at: u128 = index as u128 * chunk_size as u128;
    while k <= u32::MAX as u64 && at < end as u128
        invariant
            chunk_size > 0,
            index <= k <= u32::MAX + 1,
            at == k * chunk_size,
            forall|j: u32| #[trigger]
                hashes@.contains_key(j) <==> old(hashes)@.contains_key(j) && !(index <= j && j < k),
            forall|j: u32| #[trigger] hashes@.contains_key(j) ==> hashes@[j] == old(hashes)@[j],
            forall|j: u32| index <= j && j < k ==> #[trigger] chunk_start(j, chunk_size) < end,
        decreases u32::MAX + 1 - k,
    {
        broadcast use vstd::std_specs::hash::group_hash_axioms;

        assert((k + 1) * chunk_size == k * chunk_size + chunk_size) by (nonlinear_arith);
        let _ = hashes.remove(&(k as u32));
        k += 1;
        at += chunk_size as u128;
    }
    assert forall|j: u32| k <= j implies chunk_start(j, chunk_size) >= end by {
        assert(j * chunk_size >= k * chunk_size) by (nonlinear_arith)
            requires
                j >= k,
                chunk_size > 0,
        ;
    }
}

/// Chunks stand one behind the other from the start of the file on, each as long as the chunk size,
/// but the last ends with the file.
pub proof fn law_places_of_chunks(index: u32, chunk_size: u32, file_len: u64)
    ensures
        chunk_start(0, chunk_size) == 0,
        index < u32::MAX ==> chunk_start((index + 1) as u32, chunk_size) == chunk_start(index, chunk_size) + chunk_size,
        chunk_start(index, chunk_size) + chunk_size <= file_len ==> chunk_end(index, chunk_size, file_len) == chunk_start(
            index,
            chunk_size,
        ) + chunk_size,
        chunk_start(index, chunk_size) + chunk_size > file_len ==> chunk_end(index, chunk_size, file_len) == file_len,
{
    assert(0int * chunk_size == 0) by (nonlinear_arith);
    assert((index + 1) * chunk_size == index * chunk_size + chunk_size) by (nonlinear_arith);
}

/// A file needs just so many chunks that all of them but the last do not hold it, and all of them do.
pub proof fn law_chunks_that_a_file_needs(file_len: u64, chunk_size: u32, n: int)
    requires
        chunk_size > 0,
        n >= 0,
    ensures
        chunk_count(file_len, chunk_size) == n <==> n * chunk_size >= file_len && (n > 0 ==> (n - 1) * chunk_size < file_len),
{
    let c = chunk_size as int;
    if file_len == 0 {
        assert(n > 0 ==> (n - 1) * c >= 0) by (nonlinear_arith)
            requires
                c > 0,
        ;
        assert(n == 0 ==> n * c == 0) by (nonlinear_arith);
    } else {
        let q = (file_len - 1) / c;
        assert(q == n - 1 <==> n * c >= file_len && (n > 0 ==> (n - 1) * c < file_len)) by (nonlinear_arith)
            requires
                q == (file_len - 1) / c,
                c > 0,
                file_len > 0,
                n >= 0,
        ;
    }
}

/// A chunk that comes is no longer missing, and is counted if it was missing before. The other
/// chunks stay as they were, and nothing else about the file changes.
pub proof fn law_chunk_is_counted_once(s: ReceivingState, index: u32, len: int, hash: [u8; 32], t: ReceivingState, other: u32)
    requires
        s.wf(),
        s.recorded(index, len, hash, t),
    ensures
        !marked(t.bitfield@, index),
        other != index ==> marked(t.bitfield@, other) == marked(s.bitfield@, other),
        t.bitfield@.len() == s.bitfield@.len(),
        index < s.total_chunks && marked(s.bitfield@, index) ==> t.received_chunks == s.received_chunks + 1,
        index >= s.total_chunks || !marked(s.bitfield@, index) ==> t.received_chunks == s.received_chunks,
        t.peer == s.peer && t.file_len == s.file_len && t.expected_root == s.expected_root && t.chunk_size == s.chunk_size
            && t.total_chunks == s.total_chunks && t.file_name == s.file_name,
{
    law_mark_touches_one_chunk(s.bitfield@, index, false, index);
    law_mark_touches_one_chunk(s.bitfield@, index, false, other);
    lemma_present_after(s.bitfield@, index, s.total_chunks as int);
    lemma_present(t.bitfield@, s.total_chunks as int);
}

/// The hash of a whole chunk is kept as that chunk's. What is not a whole chunk leaves no hash of a
/// chunk that it reaches into, and the others as they were.
pub proof fn law_hashes_that_are_known(s: ReceivingState, index: u32, len: int, hash: [u8; 32], t: ReceivingState, other: u32)
    requires
        s.recorded(index, len, hash, t),
        s.chunk_size > 0,
        len >= 0,
        index * s.chunk_size + len <= s.file_len,
    ensures
        index * s.chunk_size < s.file_len && (len == s.chunk_size || len < s.chunk_size && index * s.chunk_size + len == s.file_len) ==> {
            &&& t.hashes@.contains_key(index) && t.hashes@[index] == hash
            &&& other != index ==> t.hashes@.contains_key(other) == s.hashes@.contains_key(other)
        },
        len < s.chunk_size && index * s.chunk_size + len < s.file_len || len > s.chunk_size ==> (t.hashes@.contains_key(other)
            <==> s.hashes@.contains_key(other) && (other < index || other * s.chunk_size >= index * s.chunk_size + len)),
        other != index && t.hashes@.contains_key(other) ==> t.hashes@[other] == s.hashes@[other],
{
}

/// All chunks are there just if as many were counted as there are.
pub proof fn law_all_there_when_all_counted(s: ReceivingState)
    requires
        s.wf(),
    ensures
        s.nothing_missing() <==> s.received_chunks == s.total_chunks,
        s.nothing_missing() <==> forall|i: u32| i < s.total_chunks ==> !(#[trigger] marked(s.bitfield@, i)),
        s.received_chunks <= s.total_chunks,
{
    lemma_present(s.bitfield@, s.total_chunks as int);
}

/// A file can be judged by the hashes of its chunks just if all chunks are there, they are as many as
/// a file of its length needs, and the hash of each is known.
pub proof fn law_when_a_file_can_be_judged(s: ReceivingState)
    requires
        s.wf(),
        s.chunk_size > 0,
    ensures
        s.covered() <==> {
            &&& s.received_chunks == s.total_chunks
            &&& s.total_chunks * s.chunk_size >= s.file_len
            &&& s.total_chunks > 0 ==> (s.total_chunks - 1) * s.chunk_size < s.file_len
            &&& forall|i: u32| i < s.total_chunks ==> #[trigger] s.hashes@.contains_key(i)
        },
{
    law_all_there_when_all_counted(s);
    law_chunks_that_a_file_needs(s.file_len, s.chunk_size, s.total_chunks as int);
}

/// The hashes of the chunks stand one behind the other, each in its 32 bytes.
pub proof fn law_hashes_are_joined(hashes: Map<u32, [u8; 32]>, n: int, i: int)
    requires
        0 <= i < n <= u32::MAX,
    ensures
        joined(hashes, n).len() == 32 * n,
        joined(hashes, n).subrange(32 * i, 32 * i + 32) == hashes[i as u32]@,
    decreases n,
{
    if n == 1 {
        assert(joined(hashes, 0).len() == 0);
    } else if i < n - 1 {
        law_hashes_are_joined(hashes, n - 1, i);
        assert(joined(hashes, n).subrange(32 * i, 32 * i + 32) =~= joined(hashes, n - 1).subrange(32 * i, 32 * i + 32));
    } else {
        law_hashes_are_joined(hashes, n - 1, 0);
    }
    if i == n - 1 {
        assert(joined(hashes, n).subrange(32 * i, 32 * i + 32) =~= hashes[i as u32]@);
    }
}

/// Recording a chunk keeps the count right.
pub proof fn lemma_recorded_wf(s: ReceivingState, index: u32, len: int, hash: [u8; 32], t: ReceivingState)
    requires
        s.wf(),
        s.recorded(index, len, hash, t),
    ensures
        t.wf(),
{
    law_mark_touches_one_chunk(s.bitfield@, index, false, index);
    lemma_present_after(s.bitfield@, index, s.total_chunks as int);
    lemma_present(t.bitfield@, s.total_chunks as int);
}

/// What is recorded of a chunk that was written, and when the file is whole and can be judged.
pub proof fn law_chunks_are_recorded(
    s: ReceivingState,
    index: u32,
    len: u64,
    hash: [u8; 32],
    t: ReceivingState,
    full: bool,
    all: Option<Vec<u8>>,
)
    requires
        s.wf(),
        call_ensures(ReceivingState::record, (s, index, len, hash), t),
        call_ensures(ReceivingState::is_filled, (&s,), full),
        call_ensures(ReceivingState::joined_hashes, (&s,), all),
    ensures
        !marked(t.bitfield@, index),
        index < s.total_chunks && marked(s.bitfield@, index) ==> t.received_chunks == s.received_chunks + 1,
        index >= s.total_chunks || !marked(s.bitfield@, index) ==> t.received_chunks == s.received_chunks,
        full <==> s.received_chunks == s.total_chunks,
        all is Some <==> s.covered(),
        all is Some ==> all->0@ == joined(s.hashes@, s.total_chunks as int),
{
    law_chunk_is_counted_once(s, index, len as int, hash, t, 0);
    law_all_there_when_all_counted(s);
}

} // verus!
