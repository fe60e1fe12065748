//! A transfer that is complete has brought the file that was offered.
use vstd::prelude::*;
use crate::buffer::bytes_contents;
use crate::crypto::primitives::sha256;
use crate::protocol::transfer::{FileChunk, FileOffer, TransferId};
use crate::transfer::manager::{root_of, TransferAction, TransferError, TransferManager};
use crate::transfer::merkle::{chunk_hashes, file_hash};
use crate::transfer::state::{chunk_count, chunk_end, chunk_start, joined, ReceivingState, TransferState};

verus! {

/// A file after data was written to it.
pub open spec fn overwritten(file: Seq<u8>, start: int, data: Seq<u8>) -> Seq<u8> {
    file.take(start) + data + file.skip(start + data.len())
}

/// The file of a transfer after an action: only what is to be written to it changes it.
pub open spec fn acted(file: Seq<u8>, id: TransferId, a: TransferAction) -> Seq<u8> {
    match a {
        TransferAction::Write { transfer_id, start, data } => if transfer_id == id {
            overwritten(file, start as int, bytes_contents(data))
        } else {
            file
        },
        _ => file,
    }
}

/// The file of a transfer after the actions, in order.
pub open spec fn file_after(file: Seq<u8>, id: TransferId, actions: Seq<TransferAction>) -> Seq<u8>
    decreases actions.len(),
{
    if actions.len() == 0 {
        file
    } else {
        acted(file_after(file, id, actions.drop_last()), id, actions.last())
    }
}

/// The part of a file that a chunk takes.
pub open spec fn piece(file: Seq<u8>, s: ReceivingState, k: u32) -> Seq<u8> {
    file.subrange(chunk_start(k, s.chunk_size), chunk_end(k, s.chunk_size, s.file_len))
}

/// The hashes that are known are those of the chunks of the file.
pub open spec fn in_step(file: Seq<u8>, s: ReceivingState) -> bool {
    &&& file.len() == s.file_len
    &&& forall|k: u32| #[trigger]
        s.hashes@.contains_key(k) ==> s.chunk_size > 0 && chunk_start(k, s.chunk_size) < s.file_len && s.hashes@[k]@ == sha256(
            piece(file, s, k),
        )
}

proof fn lemma_starts(i: u32, k: u32, c: u32)
    ensures
        0 <= chunk_start(i, c),
        i < k ==> chunk_start(i, c) + c <= chunk_start(k, c),
        i <= k ==> chunk_start(i, c) <= chunk_start(k, c),
{
    assert(0 <= i * c) by (nonlinear_arith)
        requires
            i >= 0,
            c >= 0,
    ;
    if i <= k {
        assert(i * c <= k * c) by (nonlinear_arith)
            requires
                i <= k,
                c >= 0,
        ;
    }
    if i < k {
        assert(i * c + c <= k * c) by (nonlinear_arith)
            requires
                i + 1 <= k,
                c >= 0,
        ;
    }
}

/// Recording what was written keeps the hashes in step with the file.
proof fn lemma_record_in_step(file: Seq<u8>, s: ReceivingState, index: u32, data: Seq<u8>, hash: [u8; 32], t: ReceivingState)
    requires
        in_step(file, s),
        hash@ == sha256(data),
        chunk_start(index, s.chunk_size) + data.len() <= s.file_len,
        s.recorded(index, data.len() as int, hash, t),
    ensures
        in_step(overwritten(file, chunk_start(index, s.chunk_size), data), t),
{
    let c = s.chunk_size;
    let start = chunk_start(index, c);
    let new = overwritten(file, start, data);
    lemma_starts(index, index, c);
    assert(new.len() == file.len());
    assert forall|k: u32| #[trigger] t.hashes@.contains_key(k) implies t.chunk_size > 0 && chunk_start(k, t.chunk_size) < t.file_len
        && t.hashes@[k]@ == sha256(piece(new, t, k)) by {
        lemma_starts(k, index, c);
        lemma_starts(index, k, c);
        lemma_starts(k, k, c);
        if k == index && s.is_chunk(index, data.len() as int) {
            assert(piece(new, t, k) =~= data);
        } else {
            assert(s.hashes@.contains_key(k));
            assert(piece(new, t, k) =~= piece(file, s, k));
        }
    }
}

/// The hashes of all chunks, one behind the other, are those of the file.
proof fn lemma_joined(file: Seq<u8>, s: ReceivingState, n: int)
    requires
        in_step(file, s),
        forall|i: u32| i < chunk_count(s.file_len, s.chunk_size) ==> #[trigger] s.hashes@.contains_key(i),
        0 <= n <= chunk_count(s.file_len, s.chunk_size) <= u32::MAX,
    ensures
        n < chunk_count(s.file_len, s.chunk_size) ==> 0 <= n * s.chunk_size < s.file_len && joined(s.hashes@, n) + chunk_hashes(
            file.skip(n * s.chunk_size),
            s.chunk_size as nat,
        ) == chunk_hashes(file, s.chunk_size as nat),
        n == chunk_count(s.file_len, s.chunk_size) ==> joined(s.hashes@, n) == chunk_hashes(file, s.chunk_size as nat),
    decreases n,
{
    let c = s.chunk_size as int;
    let total = chunk_count(s.file_len, s.chunk_size);
    if total == 0 {
        assert(joined(s.hashes@, n) =~= chunk_hashes(file, c as nat));
    } else {
        let q = (s.file_len - 1) / c;
        assert(n < total ==> 0 <= n * c < s.file_len) by (nonlinear_arith)
            requires
                q == (s.file_len - 1) / c,
                total == q + 1,
                c > 0,
                s.file_len > 0,
                0 <= n,
        ;
        if n == 0 {
            assert(n * c == 0) by (nonlinear_arith)
                requires
                    n == 0,
            ;
            assert(file.skip(0) =~= file);
            assert(joined(s.hashes@, 0) + chunk_hashes(file.skip(0), c as nat) =~= chunk_hashes(file, c as nat));
        } else {
            lemma_joined(file, s, n - 1);
            let k = (n - 1) as u32;
            let rest = file.skip((n - 1) * c);
            assert((n - 1) * c + c == n * c) by (nonlinear_arith);
            assert(s.hashes@.contains_key(k));
            assert(chunk_start(k, s.chunk_size) == (n - 1) * c);
            if n < total {
                assert(rest.take(c) =~= piece(file, s, k));
                assert(rest.skip(c) =~= file.skip(n * c));
                assert(joined(s.hashes@, n) + chunk_hashes(file.skip(n * c), c as nat) =~= joined(s.hashes@, n - 1) + chunk_hashes(
                    rest,
                    c as nat,
                ));
            } else {
                assert(s.file_len <= n * c) by (nonlinear_arith)
                    requires
                        q == (s.file_len - 1) / c,
                        n == q + 1,
                        c > 0,
                ;
                assert(rest =~= piece(file, s, k));
                assert(chunk_hashes(rest, c as nat) == sha256(rest));
            }
        }
    }
}

proof fn lemma_only_first_writes(file: Seq<u8>, id: TransferId, actions: Seq<TransferAction>)
    requires
        actions.len() > 0,
        forall|i: int| 1 <= i < actions.len() ==> !((#[trigger] actions[i]) is Write),
    ensures
        file_after(file, id, actions) == acted(file, id, actions[0]),
    decreases actions.len(),
{
    if actions.len() == 1 {
        assert(file_after(file, id, actions.drop_last()) == file);
    } else {
        lemma_only_first_writes(file, id, actions.drop_last());
        assert(!(actions[actions.len() - 1] is Write));
    }
}

/// The actions finish the transfer.
pub open spec fn finishes(actions: Seq<TransferAction>, id: TransferId) -> bool {
    exists|i: int| 0 <= i < actions.len() && #[trigger] actions[i] == (TransferAction::Finish { transfer_id: id })
}

/// A chunk that finishes a transfer has made the file the one that was offered, by its hash.
/// Any other leaves the hashes in step with the file; if it was written and all chunks are
/// there after it, the file does not have the hash that was offered.
pub proof fn law_only_the_offered_file_is_finished(
    file: Seq<u8>,
    s: ReceivingState,
    chunk: FileChunk,
    before: TransferManager,
    after: TransferManager,
    r: Result<(), TransferError>,
    actions: Seq<TransferAction>,
)
    requires
        in_step(file, s),
        before.has(chunk.transfer_id),
        before.state(chunk.transfer_id) == TransferState::Receiving(s),
        before.chunk_handled(after, chunk, r, actions),
    ensures
        file_after(file, chunk.transfer_id, actions).len() == file.len(),
        finishes(actions, chunk.transfer_id) ==> file_hash(file_after(file, chunk.transfer_id, actions), s.chunk_size as nat)
            == s.expected_root@ && !after.has(chunk.transfer_id),
        !finishes(actions, chunk.transfer_id) ==> after.has(chunk.transfer_id) && (after.state(
            chunk.transfer_id,
        ) matches TransferState::Receiving(t) && in_step(file_after(file, chunk.transfer_id, actions), t) && t.expected_root
            == s.expected_root && t.chunk_size == s.chunk_size && t.file_len == s.file_len),
        !finishes(actions, chunk.transfer_id) && actions.len() > 0 && actions[0] is Write && after.state(
            chunk.transfer_id,
        )->Receiving_0.covered() ==> file_hash(file_after(file, chunk.transfer_id, actions), s.chunk_size as nat)
            != s.expected_root@ && r == Err::<(), TransferError>(TransferError::BadHash),
{
    let id = chunk.transfer_id;
    let data = bytes_contents(chunk.data);
    let start = chunk_start(chunk.chunk_index, s.chunk_size);
    if sha256(data) != chunk.chunk_hash@ {
        assert(!(actions[0] is Finish));
        assert(file_after(file, id, actions) == file) by {
            lemma_only_first_writes(file, id, actions);
        }
    } else if start + data.len() > s.file_len {
        assert(file_after(file, id, actions) == file);
    } else {
        let t = choose|t: ReceivingState| #[trigger]
            s.recorded(chunk.chunk_index, data.len() as int, chunk.chunk_hash, t) && before.concludes(
                after,
                t,
                chunk,
                root_of(t),
                r,
                actions,
            );
        let new = overwritten(file, start, data);
        lemma_starts(chunk.chunk_index, chunk.chunk_index, s.chunk_size);
        lemma_record_in_step(file, s, chunk.chunk_index, data, chunk.chunk_hash, t);
        lemma_only_first_writes(file, id, actions);
        assert(file_after(file, id, actions) == new);
        if t.covered() {
            lemma_joined(new, t, t.total_chunks as int);
            assert(root_of(t) == Some(file_hash(new, s.chunk_size as nat)));
        }
        if t.nothing_missing() && root_of(t) == Some(t.expected_root@) {
            assert(actions[3] == (TransferAction::Finish { transfer_id: id }));
        } else {
            assert forall|i: int| 0 <= i < actions.len() implies #[trigger] actions[i] != (TransferAction::Finish { transfer_id: id }) by {
                assert(i == 0 || i == 1 || i == 2);
            }
        }
    }
}

/// One call that concerns the transfer `id`: a chunk for it is handled, or something else is
/// done that leaves its state and its file alone.
pub open spec fn call(before: TransferManager, after: TransferManager, id: TransferId, actions: Seq<TransferAction>) -> bool {
    ||| exists|chunk: FileChunk, r: Result<(), TransferError>| #[trigger]
        before.chunk_handled(after, chunk, r, actions) && chunk.transfer_id == id
    ||| {
        &&& after.has(id) == before.has(id)
        &&& after.state(id) == before.state(id)
        &&& forall|i: int| 0 <= i < actions.len() ==> !writes_to(#[trigger] actions[i], id)
        &&& !finishes(actions, id)
    }
}

/// The action writes to the file of the transfer.
pub open spec fn writes_to(a: TransferAction, id: TransferId) -> bool {
    a matches TransferAction::Write { transfer_id, .. } && transfer_id == id
}

/// A course of calls: the managers before, between and after them, the actions of each, and
/// the file as it becomes.
pub open spec fn course(managers: Seq<TransferManager>, actions: Seq<Seq<TransferAction>>, files: Seq<Seq<u8>>, id: TransferId) -> bool {
    &&& managers.len() == actions.len() + 1
    &&& files.len() == managers.len()
    &&& forall|k: int| 0 <= k < actions.len() ==> call(managers[k], managers[k + 1], id, #[trigger] actions[k])
    &&& forall|k: int| 0 <= k < actions.len() ==> files[k + 1] == file_after(files[k], id, #[trigger] actions[k])
}

/// The transfer is as an offer begins it.
pub open spec fn begun(m: TransferManager, offer: FileOffer) -> bool {
    &&& m.has(offer.transfer_id)
    &&& m.state(offer.transfer_id) matches TransferState::Receiving(s) && s.file_len == offer.file_size && s.expected_root
        == offer.file_hash && s.chunk_size == offer.chunk_size && s.hashes@ == Map::<u32, [u8; 32]>::empty()
}

proof fn lemma_untouched(file: Seq<u8>, id: TransferId, actions: Seq<TransferAction>)
    requires
        forall|i: int| 0 <= i < actions.len() ==> !writes_to(#[trigger] actions[i], id),
    ensures
        file_after(file, id, actions) == file,
    decreases actions.len(),
{
    if actions.len() > 0 {
        assert(!writes_to(actions[actions.len() - 1], id));
        assert forall|i: int| 0 <= i < actions.drop_last().len() implies !writes_to(#[trigger] actions.drop_last()[i], id) by {
            assert(!writes_to(actions[i], id));
        }
        lemma_untouched(file, id, actions.drop_last());
    }
}

proof fn lemma_course_in_step(
    managers: Seq<TransferManager>,
    actions: Seq<Seq<TransferAction>>,
    files: Seq<Seq<u8>>,
    offer: FileOffer,
    n: int,
)
    requires
        course(managers, actions, files, offer.transfer_id),
        begun(managers[0], offer),
        files[0].len() == offer.file_size,
        0 <= n <= actions.len(),
        forall|k: int| 0 <= k < n ==> !finishes(#[trigger] actions[k], offer.transfer_id),
    ensures
        managers[n].has(offer.transfer_id),
        managers[n].state(offer.transfer_id) matches TransferState::Receiving(s) && in_step(files[n], s) && s.expected_root
            == offer.file_hash && s.chunk_size == offer.chunk_size && s.file_len == offer.file_size,
    decreases n,
{
    let id = offer.transfer_id;
    if n > 0 {
        lemma_course_in_step(managers, actions, files, offer, n - 1);
        let before = managers[n - 1];
        let after = managers[n];
        let a = actions[n - 1];
        assert(call(before, managers[n - 1 + 1], id, a));
        assert(files[n - 1 + 1] == file_after(files[n - 1], id, a));
        assert(!finishes(a, id));
        let s = before.state(id)->Receiving_0;
        if exists|chunk: FileChunk, r: Result<(), TransferError>| #[trigger]
            before.chunk_handled(after, chunk, r, a) && chunk.transfer_id == id {
            let (chunk, r) = choose|chunk: FileChunk, r: Result<(), TransferError>| #[trigger]
                before.chunk_handled(after, chunk, r, a) && chunk.transfer_id == id;
            law_only_the_offered_file_is_finished(files[n - 1], s, chunk, before, after, r, a);
        } else {
            lemma_untouched(files[n - 1], id, a);
        }
    }
}

/// From an offer on, whatever chunks come in whatever order, a transfer that is finished has
/// brought a file whose hash is the one that was offered.
pub proof fn law_finished_file_has_the_offered_hash(
    managers: Seq<TransferManager>,
    actions: Seq<Seq<TransferAction>>,
    files: Seq<Seq<u8>>,
    offer: FileOffer,
    n: int,
)
    requires
        course(managers, actions, files, offer.transfer_id),
        begun(managers[0], offer),
        files[0].len() == offer.file_size,
        0 <= n < actions.len(),
        forall|k: int| 0 <= k < n ==> !finishes(#[trigger] actions[k], offer.transfer_id),
        finishes(actions[n], offer.transfer_id),
    ensures
        file_hash(files[n + 1], offer.chunk_size as nat) == offer.file_hash@,
        files[n + 1].len() == offer.file_size,
        !managers[n + 1].has(offer.transfer_id),
{
    let id = offer.transfer_id;
    lemma_course_in_step(managers, actions, files, offer, n);
    let before = managers[n];
    let after = managers[n + 1];
    let a = actions[n];
    assert(call(before, after, id, a));
    let s = before.state(id)->Receiving_0;
    let (chunk, r) = choose|chunk: FileChunk, r: Result<(), TransferError>| #[trigger]
        before.chunk_handled(after, chunk, r, a) && chunk.transfer_id == id;
    law_only_the_offered_file_is_finished(files[n], s, chunk, before, after, r, a);
}

} // verus!
