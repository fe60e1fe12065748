//! What is done about the messages of file transfer.
use std::collections::HashMap;
use vstd::prelude::*;
use vstd::string::*;
use vstd::utf8::encode_utf8;
use bytes::Bytes;
use crate::buffer::{bytes_as_slice, bytes_contents, bytes_from_vec};
use crate::counter::{count32, counted32};
use crate::crypto::primitives::sha256;
use crate::net::SocketAddr;
use crate::protocol::transfer::{
    bitmap_is_missing, bitmap_len, bitmap_set_missing, compute_total_chunks, law_chunks_cover_the_file, law_file_chunk_is_read,
    law_file_chunk_roundtrip, law_mark_touches_one_chunk, marked, total_chunks_of, with_mark, ChunkAckStatus, FileAccept,
    FileChunk, FileChunkAck, FileComplete, FileOffer, TransferId,
    MAX_FILE_NAME_LEN,
};
use crate::protocol::types::{Flags, Frame, MessageType};
use crate::table::{Key, Table};
use crate::transfer::merkle::{calculate_file_hash, chunk_hashes, file_hash, hash_chunk};
use crate::transfer::state::{
    chunk_end, chunk_start, joined, law_all_there_when_all_counted, law_chunk_is_counted_once, lemma_present, lemma_recorded_wf,
    lemma_start_fits, ActiveTransfer, ReceivingState, SendingState, TransferState,
};
use crate::wire::{
    array_of, be, be_val, bytes_equal, copy_array, copy_range, le, le_val, lemma_array_eq, lemma_array_of, lemma_be_len, lemma_le_len,
    lemma_le_roundtrip, lemma_pow256_values, put_be, put_bytes, put_le,
};

verus! {

/// Errors of file transfer.
#[derive(Debug)]
pub enum TransferError {
    /// The text of an I/O error.
    Io(String),
    NotFound,
    InvalidState,
    BadHash,
}

/// What is to be done.
#[derive(Debug)]
#[allow(inconsistent_fields)]
pub enum TransferAction {
    /// Send a frame to a peer.
    Send { peer: SocketAddr, frame: Frame },
    /// Read this part of the file and send it to a peer as a chunk.
    SendChunk { peer: SocketAddr, transfer_id: TransferId, index: u32, start: u64, end: u64 },
    /// Write data to the file.
    Write { transfer_id: TransferId, start: u64, data: Bytes },
    /// See to it that the file is on disk, and close it.
    Finish { transfer_id: TransferId },
}

/// The credits that a receiver grants at first.
pub const INITIAL_CREDITS: u32 = 50;

/// A frame with the given type and payload, and nothing else.
pub open spec fn plain_frame(f: Frame, msg_type: MessageType, payload: Seq<u8>) -> bool {
    &&& f.data() == payload
    &&& f.header == Frame::new_header(msg_type, Flags(0), 0, payload.len())
}

/// The action sends such a frame to the peer.
pub open spec fn sends(a: TransferAction, to: SocketAddr, msg_type: MessageType, payload: Seq<u8>) -> bool {
    a matches TransferAction::Send { peer, frame } && peer == to && plain_frame(frame, msg_type, payload)
}

/// A grant of credits on the wire: the transfer and the number.
pub open spec fn credit_wire(id: TransferId, credits: u32) -> Seq<u8> {
    id@ + le(credits as nat, 4)
}

fn credit_payload(id: &TransferId, credits: u32) -> (r: Bytes)
    ensures
        bytes_contents(r) == credit_wire(*id, credits),
{
    let mut out: Vec<u8> = Vec::new();
    put_bytes(&mut out, id.0.as_slice());
    put_le(&mut out, credits as u128, 4);
    assert(out@ =~= credit_wire(*id, credits));
    bytes_from_vec(out)
}

fn send(peer: SocketAddr, msg_type: MessageType, payload: Bytes) -> (r: TransferAction)
    ensures
        sends(r, peer, msg_type, bytes_contents(payload)),
{
    TransferAction::Send { peer, frame: Frame::new(msg_type, Flags::empty(), 0, payload) }
}

/// The frame that carries a chunk with its hash.
pub fn chunk_frame(transfer_id: TransferId, index: u32, data: &[u8]) -> (r: Frame)
    ensures
        exists|c: FileChunk| #[trigger] carries(c, transfer_id, index, data@) && plain_frame(r, MessageType::FileChunk, c.wire()),
{
    let chunk = FileChunk {
        transfer_id,
        chunk_index: index,
        chunk_hash: hash_chunk(data),
        data: bytes_from_vec(copy_range(data, 0, data.len())),
    };
    assert(bytes_contents(chunk.data) =~= data@);
    assert(carries(chunk, transfer_id, index, data@));
    Frame::new(MessageType::FileChunk, Flags::empty(), 0, chunk.encode())
}

/// The chunk holds the data under the index, with its hash.
pub open spec fn carries(c: FileChunk, transfer_id: TransferId, index: u32, data: Seq<u8>) -> bool {
    &&& c.transfer_id == transfer_id
    &&& c.chunk_index == index
    &&& c.chunk_hash@ == sha256(data)
    &&& bytes_contents(c.data) == data
}

/// The key of a transfer: its number, filled up with zeros.
pub open spec fn transfer_key(id: TransferId) -> Key {
    array_of::<32>(id@ + be(0, 16), 32)
}

fn key_of(id: &TransferId) -> (k: Key)
    ensures
        k == transfer_key(*id),
{
    broadcast use lemma_be_len;

    let mut out: Vec<u8> = Vec::new();
    put_bytes(&mut out, id.0.as_slice());
    put_be(&mut out, 0, 16);
    assert(out@ =~= id@ + be(0, 16));
    let k = copy_array::<32>(out.as_slice(), 0);
    proof {
        assert(k@ =~= out@);
        lemma_array_of::<32>(id@ + be(0, 16), 32);
        lemma_array_eq(k, transfer_key(*id));
    }
    k
}

/// Different transfers have different keys.
pub proof fn law_transfer_keys_are_distinct(a: TransferId, b: TransferId)
    requires
        transfer_key(a) == transfer_key(b),
    ensures
        a == b,
{
    broadcast use lemma_be_len;

    lemma_array_of::<32>(a@ + be(0, 16), 32);
    lemma_array_of::<32>(b@ + be(0, 16), 32);
    assert((a@ + be(0, 16)).subrange(0, 16) =~= a@);
    assert((b@ + be(0, 16)).subrange(0, 16) =~= b@);
    lemma_array_eq(a.0, b.0);
}

/// A bitmap in which every chunk is marked.
pub open spec fn all_missing(total_chunks: u32) -> Seq<u8> {
    Seq::new(((total_chunks + 7) / 8) as nat, |i: int| 0xffu8)
}

fn missing_all(total_chunks: u32) -> (r: Vec<u8>)
    ensures
        r@ == all_missing(total_chunks),
{
    let n: usize = bitmap_len(total_chunks);
    let mut r: Vec<u8> = Vec::new();
    let mut i: usize = 0;
    while i < n
        invariant
            i <= n,
            r@.len() == i,
            forall|j: int| 0 <= j < i ==> r@[j] == 0xffu8,
        decreases n - i,
    {
        r.push(0xffu8);
        i += 1;
    }
    assert(r@ =~= all_missing(total_chunks));
    r
}

/// In the bitmap of a new transfer every chunk is missing.
pub proof fn law_everything_is_missing_at_first(total_chunks: u32, i: u32)
    requires
        i < total_chunks,
    ensures
        marked(all_missing(total_chunks), i),
{
    let k = (i % 8) as u8;
    assert(0xffu8 & (1u8 << k) != 0) by (bit_vector)
        requires
            k < 8,
    ;
}

/// The chunks that are sent, from chunk `i` on: those that are missing, as far as the
/// credits go.
pub open spec fn sent_from(bitfield: Seq<u8>, credits: int, i: int, total: int) -> Seq<u32>
    decreases total - i,
{
    if credits <= 0 || i >= total || i < 0 {
        Seq::empty()
    } else if marked(bitfield, i as u32) {
        seq![i as u32] + sent_from(bitfield, credits - 1, i + 1, total)
    } else {
        sent_from(bitfield, credits, i + 1, total)
    }
}

/// The chunk to look at next, once they are sent.
pub open spec fn next_from(bitfield: Seq<u8>, credits: int, i: int, total: int) -> int
    decreases total - i,
{
    if credits <= 0 || i >= total || i < 0 {
        i
    } else if marked(bitfield, i as u32) {
        next_from(bitfield, credits - 1, i + 1, total)
    } else {
        next_from(bitfield, credits, i + 1, total)
    }
}

/// Never are more chunks sent than there are credits; each of them is missing, and they go
/// in ascending order. With credits left over, every chunk has been looked at.
pub proof fn law_credits_bound_what_is_sent(bitfield: Seq<u8>, credits: int, i: int, total: int)
    requires
        0 <= i,
        0 <= credits,
        total <= u32::MAX,
    ensures
        sent_from(bitfield, credits, i, total).len() <= credits,
        forall|k: int|
            0 <= k < sent_from(bitfield, credits, i, total).len() ==> i <= (#[trigger] sent_from(bitfield, credits, i, total)[k])
                < total && marked(bitfield, sent_from(bitfield, credits, i, total)[k]),
        forall|k: int, l: int|
            0 <= k < l < sent_from(bitfield, credits, i, total).len() ==> sent_from(bitfield, credits, i, total)[k] < sent_from(
                bitfield,
                credits,
                i,
                total,
            )[l],
        sent_from(bitfield, credits, i, total).len() < credits && i <= total ==> next_from(bitfield, credits, i, total) == total,
        i <= total ==> i <= next_from(bitfield, credits, i, total) <= total,
    decreases total - i,
{
    if credits > 0 && i < total {
        if marked(bitfield, i as u32) {
            law_credits_bound_what_is_sent(bitfield, credits - 1, i + 1, total);
            let rest = sent_from(bitfield, credits - 1, i + 1, total);
            let s = sent_from(bitfield, credits, i, total);
            assert forall|k: int| 0 <= k < s.len() implies i <= (#[trigger] s[k]) < total && marked(bitfield, s[k]) by {
                if k > 0 {
                    assert(s[k] == rest[k - 1]);
                }
            }
            assert forall|k: int, l: int| 0 <= k < l < s.len() implies s[k] < s[l] by {
                assert(s[l] == rest[l - 1]);
                if k > 0 {
                    assert(s[k] == rest[k - 1]);
                }
            }
        } else {
            law_credits_bound_what_is_sent(bitfield, credits, i + 1, total);
        }
    }
}

/// No missing chunk is passed over: of those that were looked at, every missing one is sent.
pub proof fn law_no_missing_chunk_is_passed_over(bitfield: Seq<u8>, credits: int, i: int, total: int, j: u32)
    requires
        0 <= i <= j,
        0 <= credits,
        total <= u32::MAX,
        j < next_from(bitfield, credits, i, total),
        marked(bitfield, j),
    ensures
        sent_from(bitfield, credits, i, total).contains(j),
    decreases total - i,
{
    if credits > 0 && i < total {
        let s = sent_from(bitfield, credits, i, total);
        if marked(bitfield, i as u32) {
            let rest = sent_from(bitfield, credits - 1, i + 1, total);
            if j == i {
                assert(s[0] == j);
            } else {
                law_no_missing_chunk_is_passed_over(bitfield, credits - 1, i + 1, total, j);
                let k = choose|k: int| 0 <= k < rest.len() && rest[k] == j;
                assert(s[k + 1] == j);
            }
        } else {
            law_no_missing_chunk_is_passed_over(bitfield, credits, i + 1, total, j);
        }
    }
}

/// The request to send a chunk.
pub open spec fn chunk_request(id: TransferId, s: SendingState, index: u32) -> TransferAction {
    TransferAction::SendChunk {
        peer: s.peer,
        transfer_id: id,
        index,
        start: chunk_start(index, s.chunk_size) as u64,
        end: chunk_end(index, s.chunk_size, s.file_len) as u64,
    }
}

/// The requests to send what the credits allow, in order.
pub open spec fn pump_requests(id: TransferId, s: SendingState, actions: Seq<TransferAction>) -> bool {
    let sent = sent_from(s.bitfield@, s.credits as int, s.current_chunk_idx as int, s.total_chunks as int);
    &&& actions.len() == sent.len()
    &&& forall|k: int| 0 <= k < sent.len() ==> #[trigger] actions[k] == chunk_request(id, s, sent[k])
}

/// The sender after it has sent what the credits allow.
pub open spec fn pumped(s: SendingState, t: SendingState) -> bool {
    let sent = sent_from(s.bitfield@, s.credits as int, s.current_chunk_idx as int, s.total_chunks as int);
    t == (SendingState {
        credits: (s.credits - sent.len()) as u32,
        current_chunk_idx: next_from(s.bitfield@, s.credits as int, s.current_chunk_idx as int, s.total_chunks as int) as u32,
        ..s
    })
}

proof fn lemma_chunk_in_file(s: SendingState, index: u32)
    requires
        TransferState::Sending(s).wf(),
        index < s.total_chunks,
    ensures
        0 <= chunk_start(index, s.chunk_size) < s.file_len,
        chunk_start(index, s.chunk_size) <= chunk_end(index, s.chunk_size, s.file_len) <= s.file_len,
{
    let c = s.chunk_size as int;
    let q = (s.file_len - 1) / c;
    assert(s.file_len > 0);
    assert(q >= 0) by (nonlinear_arith)
        requires
            q == (s.file_len - 1) / c,
            s.file_len > 0,
            c > 0,
    ;
    assert(index <= q) by {
        assert((q + 1) % 0x1_0000_0000 <= q + 1);
    }
    assert(index * c <= s.file_len - 1) by (nonlinear_arith)
        requires
            q == (s.file_len - 1) / c,
            index <= q,
            c > 0,
            s.file_len > 0,
    ;
    assert(0 <= index * c) by (nonlinear_arith)
        requires
            c > 0,
    ;
}

/// Sends what the credits allow.
fn pump(id: TransferId, state: SendingState) -> (r: (SendingState, Vec<TransferAction>))
    requires
        TransferState::Sending(state).wf(),
    ensures
        pumped(state, r.0),
        pump_requests(id, state, r.1@),
        TransferState::Sending(r.0).wf(),
{
    let mut s = state;
    let ghost bits = s.bitfield@;
    let ghost total = s.total_chunks as int;
    let ghost sent = sent_from(bits, s.credits as int, s.current_chunk_idx as int, total);
    let mut actions: Vec<TransferAction> = Vec::new();
    while s.credits > 0 && s.current_chunk_idx < s.total_chunks
        invariant
            s.peer == state.peer,
            s.file_len == state.file_len,
            s.bitfield == state.bitfield,
            s.chunk_size == state.chunk_size,
            s.total_chunks == state.total_chunks,
            bits == state.bitfield@,
            total == state.total_chunks,
            TransferState::Sending(s).wf(),
            actions@.len() + s.credits == state.credits,
            actions@.len() + sent_from(bits, s.credits as int, s.current_chunk_idx as int, total).len() == sent.len(),
            forall|k: int| 0 <= k < actions@.len() ==> #[trigger] actions@[k] == chunk_request(id, state, sent[k]),
            forall|k: int|
                actions@.len() <= k < sent.len() ==> #[trigger] sent[k] == sent_from(
                    bits,
                    s.credits as int,
                    s.current_chunk_idx as int,
                    total,
                )[k - actions@.len()],
            next_from(bits, s.credits as int, s.current_chunk_idx as int, total) == next_from(
                bits,
                state.credits as int,
                state.current_chunk_idx as int,
                total,
            ),
        decreases s.total_chunks - s.current_chunk_idx,
    {
        let index: u32 = s.current_chunk_idx;
        let ghost rest = sent_from(bits, s.credits as int, index as int, total);
        if bitmap_is_missing(s.bitfield.as_slice(), index) {
            proof {
                lemma_chunk_in_file(s, index);
                assert(rest[0] == index);
                assert(sent[actions@.len() as int] == index);
            }
            let ghost tail = sent_from(bits, s.credits - 1, index + 1, total);
            assert(index * s.chunk_size < s.file_len);
            let start: u64 = index as u64 * s.chunk_size as u64;
            let end: u64 = if s.file_len - start > s.chunk_size as u64 {
                start + s.chunk_size as u64
            } else {
                s.file_len
            };
            let ghost n = actions@.len() as int;
            actions.push(TransferAction::SendChunk { peer: s.peer, transfer_id: id, index, start, end });
            s.credits = s.credits - 1;
            proof {
                assert(rest =~= seq![index] + tail);
                assert forall|k: int| actions@.len() <= k < sent.len() implies #[trigger] sent[k] == tail[k - actions@.len()] by {
                    assert(sent[k] == rest[k - n]);
                }
            }
        }
        s.current_chunk_idx = index + 1;
    }
    (s, actions)
}

/// The transfers that are under way.
pub struct TransferManager {
    active_transfers: Table<ActiveTransfer>,
}

/// `getrandom::fill` on sixteen bytes. Nothing is claimed of them; where it fails, they
/// are left as they are.
#[verifier::external_body]
fn getrandom_fill(id: &mut [u8; 16])
{
    getrandom::fill(id).unwrap_or_default()
}

/// Sixteen random bytes. Nothing is claimed of them.
fn random_id() -> (r: [u8; 16])
{
    let mut id: [u8; 16] = [0u8; 16];
    getrandom_fill(&mut id);
    id
}

/// A line about a transfer: its number, the name of the file, how many chunks there are,
/// how many are done, and whether it is sent.
pub type TransferLine = (TransferId, String, u32, u32, bool);

/// The line belongs to the transfer.
pub open spec fn line_of(l: TransferLine, t: ActiveTransfer) -> bool {
    &&& l.0 == t.id
    &&& match t.state {
        TransferState::Sending(s) => l.1@ == "sending"@ && l.2 == s.total_chunks && l.3 == s.current_chunk_idx && l.4,
        TransferState::Receiving(r) => l.1@ == r.file_name@ && l.2 == r.total_chunks && l.3 == r.received_chunks && !l.4,
    }
}

impl TransferManager {
    /// The transfers, under their keys.
    pub closed spec fn view(self) -> Map<Key, ActiveTransfer> {
        self.active_transfers@
    }

    /// The transfers, in some order.
    pub closed spec fn listing(self) -> Seq<ActiveTransfer> {
        self.active_transfers.order().map_values(|k: Key| self.active_transfers@[k])
    }

    /// Every transfer stands under its own number, and is sound.
    pub closed spec fn wf(self) -> bool {
        &&& self.active_transfers.wf()
        &&& forall|k: Key| #[trigger]
            self.active_transfers@.contains_key(k) ==> transfer_key(self.active_transfers@[k].id) == k
                && self.active_transfers@[k].state.wf()
    }

    /// The transfer is under way.
    pub open spec fn has(self, id: TransferId) -> bool {
        self@.contains_key(transfer_key(id))
    }

    /// The state of a transfer.
    pub open spec fn state(self, id: TransferId) -> TransferState {
        self@[transfer_key(id)].state
    }

    /// The transfers, with one of them in another state.
    pub open spec fn with_state(self, id: TransferId, state: TransferState) -> Map<Key, ActiveTransfer> {
        self@.insert(transfer_key(id), ActiveTransfer { id, state })
    }

    pub fn new() -> (r: Self)
        ensures
            r.wf(),
            r@ == Map::<Key, ActiveTransfer>::empty(),
    {
        TransferManager { active_transfers: Table::new() }
    }

    /// The listing holds each transfer once.
    pub proof fn lemma_listing(self)
        requires
            self.wf(),
        ensures
            self.listing().len() == self@.len(),
            forall|k: Key| #[trigger] self@.contains_key(k) ==> self.listing().contains(self@[k]),
            forall|i: int| 0 <= i < self.listing().len() ==> self.has((#[trigger] self.listing()[i]).id)
                && self@[transfer_key(self.listing()[i].id)] == self.listing()[i],
            forall|i: int, j: int| 0 <= i < j < self.listing().len() ==> (#[trigger] self.listing()[i]).id != (#[trigger] self.listing()[j]).id,
    {
        self.active_transfers.lemma_order();
        let order = self.active_transfers.order();
        let s = self.listing();
        assert forall|k: Key| #[trigger] self@.contains_key(k) implies s.contains(self@[k]) by {
            assert(order.contains(k));
            let j = choose|j: int| 0 <= j < order.len() && order[j] == k;
            assert(s[j] == self@[k]);
        }
        assert forall|i: int| 0 <= i < s.len() implies self.has((#[trigger] s[i]).id) && self@[transfer_key(s[i].id)] == s[i] by {
            assert(self.active_transfers@.contains_key(order[i]));
        }
        assert forall|i: int, j: int| 0 <= i < j < s.len() implies (#[trigger] s[i]).id != (#[trigger] s[j]).id by {
            assert(self.active_transfers@.contains_key(order[i]));
            assert(self.active_transfers@.contains_key(order[j]));
            assert(order[i] != order[j]);
        }
    }

    fn take(&mut self, id: &TransferId) -> (r: Option<TransferState>)
        requires
            old(self).wf(),
        ensures
            final(self).wf(),
            final(self)@ == old(self)@.remove(transfer_key(*id)),
            r is Some <==> old(self).has(*id),
            r matches Some(s) ==> s == old(self).state(*id) && s.wf() && old(self)@[transfer_key(*id)].id == *id,
    {
        match self.active_transfers.remove(&key_of(id)) {
            Some(t) => {
                proof {
                    law_transfer_keys_are_distinct(t.id, *id);
                }
                Some(t.state)
            },
            None => None,
        }
    }

    fn put(&mut self, id: TransferId, state: TransferState)
        requires
            old(self).wf(),
            state.wf(),
        ensures
            final(self).wf(),
            final(self)@ == old(self).with_state(id, state),
    {
        let key = key_of(&id);
        let _ = self.active_transfers.insert(key, ActiveTransfer { id, state });
    }

    /// A line about each transfer.
    pub fn snapshot_transfers(&self) -> (r: Vec<TransferLine>)
        requires
            self.wf(),
        ensures
            r@.len() == self.listing().len(),
            r@.len() == self@.len(),
            forall|i: int| 0 <= i < r@.len() ==> line_of(#[trigger] r@[i], self.listing()[i]),
    {
        let mut out: Vec<TransferLine> = Vec::new();
        let n: usize = self.active_transfers.len();
        let mut i: usize = 0;
        while i < n
            invariant
                i <= n,
                self.wf(),
                n == self.active_transfers.order().len(),
                out@.len() == i,
                forall|j: int| 0 <= j < i ==> line_of(#[trigger] out@[j], self.listing()[j]),
            decreases n - i,
        {
            let t = self.active_transfers.value_at(i);
            let line: TransferLine = match &t.state {
                TransferState::Sending(s) => (t.id, String::from_str("sending"), s.total_chunks, s.current_chunk_idx, true),
                TransferState::Receiving(r) => (t.id, r.file_name.clone(), r.total_chunks, r.received_chunks, false),
            };
            out.push(line);
            i += 1;
        }
        out
    }

    /// Offers a file under a given number: its name, its size and its hash are known.
    pub fn offer_file_with(
        &mut self,
        transfer_id: TransferId,
        peer: SocketAddr,
        file_name: String,
        file_size: u64,
        chunk_size: u32,
        file_hash: [u8; 32],
    ) -> (r: Result<TransferAction, TransferError>)
        requires
            old(self).wf(),
        ensures
            final(self).wf(),
            match r {
                Ok(a) => {
                    let total = total_chunks_of(file_size, chunk_size);
                    &&& chunk_size > 0
                    &&& encode_utf8(file_name@).len() <= MAX_FILE_NAME_LEN
                    &&& sends(
                        a,
                        peer,
                        MessageType::FileOffer,
                        (FileOffer { transfer_id, file_name, file_size, chunk_size, total_chunks: total, file_hash }).wire(),
                    )
                    &&& final(self).has(transfer_id)
                    &&& final(self)@ == old(self).with_state(transfer_id, final(self).state(transfer_id))
                    &&& final(self).state(transfer_id) matches TransferState::Sending(s) && s.peer == peer && s.file_len == file_size
                        && s.bitfield@ == all_missing(total) && s.credits == 0 && s.chunk_size == chunk_size && s.total_chunks == total
                        && s.current_chunk_idx == 0
                },
                Err(e) => {
                    &&& chunk_size == 0 || encode_utf8(file_name@).len() > MAX_FILE_NAME_LEN
                    &&& e is InvalidState
                    &&& *final(self) == *old(self)
                },
            },
    {
        let total_chunks: u32 = compute_total_chunks(file_size, chunk_size);
        let offer = match FileOffer::new(transfer_id, file_name, file_size, chunk_size, file_hash) {
            Ok(o) => o,
            Err(_) => return Err(TransferError::InvalidState),
        };
        let state = SendingState {
            peer,
            file_len: file_size,
            bitfield: missing_all(total_chunks),
            credits: 0,
            chunk_size,
            total_chunks,
            current_chunk_idx: 0,
        };
        self.put(transfer_id, TransferState::Sending(state));
        Ok(send(peer, MessageType::FileOffer, offer.encode()))
    }

    /// Offers a file under a fresh number.
    pub fn offer_file(&mut self, peer: SocketAddr, file_name: String, file_size: u64, chunk_size: u32, file_hash: [u8; 32]) -> (r: Result<
        (TransferId, TransferAction),
        TransferError,
    >)
        requires
            old(self).wf(),
        ensures
            final(self).wf(),
            match r {
                Ok((transfer_id, a)) => {
                    let total = total_chunks_of(file_size, chunk_size);
                    &&& chunk_size > 0
                    &&& encode_utf8(file_name@).len() <= MAX_FILE_NAME_LEN
                    &&& sends(
                        a,
                        peer,
                        MessageType::FileOffer,
                        (FileOffer { transfer_id, file_name, file_size, chunk_size, total_chunks: total, file_hash }).wire(),
                    )
                    &&& final(self).has(transfer_id)
                    &&& final(self)@ == old(self).with_state(transfer_id, final(self).state(transfer_id))
                    &&& final(self).state(transfer_id) matches TransferState::Sending(s) && s.peer == peer && s.file_len == file_size
                        && s.bitfield@ == all_missing(total) && s.credits == 0 && s.chunk_size == chunk_size && s.total_chunks == total
                        && s.current_chunk_idx == 0
                },
                Err(e) => {
                    &&& chunk_size == 0 || encode_utf8(file_name@).len() > MAX_FILE_NAME_LEN
                    &&& e is InvalidState
                    &&& *final(self) == *old(self)
                },
            },
    {
        let transfer_id = TransferId(random_id());
        match self.offer_file_with(transfer_id, peer, file_name, file_size, chunk_size, file_hash) {
            Ok(a) => Ok((transfer_id, a)),
            Err(e) => Err(e),
        }
    }

    /// Offers a file with the given content: the offer tells its size and its hash.
    pub fn offer_content(&mut self, peer: SocketAddr, file_name: String, content: &[u8], chunk_size: u32) -> (r: Result<
        (TransferId, TransferAction),
        TransferError,
    >)
        requires
            old(self).wf(),
        ensures
            final(self).wf(),
            match r {
                Ok((transfer_id, a)) => {
                    &&& chunk_size > 0
                    &&& encode_utf8(file_name@).len() <= MAX_FILE_NAME_LEN
                    &&& exists|offer: FileOffer| #[trigger]
                        offers(offer, transfer_id, file_name, content@, chunk_size) && sends(
                            a,
                            peer,
                            MessageType::FileOffer,
                            offer.wire(),
                        )
                    &&& final(self).has(transfer_id)
                    &&& final(self)@ == old(self).with_state(transfer_id, final(self).state(transfer_id))
                    &&& final(self).state(transfer_id) matches TransferState::Sending(s) && s.peer == peer && s.file_len
                        == content@.len() && s.bitfield@ == all_missing(s.total_chunks) && s.credits == 0 && s.chunk_size
                        == chunk_size && s.total_chunks == total_chunks_of(content@.len() as u64, chunk_size)
                        && s.current_chunk_idx == 0
                },
                Err(e) => {
                    &&& chunk_size == 0 || encode_utf8(file_name@).len() > MAX_FILE_NAME_LEN
                    &&& e is InvalidState
                    &&& *final(self) == *old(self)
                },
            },
    {
        let file_size: u64 = content.len() as u64;
        let file_hash = calculate_file_hash(content, chunk_size);
        let ghost name = file_name;
        let r = self.offer_file(peer, file_name, file_size, chunk_size, file_hash);
        proof {
            if let Ok((transfer_id, _)) = r {
                let offer = FileOffer {
                    transfer_id,
                    file_name: name,
                    file_size,
                    chunk_size,
                    total_chunks: total_chunks_of(file_size, chunk_size),
                    file_hash,
                };
                assert(offers(offer, transfer_id, name, content@, chunk_size));
            }
        }
        r
    }

    /// An offer has come, and the file for it is there, of the offered size. It is accepted,
    /// with everything missing and the first credits.
    pub fn handle_offer(&mut self, peer: SocketAddr, offer: FileOffer, file_name: String) -> (r: (TransferAction, TransferAction))
        requires
            old(self).wf(),
        ensures
            final(self).wf(),
            final(self).has(offer.transfer_id),
            final(self)@ == old(self).with_state(offer.transfer_id, final(self).state(offer.transfer_id)),
            final(self).state(offer.transfer_id) matches TransferState::Receiving(s) && s.peer == peer && s.file_len == offer.file_size
                && s.expected_root == offer.file_hash && s.bitfield@ == all_missing(offer.total_chunks) && s.chunk_size
                == offer.chunk_size && s.total_chunks == offer.total_chunks && s.received_chunks == 0 && s.file_name == file_name
                && s.hashes@ == Map::<u32, [u8; 32]>::empty(),
            exists|m: FileAccept| #[trigger]
                accepts_all(m, offer.transfer_id, offer.total_chunks) && sends(r.0, peer, MessageType::FileAccept, m.wire()),
            sends(r.1, peer, MessageType::CreditUpdate, credit_wire(offer.transfer_id, INITIAL_CREDITS)),
    {
        let state = ReceivingState {
            peer,
            file_len: offer.file_size,
            expected_root: offer.file_hash,
            bitfield: missing_all(offer.total_chunks),
            chunk_size: offer.chunk_size,
            total_chunks: offer.total_chunks,
            received_chunks: 0,
            file_name,
            hashes: HashMap::new(),
        };
        proof {
            assert forall|i: u32| i < offer.total_chunks implies #[trigger] marked(all_missing(offer.total_chunks), i) by {
                law_everything_is_missing_at_first(offer.total_chunks, i);
            }
            lemma_present(all_missing(offer.total_chunks), offer.total_chunks as int);
            assert(state.hashes@ =~= Map::<u32, [u8; 32]>::empty());
        }
        self.put(offer.transfer_id, TransferState::Receiving(state));
        let accept = FileAccept::new(offer.transfer_id, missing_all(offer.total_chunks));
        assert(accepts_all(accept, offer.transfer_id, offer.total_chunks));
        (
            send(peer, MessageType::FileAccept, accept.encode()),
            send(peer, MessageType::CreditUpdate, credit_payload(&offer.transfer_id, INITIAL_CREDITS)),
        )
    }

    /// What is done about an acceptance.
    pub open spec fn accept_handled(self, after: TransferManager, accept: FileAccept, r: Result<(), TransferError>) -> bool {
        let id = accept.transfer_id;
        if self.has(id) && self.state(id) is Sending {
            &&& r is Ok
            &&& after@ == self.with_state(
                id,
                TransferState::Sending(SendingState { bitfield: accept.missing_bitmap, ..self.state(id)->Sending_0 }),
            )
        } else {
            &&& r == Err::<(), TransferError>(TransferError::NotFound)
            &&& after@ == self@
        }
    }

    /// An offer was accepted: the chunks to send are those that the receiver lacks. Sending
    /// waits for credits.
    pub fn handle_accept(&mut self, accept: FileAccept) -> (r: Result<(), TransferError>)
        requires
            old(self).wf(),
        ensures
            final(self).wf(),
            old(self).accept_handled(*final(self), accept, r),
    {
        let id = accept.transfer_id;
        match self.take(&id) {
            Some(TransferState::Sending(s)) => {
                let mut s = s;
                s.bitfield = accept.missing_bitmap;
                self.put(id, TransferState::Sending(s));
                assert(self@ =~= old(self).with_state(id, TransferState::Sending(s)));
                Ok(())
            },
            Some(other) => {
                self.put(id, other);
                assert(self@ =~= old(self)@);
                Err(TransferError::NotFound)
            },
            None => {
                assert(self@ =~= old(self)@);
                Err(TransferError::NotFound)
            },
        }
    }

    /// What becomes of a transfer that goes on sending from the state `s`.
    pub open spec fn goes_on(self, after: TransferManager, id: TransferId, s: SendingState, actions: Seq<TransferAction>) -> bool {
        &&& pump_requests(id, s, actions)
        &&& after.state(id) is Sending
        &&& pumped(s, after.state(id)->Sending_0)
        &&& after@ == self.with_state(id, after.state(id))
    }

    /// What is done about credits.
    pub open spec fn credit_handled(self, after: TransferManager, id: TransferId, credits: u32, actions: Seq<TransferAction>) -> bool {
        if self.has(id) && self.state(id) is Sending {
            let s = self.state(id)->Sending_0;
            self.goes_on(after, id, SendingState { credits: counted32(s.credits, credits), ..s }, actions)
        } else {
            &&& actions.len() == 0
            &&& after@ == self@
        }
    }

    /// Credits have come: they are added to those that there are, and chunks are sent.
    pub fn handle_credit_update(&mut self, transfer_id: TransferId, credits: u32) -> (r: Vec<TransferAction>)
        requires
            old(self).wf(),
        ensures
            final(self).wf(),
            old(self).credit_handled(*final(self), transfer_id, credits, r@),
    {
        match self.take(&transfer_id) {
            Some(TransferState::Sending(s)) => {
                let mut s = s;
                s.credits = count32(s.credits, credits);
                let (s, actions) = pump(transfer_id, s);
                self.put(transfer_id, TransferState::Sending(s));
                assert(self@ =~= old(self).with_state(transfer_id, TransferState::Sending(s)));
                actions
            },
            Some(other) => {
                self.put(transfer_id, other);
                assert(self@ =~= old(self)@);
                Vec::new()
            },
            None => {
                assert(self@ =~= old(self)@);
                Vec::new()
            },
        }
    }

    /// Sends what the credits of a transfer allow.
    pub fn pump_send(&mut self, transfer_id: TransferId) -> (r: Vec<TransferAction>)
        requires
            old(self).wf(),
        ensures
            final(self).wf(),
            if old(self).has(transfer_id) && old(self).state(transfer_id) is Sending {
                old(self).goes_on(*final(self), transfer_id, old(self).state(transfer_id)->Sending_0, r@)
            } else {
                &&& r@.len() == 0
                &&& final(self)@ == old(self)@
            },
    {
        match self.take(&transfer_id) {
            Some(TransferState::Sending(s)) => {
                let (s, actions) = pump(transfer_id, s);
                self.put(transfer_id, TransferState::Sending(s));
                assert(self@ =~= old(self).with_state(transfer_id, TransferState::Sending(s)));
                actions
            },
            Some(other) => {
                self.put(transfer_id, other);
                assert(self@ =~= old(self)@);
                Vec::new()
            },
            None => {
                assert(self@ =~= old(self)@);
                Vec::new()
            },
        }
    }

    /// What is done about an acknowledgement.
    pub open spec fn ack_handled(self, after: TransferManager, ack: FileChunkAck, actions: Seq<TransferAction>) -> bool {
        let id = ack.transfer_id;
        if self.has(id) && self.state(id) is Sending {
            exists|s: SendingState| #[trigger]
                acknowledged(self.state(id)->Sending_0, ack, s) && self.goes_on(after, id, s, actions)
        } else {
            &&& actions.len() == 0
            &&& after@ == self@
        }
    }

    /// An acknowledgement has come. A chunk with a bad hash is missing again, and sending
    /// goes back to it. Then sending goes on.
    pub fn handle_chunk_ack(&mut self, ack: FileChunkAck) -> (r: Vec<TransferAction>)
        requires
            old(self).wf(),
        ensures
            final(self).wf(),
            old(self).ack_handled(*final(self), ack, r@),
    {
        let id = ack.transfer_id;
        match self.take(&id) {
            Some(TransferState::Sending(s)) => {
                let ghost before = s;
                let mut s = s;
                if matches!(ack.status, ChunkAckStatus::BadHash) {
                    let mut bits = s.bitfield;
                    bitmap_set_missing(bits.as_mut_slice(), ack.chunk_index, true);
                    s.bitfield = bits;
                    if ack.chunk_index < s.current_chunk_idx {
                        s.current_chunk_idx = ack.chunk_index;
                    }
                }
                let ghost middle = s;
                assert(acknowledged(before, ack, middle));
                let (s, actions) = pump(id, s);
                self.put(id, TransferState::Sending(s));
                assert(self@ =~= old(self).with_state(id, TransferState::Sending(s)));
                assert(old(self).goes_on(*self, id, middle, actions@));
                actions
            },
            Some(other) => {
                self.put(id, other);
                assert(self@ =~= old(self)@);
                Vec::new()
            },
            None => {
                assert(self@ =~= old(self)@);
                Vec::new()
            },
        }
    }

    /// What is done about a chunk.
    pub open spec fn chunk_handled(
        self,
        after: TransferManager,
        chunk: FileChunk,
        r: Result<(), TransferError>,
        actions: Seq<TransferAction>,
    ) -> bool {
        if !self.has(chunk.transfer_id) {
            &&& r == Err::<(), TransferError>(TransferError::NotFound)
            &&& actions.len() == 0
            &&& after@ == self@
        } else {
            match self.state(chunk.transfer_id) {
                TransferState::Sending(_) => r is Ok && actions.len() == 0 && after@ == self@,
                TransferState::Receiving(s) => self.receives(after, s, chunk, r, actions),
            }
        }
    }

    /// A chunk has come. One whose hash is wrong is refused. One that lies within the file is
    /// written and acknowledged, and a credit is given back for it. Once no chunk is lacking,
    /// the transfer is complete if the file has the hash that was offered.
    pub fn handle_chunk(&mut self, chunk: FileChunk) -> (r: (Result<(), TransferError>, Vec<TransferAction>))
        requires
            old(self).wf(),
        ensures
            final(self).wf(),
            old(self).chunk_handled(*final(self), chunk, r.0, r.1@),
    {
        let id = chunk.transfer_id;
        match self.take(&id) {
            Some(TransferState::Receiving(s)) => {
                let calculated = hash_chunk(bytes_as_slice(&chunk.data));
                let ghost taken = *self;
                let r = self.finish_chunk(chunk, s, calculated);
                proof {
                    let k = transfer_key(id);
                    assert forall|x: TransferState| #[trigger] taken.with_state(id, x) == old(self).with_state(id, x) by {
                        assert(taken.with_state(id, x) =~= old(self).with_state(id, x));
                    }
                    assert(taken@.remove(k) =~= old(self)@.remove(k));
                }
                r
            },
            Some(other) => {
                self.put(id, other);
                assert(self@ =~= old(self)@);
                (Ok(()), Vec::new())
            },
            None => {
                assert(self@ =~= old(self)@);
                (Err(TransferError::NotFound), Vec::new())
            },
        }
    }

    /// What is done about a chunk for the transfer in state `s`.
    pub open spec fn receives(
        self,
        after: TransferManager,
        s: ReceivingState,
        chunk: FileChunk,
        r: Result<(), TransferError>,
        actions: Seq<TransferAction>,
    ) -> bool {
        self.settles(after, s, chunk, sha256(bytes_contents(chunk.data)), r, actions)
    }

    /// What is done about a chunk whose data has the hash `hash`.
    pub open spec fn settles(
        self,
        after: TransferManager,
        s: ReceivingState,
        chunk: FileChunk,
        hash: Seq<u8>,
        r: Result<(), TransferError>,
        actions: Seq<TransferAction>,
    ) -> bool {
        let id = chunk.transfer_id;
        let start = chunk_start(chunk.chunk_index, s.chunk_size);
        let data = bytes_contents(chunk.data);
        if hash != chunk.chunk_hash@ {
            &&& r == Err::<(), TransferError>(TransferError::BadHash)
            &&& actions.len() == 1
            &&& sends(actions[0], s.peer, MessageType::FileChunkAck, ack_of(chunk, ChunkAckStatus::BadHash).wire())
            &&& after@ == self.with_state(id, TransferState::Receiving(s))
        } else if start + data.len() > s.file_len {
            &&& r is Ok
            &&& actions.len() == 0
            &&& after@ == self.with_state(id, TransferState::Receiving(s))
        } else {
            exists|t: ReceivingState| #[trigger]
                s.recorded(chunk.chunk_index, data.len() as int, chunk.chunk_hash, t) && self.concludes(
                    after,
                    t,
                    chunk,
                    root_of(t),
                    r,
                    actions,
                )
        }
    }

    /// What is done about a chunk that was recorded in the state `t`, where `root` is the hash
    /// of the file, once that is known. The transfer is complete if nothing is lacking and
    /// that is the hash that was offered.
    pub open spec fn concludes(
        self,
        after: TransferManager,
        t: ReceivingState,
        chunk: FileChunk,
        root: Option<Seq<u8>>,
        r: Result<(), TransferError>,
        actions: Seq<TransferAction>,
    ) -> bool {
        let id = chunk.transfer_id;
        let complete = t.nothing_missing() && root == Some(t.expected_root@);
        &&& actions.len() == (if complete { 5int } else { 3int })
        &&& actions[0] == (TransferAction::Write {
            transfer_id: id,
            start: chunk_start(chunk.chunk_index, t.chunk_size) as u64,
            data: chunk.data,
        })
        &&& sends(actions[1], t.peer, MessageType::FileChunkAck, ack_of(chunk, ChunkAckStatus::Received).wire())
        &&& sends(actions[2], t.peer, MessageType::CreditUpdate, credit_wire(id, 1))
        &&& if complete {
            &&& r is Ok
            &&& actions[3] == (TransferAction::Finish { transfer_id: id })
            &&& exists|m: FileComplete| #[trigger]
                completes(m, id) && sends(actions[4], t.peer, MessageType::FileComplete, m.wire())
            &&& after@ == self@.remove(transfer_key(id))
        } else {
            &&& r == (if t.nothing_missing() {
                Err::<(), TransferError>(TransferError::BadHash)
            } else {
                Ok::<(), TransferError>(())
            })
            &&& after@ == self.with_state(id, TransferState::Receiving(t))
        }
    }

    /// What is done about a chunk for the transfer in state `s`, which was taken out, once
    /// the hash of the data is known.
    pub fn finish_chunk(&mut self, chunk: FileChunk, s: ReceivingState, calculated: [u8; 32]) -> (r: (
        Result<(), TransferError>,
        Vec<TransferAction>,
    ))
        requires
            old(self).wf(),
            s.wf(),
        ensures
            final(self).wf(),
            old(self).settles(*final(self), s, chunk, calculated@, r.0, r.1@),
    {
        let id = chunk.transfer_id;
        if !bytes_equal(calculated.as_slice(), chunk.chunk_hash.as_slice()) {
            let mut actions: Vec<TransferAction> = Vec::new();
            let ack = FileChunkAck { transfer_id: id, chunk_index: chunk.chunk_index, status: ChunkAckStatus::BadHash };
            actions.push(send(s.peer, MessageType::FileChunkAck, ack.encode()));
            self.put(id, TransferState::Receiving(s));
            return (Err(TransferError::BadHash), actions);
        }
        proof {
            lemma_start_fits(chunk.chunk_index, s.chunk_size);
        }
        let start: u64 = chunk.chunk_index as u64 * s.chunk_size as u64;
        let n: u128 = bytes_as_slice(&chunk.data).len() as u128;
        if start as u128 + n > s.file_len as u128 {
            self.put(id, TransferState::Receiving(s));
            return (Ok(()), Vec::new());
        }
        let ghost before = s;
        let t = s.record(chunk.chunk_index, n as u64, chunk.chunk_hash);
        let root: Option<[u8; 32]> = match t.joined_hashes() {
            Some(hashes) => Some(hash_chunk(hashes.as_slice())),
            None => None,
        };
        assert(before.recorded(chunk.chunk_index, bytes_contents(chunk.data).len() as int, chunk.chunk_hash, t));
        self.conclude_chunk(chunk, t, root)
    }

    /// What is done about a chunk that was recorded in the state `t`, which was taken out, once
    /// the hash of the file is known, or is known to be unknown.
    pub fn conclude_chunk(&mut self, chunk: FileChunk, t: ReceivingState, root: Option<[u8; 32]>) -> (r: (
        Result<(), TransferError>,
        Vec<TransferAction>,
    ))
        requires
            old(self).wf(),
            t.wf(),
        ensures
            final(self).wf(),
            old(self).concludes(
                *final(self),
                t,
                chunk,
                match root {
                    Some(h) => Some(h@),
                    None => None,
                },
                r.0,
                r.1@,
            ),
    {
        let id = chunk.transfer_id;
        let peer = t.peer;
        proof {
            lemma_start_fits(chunk.chunk_index, t.chunk_size);
        }
        let start: u64 = chunk.chunk_index as u64 * t.chunk_size as u64;
        let mut actions: Vec<TransferAction> = Vec::new();
        let ack = FileChunkAck { transfer_id: id, chunk_index: chunk.chunk_index, status: ChunkAckStatus::Received };
        actions.push(TransferAction::Write { transfer_id: id, start, data: chunk.data });
        actions.push(send(peer, MessageType::FileChunkAck, ack.encode()));
        actions.push(send(peer, MessageType::CreditUpdate, credit_payload(&id, 1)));
        let filled: bool = t.is_filled();
        let matching: bool = match root {
            Some(h) => bytes_equal(h.as_slice(), t.expected_root.as_slice()),
            None => false,
        };
        if filled && matching {
            let complete = FileComplete { transfer_id: id, file_hash: [0u8; 32] };
            proof {
                assert(complete.file_hash@ =~= Seq::new(32, |i: int| 0u8));
                assert(completes(complete, id));
            }
            actions.push(TransferAction::Finish { transfer_id: id });
            actions.push(send(peer, MessageType::FileComplete, complete.encode()));
            let _ = self.take(&id);
            (Ok(()), actions)
        } else {
            self.put(id, TransferState::Receiving(t));
            if filled {
                (Err(TransferError::BadHash), actions)
            } else {
                (Ok(()), actions)
            }
        }
    }
}

/// The hash of the file that is being received, once the hashes of its chunks are known.
pub open spec fn root_of(t: ReceivingState) -> Option<Seq<u8>> {
    if t.covered() {
        Some(sha256(joined(t.hashes@, t.total_chunks as int)))
    } else {
        None
    }
}

/// The offer is for a file with this name and content.
pub open spec fn offers(offer: FileOffer, transfer_id: TransferId, file_name: String, content: Seq<u8>, chunk_size: u32) -> bool {
    &&& offer.transfer_id == transfer_id
    &&& offer.file_name == file_name
    &&& offer.file_size == content.len()
    &&& offer.chunk_size == chunk_size
    &&& offer.total_chunks == total_chunks_of(offer.file_size, chunk_size)
    &&& offer.file_hash@ == file_hash(content, chunk_size as nat)
}

/// The acceptance asks for every chunk.
pub open spec fn accepts_all(m: FileAccept, id: TransferId, total_chunks: u32) -> bool {
    &&& m.transfer_id == id
    &&& m.missing_bitmap@ == all_missing(total_chunks)
    &&& m.resume == (total_chunks > 0)
}

/// The notice of completion; its hash is left blank.
pub open spec fn completes(m: FileComplete, id: TransferId) -> bool {
    m.transfer_id == id && m.file_hash@ == Seq::new(32, |i: int| 0u8)
}

/// The acknowledgement of a chunk.
pub open spec fn ack_of(chunk: FileChunk, status: ChunkAckStatus) -> FileChunkAck {
    FileChunkAck { transfer_id: chunk.transfer_id, chunk_index: chunk.chunk_index, status }
}

/// The sender after an acknowledgement.
pub open spec fn acknowledged(s: SendingState, ack: FileChunkAck, t: SendingState) -> bool {
    if ack.status is BadHash {
        &&& t == (SendingState {
            bitfield: t.bitfield,
            current_chunk_idx: if ack.chunk_index < s.current_chunk_idx {
                ack.chunk_index
            } else {
                s.current_chunk_idx
            },
            ..s
        })
        &&& t.bitfield@ == with_mark(s.bitfield@, ack.chunk_index, true)
    } else {
        t == s
    }
}

/// A grant of credits is read back from its wire form: the transfer and the number.
pub proof fn law_credit_roundtrip(id: TransferId, credits: u32)
    ensures
        credit_wire(id, credits).len() == 20,
        credit_wire(id, credits).subrange(0, 16) == id@,
        le_val(credit_wire(id, credits).subrange(16, 20)) == credits,
{
    broadcast use lemma_le_len;

    let w = credit_wire(id, credits);
    assert(w.subrange(0, 16) =~= id@);
    assert(w.subrange(16, 20) =~= le(credits as nat, 4));
    lemma_pow256_values();
    lemma_le_roundtrip(credits as nat, 4);
}

/// The chunks of a file lie side by side: the first begins at its beginning, each begins
/// where the one before it ends, and the last ends at its end.
pub proof fn law_chunks_tile_the_file(s: SendingState, index: u32)
    requires
        TransferState::Sending(s).wf(),
        index < s.total_chunks,
        (s.file_len - 1) / (s.chunk_size as int) < u32::MAX,
    ensures
        chunk_start(0, s.chunk_size) == 0,
        index + 1 < s.total_chunks ==> chunk_end(index, s.chunk_size, s.file_len) == chunk_start((index + 1) as u32, s.chunk_size),
        index + 1 == s.total_chunks ==> chunk_end(index, s.chunk_size, s.file_len) == s.file_len,
{
    let c = s.chunk_size as int;
    law_chunks_cover_the_file(s.file_len, s.chunk_size);
    assert(index * c + c == (index + 1) * c) by (nonlinear_arith);
    if index + 1 < s.total_chunks {
        lemma_chunk_in_file(s, (index + 1) as u32);
    }
}

/// A file in which every chunk is in its place is the file that was sent.
pub proof fn law_all_chunks_make_the_file(s: SendingState, content: Seq<u8>, file: Seq<u8>)
    requires
        TransferState::Sending(s).wf(),
        content.len() == s.file_len,
        file.len() == s.file_len,
        s.file_len > 0 ==> (s.file_len - 1) / (s.chunk_size as int) < u32::MAX,
        forall|i: u32|
            i < s.total_chunks ==> #[trigger] part(file, s, i) == part(content, s, i),
    ensures
        file == content,
{
    assert forall|p: int| 0 <= p < file.len() implies file[p] == content[p] by {
        let c = s.chunk_size as int;
        let q = p / c;
        let top = (s.file_len - 1) / c;
        assert(0 <= q <= top && q * c <= p < q * c + c) by (nonlinear_arith)
            requires
                0 <= p <= s.file_len - 1,
                c > 0,
                q == p / c,
                top == (s.file_len - 1) / c,
        ;
        let i = q as u32;
        assert(i < s.total_chunks);
        lemma_chunk_in_file(s, i);
        assert(part(file, s, i) == part(content, s, i));
        let start = chunk_start(i, s.chunk_size);
        assert(part(file, s, i)[p - start] == file[p]);
        assert(part(content, s, i)[p - start] == content[p]);
    }
    assert(file =~= content);
}

/// The part of a file that a chunk holds.
pub open spec fn part(file: Seq<u8>, s: SendingState, i: u32) -> Seq<u8> {
    file.subrange(chunk_start(i, s.chunk_size), chunk_end(i, s.chunk_size, s.file_len))
}

/// What the sender reads from its file for a chunk is what the receiver writes to the same
/// place of a file of the same size: the chunk is acknowledged, and is just that chunk.
pub proof fn law_chunk_lands_where_it_was_read(
    s: SendingState,
    t: ReceivingState,
    content: Seq<u8>,
    c: FileChunk,
    id: TransferId,
    before: TransferManager,
    after: TransferManager,
    r: Result<(), TransferError>,
    actions: Seq<TransferAction>,
)
    requires
        TransferState::Sending(s).wf(),
        c.chunk_index < s.total_chunks,
        content.len() == s.file_len,
        t.file_len == s.file_len,
        t.chunk_size == s.chunk_size,
        carries(
            c,
            id,
            c.chunk_index,
            content.subrange(
                chunk_start(c.chunk_index, s.chunk_size),
                chunk_end(c.chunk_index, s.chunk_size, s.file_len),
            ),
        ),
        before.receives(after, t, c, r, actions),
    ensures
        t.is_chunk(c.chunk_index, bytes_contents(c.data).len() as int),
        actions.len() >= 3,
        sends(actions[1], t.peer, MessageType::FileChunkAck, ack_of(c, ChunkAckStatus::Received).wire()),
        actions[0] matches TransferAction::Write { transfer_id, start, data } && transfer_id == id && start == chunk_start(
            c.chunk_index,
            s.chunk_size,
        ) && bytes_contents(data) == content.subrange(start as int, start + bytes_contents(data).len()),
{
    lemma_chunk_in_file(s, c.chunk_index);
    let a = chunk_start(c.chunk_index, s.chunk_size);
    let b = chunk_end(c.chunk_index, s.chunk_size, s.file_len);
    assert(content.subrange(a, b).len() == b - a);
}

/// What is sent to a peer goes to it in a frame of its own, unencrypted as yet, without a number,
/// with the length of what it carries.
pub proof fn law_sent_frames(a: TransferAction, to: SocketAddr, msg_type: MessageType, payload: Seq<u8>)
    requires
        sends(a, to, msg_type, payload),
    ensures
        a matches TransferAction::Send { peer, frame } && peer == to && frame.data() == payload && frame.header.msg_type == msg_type
            && frame.header.flags.0 == 0 && frame.header.request_id == 0 && (payload.len() <= u32::MAX ==> frame.header.payload_len
            == payload.len()),
{
}

/// What is asked of the file's owner when chunks can be sent: one chunk for each credit, in the order
/// of the file from the next chunk on, only chunks that are missing, each from its place in the
/// file, and none that is missing is left out. The credits are used up by it, and nothing else
/// about the transfer changes.
pub proof fn law_chunks_go_out_for_credits(id: TransferId, s: SendingState, t: SendingState, actions: Seq<TransferAction>, k: int, j: u32)
    requires
        TransferState::Sending(s).wf(),
        s.current_chunk_idx <= s.total_chunks,
        pump_requests(id, s, actions),
        pumped(s, t),
    ensures
        actions.len() + t.credits == s.credits,
        t.credits > 0 ==> t.current_chunk_idx == s.total_chunks,
        s.current_chunk_idx <= t.current_chunk_idx <= s.total_chunks,
        t.peer == s.peer && t.file_len == s.file_len && t.bitfield == s.bitfield && t.chunk_size == s.chunk_size && t.total_chunks
            == s.total_chunks,
        0 <= k < actions.len() ==> (actions[k] matches TransferAction::SendChunk { peer, transfer_id, index, start, end } && peer
            == s.peer && transfer_id == id && s.current_chunk_idx <= index < t.current_chunk_idx && marked(s.bitfield@, index)
            && start == index * s.chunk_size && (end == start + s.chunk_size && end <= s.file_len || end == s.file_len && end < start
            + s.chunk_size)),
        0 < k < actions.len() ==> actions[k - 1]->index < actions[k]->index,
        s.current_chunk_idx <= j < t.current_chunk_idx && marked(s.bitfield@, j) ==> exists|l: int|
            0 <= l < actions.len() && (#[trigger] actions[l])->index == j,
{
    let (b, c, i, n) = (s.bitfield@, s.credits as int, s.current_chunk_idx as int, s.total_chunks as int);
    let sent = sent_from(b, c, i, n);
    law_credits_bound_what_is_sent(b, c, i, n);
    if 0 <= k < actions.len() {
        lemma_sent_before_next(b, c, i, n, k);
        lemma_chunk_in_file(s, sent[k]);
        lemma_start_fits(sent[k], s.chunk_size);
        if k > 0 {
            assert(actions[k - 1] == chunk_request(id, s, sent[k - 1]));
        }
    }
    if i <= j < t.current_chunk_idx && marked(b, j) {
        law_no_missing_chunk_is_passed_over(b, c, i, n, j);
        let l = choose|l: int| 0 <= l < sent.len() && sent[l] == j;
        assert(actions[l] == chunk_request(id, s, sent[l]));
        assert(actions[l]->index == j);
    }
}

proof fn lemma_sent_before_next(bitfield: Seq<u8>, credits: int, i: int, total: int, k: int)
    requires
        0 <= i,
        total <= u32::MAX,
        0 <= k < sent_from(bitfield, credits, i, total).len(),
    ensures
        sent_from(bitfield, credits, i, total)[k] < next_from(bitfield, credits, i, total),
        i < next_from(bitfield, credits, i, total),
    decreases total - i,
{
    if credits <= 0 || i >= total {
    } else if marked(bitfield, i as u32) {
        let rest = sent_from(bitfield, credits - 1, i + 1, total);
        if k > 0 {
            lemma_sent_before_next(bitfield, credits - 1, i + 1, total, k - 1);
        } else {
            lemma_next_is_later(bitfield, credits - 1, i + 1, total);
        }
    } else {
        lemma_sent_before_next(bitfield, credits, i + 1, total, k);
    }
}

proof fn lemma_next_is_later(bitfield: Seq<u8>, credits: int, i: int, total: int)
    ensures
        i <= next_from(bitfield, credits, i, total),
    decreases total - i,
{
    if credits <= 0 || i >= total || i < 0 {
    } else if marked(bitfield, i as u32) {
        lemma_next_is_later(bitfield, credits - 1, i + 1, total);
    } else {
        lemma_next_is_later(bitfield, credits, i + 1, total);
    }
}

/// Credits come on top of those that are left, and what is not used up by chunks that go out stays.
/// Credits for a transfer in which nothing is sent do nothing.
pub proof fn law_credits_come_on_top(
    before: TransferManager,
    after: TransferManager,
    id: TransferId,
    credits: u32,
    actions: Seq<TransferAction>,
)
    requires
        before.credit_handled(after, id, credits, actions),
    ensures
        before.has(id) && before.state(id) is Sending ==> {
            let s = before.state(id)->Sending_0;
            let t = after.state(id)->Sending_0;
            &&& after.has(id) && after.state(id) is Sending
            &&& s.credits + credits <= u32::MAX && s.current_chunk_idx <= s.total_chunks && TransferState::Sending(s).wf()
                ==> actions.len() + t.credits == s.credits + credits
            &&& t.peer == s.peer && t.bitfield == s.bitfield && t.file_len == s.file_len && t.chunk_size == s.chunk_size
                && t.total_chunks == s.total_chunks
        },
        !before.has(id) || before.state(id) is Receiving ==> after@ == before@ && actions.len() == 0,
{
    if before.has(id) && before.state(id) is Sending {
        let s = before.state(id)->Sending_0;
        let with = SendingState { credits: counted32(s.credits, credits), ..s };
        law_credits_bound_what_is_sent(s.bitfield@, with.credits as int, s.current_chunk_idx as int, s.total_chunks as int);
    }
}

/// A chunk that was bad on arrival counts as missing again and goes out again at once, before any
/// other, if there is a credit for it and it was passed already.
pub proof fn law_bad_chunk_goes_out_again(
    before: TransferManager,
    after: TransferManager,
    ack: FileChunkAck,
    actions: Seq<TransferAction>,
    other: u32,
)
    requires
        before.ack_handled(after, ack, actions),
        before.has(ack.transfer_id),
        before.state(ack.transfer_id) is Sending,
        ack.status is BadHash,
    ensures
        after.has(ack.transfer_id),
        after.state(ack.transfer_id) is Sending,
        other != ack.chunk_index ==> marked(after.state(ack.transfer_id)->Sending_0.bitfield@, other) == marked(
            before.state(ack.transfer_id)->Sending_0.bitfield@,
            other,
        ),
        ack.chunk_index / 8 < before.state(ack.transfer_id)->Sending_0.bitfield@.len() ==> marked(
            after.state(ack.transfer_id)->Sending_0.bitfield@,
            ack.chunk_index,
        ),
        ({
            let s = before.state(ack.transfer_id)->Sending_0;
            ack.chunk_index / 8 < s.bitfield@.len() && s.credits > 0 && ack.chunk_index <= s.current_chunk_idx && ack.chunk_index
                < s.total_chunks
        }) ==> actions.len() > 0 && (actions[0] matches TransferAction::SendChunk { transfer_id, index, .. } && transfer_id
            == ack.transfer_id && index
            == ack.chunk_index),
        ack.chunk_index > before.state(ack.transfer_id)->Sending_0.current_chunk_idx && before.state(
            ack.transfer_id,
        )->Sending_0.credits == 0 ==> after.state(ack.transfer_id)->Sending_0.current_chunk_idx == before.state(
            ack.transfer_id,
        )->Sending_0.current_chunk_idx,
{
    let id = ack.transfer_id;
    let s = before.state(id)->Sending_0;
    let m = choose|m: SendingState| #[trigger] acknowledged(s, ack, m) && before.goes_on(after, id, m, actions);
    law_mark_touches_one_chunk(s.bitfield@, ack.chunk_index, true, ack.chunk_index);
    law_mark_touches_one_chunk(s.bitfield@, ack.chunk_index, true, other);
    let sent = sent_from(m.bitfield@, m.credits as int, m.current_chunk_idx as int, m.total_chunks as int);
    if ack.chunk_index / 8 < s.bitfield@.len() && s.credits > 0 && ack.chunk_index <= s.current_chunk_idx && ack.chunk_index
        < s.total_chunks {
        assert(marked(m.bitfield@, ack.chunk_index));
        assert(sent[0] == ack.chunk_index);
        assert(actions[0] == chunk_request(id, m, sent[0]));
    }
}

/// A chunk that arrived well changes nothing about what is missing, and without a credit nothing goes
/// out for it.
pub proof fn law_good_chunk_is_no_longer_sent(
    before: TransferManager,
    after: TransferManager,
    ack: FileChunkAck,
    actions: Seq<TransferAction>,
)
    requires
        before.ack_handled(after, ack, actions),
        !(ack.status is BadHash),
    ensures
        before.has(ack.transfer_id) && before.state(ack.transfer_id) is Sending ==> {
            &&& after.state(ack.transfer_id) is Sending
            &&& after.state(ack.transfer_id)->Sending_0.bitfield == before.state(ack.transfer_id)->Sending_0.bitfield
            &&& before.state(ack.transfer_id)->Sending_0.credits == 0 ==> actions.len() == 0 && after.state(ack.transfer_id)
                == before.state(ack.transfer_id)
        },
        !before.has(ack.transfer_id) || before.state(ack.transfer_id) is Receiving ==> after@ == before@ && actions.len() == 0,
{
    let id = ack.transfer_id;
    if before.has(id) && before.state(id) is Sending {
        let s = before.state(id)->Sending_0;
        let m = choose|m: SendingState| #[trigger] acknowledged(s, ack, m) && before.goes_on(after, id, m, actions);
        assert(m == s);
    }
}

/// An acceptance tells which chunks are missing: those it names, and no others. It changes nothing
/// else, and is an error where nothing is sent.
pub proof fn law_acceptance_tells_what_is_missing(
    before: TransferManager,
    after: TransferManager,
    accept: FileAccept,
    r: Result<(), TransferError>,
)
    requires
        before.accept_handled(after, accept, r),
    ensures
        before.has(accept.transfer_id) && before.state(accept.transfer_id) is Sending ==> {
            let s = before.state(accept.transfer_id)->Sending_0;
            let t = after.state(accept.transfer_id)->Sending_0;
            &&& r is Ok
            &&& after.has(accept.transfer_id) && after.state(accept.transfer_id) is Sending
            &&& t.bitfield@ == accept.missing_bitmap@
            &&& t.peer == s.peer && t.file_len == s.file_len && t.credits == s.credits && t.chunk_size == s.chunk_size
                && t.total_chunks == s.total_chunks && t.current_chunk_idx == s.current_chunk_idx
        },
        !before.has(accept.transfer_id) || before.state(accept.transfer_id) is Receiving ==> r == Err::<(), TransferError>(
            TransferError::NotFound,
        ) && after@ == before@,
{
}

/// What is done for one transfer leaves every other as it was.
pub proof fn law_transfers_are_apart(
    before: TransferManager,
    after: TransferManager,
    id: TransferId,
    other: TransferId,
    accept: FileAccept,
    ack: FileChunkAck,
    chunk: FileChunk,
    credits: u32,
    r: Result<(), TransferError>,
    actions: Seq<TransferAction>,
)
    requires
        other != id,
        accept.transfer_id == id && before.accept_handled(after, accept, r) || ack.transfer_id == id && before.ack_handled(
            after,
            ack,
            actions,
        ) || chunk.transfer_id == id && before.chunk_handled(after, chunk, r, actions) || before.credit_handled(
            after,
            id,
            credits,
            actions,
        ),
    ensures
        after.has(other) == before.has(other),
        after.has(other) ==> after.state(other) == before.state(other),
{
    if transfer_key(id) == transfer_key(other) {
        law_transfer_keys_are_distinct(id, other);
    }
}

/// A chunk for a transfer that is not known is an error; one for a file that is being sent is passed
/// over.
pub proof fn law_chunk_nobody_waits_for(
    before: TransferManager,
    after: TransferManager,
    chunk: FileChunk,
    r: Result<(), TransferError>,
    actions: Seq<TransferAction>,
)
    requires
        before.chunk_handled(after, chunk, r, actions),
        before.has(chunk.transfer_id) ==> before.state(chunk.transfer_id) is Sending,
    ensures
        after@ == before@,
        actions.len() == 0,
        r is Ok <==> before.has(chunk.transfer_id),
        r matches Err(e) ==> e is NotFound,
{
}

/// A chunk whose hash is not that of its data is not written, but reported as bad to the peer; the
/// transfer stays as it was.
pub proof fn law_bad_chunk_is_reported(
    before: TransferManager,
    after: TransferManager,
    s: ReceivingState,
    chunk: FileChunk,
    r: Result<(), TransferError>,
    actions: Seq<TransferAction>,
)
    requires
        before.has(chunk.transfer_id),
        before.state(chunk.transfer_id) == TransferState::Receiving(s),
        before.chunk_handled(after, chunk, r, actions),
        sha256(bytes_contents(chunk.data)) != chunk.chunk_hash@,
    ensures
        r matches Err(e) && e is BadHash,
        actions.len() == 1,
        actions[0] matches TransferAction::Send { peer, frame } && peer == s.peer && frame.header.msg_type is FileChunkAck
            && frame.data() == (FileChunkAck {
            transfer_id: chunk.transfer_id,
            chunk_index: chunk.chunk_index,
            status: ChunkAckStatus::BadHash,
        }).wire(),
        after.has(chunk.transfer_id),
        after.state(chunk.transfer_id) == TransferState::Receiving(s),
{
}

/// A chunk that would reach beyond the end of the file is passed over without an answer.
pub proof fn law_chunk_beyond_the_end_is_passed_over(
    before: TransferManager,
    after: TransferManager,
    s: ReceivingState,
    chunk: FileChunk,
    r: Result<(), TransferError>,
    actions: Seq<TransferAction>,
)
    requires
        before.has(chunk.transfer_id),
        before.state(chunk.transfer_id) == TransferState::Receiving(s),
        before.chunk_handled(after, chunk, r, actions),
        sha256(bytes_contents(chunk.data)) == chunk.chunk_hash@,
        chunk.chunk_index * s.chunk_size + bytes_contents(chunk.data).len() > s.file_len,
    ensures
        r is Ok,
        actions.len() == 0,
        after.has(chunk.transfer_id),
        after.state(chunk.transfer_id) == TransferState::Receiving(s),
{
}

/// A good chunk is written at its place in the file and acknowledged, and a credit goes out for it.
/// The transfer is over just if no chunk is missing any more and the hash of all hashes is the one
/// that was offered; then the file is finished and the peer told. Where none is missing and the
/// hash is another, that is an error.
pub proof fn law_good_chunk_is_written(
    before: TransferManager,
    after: TransferManager,
    s: ReceivingState,
    chunk: FileChunk,
    r: Result<(), TransferError>,
    actions: Seq<TransferAction>,
)
    requires
        before.has(chunk.transfer_id),
        before.state(chunk.transfer_id) == TransferState::Receiving(s),
        s.wf(),
        before.chunk_handled(after, chunk, r, actions),
        sha256(bytes_contents(chunk.data)) == chunk.chunk_hash@,
        chunk.chunk_index * s.chunk_size + bytes_contents(chunk.data).len() <= s.file_len,
    ensures
        actions.len() >= 3,
        actions[0] matches TransferAction::Write { transfer_id, start, data } && transfer_id == chunk.transfer_id && start
            == chunk.chunk_index * s.chunk_size && data == chunk.data,
        actions[1] matches TransferAction::Send { peer, frame } && peer == s.peer && frame.header.msg_type is FileChunkAck
            && frame.data() == (FileChunkAck {
            transfer_id: chunk.transfer_id,
            chunk_index: chunk.chunk_index,
            status: ChunkAckStatus::Received,
        }).wire(),
        actions[2] matches TransferAction::Send { peer, frame } && peer == s.peer && frame.header.msg_type is CreditUpdate
            && frame.data() == chunk.transfer_id@ + seq![1u8, 0, 0, 0],
        after.has(chunk.transfer_id) ==> actions.len() == 3 && (after.state(chunk.transfer_id) matches TransferState::Receiving(t)
            && !marked(t.bitfield@, chunk.chunk_index) && (r is Ok <==> t.received_chunks < t.total_chunks) && (r matches Err(e)
            ==> e is BadHash && !(t.covered() && sha256(joined(t.hashes@, t.total_chunks as int)) == s.expected_root@))),
        !after.has(chunk.transfer_id) ==> r is Ok && actions.len() == 5 && actions[3] == (TransferAction::Finish {
            transfer_id: chunk.transfer_id,
        }) && (actions[4] matches TransferAction::Send { peer, frame } && peer == s.peer && frame.header.msg_type is FileComplete),
        !after.has(chunk.transfer_id) ==> (forall|i: u32|
            i < s.total_chunks && i != chunk.chunk_index ==> !(#[trigger] marked(s.bitfield@, i))),
{
    let id = chunk.transfer_id;
    let data = bytes_contents(chunk.data);
    let t = choose|t: ReceivingState| #[trigger]
        s.recorded(chunk.chunk_index, data.len() as int, chunk.chunk_hash, t) && before.concludes(after, t, chunk, root_of(t), r, actions);
    lemma_start_fits(chunk.chunk_index, s.chunk_size);
    law_chunk_is_counted_once(s, chunk.chunk_index, data.len() as int, chunk.chunk_hash, t, 0);
    assert(t.wf()) by {
        lemma_recorded_wf(s, chunk.chunk_index, data.len() as int, chunk.chunk_hash, t);
    }
    law_all_there_when_all_counted(t);
    assert(le(1, 4) =~= seq![1u8, 0, 0, 0]) by {
        reveal_with_fuel(le, 5);
    }
    assert forall|i: u32| i < s.total_chunks && i != chunk.chunk_index && !after.has(id) implies !(#[trigger] marked(s.bitfield@, i)) by {
        law_chunk_is_counted_once(s, chunk.chunk_index, data.len() as int, chunk.chunk_hash, t, i);
        assert(!marked(t.bitfield@, i));
    }
}

/// What is told of a transfer: its number, whether it is sent, how many chunks it has, and how many of
/// them were dealt with.
pub proof fn law_lines_tell_of_transfers(l: TransferLine, t: ActiveTransfer)
    requires
        line_of(l, t),
    ensures
        l.0@ == t.id@,
        l.4 <==> t.state is Sending,
        t.state matches TransferState::Sending(s) ==> l.1@ == "sending"@ && l.2 == s.total_chunks && l.3 == s.current_chunk_idx,
        t.state matches TransferState::Receiving(s) ==> l.1@ == s.file_name@ && l.2 == s.total_chunks && l.3 == s.received_chunks,
{
}

/// A file is offered with what it is: its name, its length, its chunks and its hash. Who takes it
/// lacks all of it at first, says so, and grants fifty credits; who has all of it says so with the
/// transfer's number alone.
pub proof fn law_offer_and_answer(
    offer: FileOffer,
    id: TransferId,
    file_name: String,
    content: Seq<u8>,
    chunk_size: u32,
    m: FileAccept,
    total: u32,
    done: FileComplete,
    i: int,
)
    requires
        offers(offer, id, file_name, content, chunk_size),
        accepts_all(m, id, total),
        completes(done, id),
    ensures
        offer.transfer_id == id && offer.file_name@ == file_name@ && offer.file_size == content.len() && offer.chunk_size == chunk_size,
        offer.total_chunks == total_chunks_of(content.len() as u64, chunk_size),
        offer.file_hash@ == sha256(chunk_hashes(content, chunk_size as nat)),
        m.transfer_id == id,
        m.resume <==> total > 0,
        m.missing_bitmap@.len() * 8 >= total,
        m.missing_bitmap@.len() * 8 < total + 8,
        0 <= i < m.missing_bitmap@.len() ==> m.missing_bitmap@[i] == 0xff,
        INITIAL_CREDITS == 50,
        done.transfer_id == id,
        0 <= i < 32 ==> done.file_hash@[i] == 0,
{
}

/// A chunk that goes out has the hash of its data, and its place.
pub proof fn law_chunk_that_goes_out(c: FileChunk, id: TransferId, index: u32, data: Seq<u8>)
    requires
        carries(c, id, index, data),
    ensures
        c.transfer_id == id && c.chunk_index == index,
        bytes_contents(c.data) == data,
        c.chunk_hash@ == sha256(data),
{
}

/// Who takes an offer waits for the whole of the file from the one who offers it, with the hash that
/// was offered, says that all of it is missing, and grants fifty credits.
pub proof fn law_offers_are_taken(peer: SocketAddr, offer: FileOffer, file_name: String, r: (TransferAction, TransferAction), i: u32)
    ensures
        forall|m: &mut TransferManager| #[trigger]
            call_ensures(TransferManager::handle_offer, (m, peer, offer, file_name), r) ==> (
            final(m).state(offer.transfer_id) matches TransferState::Receiving(s) && s.peer == peer && s.file_len == offer.file_size
                && s.expected_root == offer.file_hash && s.chunk_size == offer.chunk_size && s.total_chunks == offer.total_chunks
                && s.received_chunks == 0 && s.file_name == file_name && (i < offer.total_chunks ==> marked(s.bitfield@, i)))
                && final(m).has(offer.transfer_id),
        forall|m: &mut TransferManager| #[trigger]
            call_ensures(TransferManager::handle_offer, (m, peer, offer, file_name), r) ==> (
            r.0 matches TransferAction::Send { peer: p, frame } && p == peer && frame.header.msg_type is FileAccept) && (
            r.1 matches TransferAction::Send { peer: p, frame } && p == peer && frame.header.msg_type is CreditUpdate && frame.data()
                == offer.transfer_id@ + seq![50u8, 0, 0, 0]),
{
    if i < offer.total_chunks {
        law_everything_is_missing_at_first(offer.total_chunks, i);
    }
    assert(le(50, 4) =~= seq![50u8, 0, 0, 0]) by {
        reveal_with_fuel(le, 5);
    }
}

/// A file is offered just if it has a chunk size and a name that is not too long; nothing of it goes out
/// until credits come.
pub proof fn law_files_are_offered(
    id: TransferId,
    peer: SocketAddr,
    name: String,
    size: u64,
    chunk: u32,
    hash: [u8; 32],
    r: Result<TransferAction, TransferError>,
)
    ensures
        forall|m: &mut TransferManager| #[trigger]
            call_ensures(TransferManager::offer_file_with, (m, id, peer, name, size, chunk, hash), r) ==> (r is Ok <==> chunk > 0
                && encode_utf8(name@).len() <= 255) && (r is Err ==> r->Err_0 is InvalidState && *final(m) == *m),
        forall|m: &mut TransferManager| #[trigger]
            call_ensures(TransferManager::offer_file_with, (m, id, peer, name, size, chunk, hash), r) && r is Ok ==> (
            final(m).state(id) matches TransferState::Sending(s) && s.peer == peer && s.file_len == size && s.credits == 0 && s.chunk_size
                == chunk && s.current_chunk_idx == 0 && s.total_chunks == total_chunks_of(size, chunk)) && (
            r->Ok_0 matches TransferAction::Send { peer: p, frame } && p == peer && frame.header.msg_type is FileOffer && frame.data()
                == (FileOffer {
                transfer_id: id,
                file_name: name,
                file_size: size,
                chunk_size: chunk,
                total_chunks: total_chunks_of(size, chunk),
                file_hash: hash,
            }).wire()),
{
}

/// What becomes of the messages of a transfer.
pub proof fn law_messages_are_handled(
    accept: FileAccept,
    ack: FileChunkAck,
    chunk: FileChunk,
    id: TransferId,
    credits: u32,
    r: Result<(), TransferError>,
    s: (Result<(), TransferError>, Vec<TransferAction>),
    actions: Vec<TransferAction>,
)
    ensures
        forall|m: &mut TransferManager| #[trigger]
            call_ensures(TransferManager::handle_accept, (m, accept), r) ==> m.accept_handled(*final(m), accept, r),
        forall|m: &mut TransferManager| #[trigger]
            call_ensures(TransferManager::handle_credit_update, (m, id, credits), actions) ==> m.credit_handled(
                *final(m),
                id,
                credits,
                actions@,
            ),
        forall|m: &mut TransferManager| #[trigger]
            call_ensures(TransferManager::handle_chunk_ack, (m, ack), actions) ==> m.ack_handled(*final(m), ack, actions@),
        forall|m: &mut TransferManager| #[trigger]
            call_ensures(TransferManager::handle_chunk, (m, chunk), s) ==> m.chunk_handled(*final(m), chunk, s.0, s.1@),
{
}

/// What goes on without a message: chunks go out as credits allow; a chunk that is read goes out in a
/// frame with its hash; of each transfer that is under way a line is told; and a file that is offered by
/// its content is offered with its hash.
pub proof fn law_what_else_is_done(
    id: TransferId,
    actions: Vec<TransferAction>,
    index: u32,
    data: &[u8],
    f: Frame,
    m: TransferManager,
    lines: Vec<TransferLine>,
    peer: SocketAddr,
    name: String,
    chunk: u32,
    r: Result<(TransferId, TransferAction), TransferError>,
)
    requires
        call_ensures(chunk_frame, (id, index, data), f),
        call_ensures(TransferManager::snapshot_transfers, (&m,), lines),
    ensures
        forall|x: &mut TransferManager| #[trigger]
            call_ensures(TransferManager::pump_send, (x, id), actions) ==> (if x.has(id) && x.state(id) is Sending {
                x.goes_on(*final(x), id, x.state(id)->Sending_0, actions@)
            } else {
                actions@.len() == 0 && final(x)@ == x@
            }),
        f.header.msg_type is FileChunk && f.data().len() == 53 + data@.len() && f.data().subrange(1, 17) == id@ && be_val(
            f.data().subrange(17, 21),
        ) == index && f.data().subrange(21, 53) == sha256(data@) && f.data().subrange(53, 53int + data@.len()) == data@,
        lines@.len() == m@.len(),
        forall|x: &mut TransferManager| #[trigger]
            call_ensures(TransferManager::offer_content, (x, peer, name, data, chunk), r) ==> (r is Ok <==> chunk > 0 && encode_utf8(
                name@,
            ).len() <= 255) && (r is Ok ==> (final(x).state(r->Ok_0.0) matches TransferState::Sending(s) && s.peer == peer && s.file_len
                == data@.len() && s.credits == 0 && s.chunk_size == chunk)),
{
    let c = choose|c: FileChunk| #[trigger] carries(c, id, index, data@) && plain_frame(f, MessageType::FileChunk, c.wire());
    law_file_chunk_roundtrip(c, c);
    law_file_chunk_is_read(c.wire(), c);
    assert(c.read_from(c.wire()));
}

} // verus!
