//! What the node does about connections, frames and commands.
use std::sync::Arc;
use vstd::prelude::*;
use vstd::string::*;
use vstd::utf8::{encode_utf8, encode_utf8_decode_utf8, encode_utf8_valid_utf8, valid_utf8};
use crate::buffer::{bytes_as_slice, bytes_contents, bytes_from_vec};
use crate::crypto::error::CryptoError;
use crate::crypto::identity::Identity;
use crate::crypto::noise::{answers_message1, answers_message2, completes, creates_message1, fresh_handshake, law_handshake_agrees, law_second_message_is_answered, HandshakeModel, NoiseHandshake, Stage};
use crate::crypto::primitives::{law_sealed_is_opened, opened, sha256};
use crate::crypto::session::{
    decrypts, encrypts, law_decrypt_gives_back, law_encrypting_uses_up_a_nonce, law_replay_is_refused, law_window_reaches_back,
    nonce_bytes, SecureSession,
};
use crate::net::{law_keys_are_distinct, SocketAddr};
use crate::node::api::{ApiCommand, ApiEvent};
use crate::protocol::transfer::{
    law_file_accept_is_read, law_file_chunk_ack_is_read, law_file_chunk_is_read, law_file_offer_is_read, marked, FileAccept,
    FileChunk, FileChunkAck, FileOffer, TransferId,
};
use crate::protocol::types::{law_flags_only_grow, Flags, Frame, MessageType};
use crate::table::{Key, Table};
use crate::text::string_from_utf8;
use crate::transfer::manager::{
    law_bad_chunk_goes_out_again, law_bad_chunk_is_reported, law_credits_come_on_top, law_good_chunk_is_no_longer_sent,
    law_good_chunk_is_written, TransferAction, TransferError, TransferManager,
};
use crate::transfer::state::{ReceivingState, TransferState};
use crate::transport::TransportEvent;
use crate::wire::{be_val, copy_array, get_le, law_little_endian, le_val, lemma_array_eq, lemma_pow256_values};

verus! {

/// How far things have come with a peer.
pub enum PeerState {
    /// We have begun the handshake and wait for the second message.
    InitiatorWaitMsg2 { handshake: NoiseHandshake },
    /// We wait for the first message.
    ResponderWaitMsg1 { handshake: NoiseHandshake },
    /// We have answered and wait for the third message.
    ResponderWaitMsg3 { handshake: NoiseHandshake },
    /// The session is there.
    Secure { session: SecureSession },
}

impl PeerState {
    /// The handshake is where it should be.
    pub open spec fn wf(self) -> bool {
        match self {
            PeerState::InitiatorWaitMsg2 { handshake } => handshake@.stage is InitSentMsg1,
            PeerState::ResponderWaitMsg1 { handshake } => handshake@.stage is New,
            PeerState::ResponderWaitMsg3 { handshake } => handshake@.stage is RespSentMsg2,
            PeerState::Secure { .. } => true,
        }
    }
}

/// A peer under its address.
pub struct PeerSlot {
    pub addr: SocketAddr,
    pub state: PeerState,
}

/// What is to be done.
#[derive(Debug)]
#[allow(inconsistent_fields)]
pub enum NodeAction {
    /// Send a frame as it is.
    Send { to: SocketAddr, frame: Frame },
    /// Tell those who listen.
    Emit(ApiEvent),
    /// Work for a transfer.
    Transfer(TransferAction),
    /// Make room on disk for a file that is offered; then accept the offer.
    OpenFile { peer: SocketAddr, offer: FileOffer },
    /// Look at a file on disk; then offer it.
    OfferFile { peer: SocketAddr, file_path: String },
    /// Connect; then begin the handshake.
    Connect(SocketAddr),
}

/// A frame of the handshake.
pub open spec fn handshake_frame(f: Frame, message: Seq<u8>) -> bool {
    &&& f.data() == message
    &&& f.header == Frame::new_header(MessageType::Handshake, Flags(0), 0, message.len())
}

/// A frame whose payload is encrypted; the nonce stands in the place of the request number.
pub open spec fn sealed_frame(f: Frame, msg_type: MessageType, nonce: u64, ciphertext: Seq<u8>) -> bool {
    &&& f.data() == ciphertext
    &&& f.header == Frame::new_header(msg_type, Flags(0u8 | 1), nonce, ciphertext.len())
}

/// The session has the keys of a handshake, and is unused.
pub open spec fn session_of(s: SecureSession, stage: Stage) -> bool {
    &&& stage is Complete
    &&& s.sending_key() == stage->send_key
    &&& s.receiving_key() == stage->recv_key
    &&& s.remote() == stage->remote_static
    &&& s.next_nonce() == 0
    &&& s.highest_received() == 0
    &&& s.window().highest() == 0
    &&& forall|n: u64| !(#[trigger] s.window().seen(n))
}

/// What becomes of a frame that is to be sent over a session.
pub open spec fn seals_out(
    before: SecureSession,
    after: SecureSession,
    msg_type: MessageType,
    payload: Seq<u8>,
    r: Option<Frame>,
) -> bool {
    exists|x: Result<(u64, Vec<u8>), CryptoError>| #[trigger]
        encrypts(before, after, payload, Seq::empty(), x) && match x {
            Ok(m) => r matches Some(f) && sealed_frame(f, msg_type, m.0, m.1@),
            Err(_) => r is None,
        }
}

/// Encrypts a payload into a frame.
fn seal_out(session: &mut SecureSession, msg_type: MessageType, payload: &[u8]) -> (r: Option<Frame>)
    ensures
        seals_out(*old(session), *final(session), msg_type, payload@, r),
{
    let x = session.encrypt(payload);
    let ghost g = x;
    assert(encrypts(*old(session), *session, payload@, Seq::empty(), g));
    match x {
        Ok((nonce, ciphertext)) => {
            let frame = Frame::new(msg_type, Flags::empty().with_encrypted(), nonce, bytes_from_vec(ciphertext));
            Some(frame)
        },
        Err(_) => None,
    }
}

/// The actions of a transfer, as actions of the node.
pub open spec fn wrapped(actions: Seq<NodeAction>, inner: Seq<TransferAction>) -> bool {
    &&& actions.len() == inner.len()
    &&& forall|i: int| 0 <= i < inner.len() ==> #[trigger] actions[i] == NodeAction::Transfer(inner[i])
}

fn wrap(inner: Vec<TransferAction>) -> (r: Vec<NodeAction>)
    ensures
        wrapped(r@, inner@),
{
    let ghost all = inner@;
    let mut left = inner;
    let mut back: Vec<TransferAction> = Vec::new();
    while left.len() > 0
        invariant
            left@.len() + back@.len() == all.len(),
            left@ == all.take(left@.len() as int),
            forall|i: int| 0 <= i < back@.len() ==> #[trigger] back@[i] == all[all.len() - 1 - i],
        decreases left@.len(),
    {
        let ghost n = left@.len() as int;
        if let Some(a) = left.pop() {
            assert(a == all[n - 1]);
            assert(left@ =~= all.take(n - 1));
            back.push(a);
        }
    }
    let ghost b = back@;
    let mut out: Vec<NodeAction> = Vec::new();
    while back.len() > 0
        invariant
            b.len() == all.len(),
            back@.len() + out@.len() == all.len(),
            back@ == b.take(back@.len() as int),
            forall|i: int| 0 <= i < b.len() ==> #[trigger] b[i] == all[all.len() - 1 - i],
            forall|i: int| 0 <= i < out@.len() ==> #[trigger] out@[i] == NodeAction::Transfer(all[i]),
        decreases back@.len(),
    {
        let ghost n = back@.len() as int;
        if let Some(a) = back.pop() {
            assert(a == b[n - 1]);
            assert(back@ =~= b.take(n - 1));
            out.push(NodeAction::Transfer(a));
        }
    }
    out
}

/// What a decrypted message does: to the transfers, and in actions. A message that cannot
/// be read does nothing.
pub open spec fn dispatched(
    before: TransferManager,
    after: TransferManager,
    peer: SocketAddr,
    msg_type: MessageType,
    data: Seq<u8>,
    actions: Seq<NodeAction>,
) -> bool {
    match msg_type {
        MessageType::FileOffer => {
            &&& after@ == before@
            &&& if FileOffer::fault(data) is Some {
                actions.len() == 0
            } else {
                &&& actions.len() == 2
                &&& actions[1] matches NodeAction::OpenFile { peer: p, offer } && p == peer && offer.read_from(data) && (
                actions[0] matches NodeAction::Emit(ApiEvent::FileOfferReceived { peer: q, file_name, total_size }) && q
                    == peer && file_name@ == offer.file_name@ && total_size == offer.file_size)
            }
        },
        MessageType::FileAccept => {
            &&& actions.len() == 0
            &&& if FileAccept::fault(data) is Some {
                after@ == before@
            } else {
                exists|m: FileAccept, r: Result<(), TransferError>|
                    m.read_from(data) && #[trigger] before.accept_handled(after, m, r)
            }
        },
        MessageType::FileChunk => if FileChunk::fault(data) is Some {
            after@ == before@ && actions.len() == 0
        } else {
            exists|m: FileChunk, r: Result<(), TransferError>, inner: Seq<TransferAction>|
                m.read_from(data) && #[trigger] before.chunk_handled(after, m, r, inner) && wrapped(actions, inner)
        },
        MessageType::FileChunkAck => if FileChunkAck::fault(data) is Some {
            after@ == before@ && actions.len() == 0
        } else {
            exists|m: FileChunkAck, inner: Seq<TransferAction>|
                m.read_from(data) && #[trigger] before.ack_handled(after, m, inner) && wrapped(actions, inner)
        },
        MessageType::CreditUpdate => if data.len() < 20 {
            after@ == before@ && actions.len() == 0
        } else {
            exists|id: TransferId, inner: Seq<TransferAction>|
                id@ == data.subrange(0, 16) && #[trigger] before.credit_handled(
                    after,
                    id,
                    le_val(data.subrange(16, 20)) as u32,
                    inner,
                ) && wrapped(actions, inner)
        },
        MessageType::Data => {
            &&& after@ == before@
            &&& if valid_utf8(data) {
                &&& actions.len() == 1
                &&& actions[0] matches NodeAction::Emit(ApiEvent::MessageReceived { peer: p, message }) && p == peer
                    && encode_utf8(message@) == data
            } else {
                actions.len() == 0
            }
        },
        _ => after@ == before@ && actions.len() == 0,
    }
}

/// The node.
pub struct Node {
    identity: Arc<Identity>,
    peers: Table<PeerSlot>,
    transfers: TransferManager,
}

impl Node {
    /// The peers, under the keys of their addresses.
    pub closed spec fn view(self) -> Map<Key, PeerSlot> {
        self.peers@
    }

    /// Who the node is.
    pub closed spec fn who(self) -> Identity {
        *self.identity
    }

    /// The transfers that are under way.
    pub closed spec fn files(self) -> TransferManager {
        self.transfers
    }

    /// Every peer stands under the key of its address, with its handshake where it should
    /// be, and the transfers are sound.
    pub closed spec fn wf(self) -> bool {
        &&& self.peers.wf()
        &&& self.transfers.wf()
        &&& forall|k: Key| #[trigger] self.peers@.contains_key(k) ==> self.peers@[k].addr.spec_key() == k && self.peers@[k].state.wf()
    }

    /// What is known of the peer.
    pub open spec fn knows(self, addr: SocketAddr) -> bool {
        self@.contains_key(addr.spec_key())
    }

    pub open spec fn state(self, addr: SocketAddr) -> PeerState {
        self@[addr.spec_key()].state
    }

    /// There is a session with the peer.
    pub open spec fn secure(self, addr: SocketAddr) -> bool {
        self.knows(addr) && self.state(addr) is Secure
    }

    /// The peers, with one of them in another state.
    pub open spec fn with_peer(self, addr: SocketAddr, state: PeerState) -> Map<Key, PeerSlot> {
        self@.insert(addr.spec_key(), PeerSlot { addr, state })
    }

    /// Nothing but the peers differs.
    pub open spec fn same_but_peers(self, o: Node) -> bool {
        self.who() == o.who() && self.files() == o.files()
    }

    pub fn new(identity: Arc<Identity>) -> (r: Self)
        ensures
            r.wf(),
            r.who() == *identity,
            r@ == Map::<Key, PeerSlot>::empty(),
            r.files()@ == Map::<Key, crate::transfer::state::ActiveTransfer>::empty(),
    {
        Node { identity, peers: Table::new(), transfers: TransferManager::new() }
    }

    fn take(&mut self, addr: &SocketAddr) -> (r: Option<PeerState>)
        requires
            old(self).wf(),
        ensures
            final(self).wf(),
            final(self).same_but_peers(*old(self)),
            final(self)@ == old(self)@.remove(addr.spec_key()),
            r is Some <==> old(self).knows(*addr),
            r matches Some(s) ==> s == old(self).state(*addr) && s.wf() && old(self)@[addr.spec_key()].addr == *addr,
    {
        match self.peers.remove(&addr.key()) {
            Some(p) => {
                proof {
                    law_keys_are_distinct(p.addr, *addr);
                }
                Some(p.state)
            },
            None => None,
        }
    }

    fn put(&mut self, addr: SocketAddr, state: PeerState)
        requires
            old(self).wf(),
            state.wf(),
        ensures
            final(self).wf(),
            final(self).same_but_peers(*old(self)),
            final(self)@ == old(self).with_peer(addr, state),
    {
        let key = addr.key();
        let _ = self.peers.insert(key, PeerSlot { addr, state });
    }

    /// Begins a handshake with a peer to whom we have connected: the frame to send, and what
    /// to keep for the answer.
    pub fn begin_handshake(&self) -> (r: (NoiseHandshake, Frame))
        ensures
            r.0@.stage is InitSentMsg1,
            exists|start: HandshakeModel, secret: Seq<u8>, msg1: Seq<u8>|
                fresh_handshake(start, self.who(), true) && #[trigger] creates_message1(start, r.0@, secret, msg1)
                    && handshake_frame(r.1, msg1),
    {
        let mut handshake = NoiseHandshake::new_initiator(self.identity.clone());
        let ghost start = handshake@;
        let msg1 = match handshake.create_message1() {
            Ok(m) => m,
            Err(_) => {
                assert(false);
                Vec::new()
            },
        };
        let ghost secret = choose|secret: Seq<u8>| #[trigger] creates_message1(start, handshake@, secret, msg1@);
        let frame = Frame::new(MessageType::Handshake, Flags::empty(), 0, bytes_from_vec(msg1));
        assert(creates_message1(start, handshake@, secret, frame.data()));
        (handshake, frame)
    }

    /// The first message of a handshake was sent: its answer is waited for.
    pub fn await_answer(&mut self, addr: SocketAddr, handshake: NoiseHandshake)
        requires
            old(self).wf(),
            handshake@.stage is InitSentMsg1,
        ensures
            final(self).wf(),
            final(self).same_but_peers(*old(self)),
            final(self)@ == old(self).with_peer(addr, PeerState::InitiatorWaitMsg2 { handshake }),
    {
        self.put(addr, PeerState::InitiatorWaitMsg2 { handshake });
    }

    /// A connection is there. With a peer that is new to us, the first message of a handshake
    /// is waited for.
    pub fn on_connected(&mut self, peer_addr: SocketAddr) -> (r: ApiEvent)
        requires
            old(self).wf(),
        ensures
            final(self).wf(),
            final(self).same_but_peers(*old(self)),
            r == (ApiEvent::PeerConnected { peer: peer_addr }),
            if old(self).knows(peer_addr) {
                final(self)@ == old(self)@
            } else {
                &&& final(self).state(peer_addr) matches PeerState::ResponderWaitMsg1 { handshake } && fresh_handshake(
                    handshake@,
                    old(self).who(),
                    false,
                )
                &&& final(self)@ == old(self).with_peer(peer_addr, final(self).state(peer_addr))
            },
    {
        if !self.peers.contains(&peer_addr.key()) {
            let handshake = NoiseHandshake::new_responder(self.identity.clone());
            self.put(peer_addr, PeerState::ResponderWaitMsg1 { handshake });
        }
        ApiEvent::PeerConnected { peer: peer_addr }
    }

    /// A connection is gone, and the peer with it.
    pub fn on_disconnected(&mut self, peer_addr: SocketAddr, reason: String) -> (r: ApiEvent)
        requires
            old(self).wf(),
        ensures
            final(self).wf(),
            final(self).same_but_peers(*old(self)),
            final(self)@ == old(self)@.remove(peer_addr.spec_key()),
            r == (ApiEvent::PeerDisconnected { peer: peer_addr, reason }),
    {
        let _ = self.take(&peer_addr);
        ApiEvent::PeerDisconnected { peer: peer_addr, reason }
    }

    /// What becomes of a frame of the handshake.
    pub open spec fn handshake_handled(self, after: Node, peer: SocketAddr, payload: Seq<u8>, r: Option<Frame>) -> bool {
        if !self.knows(peer) {
            r is None && after@ == self@
        } else {
            match self.state(peer) {
                PeerState::InitiatorWaitMsg2 { handshake } => exists|h: HandshakeModel, x: Result<Vec<u8>, CryptoError>|
                    #[trigger] answers_message2(handshake@, h, payload, x) && match x {
                        Ok(msg3) => {
                            &&& r matches Some(f) && handshake_frame(f, msg3@)
                            &&& after.secure(peer)
                            &&& session_of(after.state(peer)->session, h.stage)
                            &&& after@ == self.with_peer(peer, after.state(peer))
                        },
                        Err(_) => r is None && after@ == self@.remove(peer.spec_key()),
                    },
                PeerState::ResponderWaitMsg1 { handshake } => if payload.len() == 32 {
                    &&& after.state(peer) matches PeerState::ResponderWaitMsg3 { handshake: h } && exists|secret: Seq<u8>, msg2: Seq<u8>|
                        #[trigger] answers_message1(handshake@, h@, secret, payload, msg2) && r is Some && handshake_frame(
                            r->0,
                            msg2,
                        )
                    &&& after@ == self.with_peer(peer, after.state(peer))
                } else {
                    r is None && after@ == self@.remove(peer.spec_key())
                },
                PeerState::ResponderWaitMsg3 { handshake } => {
                    &&& r is None
                    &&& if after.knows(peer) {
                        &&& after.secure(peer)
                        &&& exists|h: HandshakeModel| #[trigger]
                            completes(handshake@, h, payload, Ok(())) && session_of(after.state(peer)->session, h.stage)
                        &&& after@ == self.with_peer(peer, after.state(peer))
                    } else {
                        &&& after@ == self@.remove(peer.spec_key())
                        &&& payload.len() != 48 || crate::crypto::noise::opened_message3(handshake@, payload) is None
                    }
                },
                PeerState::Secure { session } => r is None && after@ == self@,
            }
        }
    }

    /// A frame of the handshake has come. The handshake takes its next step, and at its end
    /// there is a session. Where a step fails, the peer is dropped. A session that is there is
    /// left alone.
    pub fn on_handshake_frame(&mut self, peer_addr: SocketAddr, payload: &[u8]) -> (r: Option<Frame>)
        requires
            old(self).wf(),
        ensures
            final(self).wf(),
            final(self).same_but_peers(*old(self)),
            old(self).handshake_handled(*final(self), peer_addr, payload@, r),
    {
        let state = match self.take(&peer_addr) {
            Some(s) => s,
            None => {
                assert(self@ =~= old(self)@);
                return None;
            },
        };
        let ghost taken = *self;
        proof {
            assert forall|x: PeerState| #[trigger] taken.with_peer(peer_addr, x) == old(self).with_peer(peer_addr, x) by {
                assert(taken.with_peer(peer_addr, x) =~= old(self).with_peer(peer_addr, x));
            }
        }
        match state {
            PeerState::InitiatorWaitMsg2 { handshake } => {
                let mut handshake = handshake;
                let ghost before = handshake@;
                let x = handshake.process_message2_create_message3(payload);
                let ghost after = handshake@;
                let ghost gx = x;
                assert(answers_message2(before, after, payload@, gx));
                match x {
                    Ok(msg3) => {
                        let frame = Frame::new(MessageType::Handshake, Flags::empty(), 0, bytes_from_vec(msg3));
                        if let Ok(keys) = handshake.into_session_keys() {
                            if let Ok(session) = SecureSession::from_keys(keys) {
                                assert(session_of(session, after.stage));
                                self.put(peer_addr, PeerState::Secure { session });
                            }
                        }
                        Some(frame)
                    },
                    Err(_) => None,
                }
            },
            PeerState::ResponderWaitMsg1 { handshake } => {
                let mut handshake = handshake;
                let ghost before = handshake@;
                match handshake.process_message1_create_message2(payload) {
                    Ok(msg2) => {
                        let ghost secret = choose|secret: Seq<u8>| #[trigger]
                            answers_message1(before, handshake@, secret, payload@, msg2@);
                        let frame = Frame::new(MessageType::Handshake, Flags::empty(), 0, bytes_from_vec(msg2));
                        assert(answers_message1(before, handshake@, secret, payload@, frame.data()));
                        self.put(peer_addr, PeerState::ResponderWaitMsg3 { handshake });
                        Some(frame)
                    },
                    Err(_) => None,
                }
            },
            PeerState::ResponderWaitMsg3 { handshake } => {
                let mut handshake = handshake;
                let ghost before = handshake@;
                match handshake.try_message3(payload) {
                    Some(Ok(())) => {
                        let ghost after = handshake@;
                        assert(completes(before, after, payload@, Ok(())));
                        if let Ok(keys) = handshake.into_session_keys() {
                            if let Ok(session) = SecureSession::from_keys(keys) {
                                assert(session_of(session, after.stage));
                                self.put(peer_addr, PeerState::Secure { session });
                            }
                        }
                        None
                    },
                    _ => None,
                }
            },
            PeerState::Secure { session } => {
                self.put(peer_addr, PeerState::Secure { session });
                assert(self@ =~= old(self)@);
                None
            },
        }
    }

    /// Does what a decrypted message asks for.
    pub fn dispatch(&mut self, peer_addr: SocketAddr, msg_type: MessageType, data: Vec<u8>) -> (r: Vec<NodeAction>)
        requires
            old(self).wf(),
        ensures
            final(self).wf(),
            final(self).who() == old(self).who(),
            final(self)@ == old(self)@,
            dispatched(old(self).files(), final(self).files(), peer_addr, msg_type, data@, r@),
    {
        proof {
            lemma_pow256_values();
        }
        match msg_type {
            MessageType::FileOffer => match FileOffer::decode(data.as_slice()) {
                Ok(offer) => {
                    let mut out: Vec<NodeAction> = Vec::new();
                    out.push(
                        NodeAction::Emit(
                            ApiEvent::FileOfferReceived {
                                peer: peer_addr,
                                file_name: offer.file_name.clone(),
                                total_size: offer.file_size,
                            },
                        ),
                    );
                    out.push(NodeAction::OpenFile { peer: peer_addr, offer });
                    out
                },
                Err(_) => Vec::new(),
            },
            MessageType::FileAccept => {
                if let Ok(accept) = FileAccept::decode(data.as_slice()) {
                    let ghost m = accept;
                    let x = self.transfers.handle_accept(accept);
                    assert(m.read_from(data@) && old(self).transfers.accept_handled(self.transfers, m, x));
                }
                Vec::new()
            },
            MessageType::FileChunk => {
                let payload = bytes_from_vec(data);
                match FileChunk::decode(payload) {
                    Ok(chunk) => {
                        let ghost m = chunk;
                        let (x, inner) = self.transfers.handle_chunk(chunk);
                        let ghost i = inner@;
                        assert(m.read_from(data@) && old(self).transfers.chunk_handled(self.transfers, m, x, i));
                        wrap(inner)
                    },
                    Err(_) => Vec::new(),
                }
            },
            MessageType::FileChunkAck => match FileChunkAck::decode(data.as_slice()) {
                Ok(ack) => {
                    let ghost m = ack;
                    let inner = self.transfers.handle_chunk_ack(ack);
                    let ghost i = inner@;
                    assert(m.read_from(data@) && old(self).transfers.ack_handled(self.transfers, m, i));
                    wrap(inner)
                },
                Err(_) => Vec::new(),
            },
            MessageType::CreditUpdate => {
                if data.len() < 20 {
                    return Vec::new();
                }
                let id = TransferId::from_bytes(copy_array::<16>(data.as_slice(), 0));
                let credits: u32 = get_le(data.as_slice(), 16, 4) as u32;
                let inner = self.transfers.handle_credit_update(id, credits);
                let ghost i = inner@;
                assert(old(self).transfers.credit_handled(
                    self.transfers,
                    id,
                    le_val(data@.subrange(16, 20)) as u32,
                    i,
                ));
                wrap(inner)
            },
            MessageType::Data => match string_from_utf8(data) {
                Some(message) => {
                    let mut out: Vec<NodeAction> = Vec::new();
                    out.push(NodeAction::Emit(ApiEvent::MessageReceived { peer: peer_addr, message }));
                    out
                },
                None => Vec::new(),
            },
            _ => Vec::new(),
        }
    }

    /// What becomes of a frame that is not one of the handshake: over a session, and
    /// encrypted, it is decrypted, and does what it asks for. Otherwise it is rejected.
    pub open spec fn frame_handled(self, after: Node, peer: SocketAddr, frame: Frame, actions: Seq<NodeAction>) -> bool {
        if self.secure(peer) && frame.header.flags.has(1) {
            let s = self.state(peer)->session;
            &&& after.secure(peer)
            &&& after@ == self.with_peer(peer, after.state(peer))
            &&& exists|x: Result<Vec<u8>, CryptoError>| #[trigger]
                decrypts(s, after.state(peer)->session, frame.header.request_id, frame.data(), Seq::empty(), x) && match x {
                    Ok(data) => dispatched(self.files(), after.files(), peer, frame.header.msg_type, data@, actions),
                    Err(_) => after.files() == self.files() && actions.len() == 0,
                }
        } else {
            &&& after@ == self@
            &&& after.files() == self.files()
            &&& actions.len() == 0
        }
    }

    /// A frame that is not one of the handshake has come.
    pub fn on_data_frame(&mut self, peer_addr: SocketAddr, frame: &Frame) -> (r: Vec<NodeAction>)
        requires
            old(self).wf(),
        ensures
            final(self).wf(),
            final(self).who() == old(self).who(),
            old(self).frame_handled(*final(self), peer_addr, *frame, r@),
    {
        match self.take(&peer_addr) {
            None => {
                assert(self@ =~= old(self)@);
                Vec::new()
            },
            Some(PeerState::Secure { session }) => {
                if !frame.header.flags.is_encrypted() {
                    self.put(peer_addr, PeerState::Secure { session });
                    assert(self@ =~= old(self)@);
                    return Vec::new();
                }
                let mut session = session;
                let ghost before = session;
                let x = session.decrypt(frame.header.request_id, bytes_as_slice(&frame.payload));
                let ghost gx = x;
                let ghost after = session;
                assert(decrypts(before, after, frame.header.request_id, frame.data(), Seq::empty(), gx));
                self.put(peer_addr, PeerState::Secure { session });
                assert(self@ =~= old(self).with_peer(peer_addr, PeerState::Secure { session }));
                let out = match x {
                    Ok(data) => self.dispatch(peer_addr, frame.header.msg_type, data),
                    Err(_) => Vec::new(),
                };
                proof {
                    assert(self.state(peer_addr) == PeerState::Secure { session: after });
                    assert(self@ == old(self).with_peer(peer_addr, self.state(peer_addr)));
                    assert(old(self).state(peer_addr)->session == before);
                    assert(decrypts(
                        before,
                        self.state(peer_addr)->session,
                        frame.header.request_id,
                        frame.data(),
                        Seq::empty(),
                        gx,
                    ));
                }
                out
            },
            Some(other) => {
                self.put(peer_addr, other);
                assert(self@ =~= old(self)@);
                Vec::new()
            },
        }
    }

    /// What becomes of an event of the transport.
    pub open spec fn event_handled(self, after: Node, event: TransportEvent, actions: Seq<NodeAction>) -> bool {
        match event {
            TransportEvent::Connected { peer_addr } => {
                &&& actions == seq![NodeAction::Emit(ApiEvent::PeerConnected { peer: peer_addr })]
                &&& after.files() == self.files()
                &&& if self.knows(peer_addr) {
                    after@ == self@
                } else {
                    &&& after.state(peer_addr) matches PeerState::ResponderWaitMsg1 { handshake } && fresh_handshake(
                        handshake@,
                        self.who(),
                        false,
                    )
                    &&& after@ == self.with_peer(peer_addr, after.state(peer_addr))
                }
            },
            TransportEvent::Disconnected { peer_addr, reason } => {
                &&& actions == seq![NodeAction::Emit(ApiEvent::PeerDisconnected { peer: peer_addr, reason })]
                &&& after.files() == self.files()
                &&& after@ == self@.remove(peer_addr.spec_key())
            },
            TransportEvent::FrameReceived { peer_addr, frame } => if frame.header.msg_type is Handshake {
                &&& after.files() == self.files()
                &&& exists|r: Option<Frame>| #[trigger]
                    self.handshake_handled(after, peer_addr, frame.data(), r) && actions == (match r {
                        Some(f) => seq![NodeAction::Send { to: peer_addr, frame: f }],
                        None => Seq::empty(),
                    })
            } else {
                self.frame_handled(after, peer_addr, frame, actions)
            },
            TransportEvent::Error { peer_addr, error } => {
                &&& actions.len() == 0
                &&& after.files() == self.files()
                &&& after@ == (match peer_addr {
                    Some(a) => self@.remove(a.spec_key()),
                    None => self@,
                })
            },
        }
    }

    /// Does what an event of the transport asks for.
    pub fn on_transport_event(&mut self, event: TransportEvent) -> (r: Vec<NodeAction>)
        requires
            old(self).wf(),
        ensures
            final(self).wf(),
            final(self).who() == old(self).who(),
            old(self).event_handled(*final(self), event, r@),
    {
        let mut out: Vec<NodeAction> = Vec::new();
        match event {
            TransportEvent::Connected { peer_addr } => {
                out.push(NodeAction::Emit(self.on_connected(peer_addr)));
                assert(out@ =~= seq![NodeAction::Emit(ApiEvent::PeerConnected { peer: peer_addr })]);
                out
            },
            TransportEvent::Disconnected { peer_addr, reason } => {
                out.push(NodeAction::Emit(self.on_disconnected(peer_addr, reason)));
                assert(out@ =~= seq![NodeAction::Emit(ApiEvent::PeerDisconnected { peer: peer_addr, reason })]);
                out
            },
            TransportEvent::FrameReceived { peer_addr, frame } => {
                if matches!(frame.header.msg_type, MessageType::Handshake) {
                    let reply = self.on_handshake_frame(peer_addr, bytes_as_slice(&frame.payload));
                    let ghost g = reply;
                    assert(old(self).handshake_handled(*self, peer_addr, frame.data(), g));
                    match reply {
                        Some(f) => {
                            out.push(NodeAction::Send { to: peer_addr, frame: f });
                            assert(out@ =~= seq![NodeAction::Send { to: peer_addr, frame: f }]);
                        },
                        None => {
                            assert(out@ =~= Seq::empty());
                        },
                    }
                    out
                } else {
                    self.on_data_frame(peer_addr, &frame)
                }
            },
            TransportEvent::Error { peer_addr, error } => {
                if let Some(addr) = peer_addr {
                    let _ = self.take(&addr);
                }
                out
            },
        }
    }

    /// What becomes of a payload for a peer: over a session it is sent encrypted; without
    /// one, not at all.
    pub open spec fn sent_secured(self, after: Node, peer: SocketAddr, msg_type: MessageType, payload: Seq<u8>, r: Option<Frame>) -> bool {
        if self.secure(peer) {
            &&& after.secure(peer)
            &&& after@ == self.with_peer(peer, after.state(peer))
            &&& seals_out(self.state(peer)->session, after.state(peer)->session, msg_type, payload, r)
        } else {
            r is None && after@ == self@
        }
    }

    /// Makes the frame that carries a payload to a peer, encrypted.
    pub fn secure_payload(&mut self, peer_addr: SocketAddr, msg_type: MessageType, payload: &[u8]) -> (r: Option<Frame>)
        requires
            old(self).wf(),
        ensures
            final(self).wf(),
            final(self).same_but_peers(*old(self)),
            old(self).sent_secured(*final(self), peer_addr, msg_type, payload@, r),
    {
        match self.take(&peer_addr) {
            Some(PeerState::Secure { session }) => {
                let mut session = session;
                let ghost before = session;
                let r = seal_out(&mut session, msg_type, payload);
                assert(seals_out(before, session, msg_type, payload@, r));
                self.put(peer_addr, PeerState::Secure { session });
                assert(self@ =~= old(self).with_peer(peer_addr, PeerState::Secure { session }));
                r
            },
            Some(other) => {
                self.put(peer_addr, other);
                assert(self@ =~= old(self)@);
                None
            },
            None => {
                assert(self@ =~= old(self)@);
                None
            },
        }
    }

    /// A frame of a transfer goes out: encrypted, with its type kept.
    pub fn on_transfer_frame(&mut self, peer_addr: SocketAddr, frame: Frame) -> (r: Option<Frame>)
        requires
            old(self).wf(),
        ensures
            final(self).wf(),
            final(self).same_but_peers(*old(self)),
            old(self).sent_secured(*final(self), peer_addr, frame.header.msg_type, frame.data(), r),
    {
        self.secure_payload(peer_addr, frame.header.msg_type, bytes_as_slice(&frame.payload))
    }

    /// Does what was asked over the control interface. A file goes only to a peer that is
    /// known, a message only over a session.
    pub fn on_command(&mut self, command: ApiCommand) -> (r: Option<NodeAction>)
        requires
            old(self).wf(),
        ensures
            final(self).wf(),
            final(self).same_but_peers(*old(self)),
            match command {
                ApiCommand::Connect(addr) => r == Some(NodeAction::Connect(addr)) && final(self)@ == old(self)@,
                ApiCommand::SendFile { target, file_path } => {
                    &&& final(self)@ == old(self)@
                    &&& r == (if old(self).knows(target) {
                        Some(NodeAction::OfferFile { peer: target, file_path })
                    } else {
                        None
                    })
                },
                ApiCommand::SendMessage { target, message } => exists|f: Option<Frame>| #[trigger]
                    old(self).sent_secured(*final(self), target, MessageType::Data, encode_utf8(message@), f) && r == (match f {
                        Some(frame) => Some(NodeAction::Send { to: target, frame }),
                        None => None,
                    }),
            },
    {
        match command {
            ApiCommand::Connect(addr) => Some(NodeAction::Connect(addr)),
            ApiCommand::SendFile { target, file_path } => {
                if self.peers.contains(&target.key()) {
                    Some(NodeAction::OfferFile { peer: target, file_path })
                } else {
                    None
                }
            },
            ApiCommand::SendMessage { target, message } => {
                let f = self.secure_payload(target, MessageType::Data, message.as_str().as_bytes());
                let ghost g = f;
                assert(old(self).sent_secured(*self, target, MessageType::Data, encode_utf8(message@), g));
                match f {
                    Some(frame) => Some(NodeAction::Send { to: target, frame }),
                    None => None,
                }
            },
        }
    }

    /// The transfers, to be worked on.
    pub fn transfers_mut(&mut self) -> (r: &mut TransferManager)
        requires
            old(self).wf(),
        ensures
            *r == old(self).files(),
            r.wf(),
            *final(r) == final(self).files(),
            final(self)@ == old(self)@,
            final(self).who() == old(self).who(),
            final(r).wf() ==> final(self).wf(),
    {
        &mut self.transfers
    }

    pub fn transfers(&self) -> (r: &TransferManager)
        requires
            self.wf(),
        ensures
            *r == self.files(),
            r.wf(),
    {
        &self.transfers
    }
}

/// A frame that is not encrypted, or that comes from a peer without a session, changes
/// nothing and does nothing.
pub proof fn law_unprotected_frames_are_rejected(before: Node, after: Node, peer: SocketAddr, frame: Frame, actions: Seq<NodeAction>)
    requires
        before.frame_handled(after, peer, frame, actions),
        !before.secure(peer) || !frame.header.flags.has(1),
    ensures
        after@ == before@,
        after.files() == before.files(),
        actions.len() == 0,
{
}

/// A handshake frame does not disturb a session.
pub proof fn law_session_survives_handshake_frames(before: Node, after: Node, peer: SocketAddr, payload: Seq<u8>, r: Option<Frame>)
    requires
        before.handshake_handled(after, peer, payload, r),
        before.secure(peer),
    ensures
        after@ == before@,
        r is None,
{
}

/// Two nodes that exchange the three messages of a handshake have a session with each other
/// at its end: what the one sends with, the other receives with, and each knows the
/// other's static key.
pub proof fn law_nodes_reach_a_session(
    a: Node,
    a_after: Node,
    b: Node,
    b_between: Node,
    b_after: Node,
    a_addr: SocketAddr,
    b_addr: SocketAddr,
    start: HandshakeModel,
    secret: Seq<u8>,
    msg1: Seq<u8>,
    second: Frame,
    third: Option<Frame>,
    last: Option<Frame>,
)
    requires
        // the first node has sent the first message and waits for the answer
        a.who().derived(),
        fresh_handshake(start, a.who(), true),
        a.knows(b_addr),
        a.state(b_addr) is InitiatorWaitMsg2,
        creates_message1(start, a.state(b_addr)->InitiatorWaitMsg2_handshake@, secret, msg1),
        // the second node waits for it
        b.who().derived(),
        b.knows(a_addr),
        b.state(a_addr) is ResponderWaitMsg1,
        fresh_handshake(b.state(a_addr)->ResponderWaitMsg1_handshake@, b.who(), false),
        // the messages are exchanged
        b.handshake_handled(b_between, a_addr, msg1, Some(second)),
        a.handshake_handled(a_after, b_addr, second.data(), third),
        third matches Some(f) ==> b_between.handshake_handled(b_after, a_addr, f.data(), last),
    ensures
        third is Some,
        a_after.secure(b_addr),
        b_after.secure(a_addr),
        a_after.state(b_addr)->session.sending_key() == b_after.state(a_addr)->session.receiving_key(),
        a_after.state(b_addr)->session.receiving_key() == b_after.state(a_addr)->session.sending_key(),
        a_after.state(b_addr)->session.remote() == b.who().x25519_public_key@,
        b_after.state(a_addr)->session.remote() == a.who().x25519_public_key@,
{
    let ha = a.state(b_addr)->InitiatorWaitMsg2_handshake@;
    let hb = b.state(a_addr)->ResponderWaitMsg1_handshake@;
    let hb2 = b_between.state(a_addr)->ResponderWaitMsg3_handshake@;
    let (eb, msg2) = choose|eb: Seq<u8>, msg2: Seq<u8>| #[trigger]
        answers_message1(hb, hb2, eb, msg1, msg2) && Some(second) is Some && handshake_frame(second, msg2);
    let (ha2, x) = choose|h: HandshakeModel, x: Result<Vec<u8>, CryptoError>| #[trigger]
        answers_message2(ha, h, second.data(), x) && match x {
            Ok(msg3) => {
                &&& third matches Some(f) && handshake_frame(f, msg3@)
                &&& a_after.secure(b_addr)
                &&& session_of(a_after.state(b_addr)->session, h.stage)
                &&& a_after@ == a.with_peer(b_addr, a_after.state(b_addr))
            },
            Err(_) => third is None && a_after@ == a@.remove(b_addr.spec_key()),
        };
    law_second_message_is_answered(start, ha, ha2, hb, hb2, secret, eb, msg1, msg2, x);
    let msg3 = x->Ok_0;
    assert(b_after.knows(a_addr));
    let h = choose|h: HandshakeModel| #[trigger]
        completes(hb2, h, msg3@, Ok(())) && session_of(b_after.state(a_addr)->session, h.stage);
    law_handshake_agrees(start, ha, ha2, hb, hb2, h, secret, eb, msg1, msg2, msg3, x, Ok(()));
}

/// A message that one node sends over a session is told to those who listen at the other
/// node, word for word: with matching keys, and a nonce that was not received before.
pub proof fn law_message_arrives(
    sa: SecureSession,
    sa_after: SecureSession,
    text: Seq<char>,
    frame: Frame,
    b: Node,
    b_after: Node,
    a_addr: SocketAddr,
    actions: Seq<NodeAction>,
)
    requires
        seals_out(sa, sa_after, MessageType::Data, encode_utf8(text), Some(frame)),
        b.secure(a_addr),
        b.state(a_addr)->session.receiving_key() == sa.sending_key(),
        b.state(a_addr)->session.window().fresh(frame.header.request_id),
        b.frame_handled(b_after, a_addr, frame, actions),
    ensures
        actions.len() == 1,
        actions[0] matches NodeAction::Emit(ApiEvent::MessageReceived { peer, message }) && peer == a_addr && message@ == text,
{
    broadcast use encode_utf8_valid_utf8, encode_utf8_decode_utf8;

    let x = choose|x: Result<(u64, Vec<u8>), CryptoError>| #[trigger]
        encrypts(sa, sa_after, encode_utf8(text), Seq::empty(), x) && match x {
            Ok(m) => Some(frame) matches Some(f) && sealed_frame(f, MessageType::Data, m.0, m.1@),
            Err(_) => Some(frame) is None,
        };
    let sent = x->Ok_0;
    assert(0u8 | 1 == 1u8) by (bit_vector);
    assert(1u8 & 1 != 0) by (bit_vector);
    let sb = b.state(a_addr)->session;
    let y = choose|y: Result<Vec<u8>, CryptoError>| #[trigger]
        decrypts(sb, b_after.state(a_addr)->session, frame.header.request_id, frame.data(), Seq::empty(), y) && match y {
            Ok(data) => dispatched(b.files(), b_after.files(), a_addr, frame.header.msg_type, data@, actions),
            Err(_) => b_after.files() == b.files() && actions.len() == 0,
        };
    law_decrypt_gives_back(sa, sa_after, encode_utf8(text), Seq::empty(), sent, sb, b_after.state(a_addr)->session, y);
    encode_utf8_valid_utf8(text);
    encode_utf8_decode_utf8(text);
    if let NodeAction::Emit(ApiEvent::MessageReceived { peer, message }) = actions[0] {
        encode_utf8_decode_utf8(message@);
    }
}

/// Frames of the handshake are marked as such and go out in the open. Frames of a session are
/// marked as encrypted, keep their type, and tell the nonce.
pub proof fn law_frames_that_go_out(f: Frame, g: Frame, msg_type: MessageType, nonce: u64, message: Seq<u8>, ciphertext: Seq<u8>)
    requires
        handshake_frame(f, message),
        sealed_frame(g, msg_type, nonce, ciphertext),
    ensures
        f.data() == message,
        f.header.msg_type is Handshake && f.header.flags.0 % 2 == 0 && f.header.request_id == 0,
        g.data() == ciphertext,
        g.header.msg_type == msg_type && g.header.flags.0 == 1 && g.header.request_id == nonce,
{
    assert(0u8 | 1 == 1u8) by (bit_vector);
}

/// What is sent to a peer with whom there is a session can be opened with the session's key and the
/// nonce that the frame tells, and is what was to be sent. To any other peer nothing goes out.
pub proof fn law_only_sealed_frames_go_out(
    before: Node,
    after: Node,
    peer: SocketAddr,
    msg_type: MessageType,
    payload: Seq<u8>,
    r: Option<Frame>,
)
    requires
        before.sent_secured(after, peer, msg_type, payload, r),
    ensures
        r is Some ==> before.secure(peer) && r->0.header.flags.0 == 1 && r->0.header.msg_type == msg_type && r->0.header.request_id
            == before.state(peer)->session.next_nonce() && opened(
            before.state(peer)->session.sending_key(),
            nonce_bytes(r->0.header.request_id),
            Seq::empty(),
            r->0.data(),
        ) == Some(payload),
        before.secure(peer) && before.state(peer)->session.next_nonce() < 0x1_0000_0000_0000 && payload.len() <= 0x40_0000_0000 - 128
            ==> r is Some && after.state(peer)->session.next_nonce() == before.state(peer)->session.next_nonce() + 1,
        !before.secure(peer) ==> r is None && after@ == before@,
{
    if before.secure(peer) {
        let s = before.state(peer)->session;
        let t = after.state(peer)->session;
        let x = choose|x: Result<(u64, Vec<u8>), CryptoError>| #[trigger]
            encrypts(s, t, payload, Seq::empty(), x) && match x {
                Ok(m) => r matches Some(f) && sealed_frame(f, msg_type, m.0, m.1@),
                Err(_) => r is None,
            };
        law_encrypting_uses_up_a_nonce(s, t, payload, Seq::empty(), x);
        if let Ok(m) = x {
            law_sealed_is_opened(s.sending_key(), nonce_bytes(m.0), Seq::empty(), payload, m.1@);
            assert(0u8 | 1 == 1u8) by (bit_vector);
        }
    }
}

/// What comes from one peer, or goes to it, leaves what is known of every other as it was.
pub proof fn law_peers_are_apart(
    before: Node,
    after: Node,
    peer: SocketAddr,
    other: SocketAddr,
    payload: Seq<u8>,
    msg_type: MessageType,
    r: Option<Frame>,
    frame: Frame,
    actions: Seq<NodeAction>,
)
    requires
        other != peer,
        before.handshake_handled(after, peer, payload, r) || before.frame_handled(after, peer, frame, actions) || before.sent_secured(
            after,
            peer,
            msg_type,
            payload,
            r,
        ),
    ensures
        after.knows(other) == before.knows(other),
        after.knows(other) ==> after.state(other) == before.state(other),
{
    if other.spec_key() == peer.spec_key() {
        law_keys_are_distinct(other, peer);
    }
}

/// A handshake goes forward or ends. Who waits for the second message has a session when it
/// answers, and else forgets the peer. Who waits for the first answers just a message of 32 bytes,
/// and then waits for the third. Who waits for the third answers nothing, and has a session just if
/// the message opens.
pub proof fn law_handshake_goes_forward(before: Node, after: Node, peer: SocketAddr, payload: Seq<u8>, r: Option<Frame>)
    requires
        before.handshake_handled(after, peer, payload, r),
    ensures
        !before.knows(peer) ==> r is None && !after.knows(peer),
        before.knows(peer) && before.state(peer) is InitiatorWaitMsg2 ==> {
            &&& r is Some ==> after.secure(peer) && r->0.header.msg_type is Handshake
            &&& r is None ==> !after.knows(peer)
        },
        before.knows(peer) && before.state(peer) is ResponderWaitMsg1 ==> {
            &&& payload.len() == 32 ==> r is Some && r->0.header.msg_type is Handshake && after.knows(peer) && after.state(
                peer,
            ) is ResponderWaitMsg3
            &&& payload.len() != 32 ==> r is None && !after.knows(peer)
        },
        before.knows(peer) && before.state(peer) is ResponderWaitMsg3 ==> {
            &&& r is None
            &&& payload.len() == 48 && crate::crypto::noise::opened_message3(
                before.state(peer)->ResponderWaitMsg3_handshake@,
                payload,
            ) is Some ==> after.secure(peer)
            &&& after.knows(peer) ==> after.secure(peer)
        },
{
}

/// A session that a handshake has ended in is unused: nothing was sent or received over it, and it
/// has the keys of the handshake.
pub proof fn law_new_session_is_unused(s: SecureSession, stage: Stage, n: u64)
    requires
        session_of(s, stage),
    ensures
        stage matches Stage::Complete { send_key, recv_key, remote_static, .. } && s.sending_key() == send_key && s.receiving_key()
            == recv_key && s.remote() == remote_static,
        s.next_nonce() == 0 && s.highest_received() == 0,
        s.window().fresh(n),
{
    law_window_reaches_back(s.window(), n);
}

/// A frame that has come is not taken a second time.
pub proof fn law_frame_is_taken_once(
    before: Node,
    between: Node,
    after: Node,
    peer: SocketAddr,
    first: Frame,
    second: Frame,
    actions: Seq<NodeAction>,
    more: Seq<NodeAction>,
)
    requires
        before.secure(peer),
        first.header.flags.0 % 2 == 1,
        first.header.request_id == second.header.request_id,
        before.frame_handled(between, peer, first, actions),
        between.frame_handled(after, peer, second, more),
    ensures
        more.len() == 0,
        after.files() == between.files(),
{
    law_flags_only_grow(first.header.flags.0, 0);
    if second.header.flags.has(1) {
        let (s, t, u) = (before.state(peer)->session, between.state(peer)->session, after.state(peer)->session);
        let n = first.header.request_id;
        let x = choose|x: Result<Vec<u8>, CryptoError>| #[trigger]
            decrypts(s, t, n, first.data(), Seq::empty(), x) && match x {
                Ok(data) => dispatched(before.files(), between.files(), peer, first.header.msg_type, data@, actions),
                Err(_) => between.files() == before.files() && actions.len() == 0,
            };
        let y = choose|y: Result<Vec<u8>, CryptoError>| #[trigger]
            decrypts(t, u, n, second.data(), Seq::empty(), y) && match y {
                Ok(data) => dispatched(between.files(), after.files(), peer, second.header.msg_type, data@, more),
                Err(_) => after.files() == between.files() && more.len() == 0,
            };
        law_replay_is_refused(s, t, u, n, first.data(), second.data(), Seq::empty(), x, y);
    }
}

/// Frames in the open, frames that do not open, and frames from peers without a session do nothing.
pub proof fn law_frames_that_do_not_open(before: Node, after: Node, peer: SocketAddr, frame: Frame, actions: Seq<NodeAction>)
    requires
        before.frame_handled(after, peer, frame, actions),
        !before.secure(peer) || frame.header.flags.0 % 2 == 0 || opened(
            before.state(peer)->session.receiving_key(),
            nonce_bytes(frame.header.request_id),
            Seq::empty(),
            frame.data(),
        ) is None,
    ensures
        actions.len() == 0,
        after.files() == before.files(),
        after.secure(peer) == before.secure(peer),
{
    law_flags_only_grow(frame.header.flags.0, 0);
}

/// What a frame that opens holds is acted on as its type says.
pub proof fn law_frames_that_open_are_acted_on(
    before: Node,
    after: Node,
    peer: SocketAddr,
    frame: Frame,
    data: Seq<u8>,
    actions: Seq<NodeAction>,
)
    requires
        before.frame_handled(after, peer, frame, actions),
        before.secure(peer),
        frame.header.flags.0 % 2 == 1,
        before.state(peer)->session.window().fresh(frame.header.request_id),
        opened(before.state(peer)->session.receiving_key(), nonce_bytes(frame.header.request_id), Seq::empty(), frame.data()) == Some(
            data,
        ),
    ensures
        dispatched(before.files(), after.files(), peer, frame.header.msg_type, data, actions),
        after.secure(peer),
{
    law_flags_only_grow(frame.header.flags.0, 0);
}

/// A file that is offered is told of, and room is made for it; an offer that cannot be read does
/// nothing.
pub proof fn law_offers_are_told(before: TransferManager, after: TransferManager, peer: SocketAddr, data: Seq<u8>, actions: Seq<NodeAction>)
    requires
        dispatched(before, after, peer, MessageType::FileOffer, data, actions),
    ensures
        after@ == before@,
        FileOffer::fault(data) is Some ==> actions.len() == 0,
        FileOffer::fault(data) is None ==> {
            &&& actions.len() == 2
            &&& actions[0] matches NodeAction::Emit(ApiEvent::FileOfferReceived { peer: p, file_name, total_size }) && p == peer
                && encode_utf8(file_name@) == data.subrange(67, 67 + be_val(data.subrange(65, 67)) as int) && total_size == be_val(
                data.subrange(17, 25),
            )
            &&& actions[1] matches NodeAction::OpenFile { peer: q, offer } && q == peer && offer.transfer_id@ == data.subrange(1, 17)
                && offer.file_size == be_val(data.subrange(17, 25)) && offer.file_hash@ == data.subrange(33, 65)
        },
{
    if FileOffer::fault(data) is None {
        if let NodeAction::OpenFile { peer: q, offer } = actions[1] {
            law_file_offer_is_read(data, offer);
        }
    }
}

/// An acceptance that can be read tells which chunks the peer lacks of the file that is sent to it.
pub proof fn law_acceptances_are_heard(
    before: TransferManager,
    after: TransferManager,
    peer: SocketAddr,
    data: Seq<u8>,
    actions: Seq<NodeAction>,
    id: TransferId,
)
    requires
        dispatched(before, after, peer, MessageType::FileAccept, data, actions),
        id@ == data.subrange(1, 17),
    ensures
        actions.len() == 0,
        FileAccept::fault(data) is Some ==> after@ == before@,
        FileAccept::fault(data) is None && before.has(id) && before.state(id) is Sending ==> after.has(id) && after.state(id) is Sending
            && after.state(id)->Sending_0.bitfield@ == data.subrange(22, 22 + be_val(data.subrange(18, 22)) as int),
        !before.has(id) || before.state(id) is Receiving ==> after@ == before@,
{
    if FileAccept::fault(data) is None {
        let (m, r) = choose|m: FileAccept, r: Result<(), TransferError>|
            m.read_from(data) && #[trigger] before.accept_handled(after, m, r);
        law_file_accept_is_read(data, m);
        lemma_array_eq(m.transfer_id.0, id.0);
    }
}

/// A chunk that can be read, with the hash of its data, is written to the file that it belongs to,
/// at its place.
pub proof fn law_chunks_are_written(
    before: TransferManager,
    after: TransferManager,
    peer: SocketAddr,
    data: Seq<u8>,
    actions: Seq<NodeAction>,
    id: TransferId,
    s: ReceivingState,
)
    requires
        dispatched(before, after, peer, MessageType::FileChunk, data, actions),
        id@ == data.subrange(1, 17),
        s.wf(),
        before.has(id) && before.state(id) == TransferState::Receiving(s),
        FileChunk::fault(data) is None,
    ensures
        sha256(data.subrange(53, data.len() as int)) != data.subrange(21, 53) ==> actions.len() == 1 && after.state(id) == before.state(
            id,
        ) && (actions[0] matches NodeAction::Transfer(TransferAction::Send { peer: p, frame }) && p == s.peer
            && frame.header.msg_type is FileChunkAck),
        sha256(data.subrange(53, data.len() as int)) == data.subrange(21, 53) && be_val(data.subrange(17, 21)) * s.chunk_size
            + data.len() - 53 <= s.file_len ==> actions.len() >= 3 && (
        actions[0] matches NodeAction::Transfer(TransferAction::Write { transfer_id, start, data: d }) && transfer_id == id && start
            == be_val(data.subrange(17, 21)) * s.chunk_size && bytes_contents(d) == data.subrange(53, data.len() as int)),
{
    let (m, r, inner) = choose|m: FileChunk, r: Result<(), TransferError>, inner: Seq<TransferAction>|
        m.read_from(data) && #[trigger] before.chunk_handled(after, m, r, inner) && wrapped(actions, inner);
    law_file_chunk_is_read(data, m);
    lemma_array_eq(m.transfer_id.0, id.0);
    if sha256(bytes_contents(m.data)) != m.chunk_hash@ {
        law_bad_chunk_is_reported(before, after, s, m, r, inner);
    } else if m.chunk_index * s.chunk_size + bytes_contents(m.data).len() <= s.file_len {
        law_good_chunk_is_written(before, after, s, m, r, inner);
    }
}

/// An acknowledgement that tells of a bad chunk makes it missing again; any other leaves what is
/// missing as it was.
pub proof fn law_acknowledgements_are_heard(
    before: TransferManager,
    after: TransferManager,
    peer: SocketAddr,
    data: Seq<u8>,
    actions: Seq<NodeAction>,
    id: TransferId,
)
    requires
        dispatched(before, after, peer, MessageType::FileChunkAck, data, actions),
        id@ == data.subrange(1, 17),
        FileChunkAck::fault(data) is None,
        before.has(id) && before.state(id) is Sending,
    ensures
        data[21] == 1 && be_val(data.subrange(17, 21)) / 8 < before.state(id)->Sending_0.bitfield@.len() ==> marked(
            after.state(id)->Sending_0.bitfield@,
            be_val(data.subrange(17, 21)) as u32,
        ),
        data[21] != 1 ==> after.state(id)->Sending_0.bitfield == before.state(id)->Sending_0.bitfield,
{
    let (m, inner) = choose|m: FileChunkAck, inner: Seq<TransferAction>|
        m.read_from(data) && #[trigger] before.ack_handled(after, m, inner) && wrapped(actions, inner);
    law_file_chunk_ack_is_read(data, m);
    lemma_array_eq(m.transfer_id.0, id.0);
    if m.status is BadHash {
        law_bad_chunk_goes_out_again(before, after, m, inner, 0);
    } else {
        law_good_chunk_is_no_longer_sent(before, after, m, inner);
    }
}

/// Credits that come are added to those of the transfer that they name, and chunks go out for them.
pub proof fn law_credits_are_heard(
    before: TransferManager,
    after: TransferManager,
    peer: SocketAddr,
    data: Seq<u8>,
    actions: Seq<NodeAction>,
    id: TransferId,
)
    requires
        dispatched(before, after, peer, MessageType::CreditUpdate, data, actions),
    ensures
        data.len() < 20 ==> after@ == before@ && actions.len() == 0,
        ({
            let s = before.state(id)->Sending_0;
            let n = data[16] + data[17] * 0x100 + data[18] * 0x1_0000 + data[19] * 0x100_0000;
            data.len() >= 20 && id@ == data.subrange(0, 16) && before.has(id) && before.state(id) is Sending && before.state(id).wf()
                && s.current_chunk_idx <= s.total_chunks && s.credits + n <= u32::MAX ==> after.state(id) is Sending && actions.len()
                + after.state(id)->Sending_0.credits == s.credits + n
        }),
{
    if data.len() >= 20 && id@ == data.subrange(0, 16) {
        let (m, inner) = choose|m: TransferId, inner: Seq<TransferAction>|
            m@ == data.subrange(0, 16) && #[trigger] before.credit_handled(
                after,
                m,
                le_val(data.subrange(16, 20)) as u32,
                inner,
            ) && wrapped(actions, inner);
        lemma_array_eq(m.0, id.0);
        law_little_endian(data.subrange(16, 20));
        law_credits_come_on_top(before, after, m, le_val(data.subrange(16, 20)) as u32, inner);
    }
}

/// Text that comes is told of word for word; bytes that are no text do nothing, nor do messages that
/// are not for the node.
pub proof fn law_text_is_told(
    before: TransferManager,
    after: TransferManager,
    peer: SocketAddr,
    msg_type: MessageType,
    data: Seq<u8>,
    actions: Seq<NodeAction>,
)
    requires
        dispatched(before, after, peer, msg_type, data, actions),
        !(msg_type is FileOffer || msg_type is FileAccept || msg_type is FileChunk || msg_type is FileChunkAck
            || msg_type is CreditUpdate),
    ensures
        after@ == before@,
        msg_type is Data && valid_utf8(data) ==> actions.len() == 1 && (actions[0] matches NodeAction::Emit(
            ApiEvent::MessageReceived { peer: p, message },
        ) && p == peer && encode_utf8(message@) == data),
        !(msg_type is Data) || !valid_utf8(data) ==> actions.len() == 0,
{
}

/// A new connection is told of, and a handshake awaited from a peer that is not known; a peer whose
/// connection ends or fails is forgotten. No other peer is concerned, nor any transfer.
pub proof fn law_connections_come_and_go(before: Node, after: Node, event: TransportEvent, actions: Seq<NodeAction>, other: SocketAddr)
    requires
        before.event_handled(after, event, actions),
        !(event is FrameReceived),
    ensures
        after.files() == before.files(),
        event matches TransportEvent::Connected { peer_addr } ==> after.knows(peer_addr) && actions.len() == 1 && actions[0]
            == NodeAction::Emit(ApiEvent::PeerConnected { peer: peer_addr }) && (if before.knows(peer_addr) {
            after.state(peer_addr) == before.state(peer_addr)
        } else {
            after.state(peer_addr) is ResponderWaitMsg1
        }) && (other != peer_addr ==> after.knows(other) == before.knows(other) && (after.knows(other) ==> after.state(other)
            == before.state(other))),
        event matches TransportEvent::Disconnected { peer_addr, reason } ==> !after.knows(peer_addr) && actions.len() == 1
            && actions[0] == NodeAction::Emit(ApiEvent::PeerDisconnected { peer: peer_addr, reason }) && (other != peer_addr
            ==> after.knows(other) == before.knows(other)),
        event matches TransportEvent::Error { peer_addr: Some(a), .. } ==> !after.knows(a) && actions.len() == 0 && (other != a
            ==> after.knows(other) == before.knows(other)),
        event matches TransportEvent::Error { peer_addr: None, .. } ==> after@ == before@ && actions.len() == 0,
{
    match event {
        TransportEvent::Connected { peer_addr } => {
            if other.spec_key() == peer_addr.spec_key() {
                law_keys_are_distinct(other, peer_addr);
            }
        },
        TransportEvent::Disconnected { peer_addr, .. } => {
            if other.spec_key() == peer_addr.spec_key() {
                law_keys_are_distinct(other, peer_addr);
            }
        },
        TransportEvent::Error { peer_addr: Some(a), .. } => {
            if other.spec_key() == a.spec_key() {
                law_keys_are_distinct(other, a);
            }
        },
        _ => {},
    }
}

/// What commands lead to: a connection, an offer to a peer that is known, or a message that goes out
/// sealed over the session with its peer, if there is one.
pub proof fn law_commands_are_carried_out(addr: SocketAddr, file_path: String, message: String, r: Option<NodeAction>)
    ensures
        forall|n: &mut Node| #[trigger]
            call_ensures(Node::on_command, (n, ApiCommand::Connect(addr)), r) ==> r == Some(NodeAction::Connect(addr)) && final(n)@ == n@,
        forall|n: &mut Node| #[trigger]
            call_ensures(Node::on_command, (n, ApiCommand::SendFile { target: addr, file_path }), r) ==> (if n.knows(addr) {
                r == Some(NodeAction::OfferFile { peer: addr, file_path })
            } else {
                r is None
            }) && final(n)@ == n@,
        forall|n: &mut Node| #[trigger]
            call_ensures(Node::on_command, (n, ApiCommand::SendMessage { target: addr, message }), r) && !n.secure(addr) ==> r is None,
        forall|n: &mut Node| #[trigger]
            call_ensures(Node::on_command, (n, ApiCommand::SendMessage { target: addr, message }), r) && r is Some ==> (
            r->0 matches NodeAction::Send { to, frame } && to == addr && frame.header.msg_type is Data && frame.header.flags.0 == 1
                && opened(
                n.state(addr)->session.sending_key(),
                nonce_bytes(frame.header.request_id),
                Seq::empty(),
                frame.data(),
            ) == Some(encode_utf8(message@))),
{
    assert forall|n: &mut Node| #[trigger]
        call_ensures(Node::on_command, (n, ApiCommand::SendMessage { target: addr, message }), r) implies (!n.secure(addr)
            ==> r is None) && (
    r is Some ==> (r->0 matches NodeAction::Send { to, frame } && to == addr && frame.header.msg_type is Data && frame.header.flags.0 == 1
        && opened(n.state(addr)->session.sending_key(), nonce_bytes(frame.header.request_id), Seq::empty(), frame.data()) == Some(
        encode_utf8(message@),
    ))) by {
        let f = choose|f: Option<Frame>| #[trigger]
            n.sent_secured(*final(n), addr, MessageType::Data, encode_utf8(message@), f) && r == (match f {
                Some(frame) => Some(NodeAction::Send { to: addr, frame }),
                None => None,
            });
        law_only_sealed_frames_go_out(*n, *final(n), addr, MessageType::Data, encode_utf8(message@), f);
    }
}

/// A peer that connects and is not known is waited for; one that disconnects is forgotten; both are
/// told.
pub proof fn law_connections_are_told(addr: SocketAddr, reason: String, e: ApiEvent, g: ApiEvent)
    ensures
        forall|n: &mut Node| #[trigger]
            call_ensures(Node::on_connected, (n, addr), e) ==> e == (ApiEvent::PeerConnected { peer: addr }) && final(n).knows(addr) && (
            !n.knows(addr) ==> final(n).state(addr) is ResponderWaitMsg1) && (n.knows(addr) ==> final(n)@ == n@),
        forall|n: &mut Node| #[trigger]
            call_ensures(Node::on_disconnected, (n, addr, reason), g) ==> g == (ApiEvent::PeerDisconnected { peer: addr, reason })
                && !final(n).knows(addr),
{
}

/// What becomes of the frames that come and of those that are to go out.
pub proof fn law_frames_are_handled(
    addr: SocketAddr,
    payload: &[u8],
    frame: Frame,
    msg_type: MessageType,
    event: TransportEvent,
    r: Option<Frame>,
    actions: Vec<NodeAction>,
)
    ensures
        forall|n: &mut Node| #[trigger]
            call_ensures(Node::on_handshake_frame, (n, addr, payload), r) ==> n.handshake_handled(*final(n), addr, payload@, r),
        forall|n: &mut Node| #[trigger]
            call_ensures(Node::on_data_frame, (n, addr, &frame), actions) ==> n.frame_handled(*final(n), addr, frame, actions@),
        forall|n: &mut Node| #[trigger]
            call_ensures(Node::on_transport_event, (n, event), actions) ==> n.event_handled(*final(n), event, actions@),
        forall|n: &mut Node| #[trigger]
            call_ensures(Node::secure_payload, (n, addr, msg_type, payload), r) ==> n.sent_secured(
                *final(n),
                addr,
                msg_type,
                payload@,
                r,
            ),
        forall|n: &mut Node| #[trigger]
            call_ensures(Node::on_transfer_frame, (n, addr, frame), r) ==> n.sent_secured(
                *final(n),
                addr,
                frame.header.msg_type,
                frame.data(),
                r,
            ),
{
}

/// What a message that was opened does, and how a handshake is begun: with a frame of 32 bytes.
pub proof fn law_messages_are_dispatched(
    addr: SocketAddr,
    msg_type: MessageType,
    data: Vec<u8>,
    actions: Vec<NodeAction>,
    node: Node,
    begun: (NoiseHandshake, Frame),
)
    requires
        call_ensures(Node::begin_handshake, (&node,), begun),
    ensures
        forall|n: &mut Node| #[trigger]
            call_ensures(Node::dispatch, (n, addr, msg_type, data), actions) ==> dispatched(
                n.files(),
                final(n).files(),
                addr,
                msg_type,
                data@,
                actions@,
            ) && final(n)@ == n@,
        begun.0@.stage is InitSentMsg1 && begun.1.header.msg_type is Handshake && begun.1.data().len() == 32,
{
}

} // verus!
