//! Hole punching: both sides send to each other's outer address at the same time.
use vstd::prelude::*;
use vstd::string::*;
use crate::traversal::NatError;
use crate::net::SocketAddr;
use crate::text::{dec, push_dec};
use crate::time::{Duration, Instant};
use crate::wire::{be, be_val, bytes_equal, lemma_be_len, lemma_be_roundtrip, lemma_pow256_values, put_be, put_bytes};

verus! {

/// How holes are punched.
#[derive(Debug, Clone, Copy)]
pub struct HolePunchConfig {
    /// Packets that are sent in a round.
    pub packets_per_round: usize,
    /// The pause between packets.
    pub packet_interval: Duration,
    pub max_rounds: usize,
    /// How long an answer is waited for in a round.
    pub round_timeout: Duration,
    /// The bytes that a punch packet begins with.
    pub magic: [u8; 4],
}

impl Default for HolePunchConfig {
    fn default() -> (r: Self)
        ensures
            r.packets_per_round == 3,
            r.packet_interval.nanos == 50_000_000,
            r.max_rounds == 10,
            r.round_timeout.nanos == 500_000_000,
            r.magic@ == seq![0x43u8, 0x45u8, 0x4Bu8, 0x59u8],
    {
        let magic: [u8; 4] = [0x43u8, 0x45u8, 0x4Bu8, 0x59u8];
        assert(magic@ =~= seq![0x43u8, 0x45u8, 0x4Bu8, 0x59u8]);
        HolePunchConfig {
            packets_per_round: 3,
            packet_interval: Duration::from_millis(50),
            max_rounds: 10,
            round_timeout: Duration::from_millis(500),
            magic,
        }
    }
}

/// A hole that was punched.
#[derive(Debug, Clone, Copy)]
pub struct HolePunchResult {
    /// Where the other side was heard from.
    pub peer_addr: SocketAddr,
    pub duration: Duration,
    pub rounds: usize,
}

/// What is done at the moment.
#[derive(Debug, Clone, Copy, PartialEq, Eq, Structural)]
pub enum PunchPhase {
    /// A packet is to be sent.
    Send,
    /// A pause before the next packet.
    Pause,
    /// Waiting for the other side.
    Listen,
}

/// An attempt to punch a hole.
#[derive(Debug)]
pub struct Punch {
    pub started: Instant,
    pub round: usize,
    /// The packet of the round.
    pub seq: usize,
    pub phase: PunchPhase,
}

/// What has happened.
#[derive(Debug)]
pub enum PunchEvent {
    /// What was asked for is done: the packet was sent (or could not be), the pause is over.
    Done,
    /// A packet has arrived.
    Received { data: Vec<u8>, from: SocketAddr, now: Instant },
    /// Nothing has arrived in time, or receiving has failed.
    Nothing,
}

/// What to do next.
#[derive(Debug)]
pub enum PunchAction {
    /// Send a packet to the other side.
    Send(Vec<u8>),
    /// Wait before the next packet.
    Pause(Duration),
    /// Wait for a packet.
    Listen(Duration),
    /// There is a hole.
    Succeeded(HolePunchResult),
    /// There is none.
    Failed(NatError),
}

/// Punches holes.
pub struct HolePuncher {
    pub config: HolePunchConfig,
}

impl Default for HolePuncher {
    fn default() -> (r: Self)
        ensures
            r.config.packets_per_round == 3,
            r.config.max_rounds == 10,
            r.config.packet_interval.nanos == 50_000_000,
            r.config.round_timeout.nanos == 500_000_000,
            r.config.magic@ == seq![0x43u8, 0x45u8, 0x4Bu8, 0x59u8],
    {
        Self::new()
    }
}

/// The text of a failure.
pub open spec fn no_response_text(rounds: usize, remote: Seq<char>) -> Seq<char> {
    "no response after "@ + dec(rounds as nat) + " rounds to "@ + remote
}

/// The phase in which a round starts.
pub open spec fn first_phase(c: HolePunchConfig) -> PunchPhase {
    if c.packets_per_round == 0 {
        PunchPhase::Listen
    } else {
        PunchPhase::Send
    }
}

impl HolePuncher {
    pub fn new() -> (r: Self)
        ensures
            r.config.packets_per_round == 3,
            r.config.max_rounds == 10,
            r.config.packet_interval.nanos == 50_000_000,
            r.config.round_timeout.nanos == 500_000_000,
            r.config.magic@ == seq![0x43u8, 0x45u8, 0x4Bu8, 0x59u8],
    {
        HolePuncher { config: HolePunchConfig::default() }
    }

    pub fn with_config(config: HolePunchConfig) -> (r: Self)
        ensures
            r == (HolePuncher { config }),
    {
        HolePuncher { config }
    }

    /// A punch packet on the wire.
    pub open spec fn packet_wire(self, round: nat, seq: nat) -> Seq<u8> {
        self.config.magic@ + be(round, 4) + be(seq, 4)
    }

    /// A punch packet: the magic bytes, the round and the packet of the round.
    pub fn build_punch_packet(&self, round: u32, seq: u32) -> (r: Vec<u8>)
        ensures
            r@ == self.packet_wire(round as nat, seq as nat),
    {
        let mut out: Vec<u8> = Vec::new();
        put_bytes(&mut out, self.config.magic.as_slice());
        put_be(&mut out, round as u128, 4);
        put_be(&mut out, seq as u128, 4);
        assert(out@ =~= self.packet_wire(round as nat, seq as nat));
        out
    }

    /// The bytes begin as a punch packet does.
    pub open spec fn recognises(self, data: Seq<u8>) -> bool {
        data.len() >= 4 && data.subrange(0, 4) == self.config.magic@
    }

    pub fn is_punch_packet(&self, data: &[u8]) -> (r: bool)
        ensures
            r == self.recognises(data@),
    {
        data.len() >= 4 && bytes_equal(vstd::slice::slice_subrange(data, 0, 4), self.config.magic.as_slice())
    }

    /// What belongs to a state: which packet to send, how long to wait, or the end.
    pub open spec fn acts(self, p: Punch, remote: Seq<char>, a: PunchAction) -> bool {
        if p.round >= self.config.max_rounds {
            a matches PunchAction::Failed(e) && (e matches NatError::HolePunchFailed { reason } && reason@
                == no_response_text(self.config.max_rounds, remote))
        } else {
            match p.phase {
                PunchPhase::Send => a matches PunchAction::Send(d) && d@ == self.packet_wire(
                    (p.round as int % 0x1_0000_0000) as nat,
                    (p.seq as int % 0x1_0000_0000) as nat,
                ),
                PunchPhase::Pause => a == PunchAction::Pause(self.config.packet_interval),
                PunchPhase::Listen => a == PunchAction::Listen(self.config.round_timeout),
            }
        }
    }

    fn action(&self, p: &Punch, remote: &str) -> (r: PunchAction)
        ensures
            self.acts(*p, remote@, r),
    {
        if p.round >= self.config.max_rounds {
            let mut reason: String = String::new();
            reason.append("no response after ");
            push_dec(&mut reason, self.config.max_rounds as u128);
            reason.append(" rounds to ");
            reason.append(remote);
            assert(reason@ =~= no_response_text(self.config.max_rounds, remote@));
            return PunchAction::Failed(NatError::HolePunchFailed { reason });
        }
        match p.phase {
            PunchPhase::Send => PunchAction::Send(
                self.build_punch_packet((p.round as u64 % 0x1_0000_0000u64) as u32, (p.seq as u64 % 0x1_0000_0000u64) as u32),
            ),
            PunchPhase::Pause => PunchAction::Pause(self.config.packet_interval),
            PunchPhase::Listen => PunchAction::Listen(self.config.round_timeout),
        }
    }

    /// The state is one that an attempt can be in.
    pub open spec fn valid(self, p: Punch) -> bool {
        &&& p.round <= self.config.max_rounds
        &&& p.phase is Send ==> p.seq < self.config.packets_per_round
        &&& p.phase is Pause ==> p.seq + 1 < self.config.packets_per_round
    }

    /// The state that follows: packet after packet with pauses between them, then waiting
    /// for an answer, then the next round.
    pub open spec fn follows(self, p: Punch) -> Punch {
        match p.phase {
            PunchPhase::Send => if p.seq + 1 < self.config.packets_per_round {
                Punch { phase: PunchPhase::Pause, ..p }
            } else {
                Punch { phase: PunchPhase::Listen, ..p }
            },
            PunchPhase::Pause => Punch { seq: (p.seq + 1) as usize, phase: PunchPhase::Send, ..p },
            PunchPhase::Listen => Punch { round: (p.round + 1) as usize, seq: 0, phase: first_phase(self.config), ..p },
        }
    }

    /// Starts an attempt. `remote` is the other side's address in words.
    pub fn punch(&self, remote: &str, now: Instant) -> (r: (Punch, PunchAction))
        ensures
            r.0 == (Punch { started: now, round: 0, seq: 0, phase: first_phase(self.config) }),
            self.valid(r.0),
            self.acts(r.0, remote@, r.1),
    {
        let phase = if self.config.packets_per_round == 0 {
            PunchPhase::Listen
        } else {
            PunchPhase::Send
        };
        let p = Punch { started: now, round: 0, seq: 0, phase };
        let a = self.action(&p, remote);
        (p, a)
    }

    /// A punch packet that arrives while one is waited for ends the attempt.
    pub open spec fn succeeds(self, p: Punch, event: PunchEvent) -> bool {
        p.phase is Listen && (event matches PunchEvent::Received { data, from, now } && self.recognises(data@))
    }

    /// Goes on with an attempt after an event.
    pub fn on_event(&self, p: &mut Punch, event: PunchEvent, remote: &str) -> (r: PunchAction)
        requires
            self.valid(*old(p)),
            old(p).round < self.config.max_rounds,
        ensures
            if self.succeeds(*old(p), event) {
                &&& *final(p) == *old(p)
                &&& r == PunchAction::Succeeded(
                    HolePunchResult {
                        peer_addr: event->from,
                        duration: event->now.spec_since(old(p).started),
                        rounds: (old(p).round + 1) as usize,
                    },
                )
            } else {
                &&& *final(p) == self.follows(*old(p))
                &&& self.valid(*final(p))
                &&& self.acts(*final(p), remote@, r)
            },
    {
        match p.phase {
            PunchPhase::Send => {
                if p.seq < self.config.packets_per_round - 1 {
                    p.phase = PunchPhase::Pause;
                } else {
                    p.phase = PunchPhase::Listen;
                }
            },
            PunchPhase::Pause => {
                p.seq = p.seq + 1;
                p.phase = PunchPhase::Send;
            },
            PunchPhase::Listen => {
                match event {
                    PunchEvent::Received { data, from, now } => {
                        if self.is_punch_packet(data.as_slice()) {
                            return PunchAction::Succeeded(
                                HolePunchResult { peer_addr: from, duration: now.since(p.started), rounds: p.round + 1 },
                            );
                        }
                    },
                    _ => {},
                }
                p.round = p.round + 1;
                p.seq = 0;
                p.phase = if self.config.packets_per_round == 0 {
                    PunchPhase::Listen
                } else {
                    PunchPhase::Send
                };
            },
        }
        self.action(p, remote)
    }

    /// The steps that are left in a round.
    pub open spec fn steps_left(self, p: Punch) -> int {
        match p.phase {
            PunchPhase::Send => 2 * (self.config.packets_per_round - p.seq),
            PunchPhase::Pause => 2 * (self.config.packets_per_round - p.seq) - 1,
            PunchPhase::Listen => 0,
        }
    }
}

/// What one side sends, the other recognises.
pub proof fn law_punch_packets_are_recognised(a: HolePuncher, b: HolePuncher, round: nat, seq: nat)
    requires
        a.config.magic == b.config.magic,
    ensures
        b.recognises(a.packet_wire(round, seq)),
{
    assert(a.packet_wire(round, seq).subrange(0, 4) =~= b.config.magic@);
}

/// Every attempt comes to an end: each step either begins another round, of which there
/// are so many and no more, or leaves fewer steps in the present one.
pub proof fn law_punching_ends(h: HolePuncher, p: Punch)
    requires
        h.valid(p),
        p.round < h.config.max_rounds,
    ensures
        h.valid(h.follows(p)),
        h.follows(p).round == p.round + 1 || (h.follows(p).round == p.round && 0 <= h.steps_left(h.follows(p)) < h.steps_left(p)),
{
}

/// A punch packet: the magic bytes, the round and the number within the round.
pub proof fn law_punch_packet(h: HolePuncher, round: nat, seq: nat)
    requires
        round < 0x1_0000_0000,
        seq < 0x1_0000_0000,
    ensures
        h.packet_wire(round, seq).len() == 12,
        h.packet_wire(round, seq).subrange(0, 4) == h.config.magic@,
        be_val(h.packet_wire(round, seq).subrange(4, 8)) == round,
        be_val(h.packet_wire(round, seq).subrange(8, 12)) == seq,
{
    broadcast use lemma_be_len;

    lemma_pow256_values();
    let w = h.packet_wire(round, seq);
    assert(w.subrange(0, 4) =~= h.config.magic@);
    assert(w.subrange(4, 8) =~= be(round, 4));
    assert(w.subrange(8, 12) =~= be(seq, 4));
    lemma_be_roundtrip(round, 4);
    lemma_be_roundtrip(seq, 4);
}

/// A packet is one of ours just if it begins with all four magic bytes.
pub proof fn law_magic_decides(h: HolePuncher, data: Seq<u8>)
    ensures
        h.recognises(data) <==> data.len() >= 4 && data[0] == h.config.magic@[0] && data[1] == h.config.magic@[1] && data[2]
            == h.config.magic@[2] && data[3] == h.config.magic@[3],
{
    if data.len() >= 4 && data[0] == h.config.magic@[0] && data[1] == h.config.magic@[1] && data[2] == h.config.magic@[2] && data[3]
        == h.config.magic@[3] {
        assert(data.subrange(0, 4) =~= h.config.magic@);
    }
    if h.recognises(data) {
        assert(data.subrange(0, 4)[0] == data[0] && data.subrange(0, 4)[1] == data[1] && data.subrange(0, 4)[2] == data[2]
            && data.subrange(0, 4)[3] == data[3]);
    }
}

/// Punching succeeds just if, while it listens, one of our packets comes.
pub proof fn law_success_takes_a_punch_packet(h: HolePuncher, p: Punch, data: Vec<u8>, from: SocketAddr, now: Instant)
    ensures
        h.succeeds(p, PunchEvent::Received { data, from, now }) <==> p.phase == PunchPhase::Listen && data@.len() >= 4
            && data@.subrange(0, 4) == h.config.magic@,
        !h.succeeds(p, PunchEvent::Done),
{
}

/// In a round all packets are sent, each once, with a pause between two of them; then it listens;
/// then the next round begins. What has started when stays.
pub proof fn law_rounds_go_their_course(h: HolePuncher, p: Punch)
    requires
        h.valid(p),
        p.round < h.config.max_rounds,
    ensures
        p.phase == PunchPhase::Send && p.seq + 1 < h.config.packets_per_round ==> h.follows(p).phase == PunchPhase::Pause && h.follows(
            p,
        ).seq == p.seq && h.follows(p).round == p.round,
        p.phase == PunchPhase::Send && p.seq + 1 >= h.config.packets_per_round ==> h.follows(p).phase == PunchPhase::Listen && h.follows(
            p,
        ).round == p.round,
        p.phase == PunchPhase::Pause ==> h.follows(p).phase == PunchPhase::Send && h.follows(p).seq == p.seq + 1 && h.follows(p).round
            == p.round,
        p.phase == PunchPhase::Listen ==> h.follows(p).round == p.round + 1 && h.follows(p).seq == 0,
        p.phase == PunchPhase::Listen && h.config.packets_per_round > 0 ==> h.follows(p).phase == PunchPhase::Send,
        p.phase == PunchPhase::Listen && h.config.packets_per_round == 0 ==> h.follows(p).phase == PunchPhase::Listen,
        h.follows(p).started == p.started,
{
}

/// What is to be done: nothing more once all rounds are over; else a packet with its numbers, a
/// pause, or to listen, each for as long as the configuration says.
pub proof fn law_phases_are_acted_on(h: HolePuncher, p: Punch, remote: Seq<char>, a: PunchAction)
    requires
        h.acts(p, remote, a),
    ensures
        p.round >= h.config.max_rounds <==> a is Failed,
        p.round < h.config.max_rounds && p.phase == PunchPhase::Pause <==> a is Pause,
        p.round < h.config.max_rounds && p.phase == PunchPhase::Listen <==> a is Listen,
        p.round < h.config.max_rounds && p.phase == PunchPhase::Send <==> a is Send,
        a matches PunchAction::Pause(d) ==> d == h.config.packet_interval,
        a matches PunchAction::Listen(d) ==> d == h.config.round_timeout,
        a matches PunchAction::Send(d) ==> d@.len() == 12 && (p.round < 0x1_0000_0000 && p.seq < 0x1_0000_0000 ==> d@
            == h.config.magic@ + be(p.round as nat, 4) + be(p.seq as nat, 4)),
        !(a is Succeeded),
{
    broadcast use lemma_be_len;

}

/// A round begins with sending, unless no packets are to be sent. When all rounds are over without an
/// answer, that is said with their number and whom they were for.
pub proof fn law_beginning_and_end_of_rounds(c: HolePunchConfig, rounds: usize, remote: Seq<char>)
    ensures
        c.packets_per_round > 0 ==> first_phase(c) == PunchPhase::Send,
        c.packets_per_round == 0 ==> first_phase(c) == PunchPhase::Listen,
        no_response_text(rounds, remote) == "no response after "@ + dec(rounds as nat) + " rounds to "@ + remote,
{
}

/// Punching succeeds with the first packet of the other side that comes while it listens, and says
/// from where and after how many rounds it came; else it goes on.
pub proof fn law_when_punching_succeeds(h: HolePuncher, data: Vec<u8>, from: SocketAddr, now: Instant, remote: &str, r: PunchAction)
    ensures
        forall|p: &mut Punch| #[trigger]
            call_ensures(HolePuncher::on_event, (&h, p, PunchEvent::Received { data, from, now }, remote), r) ==> (r is Succeeded
                <==> p.phase
                == PunchPhase::Listen && data@.len() >= 4 && data@.subrange(0, 4) == h.config.magic@),
        forall|p: &mut Punch| #[trigger]
            call_ensures(HolePuncher::on_event, (&h, p, PunchEvent::Received { data, from, now }, remote), r) && r is Succeeded
                && p.round < usize::MAX ==> r->Succeeded_0.peer_addr == from && r->Succeeded_0.rounds == p.round + 1,
        forall|p: &mut Punch| #[trigger] call_ensures(HolePuncher::on_event, (&h, p, PunchEvent::Done, remote), r) ==> !(r is Succeeded),
{
}

/// Punch packets are made of the magic number, the round and the place in it, and are told by the
/// magic number.
pub proof fn law_packets_that_are_made(h: HolePuncher, round: u32, seq: u32, packet: Vec<u8>, data: &[u8], known: bool)
    requires
        call_ensures(HolePuncher::build_punch_packet, (&h, round, seq), packet),
        call_ensures(HolePuncher::is_punch_packet, (&h, data), known),
    ensures
        packet@ == h.config.magic@ + be(round as nat, 4) + be(seq as nat, 4),
        known <==> data@.len() >= 4 && data@.subrange(0, 4) == h.config.magic@,
{
}

/// Punching begins with the first packet of the first round.
pub proof fn law_how_punching_begins(h: HolePuncher, remote: &str, now: Instant, r: (Punch, PunchAction))
    requires
        call_ensures(HolePuncher::punch, (&h, remote, now), r),
    ensures
        r.0.started == now && r.0.round == 0 && r.0.seq == 0,
        h.config.max_rounds > 0 && h.config.packets_per_round > 0 ==> (r.1 matches PunchAction::Send(d) && d@ == h.config.magic@ + be(
            0,
            4,
        ) + be(0, 4)),
        h.config.max_rounds == 0 ==> r.1 is Failed,
{
    law_phases_are_acted_on(h, r.0, remote@, r.1);
}

} // verus!
