//! What is known of a peer, and how it has behaved.
use vstd::prelude::*;
use crate::counter::{count, counted};
use crate::crypto::identity::PeerId;
use crate::net::SocketAddr;
use crate::time::{Duration, Instant};

verus! {

/// Where a peer stands in its life in the routing table.
#[derive(Debug, Clone, Copy, PartialEq, Eq, Structural)]
pub enum PeerState {
    /// Heard of, but not verified yet.
    Discovered,
    /// Has answered a query.
    Active,
    /// Has failed to answer lately.
    Suspect,
    /// Out of reach for too long.
    Dead,
}

/// How a peer has behaved.
#[derive(Debug, Clone, Copy)]
pub struct PeerScore {
    /// Queries that were answered.
    pub successes: u64,
    /// Queries that were not.
    pub failures: u64,
    /// Bytes relayed through the peer.
    pub bytes_relayed: u64,
    /// How long the peer has been known, as of the last query.
    pub uptime: Duration,
    /// When the peer was first heard of.
    pub first_seen: Instant,
    /// The time that all answers together have taken.
    pub latency_sum: Duration,
    /// The place of the peer's composite score in the order of scores: a higher score has
    /// a higher rank. A new peer's score is zero, and so is its rank.
    pub rank: i64,
}

impl PeerScore {
    pub open spec fn spec_new(now: Instant) -> PeerScore {
        PeerScore {
            successes: 0,
            failures: 0,
            bytes_relayed: 0,
            uptime: Duration { nanos: 0 },
            first_seen: now,
            latency_sum: Duration { nanos: 0 },
            rank: 0,
        }
    }

    /// The score of a peer that was just heard of.
    pub fn new(now: Instant) -> (r: Self)
        ensures
            r == Self::spec_new(now),
    {
        PeerScore {
            successes: 0,
            failures: 0,
            bytes_relayed: 0,
            uptime: Duration::zero(),
            first_seen: now,
            latency_sum: Duration::zero(),
            rank: 0,
        }
    }

    /// The score after an answer.
    pub open spec fn after_success(self, latency: Duration, now: Instant) -> PeerScore {
        PeerScore {
            successes: counted(self.successes, 1),
            latency_sum: self.latency_sum.spec_plus(latency),
            uptime: now.spec_since(self.first_seen),
            ..self
        }
    }

    /// Records an answer and the time that it took.
    pub fn record_success(&mut self, latency: Duration, now: Instant)
        ensures
            *final(self) == old(self).after_success(latency, now),
    {
        self.successes = count(self.successes, 1);
        self.latency_sum = self.latency_sum.plus(latency);
        self.uptime = now.since(self.first_seen);
    }

    /// The score after a query that failed.
    pub open spec fn after_failure(self, now: Instant) -> PeerScore {
        PeerScore { failures: counted(self.failures, 1), uptime: now.spec_since(self.first_seen), ..self }
    }

    /// Records a query that failed.
    pub fn record_failure(&mut self, now: Instant)
        ensures
            *final(self) == old(self).after_failure(now),
    {
        self.failures = count(self.failures, 1);
        self.uptime = now.since(self.first_seen);
    }

    /// Records bytes that were relayed.
    pub fn record_relay(&mut self, bytes: u64)
        ensures
            *final(self) == (PeerScore { bytes_relayed: counted(old(self).bytes_relayed, bytes), ..*old(self) }),
    {
        self.bytes_relayed = count(self.bytes_relayed, bytes);
    }

    /// The average time that an answer has taken.
    pub fn avg_latency(&self) -> (r: Duration)
        ensures
            r.nanos == (if self.successes == 0 {
                0
            } else {
                self.latency_sum.nanos / (self.successes as u128)
            }),
    {
        if self.successes == 0 {
            Duration::zero()
        } else {
            Duration { nanos: self.latency_sum.nanos / (self.successes as u128) }
        }
    }
}

/// A peer.
#[derive(Debug, Clone, Copy)]
pub struct PeerInfo {
    pub peer_id: PeerId,
    pub addr: SocketAddr,
    pub state: PeerState,
    pub score: PeerScore,
    /// When the peer was last heard from.
    pub last_seen: Instant,
    /// When the peer was added.
    pub added_at: Instant,
}

impl PeerInfo {
    pub open spec fn spec_new(peer_id: PeerId, addr: SocketAddr, now: Instant) -> PeerInfo {
        PeerInfo {
            peer_id,
            addr,
            state: PeerState::Discovered,
            score: PeerScore::spec_new(now),
            last_seen: now,
            added_at: now,
        }
    }

    pub fn new(peer_id: PeerId, addr: SocketAddr, now: Instant) -> (r: Self)
        ensures
            r == Self::spec_new(peer_id, addr, now),
    {
        PeerInfo {
            peer_id,
            addr,
            state: PeerState::Discovered,
            score: PeerScore::new(now),
            last_seen: now,
            added_at: now,
        }
    }

    /// The peer after it has answered.
    pub open spec fn after_answer(self, latency: Duration, now: Instant) -> PeerInfo {
        PeerInfo {
            state: PeerState::Active,
            last_seen: now,
            score: self.score.after_success(latency, now),
            ..self
        }
    }

    /// The peer has answered a query.
    pub fn mark_active(&mut self, latency: Duration, now: Instant)
        ensures
            *final(self) == old(self).after_answer(latency, now),
            final(self).state == PeerState::Active,
            final(self).last_seen == now,
    {
        self.state = PeerState::Active;
        self.last_seen = now;
        self.score.record_success(latency, now);
    }

    /// The peer after it has failed to answer.
    pub open spec fn after_silence(self, now: Instant) -> PeerInfo {
        PeerInfo { state: PeerState::Suspect, score: self.score.after_failure(now), ..self }
    }

    /// The peer has failed to answer.
    pub fn mark_suspect(&mut self, now: Instant)
        ensures
            *final(self) == old(self).after_silence(now),
            final(self).state == PeerState::Suspect,
            final(self).last_seen == old(self).last_seen,
    {
        self.state = PeerState::Suspect;
        self.score.record_failure(now);
    }

    /// The peer is given up.
    pub fn mark_dead(&mut self)
        ensures
            *final(self) == (PeerInfo { state: PeerState::Dead, ..*old(self) }),
    {
        self.state = PeerState::Dead;
    }

    /// The peer was heard from.
    pub fn touch(&mut self, now: Instant)
        ensures
            *final(self) == (PeerInfo { last_seen: now, ..*old(self) }),
    {
        self.last_seen = now;
    }

    /// How long ago the peer was heard from.
    pub fn idle_time(&self, now: Instant) -> (r: Duration)
        ensures
            r == now.spec_since(self.last_seen),
    {
        now.since(self.last_seen)
    }

    /// The peer can be used for queries.
    pub open spec fn usable(self) -> bool {
        self.state is Discovered || self.state is Active
    }

    pub fn is_usable(&self) -> (r: bool)
        ensures
            r == self.usable(),
            r == (self.state == PeerState::Discovered || self.state == PeerState::Active),
    {
        matches!(self.state, PeerState::Discovered | PeerState::Active)
    }
}

/// A peer that has answered is active and usable, whatever it was before, and was heard from
/// now. Who and where it is stays.
pub proof fn law_answer_makes_active(p: PeerInfo, latency: Duration, now: Instant)
    ensures
        p.after_answer(latency, now).state == PeerState::Active,
        p.after_answer(latency, now).usable(),
        p.after_answer(latency, now).last_seen == now,
        p.after_answer(latency, now).peer_id == p.peer_id,
        p.after_answer(latency, now).addr == p.addr,
        p.after_answer(latency, now).added_at == p.added_at,
        p.score.successes < u64::MAX ==> p.after_answer(latency, now).score.successes == p.score.successes + 1,
        p.after_answer(latency, now).score.failures == p.score.failures,
        p.score.latency_sum.nanos + latency.nanos <= u128::MAX ==> p.after_answer(latency, now).score.latency_sum.nanos
            == p.score.latency_sum.nanos + latency.nanos,
        p.score.first_seen.nanos <= now.nanos ==> p.after_answer(latency, now).score.uptime.nanos == now.nanos - p.score.first_seen.nanos,
        p.after_answer(latency, now).score.first_seen == p.score.first_seen,
        p.after_answer(latency, now).score.bytes_relayed == p.score.bytes_relayed,
        p.after_answer(latency, now).score.rank == p.score.rank,
{
}

/// A peer that has failed to answer is suspect and not usable, whatever it was before, and was
/// not heard from. The next answer makes it active again.
pub proof fn law_silence_makes_suspect(p: PeerInfo, latency: Duration, silent: Instant, now: Instant)
    ensures
        p.after_silence(silent).state == PeerState::Suspect,
        !p.after_silence(silent).usable(),
        p.after_silence(silent).last_seen == p.last_seen,
        p.after_silence(silent).peer_id == p.peer_id,
        p.after_silence(silent).addr == p.addr,
        p.after_silence(silent).added_at == p.added_at,
        p.score.failures < u64::MAX ==> p.after_silence(silent).score.failures == p.score.failures + 1,
        p.after_silence(silent).score.successes == p.score.successes,
        p.after_silence(silent).score.latency_sum == p.score.latency_sum,
        p.after_silence(silent).score.first_seen == p.score.first_seen,
        p.after_silence(silent).score.bytes_relayed == p.score.bytes_relayed,
        p.after_silence(silent).score.rank == p.score.rank,
        p.score.first_seen.nanos <= silent.nanos ==> p.after_silence(silent).score.uptime.nanos == silent.nanos
            - p.score.first_seen.nanos,
        p.after_silence(silent).after_answer(latency, now).usable(),
{
}

/// A peer is usable unless it is suspect or dead.
pub proof fn law_usable_unless_in_doubt(p: PeerInfo)
    ensures
        p.usable() <==> p.state != PeerState::Suspect && p.state != PeerState::Dead,
{
}

/// A new peer is discovered and usable, was heard from when it was added, and has no record.
pub proof fn law_new_peer_has_no_record(peer_id: PeerId, addr: SocketAddr, now: Instant)
    ensures
        ({
            let p = PeerInfo::spec_new(peer_id, addr, now);
            &&& p.peer_id == peer_id && p.addr == addr && p.state == PeerState::Discovered && p.usable()
            &&& p.last_seen == now && p.added_at == now
            &&& p.score.successes == 0 && p.score.failures == 0 && p.score.bytes_relayed == 0 && p.score.rank == 0
            &&& p.score.first_seen == now && p.score.uptime.nanos == 0 && p.score.latency_sum.nanos == 0
        }),
{
}

/// The average time of the answers, taken as often as there were answers, is the time of all of them
/// but for less than a nanosecond each; without answers it is none.
pub proof fn law_average_of_answers(s: PeerScore, r: Duration)
    requires
        call_ensures(PeerScore::avg_latency, (&s,), r),
    ensures
        s.successes == 0 ==> r.nanos == 0,
        s.successes > 0 ==> r.nanos * s.successes <= s.latency_sum.nanos < (r.nanos + 1) * s.successes,
{
    if s.successes > 0 {
        let (q, n, all) = (r.nanos as int, s.successes as int, s.latency_sum.nanos as int);
        assert(q * n <= all < (q + 1) * n) by (nonlinear_arith)
            requires
                q == all / n,
                n > 0,
        ;
    }
}

/// A peer that answers is active from then on, whatever it was before, and the answer is on its
/// record. One that does not answer is suspect, and one that is given up is dead.
pub proof fn law_what_happens_to_a_peer(latency: Duration, now: Instant)
    ensures
        forall|p: &mut PeerInfo| #[trigger]
            call_ensures(PeerInfo::mark_active, (p, latency, now), ()) ==> final(p).state == PeerState::Active && final(p).last_seen
                == now && final(p).peer_id == p.peer_id && final(p).addr == p.addr && final(p).added_at == p.added_at && (
            p.score.successes < u64::MAX ==> final(p).score.successes == p.score.successes + 1) && final(p).score.failures
                == p.score.failures && (p.score.latency_sum.nanos + latency.nanos <= u128::MAX ==> final(p).score.latency_sum.nanos
                == p.score.latency_sum.nanos + latency.nanos),
        forall|p: &mut PeerInfo| #[trigger]
            call_ensures(PeerInfo::mark_suspect, (p, now), ()) ==> final(p).state == PeerState::Suspect && final(p).last_seen
                == p.last_seen && final(p).peer_id == p.peer_id && final(p).addr == p.addr && (p.score.failures < u64::MAX
                ==> final(p).score.failures == p.score.failures + 1) && final(p).score.successes == p.score.successes,
        forall|p: &mut PeerInfo| #[trigger]
            call_ensures(PeerInfo::mark_dead, (p,), ()) ==> *final(p) == (PeerInfo { state: PeerState::Dead, ..*p }),
        forall|p: &mut PeerInfo| #[trigger]
            call_ensures(PeerInfo::touch, (p, now), ()) ==> *final(p) == (PeerInfo { last_seen: now, ..*p }),
        forall|p: PeerInfo, r: bool| #[trigger]
            call_ensures(PeerInfo::is_usable, (&p,), r) ==> (r <==> p.state == PeerState::Discovered || p.state == PeerState::Active),
{
}

} // verus!
