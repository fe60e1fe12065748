//! Relaying between two peers that cannot reach each other.
use std::collections::HashMap;
use vstd::prelude::*;
use vstd::std_specs::iter::IteratorSpec;
use vstd::string::*;
use crate::counter::{count, counted, lemma_counted_in_any_order};
use crate::crypto::identity::PeerId;
use crate::traversal::NatError;
use crate::net::SocketAddr;
use crate::text::{dec, push_dec};
use crate::time::{Duration, Instant};

verus! {

/// The limits of relaying.
#[derive(Debug, Clone, Copy)]
pub struct RelayConfig {
    /// Bytes in a second, for a session.
    pub max_bandwidth_bps: u64,
    /// A session without traffic for so long has expired.
    pub idle_timeout: Duration,
    /// A session that is so old has expired.
    pub max_duration: Duration,
    pub max_sessions: usize,
}

impl Default for RelayConfig {
    fn default() -> (r: Self)
        ensures
            r.max_bandwidth_bps == 524288,
            r.idle_timeout.nanos == 60_000_000_000,
            r.max_duration.nanos == 3600_000_000_000,
            r.max_sessions == 100,
    {
        RelayConfig {
            max_bandwidth_bps: 524288,
            idle_timeout: Duration::from_secs(60),
            max_duration: Duration::from_secs(3600),
            max_sessions: 100,
        }
    }
}

/// The state of a session.
#[derive(Debug, Clone, Copy, PartialEq, Eq, Structural)]
pub enum RelaySessionState {
    /// The second peer has not accepted yet.
    Pending,
    Active,
    Closed,
}

/// A peer in a session.
#[derive(Debug, Clone, Copy)]
pub struct RelayPeer {
    pub peer_id: PeerId,
    pub addr: SocketAddr,
    pub bytes_sent: u64,
    pub bytes_received: u64,
}

impl RelayPeer {
    pub open spec fn spec_new(peer_id: PeerId, addr: SocketAddr) -> RelayPeer {
        RelayPeer { peer_id, addr, bytes_sent: 0, bytes_received: 0 }
    }

    pub fn new(peer_id: PeerId, addr: SocketAddr) -> (r: Self)
        ensures
            r == Self::spec_new(peer_id, addr),
    {
        RelayPeer { peer_id, addr, bytes_sent: 0, bytes_received: 0 }
    }
}

/// A session between two peers.
#[derive(Debug, Clone, Copy)]
pub struct RelaySession {
    pub session_id: u64,
    pub peer_a: RelayPeer,
    pub peer_b: RelayPeer,
    pub created_at: Instant,
    pub last_activity: Instant,
    /// In both directions together.
    pub bytes_relayed: u64,
    pub state: RelaySessionState,
}

impl RelaySession {
    /// What is relayed is what either peer sends, and that is what the other receives.
    pub open spec fn balanced(self) -> bool {
        &&& self.bytes_relayed == counted(self.peer_a.bytes_sent, self.peer_b.bytes_sent)
        &&& self.peer_a.bytes_received == self.peer_b.bytes_sent
        &&& self.peer_b.bytes_received == self.peer_a.bytes_sent
    }

    /// The session is closed, idle or old.
    pub open spec fn expired(self, c: RelayConfig, now: Instant) -> bool {
        ||| self.state is Closed
        ||| now.spec_since(self.last_activity).nanos > c.idle_timeout.nanos
        ||| now.spec_since(self.created_at).nanos > c.max_duration.nanos
    }

    fn is_expired(&self, c: &RelayConfig, now: Instant) -> (r: bool)
        ensures
            r == self.expired(*c, now),
    {
        matches!(self.state, RelaySessionState::Closed) || now.since(self.last_activity).nanos > c.idle_timeout.nanos
            || now.since(self.created_at).nanos > c.max_duration.nanos
    }

    /// More was relayed than the bandwidth allows for the time since the session began. In
    /// the first second nothing is too much.
    pub open spec fn over_limit(self, c: RelayConfig, now: Instant) -> bool {
        let t = now.spec_since(self.created_at).nanos as int;
        t >= 1_000_000_000 && self.bytes_relayed * 1_000_000_000 > c.max_bandwidth_bps * t
    }

    fn is_over_limit(&self, c: &RelayConfig, now: Instant) -> (r: bool)
        ensures
            r == self.over_limit(*c, now),
    {
        let t: u128 = now.since(self.created_at).nanos;
        if t < 1_000_000_000 {
            return false;
        }
        let moved: u128 = self.bytes_relayed as u128 * 1_000_000_000;
        let max: u128 = c.max_bandwidth_bps as u128;
        if moved == 0 {
            assert(max * t >= 0) by (nonlinear_arith);
            return false;
        }
        if max == 0 {
            assert(max * t == 0) by (nonlinear_arith)
                requires
                    max == 0,
            ;
            return true;
        }
        proof {
            let (m, x, y) = (max as int, t as int, moved as int);
            let q = (y - 1) / m;
            assert((x <= q) == (m * x < y)) by (nonlinear_arith)
                requires
                    m > 0,
                    y > 0,
                    q == (y - 1) / m,
            ;
        }
        t <= (moved - 1) / max
    }

    /// The session after more bytes.
    pub open spec fn after_relay(self, bytes: u64, from_a: bool, now: Instant) -> RelaySession {
        let sender = if from_a { self.peer_a } else { self.peer_b };
        let receiver = if from_a { self.peer_b } else { self.peer_a };
        let sent = RelayPeer { bytes_sent: counted(sender.bytes_sent, bytes), ..sender };
        let received = RelayPeer { bytes_received: counted(receiver.bytes_received, bytes), ..receiver };
        RelaySession {
            bytes_relayed: counted(self.bytes_relayed, bytes),
            last_activity: now,
            peer_a: if from_a { sent } else { received },
            peer_b: if from_a { received } else { sent },
            ..self
        }
    }
}

proof fn lemma_relay_keeps_balance(s: RelaySession, bytes: u64, from_a: bool, now: Instant)
    requires
        s.balanced(),
    ensures
        s.after_relay(bytes, from_a, now).balanced(),
{
    lemma_counted_in_any_order(s.peer_a.bytes_sent, s.peer_b.bytes_sent, bytes);
}

/// The sessions that have not expired.
pub open spec fn unexpired(m: Map<u64, RelaySession>, c: RelayConfig, now: Instant) -> Map<u64, RelaySession> {
    Map::new(|k: u64| m.contains_key(k) && !m[k].expired(c, now), |k: u64| m[k])
}

/// Relays between peers.
pub struct RelayService {
    config: RelayConfig,
    sessions: HashMap<u64, RelaySession>,
    next_session_id: u64,
}

fn session_text(id: u64, rest: &str) -> (r: String)
    ensures
        r@ == "session "@ + dec(id as nat) + rest@,
{
    let mut out: String = String::new();
    out.append("session ");
    push_dec(&mut out, id as u128);
    out.append(rest);
    assert(out@ =~= "session "@ + dec(id as nat) + rest@);
    out
}

impl RelayService {
    pub closed spec fn view(self) -> Map<u64, RelaySession> {
        self.sessions@
    }

    pub closed spec fn limits(self) -> RelayConfig {
        self.config
    }

    /// The number of the next session.
    pub closed spec fn next_id(self) -> u64 {
        self.next_session_id
    }

    /// There are no more sessions than there may be, and the books of each are balanced.
    pub closed spec fn wf(self) -> bool {
        &&& self.sessions@.dom().finite()
        &&& self.sessions@.len() <= self.config.max_sessions
        &&& forall|k: u64| #[trigger] self.sessions@.contains_key(k) ==> self.sessions@[k].balanced()
    }

    pub fn new(config: RelayConfig) -> (r: Self)
        ensures
            r.wf(),
            r@ == Map::<u64, RelaySession>::empty(),
            r.limits() == config,
            r.next_id() == 1,
    {
        broadcast use vstd::std_specs::hash::group_hash_axioms;

        let r = RelayService { config, sessions: HashMap::new(), next_session_id: 1 };
        assert(r@ =~= Map::<u64, RelaySession>::empty());
        r
    }

    pub fn with_defaults() -> (r: Self)
        ensures
            r.wf(),
            r@ == Map::<u64, RelaySession>::empty(),
            r.limits().max_bandwidth_bps == 524288,
            r.limits().idle_timeout.nanos == 60_000_000_000,
            r.limits().max_duration.nanos == 3600_000_000_000,
            r.limits().max_sessions == 100,
            r.next_id() == 1,
    {
        Self::new(RelayConfig::default())
    }

    /// The numbers of all sessions.
    fn session_ids(&self) -> (r: Vec<u64>)
        ensures
            r@.no_duplicates(),
            forall|k: u64| #[trigger] r@.contains(k) <==> self.sessions@.contains_key(k),
    {
        broadcast use vstd::std_specs::hash::group_hash_axioms;

        let mut out: Vec<u64> = Vec::new();
        let ghost ks = vstd::std_specs::hash::spec_keys_iter(&self.sessions).remaining();
        for k in it: self.sessions.keys()
            invariant
                it.seq() == ks,
                out@.len() == it.index(),
                forall|i: int| 0 <= i < out@.len() ==> out@[i] == *ks[i],
        {
            out.push(*k);
        }
        proof {
            assert(ks.unref().to_set() == self.sessions@.dom());
            assert(out@ =~= ks.unref());
            assert forall|k: u64| #[trigger] out@.contains(k) <==> self.sessions@.contains_key(k) by {
                assert(out@.contains(k) <==> out@.to_set().contains(k));
            }
        }
        out
    }

    /// A new session between two peers, pending at first. At capacity, expired sessions
    /// make way; if that does not help, the session is refused.
    pub fn create_session(
        &mut self,
        peer_a_id: PeerId,
        peer_a_addr: SocketAddr,
        peer_b_id: PeerId,
        peer_b_addr: SocketAddr,
        now: Instant,
    ) -> (r: Result<u64, NatError>)
        requires
            old(self).wf(),
        ensures
            final(self).wf(),
            final(self).limits() == old(self).limits(),
            ({
                let c = old(self).limits();
                let kept = if old(self)@.len() >= c.max_sessions {
                    unexpired(old(self)@, c, now)
                } else {
                    old(self)@
                };
                match r {
                    Ok(id) => {
                        &&& kept.len() < c.max_sessions
                        &&& id == old(self).next_id()
                        &&& final(self).next_id() == counted(id, 1)
                        &&& final(self)@ == kept.insert(
                            id,
                            RelaySession {
                                session_id: id,
                                peer_a: RelayPeer::spec_new(peer_a_id, peer_a_addr),
                                peer_b: RelayPeer::spec_new(peer_b_id, peer_b_addr),
                                created_at: now,
                                last_activity: now,
                                bytes_relayed: 0,
                                state: RelaySessionState::Pending,
                            },
                        )
                    },
                    Err(e) => {
                        &&& kept.len() >= c.max_sessions
                        &&& e.is_relay_refused("relay at capacity"@)
                        &&& final(self)@ == kept
                        &&& final(self).next_id() == old(self).next_id()
                    },
                }
            }),
    {
        broadcast use vstd::std_specs::hash::group_hash_axioms;

        if self.sessions.len() >= self.config.max_sessions {
            let _ = self.cleanup_expired(now);
            if self.sessions.len() >= self.config.max_sessions {
                return Err(NatError::RelayRefused { reason: String::from_str("relay at capacity") });
            }
        }
        let session_id: u64 = self.next_session_id;
        self.next_session_id = count(session_id, 1);
        let session = RelaySession {
            session_id,
            peer_a: RelayPeer::new(peer_a_id, peer_a_addr),
            peer_b: RelayPeer::new(peer_b_id, peer_b_addr),
            created_at: now,
            last_activity: now,
            bytes_relayed: 0,
            state: RelaySessionState::Pending,
        };
        let _ = self.sessions.insert(session_id, session);
        Ok(session_id)
    }

    /// The session with a number, by value.
    fn find(&self, session_id: u64) -> (r: Option<RelaySession>)
        ensures
            r is Some <==> self.sessions@.contains_key(session_id),
            r matches Some(s) ==> s == self.sessions@[session_id],
    {
        broadcast use vstd::std_specs::hash::group_hash_axioms;

        match self.sessions.get(&session_id) {
            Some(s) => Some(*s),
            None => None,
        }
    }

    fn put_back(&mut self, session_id: u64, s: RelaySession)
        requires
            old(self).wf(),
            old(self)@.contains_key(session_id),
            s.balanced(),
        ensures
            final(self).wf(),
            final(self).limits() == old(self).limits(),
            final(self).next_id() == old(self).next_id(),
            final(self)@ == old(self)@.insert(session_id, s),
    {
        broadcast use vstd::std_specs::hash::group_hash_axioms;

        let _ = self.sessions.insert(session_id, s);
        assert(self.sessions@.dom() =~= old(self).sessions@.dom());
    }

    /// The second peer has accepted: a pending session becomes active.
    pub fn activate_session(&mut self, session_id: u64, now: Instant) -> (r: Result<(), NatError>)
        requires
            old(self).wf(),
        ensures
            final(self).wf(),
            final(self).limits() == old(self).limits(),
            final(self).next_id() == old(self).next_id(),
            match r {
                Ok(_) => {
                    &&& old(self)@.contains_key(session_id)
                    &&& old(self)@[session_id].state is Pending
                    &&& final(self)@ == old(self)@.insert(
                        session_id,
                        RelaySession {
                            state: RelaySessionState::Active,
                            last_activity: now,
                            ..old(self)@[session_id]
                        },
                    )
                },
                Err(e) => {
                    &&& final(self)@ == old(self)@
                    &&& if !old(self)@.contains_key(session_id) {
                        e.is_relay_refused("session "@ + dec(session_id as nat) + " not found"@)
                    } else {
                        &&& !(old(self)@[session_id].state is Pending)
                        &&& e.is_relay_refused("session "@ + dec(session_id as nat) + " not in pending state"@)
                    }
                },
            },
    {
        match self.find(session_id) {
            None => Err(NatError::RelayRefused { reason: session_text(session_id, " not found") }),
            Some(s) => {
                if !matches!(s.state, RelaySessionState::Pending) {
                    return Err(NatError::RelayRefused { reason: session_text(session_id, " not in pending state") });
                }
                let mut s = s;
                s.state = RelaySessionState::Active;
                s.last_activity = now;
                self.put_back(session_id, s);
                Ok(())
            },
        }
    }

    /// Takes note of bytes that are relayed, if the session is active and within its
    /// bandwidth.
    pub fn record_relay(&mut self, session_id: u64, bytes: u64, from_a: bool, now: Instant) -> (r: Result<(), NatError>)
        requires
            old(self).wf(),
        ensures
            final(self).wf(),
            final(self).limits() == old(self).limits(),
            final(self).next_id() == old(self).next_id(),
            match r {
                Ok(_) => {
                    &&& old(self)@.contains_key(session_id)
                    &&& old(self)@[session_id].state is Active
                    &&& !old(self)@[session_id].over_limit(old(self).limits(), now)
                    &&& final(self)@ == old(self)@.insert(session_id, old(self)@[session_id].after_relay(bytes, from_a, now))
                },
                Err(e) => {
                    &&& final(self)@ == old(self)@
                    &&& if !old(self)@.contains_key(session_id) {
                        e.is_relay_refused("session "@ + dec(session_id as nat) + " not found"@)
                    } else if !(old(self)@[session_id].state is Active) {
                        e.is_relay_refused("session not active"@)
                    } else {
                        &&& old(self)@[session_id].over_limit(old(self).limits(), now)
                        &&& e.is_relay_refused("bandwidth limit exceeded"@)
                    }
                },
            },
            old(self)@.contains_key(session_id) && old(self)@[session_id].state == RelaySessionState::Active ==> ({
                let s = old(self)@[session_id];
                let age = now.nanos - s.created_at.nanos;
                r is Ok <==> age < 1_000_000_000 || s.bytes_relayed * 1_000_000_000 <= old(self).limits().max_bandwidth_bps * age
            }),
    {
        match self.find(session_id) {
            None => Err(NatError::RelayRefused { reason: session_text(session_id, " not found") }),
            Some(s) => {
                if !matches!(s.state, RelaySessionState::Active) {
                    return Err(NatError::RelayRefused { reason: String::from_str("session not active") });
                }
                if s.is_over_limit(&self.config, now) {
                    return Err(NatError::RelayRefused { reason: String::from_str("bandwidth limit exceeded") });
                }
                let ghost before = s;
                let mut s = s;
                s.bytes_relayed = count(s.bytes_relayed, bytes);
                s.last_activity = now;
                if from_a {
                    s.peer_a.bytes_sent = count(s.peer_a.bytes_sent, bytes);
                    s.peer_b.bytes_received = count(s.peer_b.bytes_received, bytes);
                } else {
                    s.peer_b.bytes_sent = count(s.peer_b.bytes_sent, bytes);
                    s.peer_a.bytes_received = count(s.peer_a.bytes_received, bytes);
                }
                proof {
                    lemma_relay_keeps_balance(before, bytes, from_a, now);
                    assert(s == before.after_relay(bytes, from_a, now));
                }
                self.put_back(session_id, s);
                Ok(())
            },
        }
    }

    /// Closes a session.
    pub fn close_session(&mut self, session_id: u64)
        requires
            old(self).wf(),
        ensures
            final(self).wf(),
            final(self).limits() == old(self).limits(),
            final(self).next_id() == old(self).next_id(),
            final(self)@ == (if old(self)@.contains_key(session_id) {
                old(self)@.insert(session_id, RelaySession { state: RelaySessionState::Closed, ..old(self)@[session_id] })
            } else {
                old(self)@
            }),
    {
        if let Some(s) = self.find(session_id) {
            let mut s = s;
            s.state = RelaySessionState::Closed;
            self.put_back(session_id, s);
        }
    }

    pub fn get_session(&self, session_id: u64) -> (r: Option<&RelaySession>)
        ensures
            r is Some <==> self@.contains_key(session_id),
            r matches Some(s) ==> *s == self@[session_id],
    {
        broadcast use vstd::std_specs::hash::group_hash_axioms;

        self.sessions.get(&session_id)
    }

    /// Where a packet of a peer goes.
    pub open spec fn forward(s: RelaySession, from: PeerId) -> Option<SocketAddr> {
        if !(s.state is Active) {
            None
        } else if s.peer_a.peer_id == from {
            Some(s.peer_b.addr)
        } else if s.peer_b.peer_id == from {
            Some(s.peer_a.addr)
        } else {
            None
        }
    }

    /// Where a packet of a peer goes: to the other peer of an active session.
    pub fn get_forward_addr(&self, session_id: u64, from_peer: &PeerId) -> (r: Option<SocketAddr>)
        ensures
            r == (if self@.contains_key(session_id) {
                Self::forward(self@[session_id], *from_peer)
            } else {
                None
            }),
    {
        match self.find(session_id) {
            None => None,
            Some(s) => {
                if !matches!(s.state, RelaySessionState::Active) {
                    return None;
                }
                if s.peer_a.peer_id.same(from_peer) {
                    Some(s.peer_b.addr)
                } else if s.peer_b.peer_id.same(from_peer) {
                    Some(s.peer_a.addr)
                } else {
                    None
                }
            },
        }
    }

    /// Drops the sessions that are closed, idle or old, and tells how many they were.
    pub fn cleanup_expired(&mut self, now: Instant) -> (r: usize)
        requires
            old(self).wf(),
        ensures
            final(self).wf(),
            final(self).limits() == old(self).limits(),
            final(self).next_id() == old(self).next_id(),
            final(self)@ == unexpired(old(self)@, old(self).limits(), now),
            r == old(self)@.len() - final(self)@.len(),
    {
        broadcast use vstd::std_specs::hash::group_hash_axioms;

        let ids = self.session_ids();
        let ghost m = self.sessions@;
        let config = self.config;
        let mut removed: usize = 0;
        let mut i: usize = 0;
        while i < ids.len()
            invariant
                i <= ids@.len(),
                removed <= i,
                ids@.no_duplicates(),
                m == old(self)@,
                config == old(self).config,
                self.config == old(self).config,
                self.next_session_id == old(self).next_session_id,
                self.wf(),
                m.dom().finite(),
                self.sessions@.len() == m.len() - removed,
                forall|k: u64| #[trigger] self.sessions@.contains_key(k) ==> m.contains_key(k) && self.sessions@[k] == m[k],
                forall|k: u64| #[trigger] m.contains_key(k) ==> (self.sessions@.contains_key(k) <==> !(ids@.take(i as int).contains(k) && m[k].expired(config, now))),
                forall|k: u64| #[trigger] ids@.contains(k) <==> m.contains_key(k),
            decreases ids@.len() - i,
        {
            let id: u64 = ids[i];
            let ghost t = ids@.take(i as int);
            let ghost u = ids@.take(i + 1);
            let ghost was = self.sessions@;
            proof {
                assert(ids@.contains(ids@[i as int]));
                assert forall|k: u64| u.contains(k) <==> t.contains(k) || k == id by {
                    assert(u[i as int] == id);
                    if t.contains(k) {
                        let j = choose|j: int| 0 <= j < t.len() && t[j] == k;
                        assert(u[j] == k);
                    }
                    if u.contains(k) && k != id {
                        let j = choose|j: int| 0 <= j < u.len() && u[j] == k;
                        assert(t[j] == k);
                    }
                }
                assert(!t.contains(id)) by {
                    if t.contains(id) {
                        let j = choose|j: int| 0 <= j < t.len() && t[j] == id;
                        assert(ids@[j] == ids@[i as int]);
                    }
                }
                assert(was.contains_key(id));
            }
            let drop_it = match self.find(id) {
                Some(s) => s.is_expired(&config, now),
                None => false,
            };
            if drop_it {
                let _ = self.sessions.remove(&id);
                assert(self.sessions@ =~= was.remove(id));
                removed = removed + 1;
            }
            i += 1;
        }
        assert(ids@.take(i as int) =~= ids@);
        assert(self.sessions@ =~= unexpired(m, config, now));
        removed
    }

    /// How many sessions are active.
    pub fn active_sessions(&self) -> (r: usize)
        requires
            self.wf(),
        ensures
            r == self@.dom().filter(|k: u64| self@[k].state is Active).len(),
    {
        broadcast use vstd::std_specs::hash::group_hash_axioms;

        let ids = self.session_ids();
        let ghost m = self.sessions@;
        let ghost p = |k: u64| m[k].state is Active;
        let mut n: usize = 0;
        let mut i: usize = 0;
        assert(ids@.take(0).to_set() =~= Set::empty());
        assert(ids@.take(0).to_set().filter(p) =~= Set::empty());
        while i < ids.len()
            invariant
                i <= ids@.len(),
                n <= i,
                m == self.sessions@,
                p == (|k: u64| m[k].state is Active),
                ids@.no_duplicates(),
                forall|k: u64| #[trigger] ids@.contains(k) <==> m.contains_key(k),
                ids@.take(i as int).to_set().filter(p).finite(),
                n == ids@.take(i as int).to_set().filter(p).len(),
            decreases ids@.len() - i,
        {
            let id: u64 = ids[i];
            let active = match self.find(id) {
                Some(s) => matches!(s.state, RelaySessionState::Active),
                None => false,
            };
            proof {
                let t = ids@.take(i as int);
                let u = ids@.take(i + 1);
                assert(ids@.contains(ids@[i as int]));
                assert(u =~= t.push(id));
                assert(u.to_set() =~= t.to_set().insert(id)) by {
                    assert forall|k: u64| u.to_set().contains(k) <==> t.to_set().insert(id).contains(k) by {
                        assert(u[i as int] == id);
                        if t.contains(k) {
                            let j = choose|j: int| 0 <= j < t.len() && t[j] == k;
                            assert(u[j] == k);
                        }
                        if u.contains(k) && k != id {
                            let j = choose|j: int| 0 <= j < u.len() && u[j] == k;
                            assert(t[j] == k);
                        }
                    }
                }
                assert(!t.contains(id)) by {
                    if t.contains(id) {
                        let j = choose|j: int| 0 <= j < t.len() && t[j] == id;
                        assert(ids@[j] == ids@[i as int]);
                    }
                }
                if active {
                    assert(u.to_set().filter(p) =~= t.to_set().filter(p).insert(id));
                } else {
                    assert(u.to_set().filter(p) =~= t.to_set().filter(p));
                }
            }
            if active {
                n = n + 1;
            }
            i += 1;
        }
        proof {
            assert(ids@.take(i as int) =~= ids@);
            assert(ids@.to_set() =~= m.dom());
            assert(m.dom().filter(p) =~= self@.dom().filter(|k: u64| self@[k].state is Active));
        }
        n
    }

    /// How many sessions there are.
    pub fn total_sessions(&self) -> (r: usize)
        requires
            self.wf(),
        ensures
            r == self@.len(),
    {
        broadcast use vstd::std_specs::hash::group_hash_axioms;

        self.sessions.len()
    }
}

/// There are never more sessions than there may be.
pub proof fn law_sessions_are_bounded(service: RelayService)
    requires
        service.wf(),
    ensures
        service@.len() <= service.limits().max_sessions,
{
}

/// In every session, what was relayed is the sum of what both peers have sent, and each
/// has received what the other has sent.
pub proof fn law_books_are_balanced(service: RelayService, id: u64)
    requires
        service.wf(),
        service@.contains_key(id),
    ensures
        service@[id].balanced(),
{
}

/// The two peers of an active session are forwarded to each other, and nobody else is
/// forwarded at all.
pub proof fn law_forwarding_is_mutual(s: RelaySession, other: PeerId)
    requires
        s.state is Active,
        s.peer_a.peer_id != s.peer_b.peer_id,
        other != s.peer_a.peer_id,
        other != s.peer_b.peer_id,
    ensures
        RelayService::forward(s, s.peer_a.peer_id) == Some(s.peer_b.addr),
        RelayService::forward(s, s.peer_b.peer_id) == Some(s.peer_a.addr),
        RelayService::forward(s, other) is None,
{
}

/// The session with its two peers in each other's place.
pub open spec fn swapped(s: RelaySession) -> RelaySession {
    RelaySession { peer_a: s.peer_b, peer_b: s.peer_a, ..s }
}

/// The bandwidth of a session is for both directions together: from its first second on, it is
/// over its limit just if all that it has relayed is more than the limit times its age. Which
/// of the peers has sent it does not matter.
pub proof fn law_bandwidth_is_shared(s: RelaySession, c: RelayConfig, now: Instant)
    ensures
        now.nanos - s.created_at.nanos < 1_000_000_000 ==> !s.over_limit(c, now),
        now.nanos - s.created_at.nanos >= 1_000_000_000 ==> (s.over_limit(c, now) <==> s.bytes_relayed * 1_000_000_000
            > c.max_bandwidth_bps * (now.nanos - s.created_at.nanos)),
        s.over_limit(c, now) == swapped(s).over_limit(c, now),
        s.balanced() && s.peer_a.bytes_sent + s.peer_b.bytes_sent <= u64::MAX && now.nanos - s.created_at.nanos >= 1_000_000_000
            ==> (s.over_limit(c, now) <==> (s.peer_a.bytes_sent + s.peer_b.bytes_sent) * 1_000_000_000 > c.max_bandwidth_bps * (
        now.nanos - s.created_at.nanos)),
{
}

/// Traffic makes a session no less over its limit, whoever sends; waiting makes it no more.
pub proof fn law_traffic_fills_the_limit(
    s: RelaySession,
    c: RelayConfig,
    bytes: u64,
    from_a: bool,
    at: Instant,
    now: Instant,
    later: Instant,
)
    requires
        s.bytes_relayed + bytes <= u64::MAX,
        now.nanos <= later.nanos,
        now.nanos - s.created_at.nanos >= 1_000_000_000,
    ensures
        s.over_limit(c, now) ==> s.after_relay(bytes, from_a, at).over_limit(c, now),
        s.over_limit(c, later) ==> s.over_limit(c, now),
{
    let a = now.nanos - s.created_at.nanos;
    let b = later.nanos - s.created_at.nanos;
    assert(c.max_bandwidth_bps * a <= c.max_bandwidth_bps * b) by (nonlinear_arith)
        requires
            a <= b,
            c.max_bandwidth_bps >= 0,
    ;
}

/// What is relayed is booked once for the sender, once for the receiver and once for the
/// session, and is activity; nothing else changes. It is the same from either side.
pub proof fn law_relaying_is_booked(s: RelaySession, bytes: u64, from_a: bool, now: Instant)
    ensures
        s.bytes_relayed + bytes <= u64::MAX ==> s.after_relay(bytes, from_a, now).bytes_relayed == s.bytes_relayed + bytes,
        from_a && s.peer_a.bytes_sent + bytes <= u64::MAX ==> s.after_relay(bytes, from_a, now).peer_a.bytes_sent
            == s.peer_a.bytes_sent + bytes,
        from_a && s.peer_b.bytes_received + bytes <= u64::MAX ==> s.after_relay(bytes, from_a, now).peer_b.bytes_received
            == s.peer_b.bytes_received + bytes,
        from_a ==> s.after_relay(bytes, from_a, now).peer_a.bytes_received == s.peer_a.bytes_received,
        from_a ==> s.after_relay(bytes, from_a, now).peer_b.bytes_sent == s.peer_b.bytes_sent,
        s.after_relay(bytes, from_a, now).peer_a.peer_id == s.peer_a.peer_id,
        s.after_relay(bytes, from_a, now).peer_a.addr == s.peer_a.addr,
        s.after_relay(bytes, from_a, now).peer_b.peer_id == s.peer_b.peer_id,
        s.after_relay(bytes, from_a, now).peer_b.addr == s.peer_b.addr,
        s.after_relay(bytes, from_a, now).last_activity == now,
        s.after_relay(bytes, from_a, now).created_at == s.created_at,
        s.after_relay(bytes, from_a, now).state == s.state,
        s.after_relay(bytes, from_a, now).session_id == s.session_id,
        swapped(s.after_relay(bytes, from_a, now)) == swapped(s).after_relay(bytes, !from_a, now),
{
}

/// A session has expired just if it is closed, has been idle for longer than it may, or is older
/// than it may be; pending sessions too. It stays expired, and swapping its peers changes
/// nothing.
pub proof fn law_sessions_expire(s: RelaySession, c: RelayConfig, now: Instant, later: Instant)
    requires
        now.nanos <= later.nanos,
    ensures
        s.expired(c, now) <==> s.state == RelaySessionState::Closed || now.nanos - s.last_activity.nanos > c.idle_timeout.nanos
            || now.nanos - s.created_at.nanos > c.max_duration.nanos,
        s.expired(c, now) ==> s.expired(c, later),
        s.expired(c, now) == swapped(s).expired(c, now),
{
}

/// Clearing away keeps every session that has not expired as it is, and no other; doing it
/// twice changes nothing.
pub proof fn law_only_expired_sessions_go(m: Map<u64, RelaySession>, c: RelayConfig, now: Instant, k: u64)
    ensures
        unexpired(m, c, now).contains_key(k) <==> m.contains_key(k) && m[k].state != RelaySessionState::Closed && now.nanos
            - m[k].last_activity.nanos <= c.idle_timeout.nanos && now.nanos - m[k].created_at.nanos <= c.max_duration.nanos,
        unexpired(m, c, now).contains_key(k) ==> unexpired(m, c, now)[k] == m[k],
        unexpired(unexpired(m, c, now), c, now) == unexpired(m, c, now),
{
    assert(unexpired(unexpired(m, c, now), c, now) =~= unexpired(m, c, now));
}

/// Nothing is forwarded in a session that is pending or closed.
pub proof fn law_only_active_sessions_forward(s: RelaySession, from: PeerId)
    requires
        s.state != RelaySessionState::Active,
    ensures
        RelayService::forward(s, from) is None,
{
}

/// The books of a session: what each peer has received is what the other has sent, and what was
/// relayed is what both have sent.
pub proof fn law_balance(s: RelaySession)
    requires
        s.balanced(),
        s.peer_a.bytes_sent + s.peer_b.bytes_sent <= u64::MAX,
    ensures
        s.bytes_relayed == s.peer_a.bytes_sent + s.peer_b.bytes_sent,
        s.peer_a.bytes_received == s.peer_b.bytes_sent,
        s.peer_b.bytes_received == s.peer_a.bytes_sent,
{
}

/// What the first peer of an active session sends goes to the second.
pub proof fn law_first_peer_reaches_the_second(s: RelaySession)
    requires
        s.state == RelaySessionState::Active,
    ensures
        RelayService::forward(s, s.peer_a.peer_id) == Some(s.peer_b.addr),
{
}

/// A peer that comes into a session has sent and received nothing.
pub proof fn law_new_peer_of_a_session(peer_id: PeerId, addr: SocketAddr)
    ensures
        RelayPeer::spec_new(peer_id, addr).peer_id == peer_id && RelayPeer::spec_new(peer_id, addr).addr == addr,
        RelayPeer::spec_new(peer_id, addr).bytes_sent == 0 && RelayPeer::spec_new(peer_id, addr).bytes_received == 0,
{
}

/// Traffic is let through just if the session is active and what both peers have sent so far keeps
/// within the limit for the time since the session began; in its first second there is no limit. It
/// is then booked as sent by the one and received by the other.
pub proof fn law_traffic_that_is_let_through(session_id: u64, bytes: u64, from_a: bool, now: Instant, r: Result<(), NatError>)
    ensures
        forall|v: &mut RelayService| #[trigger]
            call_ensures(RelayService::record_relay, (v, session_id, bytes, from_a, now), r) ==> (r is Ok <==> {
                let s = v@[session_id];
                let age = now.nanos - s.created_at.nanos;
                &&& v@.contains_key(session_id)
                &&& s.state == RelaySessionState::Active
                &&& age < 1_000_000_000 || s.bytes_relayed * 1_000_000_000 <= v.limits().max_bandwidth_bps * age
            }),
        forall|v: &mut RelayService| #[trigger]
            call_ensures(RelayService::record_relay, (v, session_id, bytes, from_a, now), r) && r is Ok && v@[session_id].bytes_relayed
                + bytes <= u64::MAX ==> final(v)@.dom() == v@.dom() && final(v)@[session_id].bytes_relayed == v@[session_id].bytes_relayed
                + bytes && final(v)@[session_id].last_activity == now,
        forall|v: &mut RelayService| #[trigger]
            call_ensures(RelayService::record_relay, (v, session_id, bytes, from_a, now), r) && r is Err ==> final(v)@ == v@,
{
    assert forall|v: &mut RelayService| #[trigger]
        call_ensures(RelayService::record_relay, (v, session_id, bytes, from_a, now), r) && r is Ok && v@[session_id].bytes_relayed
            + bytes <= u64::MAX implies final(v)@.dom() == v@.dom() && final(v)@[session_id].bytes_relayed == v@[session_id].bytes_relayed
        + bytes && final(v)@[session_id].last_activity == now by {
        law_relaying_is_booked(v@[session_id], bytes, from_a, now);
        assert(final(v)@.dom() =~= v@.dom());
    }
}

/// A session begins pending, between the two peers, with nothing relayed; it becomes active once, and
/// when it is closed it stays, closed, until it is cleared away. Only an active session forwards.
pub proof fn law_life_of_a_session(
    a: PeerId,
    a_addr: SocketAddr,
    b: PeerId,
    b_addr: SocketAddr,
    now: Instant,
    id: u64,
    r: Result<(), NatError>,
)
    ensures
        forall|v: &mut RelayService| #[trigger]
            call_ensures(RelayService::create_session, (v, a, a_addr, b, b_addr, now), Ok(id)) ==> {
                let s = final(v)@[id];
                &&& final(v)@.contains_key(id)
                &&& s.session_id == id && s.state == RelaySessionState::Pending && s.bytes_relayed == 0
                &&& s.created_at == now && s.last_activity == now
                &&& s.peer_a.peer_id == a && s.peer_a.addr == a_addr && s.peer_b.peer_id == b && s.peer_b.addr == b_addr
            },
        forall|v: &mut RelayService| #[trigger]
            call_ensures(RelayService::activate_session, (v, id, now), r) ==> (r is Ok <==> v@.contains_key(id) && v@[id].state
                == RelaySessionState::Pending) && (r is Ok ==> final(v)@[id].state == RelaySessionState::Active
                && final(v)@[id].last_activity == now && final(v)@[id].created_at == v@[id].created_at) && (r is Err ==> final(v)@ == v@),
        forall|v: &mut RelayService| #[trigger]
            call_ensures(RelayService::close_session, (v, id), ()) ==> final(v)@.dom() == v@.dom() && (v@.contains_key(id)
                ==> final(v)@[id].state == RelaySessionState::Closed && final(v)@[id].bytes_relayed == v@[id].bytes_relayed),
        forall|v: &mut RelayService, k: u64| #[trigger]
            call_ensures(RelayService::close_session, (v, id), ()) && k != id && #[trigger] v@.contains_key(k) ==> final(v)@[k] == v@[k],
{
    assert forall|v: &mut RelayService| #[trigger] call_ensures(RelayService::close_session, (v, id), ()) implies final(v)@.dom()
        == v@.dom() by {
        assert(final(v)@.dom() =~= v@.dom());
    }
}

/// Sessions that have expired are cleared away, and counted; the others stay. A packet goes to the other
/// peer of its session.
pub proof fn law_sessions_are_cleared_away(now: Instant, n: usize, v: RelayService, id: u64, from: PeerId, to: Option<SocketAddr>)
    requires
        call_ensures(RelayService::get_forward_addr, (&v, id, &from), to),
    ensures
        forall|x: &mut RelayService| #[trigger]
            call_ensures(RelayService::cleanup_expired, (x, now), n) ==> (final(x)@.contains_key(id) <==> x@.contains_key(id)
                && x@[id].state != RelaySessionState::Closed && now.nanos - x@[id].last_activity.nanos <= x.limits().idle_timeout.nanos
                && now.nanos - x@[id].created_at.nanos <= x.limits().max_duration.nanos),
        !v@.contains_key(id) || v@[id].state != RelaySessionState::Active ==> to is None,
        v@.contains_key(id) && v@[id].state == RelaySessionState::Active && from == v@[id].peer_a.peer_id ==> to == Some(
            v@[id].peer_b.addr,
        ),
        v@.contains_key(id) && v@[id].state == RelaySessionState::Active && from == v@[id].peer_b.peer_id && from
            != v@[id].peer_a.peer_id ==> to == Some(v@[id].peer_a.addr),
{
    assert forall|x: &mut RelayService| #[trigger] call_ensures(RelayService::cleanup_expired, (x, now), n) implies (final(x)@.contains_key(
        id,
    ) <==> x@.contains_key(id) && x@[id].state != RelaySessionState::Closed && now.nanos - x@[id].last_activity.nanos
        <= x.limits().idle_timeout.nanos && now.nanos - x@[id].created_at.nanos <= x.limits().max_duration.nanos) by {
        law_only_expired_sessions_go(x@, x.limits(), now, id);
    }
}

} // verus!
