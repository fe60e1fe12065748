//! The pool of connections, by the address of the peer.
use vstd::prelude::*;
use vstd::string::*;
use crate::counter::{count, counted, lemma_counted_in_any_order};
use crate::net::{law_keys_are_distinct, SocketAddr};
use crate::table::{Key, Table};
use crate::text::{dec, push_dec};
use crate::time::{Duration, Instant};
use crate::transport::connection::{ConnectionConfig, ConnectionInfo, ConnectionState};
use crate::transport::TransportError;

verus! {

/// A connection in the pool.
#[derive(Debug, Clone, Copy)]
pub struct Pooled {
    pub addr: SocketAddr,
    pub info: ConnectionInfo,
}

/// Which connections are asked for.
#[derive(Debug, Clone, Copy)]
pub enum Wanted {
    All,
    Established,
    /// A ping is due.
    PingDue(Instant),
    Dead(Instant),
    /// Nothing has arrived for longer than the span.
    Idle(Instant, Duration),
}

impl Wanted {
    pub open spec fn holds(self, c: ConnectionInfo) -> bool {
        match self {
            Wanted::All => true,
            Wanted::Established => c.state is Established,
            Wanted::PingDue(now) => c.ping_due(now),
            Wanted::Dead(now) => c.dead(now),
            Wanted::Idle(now, span) => now.spec_since(c.last_recv).nanos > span.nanos,
        }
    }

    fn is_met(&self, c: &ConnectionInfo) -> (r: bool)
        ensures
            r == self.holds(*c),
    {
        match self {
            Wanted::All => true,
            Wanted::Established => matches!(c.state, ConnectionState::Established),
            Wanted::PingDue(now) => c.should_send_ping(*now),
            Wanted::Dead(now) => c.is_dead(*now),
            Wanted::Idle(now, span) => c.idle_time(*now).nanos > span.nanos,
        }
    }
}

/// The list holds the addresses of exactly the wanted connections, each once.
pub open spec fn lists(m: Map<Key, Pooled>, r: Seq<SocketAddr>, w: Wanted) -> bool {
    &&& forall|i: int| 0 <= i < r.len() ==> m.contains_key((#[trigger] r[i]).spec_key()) && w.holds(m[r[i].spec_key()].info)
    &&& forall|i: int, j: int| 0 <= i < j < r.len() ==> r[i] != r[j]
    &&& forall|k: Key| #[trigger] m.contains_key(k) && w.holds(m[k].info) ==> r.contains(m[k].addr)
}

/// How many connections are in a state.
pub open spec fn in_state(s: Seq<Pooled>, state: ConnectionState) -> nat
    decreases s.len(),
{
    if s.len() == 0 {
        0
    } else {
        in_state(s.drop_last(), state) + (if s.last().info.state == state { 1nat } else { 0nat })
    }
}

/// The bytes that all connections have received.
pub open spec fn sum_recv(s: Seq<Pooled>) -> u64
    decreases s.len(),
{
    if s.len() == 0 {
        0
    } else {
        counted(sum_recv(s.drop_last()), s.last().info.bytes_recv)
    }
}

/// The bytes that all connections have sent.
pub open spec fn sum_sent(s: Seq<Pooled>) -> u64
    decreases s.len(),
{
    if s.len() == 0 {
        0
    } else {
        counted(sum_sent(s.drop_last()), s.last().info.bytes_sent)
    }
}

/// The pool.
pub struct ConnectionPool {
    connections: Table<Pooled>,
    max_connections: usize,
    default_config: ConnectionConfig,
    total_created: u64,
    total_removed: u64,
}

impl ConnectionPool {
    /// The connections, under the keys of their addresses.
    pub closed spec fn view(self) -> Map<Key, Pooled> {
        self.connections@
    }

    /// The connections, in some order.
    pub closed spec fn listing(self) -> Seq<Pooled> {
        self.connections.order().map_values(|k: Key| self.connections@[k])
    }

    pub closed spec fn capacity(self) -> usize {
        self.max_connections
    }

    pub closed spec fn defaults(self) -> ConnectionConfig {
        self.default_config
    }

    /// Connections that were ever added.
    pub closed spec fn created(self) -> u64 {
        self.total_created
    }

    /// Connections that were ever removed.
    pub closed spec fn removed(self) -> u64 {
        self.total_removed
    }

    /// Everything stands under the key of its address; there are no more connections than
    /// fit; and those that were added and not removed are there.
    pub closed spec fn wf(self) -> bool {
        &&& self.connections.wf()
        &&& forall|k: Key| #[trigger] self.connections@.contains_key(k) ==> self.connections@[k].addr.spec_key() == k
        &&& self.connections@.dom().finite()
        &&& self.connections@.len() <= self.max_connections
        &&& self.total_created == counted(self.total_removed, self.connections@.len() as u64)
    }

    /// Nothing but the connections differs.
    pub open spec fn same_books(self, o: ConnectionPool) -> bool {
        &&& self.capacity() == o.capacity()
        &&& self.defaults() == o.defaults()
        &&& self.created() == o.created()
        &&& self.removed() == o.removed()
    }

    pub fn new(max_connections: usize, default_config: ConnectionConfig) -> (r: Self)
        ensures
            r.wf(),
            r@ == Map::<Key, Pooled>::empty(),
            r.capacity() == max_connections,
            r.defaults() == default_config,
            r.created() == 0,
            r.removed() == 0,
    {
        ConnectionPool {
            connections: Table::new(),
            max_connections,
            default_config,
            total_created: 0,
            total_removed: 0,
        }
    }

    pub fn with_defaults() -> (r: Self)
        ensures
            r.wf(),
            r@ == Map::<Key, Pooled>::empty(),
            r.capacity() == 1024,
            r.defaults().heartbeat_interval.nanos == 15_000_000_000,
            r.defaults().heartbeat_timeout.nanos == 5_000_000_000,
            r.defaults().max_missed_heartbeats == 3,
            r.created() == 0,
            r.removed() == 0,
    {
        Self::new(1024, ConnectionConfig::default())
    }

    /// Adds a connection. A full pool takes none; one that is there already stays as it is.
    pub fn insert(&mut self, peer_addr: SocketAddr, now: Instant) -> (r: Result<(), TransportError>)
        requires
            old(self).wf(),
        ensures
            final(self).wf(),
            final(self).capacity() == old(self).capacity(),
            final(self).defaults() == old(self).defaults(),
            final(self).removed() == old(self).removed(),
            if old(self)@.len() >= old(self).capacity() {
                &&& r == Err::<(), TransportError>(TransportError::PoolFull { max: old(self).capacity() })
                &&& final(self)@ == old(self)@
                &&& final(self).created() == old(self).created()
            } else if old(self)@.contains_key(peer_addr.spec_key()) {
                &&& r is Ok
                &&& final(self)@ == old(self)@
                &&& final(self).created() == old(self).created()
            } else {
                &&& r is Ok
                &&& final(self)@ == old(self)@.insert(
                    peer_addr.spec_key(),
                    Pooled {
                        addr: peer_addr,
                        info: ConnectionInfo::spec_new(peer_addr, old(self).defaults(), now),
                    },
                )
                &&& final(self).created() == counted(old(self).created(), 1)
            },
    {
        if self.connections.len() >= self.max_connections {
            return Err(TransportError::PoolFull { max: self.max_connections });
        }
        let key = peer_addr.key();
        if self.connections.contains(&key) {
            return Ok(());
        }
        let info = ConnectionInfo::new(peer_addr, self.default_config, now);
        let _ = self.connections.insert(key, Pooled { addr: peer_addr, info });
        self.total_created = count(self.total_created, 1);
        proof {
            let n = old(self).connections@.len() as u64;
            lemma_counted_in_any_order(self.total_removed, n, 1);
        }
        Ok(())
    }

    /// Takes a connection out of the pool.
    pub fn remove(&mut self, peer_addr: &SocketAddr) -> (r: Option<ConnectionInfo>)
        requires
            old(self).wf(),
        ensures
            final(self).wf(),
            final(self).capacity() == old(self).capacity(),
            final(self).defaults() == old(self).defaults(),
            final(self).created() == old(self).created(),
            final(self)@ == old(self)@.remove(peer_addr.spec_key()),
            r is Some <==> old(self)@.contains_key(peer_addr.spec_key()),
            r matches Some(i) ==> i == old(self)@[peer_addr.spec_key()].info,
            final(self).removed() == (if r is Some { counted(old(self).removed(), 1) } else { old(self).removed() }),
    {
        let key = peer_addr.key();
        match self.connections.remove(&key) {
            Some(c) => {
                self.total_removed = count(self.total_removed, 1);
                proof {
                    assert(self.connections@.dom() =~= old(self).connections@.dom().remove(key));
                    let n = self.connections@.len() as u64;
                    lemma_counted_in_any_order(old(self).total_removed, 1, n);
                }
                Some(c.info)
            },
            None => {
                assert(self.connections@ =~= old(self).connections@);
                None
            },
        }
    }

    pub fn contains(&self, peer_addr: &SocketAddr) -> (r: bool)
        requires
            self.wf(),
        ensures
            r == self@.contains_key(peer_addr.spec_key()),
    {
        self.connections.contains(&peer_addr.key())
    }

    pub fn len(&self) -> (r: usize)
        requires
            self.wf(),
        ensures
            r == self@.len(),
    {
        self.connections.len()
    }

    pub fn is_empty(&self) -> (r: bool)
        requires
            self.wf(),
        ensures
            r == (self@.len() == 0),
    {
        self.connections.len() == 0
    }

    /// What is known of a connection.
    pub fn get(&self, peer_addr: &SocketAddr) -> (r: Option<ConnectionInfo>)
        requires
            self.wf(),
        ensures
            r is Some <==> self@.contains_key(peer_addr.spec_key()),
            r matches Some(i) ==> i == self@[peer_addr.spec_key()].info,
    {
        match self.connections.get(&peer_addr.key()) {
            Some(c) => Some(c.info),
            None => None,
        }
    }

    /// The pool after a connection has become `info`; unchanged where it is not there.
    pub open spec fn updated(self, addr: SocketAddr, info: ConnectionInfo) -> Map<Key, Pooled> {
        if self@.contains_key(addr.spec_key()) {
            self@.insert(addr.spec_key(), Pooled { addr: self@[addr.spec_key()].addr, info })
        } else {
            self@
        }
    }

    /// Puts other facts about a connection in the place of those that are there.
    pub fn update(&mut self, peer_addr: &SocketAddr, info: ConnectionInfo)
        requires
            old(self).wf(),
        ensures
            final(self).wf(),
            final(self).same_books(*old(self)),
            final(self)@ == old(self).updated(*peer_addr, info),
    {
        let key = peer_addr.key();
        let slot: Option<Pooled> = match self.connections.get(&key) {
            Some(c) => Some(*c),
            None => None,
        };
        if let Some(c) = slot {
            let _ = self.connections.insert(key, Pooled { addr: c.addr, info });
            assert(self.connections@.dom() =~= old(self).connections@.dom());
        }
    }

    /// Calls a function on what is known of a connection, which it may change. There is
    /// no call for a peer that is not in the pool.
    pub fn with_connection<F, R>(&mut self, peer_addr: &SocketAddr, f: F) -> (r: Option<R>) where
        F: FnOnce(ConnectionInfo) -> (ConnectionInfo, R),

        requires
            old(self).wf(),
            old(self)@.contains_key(peer_addr.spec_key()) ==> f.requires((old(self)@[peer_addr.spec_key()].info,)),
        ensures
            final(self).wf(),
            final(self).same_books(*old(self)),
            match r {
                Some(x) => {
                    &&& old(self)@.contains_key(peer_addr.spec_key())
                    &&& exists|info: ConnectionInfo|
                        f.ensures((old(self)@[peer_addr.spec_key()].info,), (info, x)) && final(self)@ == #[trigger]
                            old(self).updated(*peer_addr, info)
                },
                None => !old(self)@.contains_key(peer_addr.spec_key()) && final(self)@ == old(self)@,
            },
    {
        match self.get(peer_addr) {
            Some(info) => {
                let (info, x) = f(info);
                self.update(peer_addr, info);
                Some(x)
            },
            None => None,
        }
    }

    /// Calls a function on what is known of a connection.
    pub fn with_connection_ref<F, R>(&self, peer_addr: &SocketAddr, f: F) -> (r: Option<R>) where
        F: FnOnce(&ConnectionInfo) -> R,

        requires
            self.wf(),
            self@.contains_key(peer_addr.spec_key()) ==> f.requires((&self@[peer_addr.spec_key()].info,)),
        ensures
            match r {
                Some(x) => {
                    &&& self@.contains_key(peer_addr.spec_key())
                    &&& f.ensures((&self@[peer_addr.spec_key()].info,), x)
                },
                None => !self@.contains_key(peer_addr.spec_key()),
            },
    {
        match self.connections.get(&peer_addr.key()) {
            Some(c) => Some(f(&c.info)),
            None => None,
        }
    }

    /// The addresses of the wanted connections.
    fn collect(&self, w: Wanted) -> (r: Vec<SocketAddr>)
        requires
            self.wf(),
        ensures
            lists(self@, r@, w),
    {
        let mut out: Vec<SocketAddr> = Vec::new();
        let n: usize = self.connections.len();
        let ghost order = self.connections.order();
        let ghost m = self.connections@;
        let mut i: usize = 0;
        proof {
            self.connections.lemma_order();
        }
        while i < n
            invariant
                i <= n,
                self.wf(),
                order == self.connections.order(),
                m == self.connections@,
                n == order.len(),
                order.no_duplicates(),
                forall|j: int| 0 <= j < n ==> m.contains_key(#[trigger] order[j]),
                forall|c: int| 0 <= c < out@.len() ==> m.contains_key((#[trigger] out@[c]).spec_key()) && w.holds(m[out@[c].spec_key()].info),
                forall|c: int| 0 <= c < out@.len() ==> exists|j: int| 0 <= j < i && #[trigger] order[j] == (#[trigger] out@[c]).spec_key(),
                forall|c: int, d: int| 0 <= c < d < out@.len() ==> out@[c] != out@[d],
                forall|j: int| 0 <= j < i && w.holds(m[#[trigger] order[j]].info) ==> out@.contains(m[order[j]].addr),
            decreases n - i,
        {
            let c = self.connections.value_at(i);
            let ghost was = out@;
            assert(m[order[i as int]].addr.spec_key() == order[i as int]);
            if w.is_met(&c.info) {
                out.push(c.addr);
                assert(out@[was.len() as int] == c.addr);
            }
            proof {
                assert forall|c: int| 0 <= c < out@.len() implies exists|j: int| 0 <= j < i + 1 && #[trigger] order[j] == (#[trigger] out@[c]).spec_key() by {
                    if c < was.len() {
                        let j = choose|j: int| 0 <= j < i && #[trigger] order[j] == was[c].spec_key();
                        assert(order[j] == out@[c].spec_key());
                    } else {
                        assert(order[i as int] == out@[c].spec_key());
                    }
                }
                assert forall|c: int, d: int| 0 <= c < d < out@.len() implies out@[c] != out@[d] by {
                    if d == was.len() {
                        let j = choose|j: int| 0 <= j < i && #[trigger] order[j] == was[c].spec_key();
                        assert(order[j] != order[i as int]);
                    }
                }
                assert forall|j: int| 0 <= j < i + 1 && w.holds(m[#[trigger] order[j]].info) implies out@.contains(m[order[j]].addr) by {
                    if j < i {
                        assert(was.contains(m[order[j]].addr));
                        let c = choose|c: int| 0 <= c < was.len() && was[c] == m[order[j]].addr;
                        assert(out@[c] == m[order[j]].addr);
                    }
                }
            }
            i += 1;
        }
        proof {
            self.connections.lemma_order();
            assert forall|k: Key| #[trigger] m.contains_key(k) && w.holds(m[k].info) implies out@.contains(m[k].addr) by {
                assert(order.contains(k));
                let j = choose|j: int| 0 <= j < order.len() && order[j] == k;
                assert(w.holds(m[order[j]].info));
            }
        }
        out
    }

    /// The addresses of all connections.
    pub fn peer_addrs(&self) -> (r: Vec<SocketAddr>)
        requires
            self.wf(),
        ensures
            lists(self@, r@, Wanted::All),
    {
        self.collect(Wanted::All)
    }

    /// The addresses of the connections that are established.
    pub fn established_peers(&self) -> (r: Vec<SocketAddr>)
        requires
            self.wf(),
        ensures
            lists(self@, r@, Wanted::Established),
    {
        self.collect(Wanted::Established)
    }

    /// The addresses of those to whom a ping is due.
    pub fn peers_needing_ping(&self, now: Instant) -> (r: Vec<SocketAddr>)
        requires
            self.wf(),
        ensures
            lists(self@, r@, Wanted::PingDue(now)),
    {
        self.collect(Wanted::PingDue(now))
    }

    /// The addresses of those that are dead.
    pub fn dead_peers(&self, now: Instant) -> (r: Vec<SocketAddr>)
        requires
            self.wf(),
        ensures
            lists(self@, r@, Wanted::Dead(now)),
    {
        self.collect(Wanted::Dead(now))
    }

    /// Removes the wanted connections and tells their addresses.
    fn evict(&mut self, w: Wanted) -> (r: Vec<SocketAddr>)
        requires
            old(self).wf(),
        ensures
            final(self).wf(),
            final(self).capacity() == old(self).capacity(),
            final(self).defaults() == old(self).defaults(),
            final(self).created() == old(self).created(),
            lists(old(self)@, r@, w),
            final(self)@ == kept(old(self)@, w),
    {
        let out = self.collect(w);
        let ghost m = self.connections@;
        let mut i: usize = 0;
        while i < out.len()
            invariant
                i <= out@.len(),
                self.wf(),
                m == old(self)@,
                lists(m, out@, w),
                forall|k: Key| #[trigger] m.contains_key(k) ==> m[k].addr.spec_key() == k,
                self.capacity() == old(self).capacity(),
                self.defaults() == old(self).defaults(),
                self.created() == old(self).created(),
                forall|k: Key| #[trigger] self@.contains_key(k) ==> m.contains_key(k) && self@[k] == m[k],
                forall|k: Key| #[trigger] m.contains_key(k) ==> (self@.contains_key(k) <==> !out@.take(i as int).contains(m[k].addr)),
            decreases out@.len() - i,
        {
            let addr = out[i];
            let ghost t = out@.take(i as int);
            let ghost u = out@.take(i + 1);
            let _ = self.remove(&addr);
            proof {
                assert forall|a: SocketAddr| u.contains(a) <==> t.contains(a) || a == addr by {
                    assert(u[i as int] == addr);
                    if t.contains(a) {
                        let j = choose|j: int| 0 <= j < t.len() && t[j] == a;
                        assert(u[j] == a);
                    }
                    if u.contains(a) && a != addr {
                        let j = choose|j: int| 0 <= j < u.len() && u[j] == a;
                        assert(t[j] == a);
                    }
                }
                assert forall|k: Key| #[trigger] m.contains_key(k) implies (self@.contains_key(k) <==> !u.contains(m[k].addr)) by {
                    if m[k].addr.spec_key() == addr.spec_key() {
                        law_keys_are_distinct(m[k].addr, addr);
                    }
                }
            }
            i += 1;
        }
        proof {
            assert(out@.take(i as int) =~= out@);
            assert forall|k: Key| #[trigger] m.contains_key(k) implies (self@.contains_key(k) <==> !w.holds(m[k].info)) by {
                if out@.contains(m[k].addr) {
                    let j = choose|j: int| 0 <= j < out@.len() && out@[j] == m[k].addr;
                    assert(w.holds(m[out@[j].spec_key()].info));
                }
            }
            assert(self@ =~= kept(m, w));
        }
        out
    }

    /// Removes those from whom nothing has arrived for too long, and tells who they were.
    pub fn evict_idle(&mut self, max_idle: Duration, now: Instant) -> (r: Vec<SocketAddr>)
        requires
            old(self).wf(),
        ensures
            final(self).wf(),
            final(self).capacity() == old(self).capacity(),
            final(self).defaults() == old(self).defaults(),
            final(self).created() == old(self).created(),
            lists(old(self)@, r@, Wanted::Idle(now, max_idle)),
            final(self)@ == kept(old(self)@, Wanted::Idle(now, max_idle)),
    {
        self.evict(Wanted::Idle(now, max_idle))
    }

    /// Removes those that are dead, and tells who they were.
    pub fn evict_dead(&mut self, now: Instant) -> (r: Vec<SocketAddr>)
        requires
            old(self).wf(),
        ensures
            final(self).wf(),
            final(self).capacity() == old(self).capacity(),
            final(self).defaults() == old(self).defaults(),
            final(self).created() == old(self).created(),
            lists(old(self)@, r@, Wanted::Dead(now)),
            final(self)@ == kept(old(self)@, Wanted::Dead(now)),
    {
        self.evict(Wanted::Dead(now))
    }

    /// Counts connections and traffic.
    pub fn stats(&self) -> (r: PoolStats)
        requires
            self.wf(),
        ensures
            r == (PoolStats {
                active: self@.len() as usize,
                established: in_state(self.listing(), ConnectionState::Established) as usize,
                connecting: in_state(self.listing(), ConnectionState::Connecting) as usize,
                closing: in_state(self.listing(), ConnectionState::Closing) as usize,
                max: self.capacity(),
                total_created: self.created(),
                total_removed: self.removed(),
                total_bytes_recv: sum_recv(self.listing()),
                total_bytes_sent: sum_sent(self.listing()),
            }),
            r.established + r.connecting + r.closing <= r.active,
    {
        let mut established: usize = 0;
        let mut connecting: usize = 0;
        let mut closing: usize = 0;
        let mut total_bytes_recv: u64 = 0;
        let mut total_bytes_sent: u64 = 0;
        let n: usize = self.connections.len();
        let ghost s = self.listing();
        let mut i: usize = 0;
        assert(s.take(0) =~= Seq::empty());
        while i < n
            invariant
                i <= n,
                self.wf(),
                s == self.listing(),
                n == self.connections.order().len(),
                established + connecting + closing <= i,
                established == in_state(s.take(i as int), ConnectionState::Established),
                connecting == in_state(s.take(i as int), ConnectionState::Connecting),
                closing == in_state(s.take(i as int), ConnectionState::Closing),
                total_bytes_recv == sum_recv(s.take(i as int)),
                total_bytes_sent == sum_sent(s.take(i as int)),
            decreases n - i,
        {
            let c = self.connections.value_at(i);
            assert(s.take(i + 1).drop_last() =~= s.take(i as int));
            assert(s.take(i + 1).last() == *c);
            match c.info.state {
                ConnectionState::Established => {
                    established = established + 1;
                },
                ConnectionState::Connecting => {
                    connecting = connecting + 1;
                },
                ConnectionState::Closing => {
                    closing = closing + 1;
                },
                ConnectionState::Closed => {},
            }
            total_bytes_recv = count(total_bytes_recv, c.info.bytes_recv);
            total_bytes_sent = count(total_bytes_sent, c.info.bytes_sent);
            i += 1;
        }
        assert(s.take(i as int) =~= s);
        PoolStats {
            active: n,
            established,
            connecting,
            closing,
            max: self.max_connections,
            total_created: self.total_created,
            total_removed: self.total_removed,
            total_bytes_recv,
            total_bytes_sent,
        }
    }

    /// The listing holds each connection once.
    pub proof fn lemma_listing(self)
        requires
            self.wf(),
        ensures
            self.listing().len() == self@.len(),
            forall|k: Key| #[trigger] self@.contains_key(k) ==> self.listing().contains(self@[k]),
            forall|i: int| 0 <= i < self.listing().len() ==> self@.contains_key((#[trigger] self.listing()[i]).addr.spec_key())
                && self@[self.listing()[i].addr.spec_key()] == self.listing()[i],
            forall|i: int, j: int| 0 <= i < j < self.listing().len() ==> (#[trigger] self.listing()[i]).addr != (#[trigger] self.listing()[j]).addr,
    {
        self.connections.lemma_order();
        let order = self.connections.order();
        let s = self.listing();
        assert forall|k: Key| #[trigger] self@.contains_key(k) implies s.contains(self@[k]) by {
            assert(order.contains(k));
            let j = choose|j: int| 0 <= j < order.len() && order[j] == k;
            assert(s[j] == self@[k]);
        }
        assert forall|i: int| 0 <= i < s.len() implies self@.contains_key((#[trigger] s[i]).addr.spec_key()) && self@[s[i].addr.spec_key()]
            == s[i] by {
            assert(self.connections@.contains_key(order[i]));
        }
        assert forall|i: int, j: int| 0 <= i < j < s.len() implies (#[trigger] s[i]).addr != (#[trigger] s[j]).addr by {
            assert(self.connections@.contains_key(order[i]));
            assert(self.connections@.contains_key(order[j]));
            assert(order[i] != order[j]);
        }
    }

    /// What the invariant says of the books.
    pub proof fn lemma_wf(self)
        requires
            self.wf(),
        ensures
            self@.len() <= self.capacity(),
            self.created() == counted(self.removed(), self@.len() as u64),
            forall|k: Key| #[trigger] self@.contains_key(k) ==> self@[k].addr.spec_key() == k,
    {
    }
}

/// The connections that are not wanted.
pub open spec fn kept(m: Map<Key, Pooled>, w: Wanted) -> Map<Key, Pooled> {
    Map::new(|k: Key| m.contains_key(k) && !w.holds(m[k].info), |k: Key| m[k])
}

/// The pool in numbers.
#[derive(Debug, Clone)]
pub struct PoolStats {
    pub active: usize,
    pub established: usize,
    pub connecting: usize,
    pub closing: usize,
    pub max: usize,
    pub total_created: u64,
    pub total_removed: u64,
    pub total_bytes_recv: u64,
    pub total_bytes_sent: u64,
}

impl PoolStats {
    pub open spec fn description(self) -> Seq<char> {
        "Pool["@ + dec(self.active as nat) + "/"@ + dec(self.max as nat) + " active, "@ + dec(self.established as nat)
            + " established, "@ + dec(self.connecting as nat) + " connecting, recv="@ + dec(self.total_bytes_recv as nat)
            + "B sent="@ + dec(self.total_bytes_sent as nat) + "B]"@
    }

    pub fn to_string(&self) -> (r: String)
        ensures
            r@ == self.description(),
    {
        let mut out: String = String::new();
        out.append("Pool[");
        push_dec(&mut out, self.active as u128);
        out.append("/");
        push_dec(&mut out, self.max as u128);
        out.append(" active, ");
        push_dec(&mut out, self.established as u128);
        out.append(" established, ");
        push_dec(&mut out, self.connecting as u128);
        out.append(" connecting, recv=");
        push_dec(&mut out, self.total_bytes_recv as u128);
        out.append("B sent=");
        push_dec(&mut out, self.total_bytes_sent as u128);
        out.append("B]");
        assert(out@ =~= self.description());
        out
    }
}

/// The pool never holds more connections than it may, and those that were added and not
/// removed are there.
pub proof fn law_pool_is_bounded(pool: ConnectionPool)
    requires
        pool.wf(),
    ensures
        pool@.len() <= pool.capacity(),
        pool.created() == counted(pool.removed(), pool@.len() as u64),
{
    pool.lemma_wf();
}

/// Which connections are meant: established ones by their state, idle ones by how long nothing
/// has arrived, and all by nothing.
pub proof fn law_what_is_wanted(c: ConnectionInfo, now: Instant, span: Duration)
    ensures
        Wanted::All.holds(c),
        Wanted::Established.holds(c) <==> c.state == ConnectionState::Established,
        Wanted::Idle(now, span).holds(c) <==> now.nanos - c.last_recv.nanos > span.nanos,
        Wanted::PingDue(now).holds(c) ==> c.state == ConnectionState::Established && c.last_ping_sent is None,
        Wanted::PingDue(now).holds(c) == c.ping_due(now),
        Wanted::Dead(now).holds(c) == c.dead(now),
        Wanted::Dead(now).holds(c) ==> c.missed_heartbeats + 1 >= c.config.max_missed_heartbeats,
{
}

/// A connection with fewer missing pongs than are allowed, and one that was heard from lately, is
/// not evicted; one that is evicted leaves the others as they are.
pub proof fn law_eviction_spares_the_living(m: Map<Key, Pooled>, k: Key, now: Instant, span: Duration)
    requires
        m.contains_key(k),
    ensures
        m[k].info.missed_heartbeats + 1 < m[k].info.config.max_missed_heartbeats ==> kept(m, Wanted::Dead(now)).contains_key(k),
        m[k].info.missed_heartbeats >= m[k].info.config.max_missed_heartbeats ==> !kept(m, Wanted::Dead(now)).contains_key(k),
        now.nanos - m[k].info.last_recv.nanos <= span.nanos <==> kept(m, Wanted::Idle(now, span)).contains_key(k),
        kept(m, Wanted::Dead(now)).contains_key(k) ==> kept(m, Wanted::Dead(now))[k] == m[k],
        kept(m, Wanted::Idle(now, span)).contains_key(k) ==> kept(m, Wanted::Idle(now, span))[k] == m[k],
{
}

/// Eviction adds nothing.
pub proof fn law_eviction_adds_nothing(m: Map<Key, Pooled>, w: Wanted, k: Key)
    ensures
        kept(m, w).contains_key(k) ==> m.contains_key(k) && kept(m, w)[k] == m[k],
        m.contains_key(k) && !kept(m, w).contains_key(k) ==> w.holds(m[k].info),
{
}

/// A list of addresses names each connection that is meant once, and no other.
pub proof fn law_lists_of_addresses(m: Map<Key, Pooled>, r: Seq<SocketAddr>, w: Wanted, k: Key)
    requires
        lists(m, r, w),
        m.contains_key(k),
        m[k].addr.spec_key() == k,
    ensures
        w.holds(m[k].info) <==> r.contains(m[k].addr),
        r.no_duplicates(),
{
    if r.contains(m[k].addr) {
        let i = choose|i: int| 0 <= i < r.len() && r[i] == m[k].addr;
        assert(m.contains_key(r[i].spec_key()));
    }
}

/// Connections are counted in their states, and their traffic adds up.
pub proof fn law_figures_add_up(s: Seq<Pooled>, p: Pooled)
    ensures
        in_state(s.push(p), p.info.state) == in_state(s, p.info.state) + 1,
        forall|state: ConnectionState| state != p.info.state ==> #[trigger] in_state(s.push(p), state) == in_state(s, state),
        sum_recv(s) + p.info.bytes_recv <= u64::MAX ==> sum_recv(s.push(p)) == sum_recv(s) + p.info.bytes_recv,
        sum_sent(s) + p.info.bytes_sent <= u64::MAX ==> sum_sent(s.push(p)) == sum_sent(s) + p.info.bytes_sent,
        in_state(Seq::<Pooled>::empty(), p.info.state) == 0 && sum_recv(Seq::<Pooled>::empty()) == 0
            && sum_sent(Seq::<Pooled>::empty()) == 0,
{
    assert(s.push(p).drop_last() =~= s);
}

/// A change to one connection leaves all others, and the address of that one.
pub proof fn law_updates_touch_one_connection(pool: ConnectionPool, addr: SocketAddr, info: ConnectionInfo, k: Key)
    ensures
        pool.updated(addr, info).dom() == pool@.dom(),
        k != addr.spec_key() && pool@.contains_key(k) ==> pool.updated(addr, info)[k] == pool@[k],
        pool@.contains_key(addr.spec_key()) ==> pool.updated(addr, info)[addr.spec_key()].info == info && pool.updated(
            addr,
            info,
        )[addr.spec_key()].addr == pool@[addr.spec_key()].addr,
{
    assert(pool.updated(addr, info).dom() =~= pool@.dom());
}

/// The figures of the pool, in words.
pub proof fn law_description_of_the_pool(s: PoolStats)
    ensures
        s.description() == "Pool["@ + dec(s.active as nat) + "/"@ + dec(s.max as nat) + " active, "@ + dec(s.established as nat)
            + " established, "@ + dec(s.connecting as nat) + " connecting, recv="@ + dec(s.total_bytes_recv as nat) + "B sent="@ + dec(
            s.total_bytes_sent as nat,
        ) + "B]"@,
{
}

/// A connection comes into the pool once, while there is room; it begins as any new connection does.
/// One that is removed is given back and gone.
pub proof fn law_what_is_in_the_pool(
    addr: SocketAddr,
    now: Instant,
    r: Result<(), TransportError>,
    gone: Option<ConnectionInfo>,
    other: Key,
)
    requires
        other != addr.spec_key(),
    ensures
        forall|p: &mut ConnectionPool| #[trigger]
            call_ensures(ConnectionPool::insert, (p, addr, now), r) ==> (r is Ok <==> p@.len() < p.capacity()) && (r is Err ==> final(p)@
                == p@) && (r is Ok ==> final(p)@.contains_key(addr.spec_key())) && (p@.contains_key(addr.spec_key()) ==> final(p)@ == p@)
                && (r is Ok && !p@.contains_key(addr.spec_key()) ==> final(p)@[addr.spec_key()].info.state == ConnectionState::Connecting
                && final(p)@[addr.spec_key()].info.peer_addr == addr && final(p)@[addr.spec_key()].info.connected_at == now)
                    && final(p)@.contains_key(other) == p@.contains_key(other),
        forall|p: &mut ConnectionPool| #[trigger]
            call_ensures(ConnectionPool::remove, (p, &addr), gone) ==> !final(p)@.contains_key(addr.spec_key()) && (gone is Some
                <==> p@.contains_key(addr.spec_key())) && (gone is Some ==> gone->0 == p@[addr.spec_key()].info) && final(p)@.contains_key(
                other,
            ) == p@.contains_key(other) && (gone is Some && p.removed() < u64::MAX ==> final(p).removed() == p.removed() + 1),
{
}

/// Dead connections are told and leave the pool; the others stay as they are.
pub proof fn law_dead_leave_the_pool(now: Instant, r: Vec<SocketAddr>, k: Key)
    ensures
        forall|p: &mut ConnectionPool| #[trigger]
            call_ensures(ConnectionPool::evict_dead, (p, now), r) && p@.contains_key(k) ==> (p@[k].info.missed_heartbeats + 1
                < p@[k].info.config.max_missed_heartbeats ==> final(p)@.contains_key(k) && final(p)@[k] == p@[k]),
        forall|p: &mut ConnectionPool| #[trigger]
            call_ensures(ConnectionPool::evict_dead, (p, now), r) && p@.contains_key(k) ==> (p@[k].info.missed_heartbeats
                >= p@[k].info.config.max_missed_heartbeats ==> !final(p)@.contains_key(k) && r@.contains(p@[k].addr)),
{
    assert forall|p: &mut ConnectionPool| #[trigger]
        call_ensures(ConnectionPool::evict_dead, (p, now), r) && p@.contains_key(k) implies (p@[k].info.missed_heartbeats + 1
        < p@[k].info.config.max_missed_heartbeats ==> final(p)@.contains_key(k) && final(p)@[k] == p@[k]) && (
    p@[k].info.missed_heartbeats >= p@[k].info.config.max_missed_heartbeats ==> !final(p)@.contains_key(k) && r@.contains(
        p@[k].addr,
    )) by {
        assert(final(p)@ == kept(p@, Wanted::Dead(now)));
        assert(lists(p@, r@, Wanted::Dead(now)));
        law_eviction_spares_the_living(p@, k, now, Duration { nanos: 0 });
        law_eviction_adds_nothing(p@, Wanted::Dead(now), k);
    }
}

/// Connections on which nothing has come for too long are told and leave the pool; the others stay.
pub proof fn law_idle_leave_the_pool(span: Duration, now: Instant, r: Vec<SocketAddr>, k: Key)
    ensures
        forall|p: &mut ConnectionPool| #[trigger]
            call_ensures(ConnectionPool::evict_idle, (p, span, now), r) && p@.contains_key(k) ==> (final(p)@.contains_key(k)
                <==> now.nanos - p@[k].info.last_recv.nanos <= span.nanos) && (!final(p)@.contains_key(k) ==> r@.contains(p@[k].addr)),
{
    assert forall|p: &mut ConnectionPool| #[trigger]
        call_ensures(ConnectionPool::evict_idle, (p, span, now), r) && p@.contains_key(k) implies (final(p)@.contains_key(k) <==> now.nanos
        - p@[k].info.last_recv.nanos <= span.nanos) && (!final(p)@.contains_key(k) ==> r@.contains(p@[k].addr)) by {
        assert(final(p)@ == kept(p@, Wanted::Idle(now, span)));
        assert(lists(p@, r@, Wanted::Idle(now, span)));
        law_eviction_spares_the_living(p@, k, now, span);
        law_eviction_adds_nothing(p@, Wanted::Idle(now, span), k);
    }
}

/// The lists that the pool gives out hold the addresses of the connections that they are about, and no
/// others.
pub proof fn law_what_the_pool_lists(
    p: ConnectionPool,
    now: Instant,
    all: Vec<SocketAddr>,
    established: Vec<SocketAddr>,
    silent: Vec<SocketAddr>,
    dead: Vec<SocketAddr>,
    k: Key,
)
    requires
        call_ensures(ConnectionPool::peer_addrs, (&p,), all),
        call_ensures(ConnectionPool::established_peers, (&p,), established),
        call_ensures(ConnectionPool::peers_needing_ping, (&p, now), silent),
        call_ensures(ConnectionPool::dead_peers, (&p, now), dead),
        p@.contains_key(k),
        p@[k].addr.spec_key() == k,
    ensures
        all@.contains(p@[k].addr),
        established@.contains(p@[k].addr) <==> p@[k].info.state == ConnectionState::Established,
        silent@.contains(p@[k].addr) <==> p@[k].info.ping_due(now),
        dead@.contains(p@[k].addr) <==> p@[k].info.dead(now),
{
    law_lists_of_addresses(p@, all@, Wanted::All, k);
    law_lists_of_addresses(p@, established@, Wanted::Established, k);
    law_lists_of_addresses(p@, silent@, Wanted::PingDue(now), k);
    law_lists_of_addresses(p@, dead@, Wanted::Dead(now), k);
}

/// What is told of the pool.
pub proof fn law_what_is_told_of_the_pool(
    p: ConnectionPool,
    s: PoolStats,
    n: usize,
    addr: SocketAddr,
    there: bool,
    found: Option<ConnectionInfo>,
)
    requires
        p.wf(),
        call_ensures(ConnectionPool::stats, (&p,), s),
        call_ensures(ConnectionPool::len, (&p,), n),
        call_ensures(ConnectionPool::contains, (&p, &addr), there),
        call_ensures(ConnectionPool::get, (&p, &addr), found),
    ensures
        n == p@.len() && s.max == p.capacity() && s.total_created == p.created() && s.total_removed == p.removed(),
        s.total_bytes_recv == sum_recv(p.listing()) && s.total_bytes_sent == sum_sent(p.listing()),
        there <==> p@.contains_key(addr.spec_key()),
        found is Some <==> there,
        found is Some ==> found->0 == p@[addr.spec_key()].info,
{
}

} // verus!
