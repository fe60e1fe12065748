//! Iterative lookups: asking ever closer peers for the peers closest to a target.
use vstd::prelude::*;
use crate::crypto::identity::{distance, distance_less, law_distance_injective, law_distance_symmetric, xor, PeerId};
use crate::dht::routing::{ALPHA, K};
use crate::net::SocketAddr;

verus! {

/// A peer as lookups name it.
#[derive(Debug, Clone, Copy)]
pub struct PeerEntry {
    pub peer_id: PeerId,
    pub addr: SocketAddr,
    pub distance: [u8; 32],
}

/// What a lookup for peers finds.
#[derive(Debug)]
pub struct FindNodeResult {
    /// The closest peers.
    pub closest: Vec<PeerEntry>,
    /// The rounds that the lookup took.
    pub hops: usize,
    /// How many peers were asked.
    pub queried_count: usize,
}

/// What storing a value comes to.
#[derive(Debug)]
pub struct StoreResult {
    /// Peers that have acknowledged it.
    pub stored_at: usize,
    /// Peers that were contacted.
    pub contacted: usize,
}

/// What a lookup for a value finds.
#[derive(Debug)]
pub enum FindValueResult {
    Found { value: Vec<u8>, from: PeerId },
    NotFound(FindNodeResult),
}

/// A peer that a lookup knows: its identifier and address.
pub type Known = (PeerId, SocketAddr);

/// How many peers a lookup keeps.
pub const MAX_KNOWN: usize = 60;

/// The peers of a list of entries.
pub open spec fn names(s: Seq<PeerEntry>) -> Seq<Known> {
    s.map_values(|e: PeerEntry| (e.peer_id, e.addr))
}

/// The distances are those from the target.
pub open spec fn measured(s: Seq<PeerEntry>, target: PeerId) -> bool {
    forall|i: int| 0 <= i < s.len() ==> (#[trigger] s[i]).distance@ == xor(s[i].peer_id@, target@)
}

/// The peers stand in the order of their distance from the target. (So none is there
/// twice.)
pub open spec fn nearest_first(s: Seq<Known>, target: PeerId) -> bool {
    forall|i: int, j: int| 0 <= i < j < s.len() ==> distance((#[trigger] s[i]).0, target) < distance((#[trigger] s[j]).0, target)
}

/// The peer is among them.
pub open spec fn has_peer(s: Seq<Known>, id: PeerId) -> bool {
    exists|i: int| 0 <= i < s.len() && (#[trigger] s[i]).0 == id
}

/// Where a peer at distance `d` belongs: behind all that are no farther.
pub open spec fn place(s: Seq<Known>, target: PeerId, d: nat) -> int
    decreases s.len(),
{
    if s.len() == 0 {
        0
    } else if distance(s.last().0, target) <= d {
        s.len() as int
    } else {
        place(s.drop_last(), target, d)
    }
}

/// The first peers, as many as a lookup keeps.
pub open spec fn kept(s: Seq<Known>) -> Seq<Known> {
    if s.len() > MAX_KNOWN {
        s.take(MAX_KNOWN as int)
    } else {
        s
    }
}

/// The peers that are known once another has been heard of.
pub open spec fn with_peer(s: Seq<Known>, target: PeerId, p: Known) -> Seq<Known> {
    if has_peer(s, p.0) {
        s
    } else {
        kept(s.insert(place(s, target, distance(p.0, target)), p))
    }
}

/// The peers that are known once others have been heard of, one after the other.
pub open spec fn with_peers(s: Seq<Known>, target: PeerId, ps: Seq<Known>) -> Seq<Known>
    decreases ps.len(),
{
    if ps.len() == 0 {
        s
    } else {
        with_peer(with_peers(s, target, ps.drop_last()), target, ps.last())
    }
}

/// The peers that have not been asked.
pub open spec fn unasked(s: Seq<Known>, asked: Seq<PeerId>) -> Seq<Known>
    decreases s.len(),
{
    if s.len() == 0 {
        s
    } else if asked.contains(s.last().0) {
        unasked(s.drop_last(), asked)
    } else {
        unasked(s.drop_last(), asked).push(s.last())
    }
}

/// The first three.
pub open spec fn first_alpha(s: Seq<Known>) -> Seq<Known> {
    if s.len() > ALPHA {
        s.take(ALPHA as int)
    } else {
        s
    }
}

/// The identifiers of peers.
pub open spec fn ids(s: Seq<Known>) -> Seq<PeerId> {
    s.map_values(|p: Known| p.0)
}

pub proof fn lemma_place(s: Seq<Known>, target: PeerId, d: nat)
    requires
        nearest_first(s, target),
    ensures
        0 <= place(s, target, d) <= s.len(),
        forall|i: int| 0 <= i < place(s, target, d) ==> distance((#[trigger] s[i]).0, target) <= d,
        forall|i: int| place(s, target, d) <= i < s.len() ==> distance((#[trigger] s[i]).0, target) > d,
    decreases s.len(),
{
    if s.len() > 0 {
        if distance(s.last().0, target) > d {
            let t = s.drop_last();
            assert forall|i: int, j: int| 0 <= i < j < t.len() implies distance((#[trigger] t[i]).0, target) < distance((#[trigger] t[j]).0, target) by {
                assert(s[i] == t[i] && s[j] == t[j]);
            }
            lemma_place(t, target, d);
            assert forall|i: int| 0 <= i < place(s, target, d) implies distance((#[trigger] s[i]).0, target) <= d by {
                assert(s[i] == t[i]);
            }
            assert forall|i: int| place(s, target, d) <= i < s.len() implies distance((#[trigger] s[i]).0, target) > d by {
                if i < t.len() {
                    assert(s[i] == t[i]);
                }
            }
        } else {
            assert forall|i: int| 0 <= i < s.len() implies distance((#[trigger] s[i]).0, target) <= d by {
                if i < s.len() - 1 {
                    assert(distance(s[i].0, target) < distance(s[s.len() - 1].0, target));
                }
            }
        }
    }
}

/// Hearing of a peer keeps the known peers in order and within the limit.
pub proof fn law_known_peers_stay_in_order(s: Seq<Known>, target: PeerId, p: Known)
    requires
        nearest_first(s, target),
        s.len() <= MAX_KNOWN,
    ensures
        nearest_first(with_peer(s, target, p), target),
        with_peer(s, target, p).len() <= MAX_KNOWN,
{
    if !has_peer(s, p.0) {
        let d = distance(p.0, target);
        let at = place(s, target, d);
        lemma_place(s, target, d);
        let t = s.insert(at, p);
        assert forall|i: int| 0 <= i < s.len() implies distance((#[trigger] s[i]).0, target) != d by {
            if distance(s[i].0, target) == d {
                law_distance_symmetric(s[i].0, target);
                law_distance_symmetric(p.0, target);
                law_distance_injective(target, s[i].0, p.0);
                assert(has_peer(s, p.0));
            }
        }
        assert forall|i: int, j: int| 0 <= i < j < t.len() implies distance((#[trigger] t[i]).0, target) < distance((#[trigger] t[j]).0, target) by {
            let a = if i < at { i } else { i - 1 };
            let b = if j < at { j } else { j - 1 };
            if i != at {
                assert(t[i] == s[a]);
            }
            if j != at {
                assert(t[j] == s[b]);
            }
            if i != at && j != at {
                assert(distance(s[a].0, target) < distance(s[b].0, target));
            }
        }
        let u = kept(t);
        assert forall|i: int, j: int| 0 <= i < j < u.len() implies distance((#[trigger] u[i]).0, target) < distance((#[trigger] u[j]).0, target) by {
            assert(u[i] == t[i] && u[j] == t[j]);
        }
    }
}

/// No peer that was heard of is forgotten for a farther one: one that is not kept is
/// farther away than all that are, and of those there are as many as can be kept.
pub proof fn law_closest_are_kept(s: Seq<Known>, target: PeerId, p: Known, x: Known)
    requires
        nearest_first(s, target),
        s.len() <= MAX_KNOWN,
        s.contains(x) || (x == p && !has_peer(s, p.0)),
        !with_peer(s, target, p).contains(x),
    ensures
        with_peer(s, target, p).len() == MAX_KNOWN,
        forall|i: int| 0 <= i < MAX_KNOWN ==> distance((#[trigger] with_peer(s, target, p)[i]).0, target) < distance(x.0, target),
{
    law_known_peers_stay_in_order(s, target, p);
    let d = distance(p.0, target);
    let at = place(s, target, d);
    lemma_place(s, target, d);
    let t = s.insert(at, p);
    let u = kept(t);
    if has_peer(s, p.0) {
        assert(false);
    }
    let j = if x == p { at } else {
        let k = choose|k: int| 0 <= k < s.len() && s[k] == x;
        if k < at { k } else { k + 1 }
    };
    assert(t[j] == x);
    if j < u.len() {
        assert(u[j] == x);
        assert(u.contains(x));
    }
    assert(t.len() == MAX_KNOWN + 1 && j == MAX_KNOWN);
    assert forall|i: int| 0 <= i < MAX_KNOWN implies distance((#[trigger] u[i]).0, target) < distance(x.0, target) by {
        assert(u[i] == t[i]);
        // the last of `t` is farther than those before it
        if at == MAX_KNOWN {
            assert(x == p);
            assert(t[i] == s[i]);
            if distance(s[i].0, target) == d {
                law_distance_symmetric(s[i].0, target);
                law_distance_symmetric(p.0, target);
                law_distance_injective(target, s[i].0, p.0);
                assert(has_peer(s, p.0));
            }
        } else {
            assert(x == s[MAX_KNOWN - 1]);
            if i < at {
                assert(t[i] == s[i]);
                if i < MAX_KNOWN - 1 {
                    assert(distance(s[i].0, target) < distance(s[MAX_KNOWN - 1].0, target));
                }
            } else if i == at {
                assert(t[i] == p);
                assert(distance(s[MAX_KNOWN - 1].0, target) > d);
            } else {
                assert(t[i] == s[i - 1]);
                assert(distance(s[i - 1].0, target) < distance(s[MAX_KNOWN - 1].0, target));
            }
        }
    }
}

/// A lookup.
pub struct IterativeLookup {
    target: PeerId,
    known_peers: Vec<PeerEntry>,
    queried: Vec<PeerId>,
    round: usize,
    converged: bool,
}

impl IterativeLookup {
    /// What the lookup is for.
    pub closed spec fn goal(self) -> PeerId {
        self.target
    }

    /// The peers that the lookup knows, the closest first.
    pub closed spec fn known(self) -> Seq<Known> {
        names(self.known_peers@)
    }

    /// The peers that were asked, in that order.
    pub closed spec fn asked(self) -> Seq<PeerId> {
        self.queried@
    }

    pub closed spec fn rounds(self) -> usize {
        self.round
    }

    pub closed spec fn done(self) -> bool {
        self.converged
    }

    /// The known peers are in order, and no peer was asked twice.
    pub closed spec fn wf(self) -> bool {
        &&& measured(self.known_peers@, self.target)
        &&& nearest_first(names(self.known_peers@), self.target)
        &&& self.known_peers@.len() <= MAX_KNOWN
        &&& self.queried@.no_duplicates()
    }

    /// What the invariant says.
    pub proof fn lemma_wf(self)
        requires
            self.wf(),
        ensures
            nearest_first(self.known(), self.goal()),
            self.known().len() <= MAX_KNOWN,
            self.asked().no_duplicates(),
    {
    }

    /// A lookup that starts from the given peers.
    pub fn new(target: PeerId, seed_peers: Vec<PeerEntry>) -> (r: Self)
        ensures
            r.wf(),
            r.goal() == target,
            r.known() == with_peers(Seq::empty(), target, names(seed_peers@)),
            r.asked() == Seq::<PeerId>::empty(),
            r.rounds() == 0,
            !r.done(),
    {
        let mut lookup = IterativeLookup {
            target,
            known_peers: Vec::new(),
            queried: Vec::new(),
            round: 0,
            converged: false,
        };
        assert(lookup.known() =~= Seq::empty());
        assert(lookup.asked() =~= Seq::<PeerId>::empty());
        lookup.process_responses(seed_peers);
        lookup
    }

    /// Hears of a peer.
    pub fn add_peer(&mut self, peer: PeerEntry)
        requires
            old(self).wf(),
        ensures
            final(self).wf(),
            final(self).known() == with_peer(old(self).known(), old(self).goal(), (peer.peer_id, peer.addr)),
            final(self).goal() == old(self).goal(),
            final(self).asked() == old(self).asked(),
            final(self).rounds() == old(self).rounds(),
            final(self).done() == old(self).done(),
    {
        let ghost s = self.known();
        let ghost p: Known = (peer.peer_id, peer.addr);
        let target = self.target;
        let mut i: usize = 0;
        while i < self.known_peers.len()
            invariant
                i <= self.known_peers@.len(),
                *self == *old(self),
                self.wf(),
                s == names(self.known_peers@),
                forall|j: int| 0 <= j < i ==> (#[trigger] s[j]).0 != peer.peer_id,
            decreases self.known_peers@.len() - i,
        {
            assert(s[i as int].0 == self.known_peers@[i as int].peer_id);
            if self.known_peers[i].peer_id.same(&peer.peer_id) {
                assert(has_peer(s, peer.peer_id));
                return;
            }
            i += 1;
        }
        assert(!has_peer(s, p.0));
        let d = peer.peer_id.xor_distance(&target);
        let entry = PeerEntry { peer_id: peer.peer_id, addr: peer.addr, distance: d };
        proof {
            lemma_place(s, target, distance(p.0, target));
            law_known_peers_stay_in_order(s, target, p);
        }
        let mut at: usize = self.known_peers.len();
        assert(s.take(at as int) =~= s);
        while at > 0 && distance_less(&d, &self.known_peers[at - 1].distance)
            invariant
                at <= self.known_peers@.len(),
                *self == *old(self),
                self.wf(),
                s == names(self.known_peers@),
                target == self.target,
                crate::wire::be_val(d@) == distance(peer.peer_id, target),
                place(s, target, distance(peer.peer_id, target)) == place(s.take(at as int), target, distance(peer.peer_id, target)),
            ensures
                at <= self.known_peers@.len(),
                at as int == place(s, target, distance(peer.peer_id, target)),
                *self == *old(self),
            decreases at,
        {
            proof {
                assert(s.take(at as int).last() == s[at - 1]);
                assert(s.take(at as int).drop_last() =~= s.take(at - 1));
            }
            at -= 1;
        }
        self.known_peers.insert(at, entry);
        assert(names(self.known_peers@) =~= s.insert(at as int, p));
        if self.known_peers.len() > MAX_KNOWN {
            self.known_peers.truncate(MAX_KNOWN);
            assert(names(self.known_peers@) =~= s.insert(at as int, p).take(MAX_KNOWN as int));
        }
        proof {
            let k = self.known_peers@;
            assert forall|i: int| 0 <= i < k.len() implies (#[trigger] k[i]).distance@ == xor(k[i].peer_id@, target@) by {
                if i < at {
                    assert(k[i] == old(self).known_peers@[i]);
                } else if i > at {
                    assert(k[i] == old(self).known_peers@[i - 1]);
                }
            }
        }
    }

    /// The next peers to ask: the closest three that were not asked yet. Without any, the
    /// lookup is complete.
    pub fn next_to_query(&mut self) -> (r: Vec<PeerEntry>)
        requires
            old(self).wf(),
            old(self).rounds() < usize::MAX,
        ensures
            final(self).wf(),
            names(r@) == first_alpha(unasked(old(self).known(), old(self).asked())),
            measured(r@, old(self).goal()),
            final(self).asked() == old(self).asked() + ids(names(r@)),
            final(self).done() == (old(self).done() || r@.len() == 0),
            final(self).rounds() == old(self).rounds() + 1,
            final(self).known() == old(self).known(),
            final(self).goal() == old(self).goal(),
    {
        let ghost s = self.known();
        let ghost asked = self.asked();
        let mut out: Vec<PeerEntry> = Vec::new();
        let mut i: usize = 0;
        assert(s.take(0) =~= Seq::empty());
        assert(names(out@) =~= Seq::empty());
        while i < self.known_peers.len() && out.len() < ALPHA
            invariant
                i <= self.known_peers@.len(),
                *self == *old(self),
                self.wf(),
                s == names(self.known_peers@),
                asked == self.queried@,
                out@.len() <= ALPHA,
                measured(out@, self.target),
                names(out@) == unasked(s.take(i as int), asked),
            ensures
                i == self.known_peers@.len() || out@.len() == ALPHA,
                i <= self.known_peers@.len(),
                out@.len() <= ALPHA,
                measured(out@, self.target),
                names(out@) == unasked(s.take(i as int), asked),
            decreases self.known_peers@.len() - i,
        {
            let e = self.known_peers[i];
            let ghost was = out@;
            assert(s.take(i + 1).drop_last() =~= s.take(i as int));
            assert(s.take(i + 1).last() == (e.peer_id, e.addr));
            if !contains_id(&self.queried, &e.peer_id) {
                out.push(e);
                assert(names(out@) =~= names(was).push((e.peer_id, e.addr)));
            }
            i += 1;
        }
        proof {
            lemma_unasked_prefix(s, asked, i as int);
            assert(s.take(s.len() as int) =~= s);
            lemma_unasked_facts(s, asked, self.target);
            if out@.len() < ALPHA {
                assert(names(out@) == unasked(s, asked));
            } else {
                assert(names(out@) =~= unasked(s, asked).take(ALPHA as int));
            }
        }
        if out.len() == 0 {
            self.converged = true;
        }
        let ghost u = unasked(s, asked);
        let mut j: usize = 0;
        assert(ids(names(out@)).take(0) =~= Seq::empty());
        assert(self.queried@ =~= asked + ids(names(out@)).take(0));
        while j < out.len()
            invariant
                j <= out@.len(),
                self.known_peers == old(self).known_peers,
                self.target == old(self).target,
                self.round == old(self).round,
                self.converged == (old(self).converged || out@.len() == 0),
                self.queried@ == asked + ids(names(out@)).take(j as int),
            decreases out@.len() - j,
        {
            self.queried.push(out[j].peer_id);
            j += 1;
            assert(ids(names(out@)).take(j as int) =~= ids(names(out@)).take(j - 1).push(out@[j - 1].peer_id));
            assert(self.queried@ =~= asked + ids(names(out@)).take(j as int));
        }
        assert(ids(names(out@)).take(j as int) =~= ids(names(out@)));
        proof {
            let q = self.queried@;
            let n = names(out@);
            assert forall|a: int, b: int| 0 <= a < b < q.len() implies q[a] != q[b] by {
                if b >= asked.len() {
                    assert(n[b - asked.len()] == u[b - asked.len()]);
                    assert(q[b] == u[b - asked.len()].0);
                    if a < asked.len() {
                        assert(q[a] == asked[a]);
                        assert(asked.contains(asked[a]));
                    } else {
                        assert(n[a - asked.len()] == u[a - asked.len()]);
                        assert(q[a] == u[a - asked.len()].0);
                        assert(distance(u[a - asked.len()].0, self.target) < distance(u[b - asked.len()].0, self.target));
                    }
                }
            }
        }
        self.round = self.round + 1;
        out
    }

    /// Hears of the peers that others have named.
    pub fn process_responses(&mut self, new_peers: Vec<PeerEntry>)
        requires
            old(self).wf(),
        ensures
            final(self).wf(),
            final(self).known() == with_peers(old(self).known(), old(self).goal(), names(new_peers@)),
            final(self).goal() == old(self).goal(),
            final(self).asked() == old(self).asked(),
            final(self).rounds() == old(self).rounds(),
            final(self).done() == old(self).done(),
    {
        let ghost n = names(new_peers@);
        let mut i: usize = 0;
        assert(n.take(0) =~= Seq::empty());
        while i < new_peers.len()
            invariant
                i <= new_peers@.len(),
                n == names(new_peers@),
                self.wf(),
                self.known() == with_peers(old(self).known(), old(self).goal(), n.take(i as int)),
                self.goal() == old(self).goal(),
                self.asked() == old(self).asked(),
                self.rounds() == old(self).rounds(),
                self.done() == old(self).done(),
            decreases new_peers@.len() - i,
        {
            self.add_peer(new_peers[i]);
            i += 1;
            assert(n.take(i as int).drop_last() =~= n.take(i - 1));
            assert(n.take(i as int).last() == n[i - 1]);
        }
        assert(n.take(i as int) =~= n);
    }

    /// Whether there is nobody left to ask.
    pub fn is_complete(&self) -> (r: bool)
        ensures
            r == self.done(),
    {
        self.converged
    }

    /// The result holds the closest of the known peers, with their distances, and tells how
    /// many rounds there were and how many peers were asked.
    pub open spec fn reports(self, r: FindNodeResult) -> bool {
        &&& names(r.closest@) == self.known().take(if self.known().len() < K { self.known().len() as int } else { K as int })
        &&& measured(r.closest@, self.goal())
        &&& r.hops == self.rounds()
        &&& r.queried_count == self.asked().len()
    }

    /// What the lookup has found: the closest peers.
    pub fn result(&self) -> (r: FindNodeResult)
        requires
            self.wf(),
        ensures
            self.reports(r),
    {
        let mut closest: Vec<PeerEntry> = Vec::new();
        let mut i: usize = 0;
        while i < self.known_peers.len() && i < K
            invariant
                i <= self.known_peers@.len(),
                i <= K,
                closest@ == self.known_peers@.take(i as int),
            ensures
                i <= self.known_peers@.len(),
                i <= K,
                i == self.known_peers@.len() || i == K,
                closest@ == self.known_peers@.take(i as int),
            decreases self.known_peers@.len() - i,
        {
            closest.push(self.known_peers[i]);
            i += 1;
            assert(closest@ =~= self.known_peers@.take(i as int));
        }
        assert(names(closest@) =~= self.known().take(i as int));
        FindNodeResult { closest, hops: self.round, queried_count: self.queried.len() }
    }

    pub fn round(&self) -> (r: usize)
        ensures
            r == self.rounds(),
    {
        self.round
    }
}

fn contains_id(s: &Vec<PeerId>, id: &PeerId) -> (r: bool)
    ensures
        r == s@.contains(*id),
{
    let mut i: usize = 0;
    while i < s.len()
        invariant
            i <= s@.len(),
            forall|j: int| 0 <= j < i ==> s@[j] != *id,
        decreases s@.len() - i,
    {
        if s[i].same(id) {
            assert(s@[i as int] == *id);
            return true;
        }
        i += 1;
    }
    false
}

proof fn lemma_unasked_prefix(s: Seq<Known>, asked: Seq<PeerId>, n: int)
    requires
        0 <= n <= s.len(),
    ensures
        unasked(s.take(n), asked).len() <= unasked(s, asked).len(),
        unasked(s, asked).take(unasked(s.take(n), asked).len() as int) == unasked(s.take(n), asked),
    decreases s.len() - n,
{
    let a = unasked(s.take(n), asked);
    if n == s.len() {
        assert(s.take(n) =~= s);
        assert(a.take(a.len() as int) =~= a);
    } else {
        lemma_unasked_prefix(s, asked, n + 1);
        let b = unasked(s.take(n + 1), asked);
        let c = unasked(s, asked);
        assert(s.take(n + 1).drop_last() =~= s.take(n));
        assert(b.take(a.len() as int) =~= a);
        assert(c.take(a.len() as int) =~= c.take(b.len() as int).take(a.len() as int));
    }
}

pub proof fn lemma_unasked_facts(s: Seq<Known>, asked: Seq<PeerId>, target: PeerId)
    requires
        nearest_first(s, target),
    ensures
        forall|i: int| 0 <= i < unasked(s, asked).len() ==> !asked.contains((#[trigger] unasked(s, asked)[i]).0),
        forall|i: int| 0 <= i < unasked(s, asked).len() ==> s.contains(#[trigger] unasked(s, asked)[i]),
        forall|p: Known| s.contains(p) && !asked.contains(p.0) ==> #[trigger] unasked(s, asked).contains(p),
        nearest_first(unasked(s, asked), target),
    decreases s.len(),
{
    if s.len() > 0 {
        let d = s.drop_last();
        assert forall|i: int, j: int| 0 <= i < j < d.len() implies distance((#[trigger] d[i]).0, target) < distance((#[trigger] d[j]).0, target) by {
            assert(s[i] == d[i] && s[j] == d[j]);
        }
        lemma_unasked_facts(d, asked, target);
        let u = unasked(d, asked);
        let v = unasked(s, asked);
        assert forall|i: int| 0 <= i < v.len() implies s.contains(#[trigger] v[i]) by {
            if i < u.len() {
                assert(v[i] == u[i]);
                assert(d.contains(u[i]));
                let k = choose|k: int| 0 <= k < d.len() && d[k] == u[i];
                assert(s[k] == v[i]);
            } else {
                assert(s[s.len() - 1] == v[i]);
            }
        }
        assert forall|p: Known| s.contains(p) && !asked.contains(p.0) implies #[trigger] v.contains(p) by {
            if p == s.last() {
                assert(v[v.len() - 1] == p);
            } else {
                let k = choose|k: int| 0 <= k < s.len() && s[k] == p;
                assert(d[k] == p);
                assert(u.contains(p));
                let l = choose|l: int| 0 <= l < u.len() && u[l] == p;
                assert(v[l] == p);
            }
        }
        assert forall|i: int, j: int| 0 <= i < j < v.len() implies distance((#[trigger] v[i]).0, target) < distance((#[trigger] v[j]).0, target) by {
            assert(v[i] == u[i]);
            if j < u.len() {
                assert(v[j] == u[j]);
            } else {
                assert(d.contains(u[i]));
                let k = choose|k: int| 0 <= k < d.len() && d[k] == u[i];
                assert(distance(s[k].0, target) < distance(s[s.len() - 1].0, target));
            }
        }
    }
}

/// Nobody is asked twice: whoever is to be asked next has not been asked before.
pub proof fn law_nobody_is_asked_twice(s: Seq<Known>, asked: Seq<PeerId>, target: PeerId, i: int)
    requires
        nearest_first(s, target),
        0 <= i < first_alpha(unasked(s, asked)).len(),
    ensures
        !asked.contains(first_alpha(unasked(s, asked))[i].0),
        s.contains(first_alpha(unasked(s, asked))[i]),
        first_alpha(unasked(s, asked)).len() <= ALPHA,
{
    lemma_unasked_facts(s, asked, target);
    assert(first_alpha(unasked(s, asked))[i] == unasked(s, asked)[i]);
}

/// When there is nobody left to ask, every known peer was asked.
pub proof fn law_complete_means_all_asked(s: Seq<Known>, asked: Seq<PeerId>, p: Known)
    requires
        first_alpha(unasked(s, asked)).len() == 0,
        s.contains(p),
    ensures
        asked.contains(p.0),
    decreases s.len(),
{
    let d = s.drop_last();
    if p != s.last() {
        let k = choose|k: int| 0 <= k < s.len() && s[k] == p;
        assert(d[k] == p);
        law_complete_means_all_asked(d, asked, p);
    }
}

/// The numbers of a lookup: three peers are asked at a time, sixty are kept, twenty are found.
pub proof fn law_numbers_of_a_lookup()
    ensures
        ALPHA == 3,
        K == 20,
        MAX_KNOWN == 60,
{
}

/// A peer that is known stays as it was first heard of. One that is not known comes in, and nobody
/// else does; nobody goes while there is room.
pub proof fn law_peers_come_in_once(s: Seq<Known>, target: PeerId, p: Known, x: Known)
    requires
        nearest_first(s, target),
        s.len() <= 60,
    ensures
        s.contains(x) && x.0 == p.0 ==> with_peer(s, target, p) == s,
        with_peer(s, target, p).contains(x) ==> s.contains(x) || x == p,
        s.len() < 60 && s.contains(x) ==> with_peer(s, target, p).contains(x),
        s.len() < 60 && (forall|i: int| 0 <= i < s.len() ==> (#[trigger] s[i]).0 != p.0) ==> with_peer(s, target, p).contains(p)
            && with_peer(s, target, p).len() == s.len() + 1,
{
    let t = with_peer(s, target, p);
    if s.contains(x) && x.0 == p.0 {
        let i = choose|i: int| 0 <= i < s.len() && s[i] == x;
        assert(s[i].0 == p.0);
        assert(has_peer(s, p.0));
    }
    if !has_peer(s, p.0) {
        let at = place(s, target, distance(p.0, target));
        lemma_place(s, target, distance(p.0, target));
        let all = s.insert(at, p);
        if t.contains(x) {
            let i = choose|i: int| 0 <= i < t.len() && t[i] == x;
            assert(all[i] == x);
            if i < at {
                assert(s[i] == x);
            } else if i > at {
                assert(s[i - 1] == x);
            }
        }
        if s.len() < 60 {
            assert(t == all);
            assert(t[at] == p);
            if s.contains(x) {
                let i = choose|i: int| 0 <= i < s.len() && s[i] == x;
                assert(t[if i < at { i } else { i + 1 }] == x);
            }
        }
    }
}

/// At most three peers are to be asked at a time, the first of those who were not; and what a lookup
/// finds are the first twenty it knows, or all if they are fewer.
pub proof fn law_first_come_first(s: Seq<Known>, l: IterativeLookup, r: FindNodeResult, i: int)
    requires
        l.reports(r),
    ensures
        s.len() <= 3 ==> first_alpha(s) == s,
        s.len() > 3 ==> first_alpha(s).len() == 3,
        0 <= i < first_alpha(s).len() ==> first_alpha(s)[i] == s[i],
        l.known().len() >= 20 ==> r.closest@.len() == 20,
        l.known().len() < 20 ==> r.closest@.len() == l.known().len(),
        0 <= i < r.closest@.len() ==> r.closest@[i].peer_id == l.known()[i].0 && r.closest@[i].addr == l.known()[i].1,
        r.hops == l.rounds() && r.queried_count == l.asked().len(),
{
    assert(names(r.closest@).len() == r.closest@.len());
    if 0 <= i < r.closest@.len() {
        assert(names(r.closest@)[i] == l.known()[i]);
    }
}

/// A lookup asks at most three peers at a time, nobody twice, the nearest that it knows first, and is
/// complete when there is nobody left to ask.
pub proof fn law_what_a_lookup_asks(r: Vec<PeerEntry>, i: int)
    ensures
        forall|l: &mut IterativeLookup| #[trigger]
            call_ensures(IterativeLookup::next_to_query, (l,), r) && l.wf() ==> r@.len() <= 3 && final(l).known() == l.known()
                && final(l).rounds() == l.rounds() + 1 && (r@.len() == 0 ==> final(l).done()) && (0 <= i < r@.len() ==> !l.asked().contains(
                r@[i].peer_id,
            ) && l.known().contains((r@[i].peer_id, r@[i].addr))) && (0 < i < r@.len() ==> distance(r@[i - 1].peer_id, l.goal())
                < distance(r@[i].peer_id, l.goal())),
{
    assert forall|l: &mut IterativeLookup| #[trigger]
        call_ensures(IterativeLookup::next_to_query, (l,), r) && l.wf() implies r@.len() <= 3 && (0 <= i < r@.len() ==> !l.asked().contains(
        r@[i].peer_id,
    ) && l.known().contains((r@[i].peer_id, r@[i].addr))) && (0 < i < r@.len() ==> distance(r@[i - 1].peer_id, l.goal()) < distance(
        r@[i].peer_id,
        l.goal(),
    )) by {
        l.lemma_wf();
        let all = unasked(l.known(), l.asked());
        lemma_unasked_facts(l.known(), l.asked(), l.goal());
        assert(names(r@).len() == r@.len());
        if 0 <= i < r@.len() {
            assert(names(r@)[i] == all[i]);
            assert(names(r@)[i] == (r@[i].peer_id, r@[i].addr));
        }
        if 0 < i < r@.len() {
            assert(names(r@)[i - 1] == all[i - 1]);
            assert(names(r@)[i - 1] == (r@[i - 1].peer_id, r@[i - 1].addr));
        }
    }
}

/// What a lookup hears of comes in at its place; what it finds are the nearest that it knows.
pub proof fn law_what_a_lookup_hears_and_finds(
    target: PeerId,
    seeds: Vec<PeerEntry>,
    l: IterativeLookup,
    r: FindNodeResult,
    peer: PeerEntry,
    more: Vec<PeerEntry>,
    done: bool,
)
    requires
        call_ensures(IterativeLookup::new, (target, seeds), l),
        call_ensures(IterativeLookup::result, (&l,), r),
        call_ensures(IterativeLookup::is_complete, (&l,), done),
    ensures
        l.goal() == target && l.known() == with_peers(Seq::empty(), target, names(seeds@)) && l.asked().len() == 0 && !done,
        r.closest@.len() == (if l.known().len() < 20 { l.known().len() as int } else { 20 }),
        r.hops == 0 && r.queried_count == 0,
        forall|x: &mut IterativeLookup| #[trigger]
            call_ensures(IterativeLookup::add_peer, (x, peer), ()) ==> final(x).known() == with_peer(
                x.known(),
                x.goal(),
                (peer.peer_id, peer.addr),
            ) && final(x).asked() == x.asked() && final(x).goal() == x.goal(),
        forall|x: &mut IterativeLookup| #[trigger]
            call_ensures(IterativeLookup::process_responses, (x, more), ()) ==> final(x).known() == with_peers(
                x.known(),
                x.goal(),
                names(more@),
            ) && final(x).asked() == x.asked() && final(x).goal() == x.goal() && final(x).done() == x.done(),
{
    assert(names(r.closest@).len() == r.closest@.len());
}

} // verus!
