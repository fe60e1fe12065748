//! The routing table: 256 buckets of at most 20 peers, by their distance from ourselves.
use vstd::prelude::*;
use vstd::string::*;
use crate::crypto::identity::{
    bucket_of, distance, distance_less, law_bucket_tells_the_first_difference, law_distance_injective, law_distance_symmetric,
    law_distance_zero, PeerId,
};
use crate::dht::peer_info::{PeerInfo, PeerState};
use crate::dht::DhtError;
use crate::net::SocketAddr;
use crate::text::{dec, push_dec};
use crate::time::{Duration, Instant};

verus! {

/// How many peers a bucket holds.
pub const K: usize = 20;

/// How many buckets there are: one for each bit of an identifier.
pub const NUM_BUCKETS: usize = 256;

/// How many peers a lookup asks at a time.
pub const ALPHA: usize = 3;

/// How a peer got into a bucket.
#[derive(Debug, Clone, Copy, PartialEq, Eq, Structural)]
pub enum InsertOutcome {
    /// There was room.
    NewPeer,
    /// The peer was there already.
    Updated,
    /// Another peer made way.
    Evicted,
}

/// The peer at `i` is `id`.
pub open spec fn stands_at(s: Seq<PeerInfo>, id: PeerId, i: int) -> bool {
    0 <= i < s.len() && s[i].peer_id == id
}

/// There is a peer `id`.
pub open spec fn listed(s: Seq<PeerInfo>, id: PeerId) -> bool {
    exists|i: int| stands_at(s, id, i)
}

/// No two peers have the same identifier.
pub open spec fn distinct(s: Seq<PeerInfo>) -> bool {
    forall|i: int, j: int| 0 <= i < j < s.len() ==> (#[trigger] s[i]).peer_id != (#[trigger] s[j]).peer_id
}

/// The peers are in the order in which they were last heard from, the most recent at the
/// end.
pub open spec fn by_last_seen(s: Seq<PeerInfo>) -> bool {
    forall|i: int, j: int| 0 <= i < j < s.len() ==> (#[trigger] s[i]).last_seen.nanos <= (#[trigger] s[j]).last_seen.nanos
}

/// No peer was heard from later than at the time `clock`.
pub open spec fn seen_by(s: Seq<PeerInfo>, clock: Instant) -> bool {
    forall|i: int| 0 <= i < s.len() ==> (#[trigger] s[i]).last_seen.nanos <= clock.nanos
}

/// A peer that can be evicted.
pub open spec fn evictable(p: PeerInfo) -> bool {
    p.state is Dead || p.state is Suspect
}

/// The peer that is evicted: of the evictable ones, the first with the lowest rank.
pub open spec fn is_victim(s: Seq<PeerInfo>, i: int) -> bool {
    &&& 0 <= i < s.len()
    &&& evictable(s[i])
    &&& forall|j: int| 0 <= j < s.len() && evictable(#[trigger] s[j]) ==> s[i].score.rank <= s[j].score.rank
    &&& forall|j: int| 0 <= j < i && evictable(#[trigger] s[j]) ==> s[i].score.rank < s[j].score.rank
}

/// What inserting a peer makes of a bucket. A peer that is there already gets the new
/// address and moves to the end; another is added at the end if there is room, or in the
/// place of one that is evicted.
pub open spec fn bucket_insert(s: Seq<PeerInfo>, p: PeerInfo, t: Seq<PeerInfo>, r: Result<InsertOutcome, ()>) -> bool {
    if listed(s, p.peer_id) {
        &&& r == Ok::<InsertOutcome, ()>(InsertOutcome::Updated)
        &&& exists|i: int| #[trigger]
            stands_at(s, p.peer_id, i) && t == s.remove(i).push(
                PeerInfo { addr: p.addr, last_seen: p.last_seen, ..s[i] },
            )
    } else if s.len() < K {
        &&& r == Ok::<InsertOutcome, ()>(InsertOutcome::NewPeer)
        &&& t == s.push(p)
    } else if exists|i: int| is_victim(s, i) {
        &&& r == Ok::<InsertOutcome, ()>(InsertOutcome::Evicted)
        &&& exists|i: int| #[trigger] is_victim(s, i) && t == s.remove(i).push(p)
    } else {
        &&& r == Err::<InsertOutcome, ()>(())
        &&& t == s
        &&& forall|i: int| 0 <= i < s.len() ==> !evictable(#[trigger] s[i])
    }
}

/// What is told of an insertion: whether the peer is new, or which bucket is full.
pub open spec fn insert_result(o: Result<InsertOutcome, ()>, bucket: usize) -> Result<bool, DhtError> {
    match o {
        Ok(InsertOutcome::Updated) => Ok(false),
        Ok(_) => Ok(true),
        Err(_) => Err(DhtError::BucketFull { bucket }),
    }
}

/// The peers that are not dead.
pub open spec fn without_dead(s: Seq<PeerInfo>) -> Seq<PeerInfo>
    decreases s.len(),
{
    if s.len() == 0 {
        s
    } else if s.last().state is Dead {
        without_dead(s.drop_last())
    } else {
        without_dead(s.drop_last()).push(s.last())
    }
}

/// The peers that can be used.
pub open spec fn only_usable(s: Seq<PeerInfo>) -> Seq<PeerInfo>
    decreases s.len(),
{
    if s.len() == 0 {
        s
    } else if s.last().usable() {
        only_usable(s.drop_last()).push(s.last())
    } else {
        only_usable(s.drop_last())
    }
}

/// The peers of one rank.
pub open spec fn of_rank(s: Seq<PeerInfo>, rank: i64) -> Seq<PeerInfo>
    decreases s.len(),
{
    if s.len() == 0 {
        s
    } else if s.last().score.rank == rank {
        of_rank(s.drop_last(), rank).push(s.last())
    } else {
        of_rank(s.drop_last(), rank)
    }
}

/// The peers by falling rank; those of one rank stay in their order.
pub open spec fn best_first(s: Seq<PeerInfo>, r: Seq<PeerInfo>) -> bool {
    &&& forall|i: int, j: int| 0 <= i < j < r.len() ==> (#[trigger] r[i]).score.rank >= (#[trigger] r[j]).score.rank
    &&& forall|rank: i64| #[trigger] of_rank(r, rank) == of_rank(s, rank)
}

proof fn lemma_of_rank_append(a: Seq<PeerInfo>, b: Seq<PeerInfo>, rank: i64)
    ensures
        of_rank(a + b, rank) == of_rank(a, rank) + of_rank(b, rank),
    decreases b.len(),
{
    if b.len() == 0 {
        assert(a + b =~= a);
        assert(of_rank(a, rank) + of_rank(b, rank) =~= of_rank(a, rank));
    } else {
        lemma_of_rank_append(a, b.drop_last(), rank);
        assert((a + b).drop_last() =~= a + b.drop_last());
        assert(of_rank(a + b, rank) =~= of_rank(a, rank) + of_rank(b, rank));
    }
}

proof fn lemma_of_rank_none(s: Seq<PeerInfo>, rank: i64)
    requires
        forall|i: int| 0 <= i < s.len() ==> (#[trigger] s[i]).score.rank != rank,
    ensures
        of_rank(s, rank).len() == 0,
    decreases s.len(),
{
    if s.len() > 0 {
        assert(s[s.len() - 1].score.rank != rank);
        assert forall|i: int| 0 <= i < s.drop_last().len() implies (#[trigger] s.drop_last()[i]).score.rank != rank by {
            assert(s[i].score.rank != rank);
        }
        lemma_of_rank_none(s.drop_last(), rank);
    }
}

proof fn lemma_best_first_step(s: Seq<PeerInfo>, r: Seq<PeerInfo>, p: PeerInfo, at: int)
    requires
        best_first(s, r),
        0 <= at <= r.len(),
        forall|k: int| 0 <= k < at ==> (#[trigger] r[k]).score.rank >= p.score.rank,
        at < r.len() ==> r[at].score.rank < p.score.rank,
    ensures
        best_first(s.push(p), r.insert(at, p)),
{
    let t = r.insert(at, p);
    let head = r.take(at);
    let tail = r.skip(at);
    assert forall|k: int| 0 <= k < tail.len() implies (#[trigger] tail[k]).score.rank < p.score.rank by {
        assert(tail[k] == r[at + k]);
        assert(k > 0 ==> r[at].score.rank >= r[at + k].score.rank);
    }
    assert forall|i: int, j: int| 0 <= i < j < t.len() implies (#[trigger] t[i]).score.rank >= (#[trigger] t[j]).score.rank by {
        let a = if i > at { i - 1 } else { i };
        let b = if j > at { j - 1 } else { j };
        if i != at && j != at {
            assert(r[a].score.rank >= r[b].score.rank);
        } else if i == at {
            assert(tail[b - at] == t[j]);
        } else {
            assert(r[i].score.rank >= p.score.rank);
        }
    }
    assert forall|rank: i64| #[trigger] of_rank(t, rank) == of_rank(s.push(p), rank) by {
        assert(r =~= head + tail);
        assert(t =~= head.push(p) + tail);
        lemma_of_rank_append(head, tail, rank);
        lemma_of_rank_append(head.push(p), tail, rank);
        assert(head.push(p).drop_last() =~= head);
        assert(s.push(p).drop_last() =~= s);
        assert(of_rank(r, rank) == of_rank(s, rank));
        if rank == p.score.rank {
            lemma_of_rank_none(tail, rank);
            assert(of_rank(t, rank) =~= of_rank(s.push(p), rank));
        }
    }
}

/// How many peers are in a state.
pub open spec fn in_state(s: Seq<PeerInfo>, state: PeerState) -> nat
    decreases s.len(),
{
    if s.len() == 0 {
        0
    } else {
        in_state(s.drop_last(), state) + (if s.last().state == state { 1nat } else { 0nat })
    }
}

proof fn lemma_without_dead(s: Seq<PeerInfo>)
    ensures
        without_dead(s).len() <= s.len(),
        forall|p: PeerInfo| #[trigger] without_dead(s).contains(p) <==> s.contains(p) && !(p.state is Dead),
        distinct(s) ==> distinct(without_dead(s)),
        by_last_seen(s) ==> by_last_seen(without_dead(s)),
    decreases s.len(),
{
    if s.len() > 0 {
        let d = s.drop_last();
        let w = without_dead(d);
        lemma_without_dead(d);
        if by_last_seen(s) {
            assert forall|i: int, j: int| 0 <= i < j < d.len() implies (#[trigger] d[i]).last_seen.nanos <= (#[trigger] d[j]).last_seen.nanos by {
                assert(s[i].last_seen.nanos <= s[j].last_seen.nanos);
            }
        }
        assert(s =~= d.push(s.last()));
        assert forall|p: PeerInfo| s.contains(p) <==> d.contains(p) || p == s.last() by {
            if d.contains(p) {
                let i = choose|i: int| 0 <= i < d.len() && d[i] == p;
                assert(s[i] == p);
            }
            assert(s[s.len() - 1] == s.last());
            if s.contains(p) && p != s.last() {
                let i = choose|i: int| 0 <= i < s.len() && s[i] == p;
                assert(d[i] == p);
            }
        }
        if !(s.last().state is Dead) {
            let t = w.push(s.last());
            assert forall|p: PeerInfo| #[trigger] t.contains(p) <==> w.contains(p) || p == s.last() by {
                if w.contains(p) {
                    let i = choose|i: int| 0 <= i < w.len() && w[i] == p;
                    assert(t[i] == p);
                }
                assert(t[t.len() - 1] == s.last());
                if t.contains(p) && p != s.last() {
                    let i = choose|i: int| 0 <= i < t.len() && t[i] == p;
                    assert(w[i] == p);
                }
            }
            if by_last_seen(s) {
                assert forall|i: int, j: int| 0 <= i < j < t.len() implies (#[trigger] t[i]).last_seen.nanos <= (#[trigger] t[j]).last_seen.nanos by {
                    if j == w.len() {
                        assert(w.contains(w[i]));
                        let k = choose|k: int| 0 <= k < d.len() && d[k] == w[i];
                        assert(s[k].last_seen.nanos <= s[s.len() - 1].last_seen.nanos);
                    }
                }
            }
            if distinct(s) {
                assert(distinct(d)) by {
                    assert forall|i: int, j: int| 0 <= i < j < d.len() implies (#[trigger] d[i]).peer_id != (#[trigger] d[j]).peer_id by {
                        assert(s[i].peer_id != s[j].peer_id);
                    }
                }
                assert forall|i: int, j: int| 0 <= i < j < t.len() implies (#[trigger] t[i]).peer_id != (#[trigger] t[j]).peer_id by {
                    if j == w.len() {
                        assert(w.contains(w[i]));
                        let k = choose|k: int| 0 <= k < d.len() && d[k] == w[i];
                        assert(s[k].peer_id != s[s.len() - 1].peer_id);
                    }
                }
            }
        } else if distinct(s) {
            assert forall|i: int, j: int| 0 <= i < j < d.len() implies (#[trigger] d[i]).peer_id != (#[trigger] d[j]).peer_id by {
                assert(s[i].peer_id != s[j].peer_id);
            }
        }
    }
}

/// A bucket: its peers, the most recently seen at the end.
#[derive(Debug)]
pub struct KBucket {
    pub peers: Vec<PeerInfo>,
    /// When the bucket was last refreshed.
    pub last_refresh: Instant,
}

impl KBucket {
    pub fn new(now: Instant) -> (r: Self)
        ensures
            r.peers@ == Seq::<PeerInfo>::empty(),
            r.last_refresh == now,
    {
        let peers: Vec<PeerInfo> = Vec::new();
        assert(peers@ =~= Seq::<PeerInfo>::empty());
        KBucket { peers, last_refresh: now }
    }

    /// Where a peer stands.
    pub fn find(&self, peer_id: &PeerId) -> (r: Option<usize>)
        ensures
            r is Some <==> listed(self.peers@, *peer_id),
            r matches Some(i) ==> stands_at(self.peers@, *peer_id, i as int),
    {
        let mut i: usize = 0;
        while i < self.peers.len()
            invariant
                i <= self.peers@.len(),
                forall|j: int| 0 <= j < i ==> (#[trigger] self.peers@[j]).peer_id != *peer_id,
            decreases self.peers@.len() - i,
        {
            if self.peers[i].peer_id.same(peer_id) {
                assert(stands_at(self.peers@, *peer_id, i as int));
                return Some(i);
            }
            i += 1;
        }
        None
    }

    /// The peer to evict.
    pub fn find_eviction_candidate(&self) -> (r: Option<usize>)
        ensures
            match r {
                Some(i) => is_victim(self.peers@, i as int),
                None => forall|i: int| #![trigger self.peers@[i]] 0 <= i < self.peers@.len() ==> !evictable(self.peers@[i]),
            },
    {
        let mut best: Option<usize> = None;
        let mut i: usize = 0;
        while i < self.peers.len()
            invariant
                i <= self.peers@.len(),
                match best {
                    Some(b) => b < i && is_victim(self.peers@.take(i as int), b as int),
                    None => forall|j: int| 0 <= j < i ==> !evictable(#[trigger] self.peers@[j]),
                },
            decreases self.peers@.len() - i,
        {
            let ghost t = self.peers@.take(i as int);
            let ghost u = self.peers@.take(i + 1);
            assert(forall|j: int| 0 <= j < i ==> #[trigger] u[j] == t[j]);
            assert(u[i as int] == self.peers@[i as int]);
            let weak = matches!(self.peers[i].state, PeerState::Dead | PeerState::Suspect);
            match best {
                Some(b) => {
                    if weak && self.peers[i].score.rank < self.peers[b].score.rank {
                        best = Some(i);
                    }
                },
                None => {
                    if weak {
                        best = Some(i);
                    }
                },
            }
            i += 1;
        }
        assert(self.peers@.take(i as int) =~= self.peers@);
        best
    }

    /// Inserts or updates a peer.
    pub fn insert_or_update(&mut self, peer: PeerInfo) -> (r: Result<InsertOutcome, ()>)
        requires
            old(self).peers@.len() <= K,
        ensures
            bucket_insert(old(self).peers@, peer, final(self).peers@, r),
            final(self).last_refresh == old(self).last_refresh,
    {
        match self.find(&peer.peer_id) {
            Some(i) => {
                let mut p = self.peers.remove(i);
                p.addr = peer.addr;
                p.touch(peer.last_seen);
                self.peers.push(p);
                assert(stands_at(old(self).peers@, peer.peer_id, i as int));
                return Ok(InsertOutcome::Updated);
            },
            None => {},
        }
        if self.peers.len() < K {
            self.peers.push(peer);
            return Ok(InsertOutcome::NewPeer);
        }
        match self.find_eviction_candidate() {
            Some(i) => {
                assert(is_victim(old(self).peers@, i as int));
                let _ = self.peers.remove(i);
                self.peers.push(peer);
                Ok(InsertOutcome::Evicted)
            },
            None => Err(()),
        }
    }

    /// Drops the peers that are dead.
    pub fn drop_dead(&mut self)
        ensures
            final(self).peers@ == without_dead(old(self).peers@),
            final(self).last_refresh == old(self).last_refresh,
    {
        let mut kept: Vec<PeerInfo> = Vec::new();
        let mut i: usize = 0;
        assert(self.peers@.take(0) =~= Seq::<PeerInfo>::empty());
        assert(kept@ =~= without_dead(self.peers@.take(0)));
        while i < self.peers.len()
            invariant
                i <= self.peers@.len(),
                self.peers@ == old(self).peers@,
                self.last_refresh == old(self).last_refresh,
                kept@ == without_dead(self.peers@.take(i as int)),
            decreases self.peers@.len() - i,
        {
            let p = self.peers[i];
            assert(self.peers@.take(i + 1).drop_last() =~= self.peers@.take(i as int));
            if !matches!(p.state, PeerState::Dead) {
                kept.push(p);
            }
            i += 1;
        }
        assert(self.peers@.take(i as int) =~= self.peers@);
        self.peers = kept;
    }

    /// The peers that can be used, the best ranked first.
    pub fn closest_peers(&self) -> (r: Vec<&PeerInfo>)
        ensures
            best_first(only_usable(self.peers@), r@.map_values(|p: &PeerInfo| *p)),
    {
        let mut out: Vec<&PeerInfo> = Vec::new();
        let mut i: usize = 0;
        let ghost s = self.peers@;
        let ghost m = |p: &PeerInfo| *p;
        assert(s.take(0) =~= Seq::<PeerInfo>::empty());
        assert(out@.map_values(m) =~= only_usable(s.take(0)));
        while i < self.peers.len()
            invariant
                i <= s.len(),
                s == self.peers@,
                m == (|p: &PeerInfo| *p),
                best_first(only_usable(s.take(i as int)), out@.map_values(m)),
            decreases s.len() - i,
        {
            let ghost before = out@.map_values(m);
            assert(s.take(i + 1).drop_last() =~= s.take(i as int));
            assert(s.take(i + 1).last() == s[i as int]);
            if self.peers[i].is_usable() {
                let peer: &PeerInfo = &self.peers[i];
                let mut at: usize = 0;
                while at < out.len() && out[at].score.rank >= peer.score.rank
                    invariant
                        at <= out@.len(),
                        m == (|p: &PeerInfo| *p),
                        before == out@.map_values(m),
                        forall|k: int| 0 <= k < at ==> (#[trigger] before[k]).score.rank >= peer.score.rank,
                    ensures
                        at <= out@.len(),
                        forall|k: int| 0 <= k < at ==> (#[trigger] before[k]).score.rank >= peer.score.rank,
                        at < out@.len() ==> before[at as int].score.rank < peer.score.rank,
                    decreases out@.len() - at,
                {
                    assert(before[at as int] == *out@[at as int]);
                    at += 1;
                }
                out.insert(at, peer);
                assert(out@.map_values(m) =~= before.insert(at as int, *peer));
                proof {
                    lemma_best_first_step(only_usable(s.take(i as int)), before, *peer, at as int);
                }
            }
            i += 1;
        }
        assert(s.take(i as int) =~= s);
        out
    }
}

/// How many peers the first `n` buckets hold.
pub open spec fn peers_in(buckets: Seq<KBucket>, n: int) -> nat
    decreases n,
{
    if n <= 0 {
        0
    } else {
        peers_in(buckets, n - 1) + buckets[n - 1].peers@.len()
    }
}

/// The peers of the first `n` buckets, one behind the other.
pub open spec fn flat(buckets: Seq<KBucket>, n: int) -> Seq<PeerInfo>
    decreases n,
{
    if n <= 0 {
        Seq::empty()
    } else {
        flat(buckets, n - 1) + buckets[n - 1].peers@
    }
}

/// How many of the first `n` buckets hold any peer.
pub open spec fn filled(buckets: Seq<KBucket>, n: int) -> nat
    decreases n,
{
    if n <= 0 {
        0
    } else {
        filled(buckets, n - 1) + (if buckets[n - 1].peers@.len() > 0 { 1nat } else { 0nat })
    }
}

proof fn lemma_peers_in_update(a: Seq<KBucket>, b: Seq<KBucket>, k: int, n: int)
    requires
        a.len() == b.len(),
        0 <= k < a.len(),
        0 <= n <= a.len(),
        forall|i: int| 0 <= i < a.len() && i != k ==> (#[trigger] a[i]).peers@.len() == (#[trigger] b[i]).peers@.len(),
    ensures
        k < n ==> peers_in(b, n) == peers_in(a, n) - a[k].peers@.len() + b[k].peers@.len(),
        k >= n ==> peers_in(b, n) == peers_in(a, n),
        k < n ==> a[k].peers@.len() <= peers_in(a, n),
    decreases n,
{
    if n > 0 {
        lemma_peers_in_update(a, b, k, n - 1);
        if n - 1 != k {
            assert(a[n - 1].peers@.len() == b[n - 1].peers@.len());
        }
    }
}

proof fn lemma_peers_in_same(a: Seq<KBucket>, n: int)
    requires
        0 <= n <= a.len(),
    ensures
        forall|b: Seq<KBucket>|
            b.len() == a.len() && (forall|i: int| 0 <= i < a.len() ==> (#[trigger] b[i]).peers@.len() == a[i].peers@.len())
                ==> #[trigger] peers_in(b, n) == peers_in(a, n),
    decreases n,
{
    if n > 0 {
        lemma_peers_in_same(a, n - 1);
        assert forall|b: Seq<KBucket>|
            b.len() == a.len() && (forall|i: int| 0 <= i < a.len() ==> (#[trigger] b[i]).peers@.len() == a[i].peers@.len())
            implies #[trigger] peers_in(b, n) == peers_in(a, n) by {
            assert(peers_in(b, n - 1) == peers_in(a, n - 1));
            assert(b[n - 1].peers@.len() == a[n - 1].peers@.len());
        }
    }
}

proof fn lemma_flat_contains(buckets: Seq<KBucket>, n: int, p: PeerInfo)
    requires
        0 <= n <= buckets.len(),
    ensures
        flat(buckets, n).contains(p) <==> exists|b: int|
            0 <= b < n && (#[trigger] buckets[b]).peers@.contains(p),
        flat(buckets, n).len() == peers_in(buckets, n),
    decreases n,
{
    if n > 0 {
        lemma_flat_contains(buckets, n - 1, p);
        let f = flat(buckets, n - 1);
        let s = buckets[n - 1].peers@;
        let t = f + s;
        if f.contains(p) {
            let i = choose|i: int| 0 <= i < f.len() && f[i] == p;
            assert(t[i] == p);
        }
        if s.contains(p) {
            let i = choose|i: int| 0 <= i < s.len() && s[i] == p;
            assert(t[f.len() + i] == p);
        }
        if t.contains(p) {
            let i = choose|i: int| 0 <= i < t.len() && t[i] == p;
            if i < f.len() {
                assert(f[i] == p);
            } else {
                assert(s[i - f.len()] == p);
            }
        }
    }
}

/// Each bucket is within its limit, holds no peer twice, holds only peers that belong to it,
/// and has the one that was heard from last at the end.
pub open spec fn in_order(local: PeerId, buckets: Seq<KBucket>) -> bool {
    &&& buckets.len() == NUM_BUCKETS
    &&& forall|b: int| 0 <= b < buckets.len() ==> bucket_in_order(local, (#[trigger] buckets[b]).peers@, b)
}

pub open spec fn bucket_in_order(local: PeerId, s: Seq<PeerInfo>, b: int) -> bool {
    &&& s.len() <= K
    &&& distinct(s)
    &&& by_last_seen(s)
    &&& forall|i: int| 0 <= i < s.len() ==> bucket_of(local, (#[trigger] s[i]).peer_id) == Some(b as nat)
}

proof fn lemma_flat_distinct(local: PeerId, buckets: Seq<KBucket>, n: int)
    requires
        in_order(local, buckets),
        0 <= n <= buckets.len(),
    ensures
        distinct(flat(buckets, n)),
        forall|i: int| 0 <= i < flat(buckets, n).len() ==> bucket_of(local, (#[trigger] flat(buckets, n)[i]).peer_id) is Some
            && bucket_of(local, flat(buckets, n)[i].peer_id)->0 < n,
    decreases n,
{
    if n > 0 {
        lemma_flat_distinct(local, buckets, n - 1);
        let f = flat(buckets, n - 1);
        let s = buckets[n - 1].peers@;
        assert(bucket_in_order(local, s, n - 1));
        let t = f + s;
        assert forall|i: int, j: int| 0 <= i < j < t.len() implies (#[trigger] t[i]).peer_id != (#[trigger] t[j]).peer_id by {
            if j < f.len() {
                assert(f[i].peer_id != f[j].peer_id);
            } else if i < f.len() {
                assert(bucket_of(local, f[i].peer_id)->0 < n - 1);
                assert(bucket_of(local, s[j - f.len()].peer_id) == Some((n - 1) as nat));
            } else {
                assert(s[i - f.len()].peer_id != s[j - f.len()].peer_id);
            }
        }
        assert forall|i: int| 0 <= i < t.len() implies bucket_of(local, (#[trigger] t[i]).peer_id) is Some && bucket_of(
            local,
            t[i].peer_id,
        )->0 < n by {
            if i < f.len() {
                assert(bucket_of(local, f[i].peer_id)->0 < n - 1);
            } else {
                assert(bucket_of(local, s[i - f.len()].peer_id) == Some((n - 1) as nat));
            }
        }
    }
}

/// A peer that was heard from last goes to the end.
proof fn lemma_last_at_end(s: Seq<PeerInfo>, p: PeerInfo)
    requires
        by_last_seen(s),
        seen_by(s, p.last_seen),
    ensures
        by_last_seen(s.push(p)),
        seen_by(s.push(p), p.last_seen),
{
}

proof fn lemma_remove_keeps_order(s: Seq<PeerInfo>, i: int, clock: Instant)
    requires
        by_last_seen(s),
        seen_by(s, clock),
        0 <= i < s.len(),
    ensures
        by_last_seen(s.remove(i)),
        seen_by(s.remove(i), clock),
{
    let t = s.remove(i);
    assert forall|j: int, k: int| 0 <= j < k < t.len() implies (#[trigger] t[j]).last_seen.nanos <= (#[trigger] t[k]).last_seen.nanos by {
        let x = if j < i { j } else { j + 1 };
        let y = if k < i { k } else { k + 1 };
        assert(s[x].last_seen.nanos <= s[y].last_seen.nanos);
    }
    assert forall|j: int| 0 <= j < t.len() implies (#[trigger] t[j]).last_seen.nanos <= clock.nanos by {
        let x = if j < i { j } else { j + 1 };
        assert(s[x].last_seen.nanos <= clock.nanos);
    }
}

proof fn lemma_insert_keeps_order(local: PeerId, b: int, s: Seq<PeerInfo>, p: PeerInfo, t: Seq<PeerInfo>, r: Result<InsertOutcome, ()>)
    requires
        bucket_in_order(local, s, b),
        bucket_of(local, p.peer_id) == Some(b as nat),
        bucket_insert(s, p, t, r),
        seen_by(s, p.last_seen),
    ensures
        bucket_in_order(local, t, b),
        seen_by(t, p.last_seen),
        t.len() == s.len() + (if r == Ok::<InsertOutcome, ()>(InsertOutcome::NewPeer) { 1int } else { 0int }),
        r is Ok ==> listed(t, p.peer_id),
{
    if listed(s, p.peer_id) {
        let i = choose|i: int| #[trigger]
            stands_at(s, p.peer_id, i) && t == s.remove(i).push(PeerInfo { addr: p.addr, last_seen: p.last_seen, ..s[i] });
        lemma_replace_distinct(s, i, PeerInfo { addr: p.addr, last_seen: p.last_seen, ..s[i] });
        lemma_remove_keeps_order(s, i, p.last_seen);
        lemma_last_at_end(s.remove(i), PeerInfo { addr: p.addr, last_seen: p.last_seen, ..s[i] });
        assert(stands_at(t, p.peer_id, t.len() - 1));
    } else if s.len() < K {
        assert forall|i: int, j: int| 0 <= i < j < t.len() implies (#[trigger] t[i]).peer_id != (#[trigger] t[j]).peer_id by {
            if j == s.len() {
                assert(!stands_at(s, p.peer_id, i));
            }
        }
        assert(stands_at(t, p.peer_id, t.len() - 1));
    } else if exists|i: int| is_victim(s, i) {
        let i = choose|i: int| #[trigger] is_victim(s, i) && t == s.remove(i).push(p);
        assert forall|j: int| 0 <= j < s.len() implies (#[trigger] s[j]).peer_id != p.peer_id by {
            assert(!stands_at(s, p.peer_id, j));
        }
        lemma_replace_distinct(s, i, p);
        lemma_remove_keeps_order(s, i, p.last_seen);
        lemma_last_at_end(s.remove(i), p);
        assert(stands_at(t, p.peer_id, t.len() - 1));
    }
}

proof fn lemma_replace_distinct(s: Seq<PeerInfo>, i: int, p: PeerInfo)
    requires
        distinct(s),
        0 <= i < s.len(),
        forall|j: int| 0 <= j < s.len() && j != i ==> (#[trigger] s[j]).peer_id != p.peer_id,
    ensures
        distinct(s.remove(i).push(p)),
        forall|j: int|
            0 <= j < s.len() - 1 ==> #[trigger] s.remove(i).push(p)[j] == (if j < i { s[j] } else { s[j + 1] }),
{
    let t = s.remove(i).push(p);
    assert forall|j: int, k: int| 0 <= j < k < t.len() implies (#[trigger] t[j]).peer_id != (#[trigger] t[k]).peer_id by {
        let a = if j < i { j } else { j + 1 };
        assert(t[j] == s[a]);
        if k < s.len() - 1 {
            let b = if k < i { k } else { k + 1 };
            assert(t[k] == s[b]);
            assert(s[a].peer_id != s[b].peer_id);
        }
    }
}

/// The routing table.
pub struct RoutingTable {
    local_id: PeerId,
    buckets: Vec<KBucket>,
    total_peers: usize,
    /// The latest time that a peer was heard from.
    clock: Instant,
}

/// What a look for the peers closest to a target finds: usable peers in the order of
/// their distance, and none that is closer is left out.
pub open spec fn closest_among(peers: Seq<PeerInfo>, target: PeerId, count: nat, r: Seq<PeerInfo>) -> bool {
    &&& r.len() <= count
    &&& forall|i: int| 0 <= i < r.len() ==> peers.contains(#[trigger] r[i]) && r[i].usable()
    &&& by_distance(r, target)
    &&& forall|k: int|
        0 <= k < peers.len() && (#[trigger] peers[k]).usable() && !r.contains(peers[k]) ==> r.len() == count && forall|i: int|
            0 <= i < r.len() ==> distance((#[trigger] r[i]).peer_id, target) < distance(peers[k].peer_id, target)
}

impl RoutingTable {
    /// Whose table this is.
    pub closed spec fn local(self) -> PeerId {
        self.local_id
    }

    /// The buckets.
    pub closed spec fn view(self) -> Seq<KBucket> {
        self.buckets@
    }

    /// The latest time that a peer was heard from; at first, when the table was made.
    pub closed spec fn clock(self) -> Instant {
        self.clock
    }

    /// The time `now` for the table. Time does not run backwards: a time before one that has
    /// been is that one.
    pub open spec fn reading(self, now: Instant) -> Instant {
        if now.nanos < self.clock().nanos {
            self.clock()
        } else {
            now
        }
    }

    closed spec fn counts(self) -> bool {
        self.total_peers == peers_in(self.buckets@, NUM_BUCKETS as int)
    }

    /// The buckets are in order, the peers are counted, and none was heard from later than the
    /// clock says.
    pub closed spec fn wf(self) -> bool {
        &&& in_order(self.local_id, self.buckets@)
        &&& self.counts()
        &&& forall|b: int| 0 <= b < self.buckets@.len() ==> seen_by((#[trigger] self.buckets@[b]).peers@, self.clock)
    }

    /// What the invariant says of the buckets.
    pub proof fn lemma_wf(self)
        requires
            self.wf(),
        ensures
            in_order(self.local(), self@),
            forall|b: int| 0 <= b < NUM_BUCKETS ==> seen_by((#[trigger] self@[b]).peers@, self.clock()),
    {
    }

    /// All peers.
    pub open spec fn peers(self) -> Seq<PeerInfo> {
        flat(self@, NUM_BUCKETS as int)
    }

    /// The table knows the peer.
    pub open spec fn knows(self, id: PeerId) -> bool {
        bucket_of(self.local(), id) matches Some(b) && listed(self@[b as int].peers@, id)
    }

    /// The tables differ in the peers of one bucket at most.
    pub open spec fn same_but_bucket(self, o: RoutingTable, b: int) -> bool {
        &&& self.local() == o.local()
        &&& self@.len() == o@.len()
        &&& forall|i: int| 0 <= i < self@.len() && i != b ==> #[trigger] self@[i] == o@[i]
        &&& self@[b].last_refresh == o@[b].last_refresh
    }

    pub fn new(local_id: PeerId, now: Instant) -> (r: Self)
        ensures
            r.wf(),
            r.local() == local_id,
            r.clock() == now,
            r.peers() == Seq::<PeerInfo>::empty(),
            forall|b: int| 0 <= b < NUM_BUCKETS ==> (#[trigger] r@[b]).peers@.len() == 0 && r@[b].last_refresh == now,
    {
        let mut buckets: Vec<KBucket> = Vec::new();
        let mut i: usize = 0;
        while i < NUM_BUCKETS
            invariant
                i <= NUM_BUCKETS,
                buckets@.len() == i,
                forall|b: int| 0 <= b < i ==> (#[trigger] buckets@[b]).peers@.len() == 0 && buckets@[b].last_refresh == now,
            decreases NUM_BUCKETS - i,
        {
            buckets.push(KBucket::new(now));
            i += 1;
        }
        proof {
            lemma_empty_buckets(buckets@, NUM_BUCKETS as int);
        }
        RoutingTable { local_id, buckets, total_peers: 0, clock: now }
    }

    pub fn local_id(&self) -> (r: &PeerId)
        ensures
            *r == self.local(),
    {
        &self.local_id
    }

    /// How many peers the table holds.
    pub fn total_peers(&self) -> (r: usize)
        requires
            self.wf(),
        ensures
            r == self.peers().len(),
    {
        proof {
            lemma_flat_contains(self@, NUM_BUCKETS as int, arbitrary());
        }
        self.total_peers
    }

    fn read(&self, now: Instant) -> (r: Instant)
        ensures
            r == self.reading(now),
    {
        if now.nanos < self.clock.nanos {
            self.clock
        } else {
            now
        }
    }

    /// Inserts a peer or updates it; tells whether it is new. We ourselves are never
    /// inserted. A bucket of 20 peers none of which can be evicted takes no other. A peer that
    /// was inserted or updated stands at the end of its bucket.
    pub fn insert(&mut self, peer_id: PeerId, addr: SocketAddr, now: Instant) -> (r: Result<bool, DhtError>)
        requires
            old(self).wf(),
        ensures
            final(self).wf(),
            match bucket_of(old(self).local(), peer_id) {
                None => peer_id == old(self).local() && r == Ok::<bool, DhtError>(false) && *final(self) == *old(self),
                Some(b) => {
                    &&& b < NUM_BUCKETS
                    &&& peer_id != old(self).local()
                    &&& final(self).same_but_bucket(*old(self), b as int)
                    &&& final(self).clock() == old(self).reading(now)
                    &&& exists|o: Result<InsertOutcome, ()>| #[trigger]
                        bucket_insert(
                            old(self)@[b as int].peers@,
                            PeerInfo::spec_new(peer_id, addr, old(self).reading(now)),
                            final(self)@[b as int].peers@,
                            o,
                        ) && r == insert_result(o, b as usize)
                },
            },
            r is Ok && peer_id != old(self).local() ==> final(self).knows(peer_id),
    {
        proof {
            law_distance_zero(self.local_id, peer_id);
        }
        let b: usize = match self.local_id.bucket_index(&peer_id) {
            Some(b) => b,
            None => return Ok(false),
        };
        let ghost before = self.buckets@;
        let now = self.read(now);
        let peer = PeerInfo::new(peer_id, addr, now);
        assert(bucket_in_order(self.local_id, self.buckets@[b as int].peers@, b as int));
        assert(seen_by(self.buckets@[b as int].peers@, now));
        let outcome = self.buckets[b].insert_or_update(peer);
        self.clock = now;
        proof {
            lemma_insert_keeps_order(self.local_id, b as int, before[b as int].peers@, peer, self.buckets@[b as int].peers@, outcome);
            lemma_peers_in_update(before, self.buckets@, b as int, NUM_BUCKETS as int);
            lemma_total_bound(self.local_id, before, NUM_BUCKETS as int);
        }
        if matches!(outcome, Ok(InsertOutcome::NewPeer)) {
            self.total_peers = self.total_peers + 1;
        }
        let r = match outcome {
            Ok(InsertOutcome::NewPeer) => Ok(true),
            Ok(InsertOutcome::Evicted) => Ok(true),
            Ok(InsertOutcome::Updated) => Ok(false),
            Err(_) => Err(DhtError::BucketFull { bucket: b }),
        };
        assert(r == insert_result(outcome, b));
        assert(self.same_but_bucket(*old(self), b as int));
        assert(bucket_insert(old(self)@[b as int].peers@, peer, self@[b as int].peers@, outcome));
        r
    }

    /// The table `o` is this one without the peer `id`, which was `p`.
    pub open spec fn removed(self, o: RoutingTable, id: PeerId, p: PeerInfo) -> bool {
        let b = bucket_of(self.local(), id)->0 as int;
        &&& bucket_of(self.local(), id) is Some
        &&& o.same_but_bucket(self, b)
        &&& exists|i: int| #[trigger]
            stands_at(self@[b].peers@, id, i) && p == self@[b].peers@[i] && o@[b].peers@ == self@[b].peers@.remove(i)
    }

    /// Takes a peer out of the table.
    pub fn remove(&mut self, peer_id: &PeerId) -> (r: Option<PeerInfo>)
        requires
            old(self).wf(),
        ensures
            final(self).wf(),
            match r {
                Some(p) => old(self).removed(*final(self), *peer_id, p),
                None => !old(self).knows(*peer_id) && *final(self) == *old(self),
            },
            !final(self).knows(*peer_id),
            final(self).clock() == old(self).clock(),
    {
        let b: usize = match self.local_id.bucket_index(peer_id) {
            Some(b) => b,
            None => return None,
        };
        let ghost before = self.buckets@;
        match self.buckets[b].find(peer_id) {
            Some(i) => {
                assert(bucket_in_order(self.local_id, before[b as int].peers@, b as int));
                assert(stands_at(before[b as int].peers@, *peer_id, i as int));
                let p = self.buckets[b].peers.remove(i);
                proof {
                    lemma_peers_in_update(before, self.buckets@, b as int, NUM_BUCKETS as int);
                    let s = before[b as int].peers@;
                    let t = self.buckets@[b as int].peers@;
                    assert(t == s.remove(i as int));
                    lemma_remove_keeps_order(s, i as int, self.clock);
                    assert forall|j: int, k: int| 0 <= j < k < t.len() implies (#[trigger] t[j]).peer_id != (#[trigger] t[k]).peer_id by {
                        let x = if j < i { j } else { j + 1 };
                        let y = if k < i { k } else { k + 1 };
                        assert(s[x].peer_id != s[y].peer_id);
                    }
                    assert forall|j: int| !stands_at(t, *peer_id, j) by {
                        if 0 <= j < t.len() {
                            let x = if j < i { j } else { j + 1 };
                            assert(t[j] == s[x]);
                            if x < i {
                                assert(s[x].peer_id != s[i as int].peer_id);
                            } else {
                                assert(s[i as int].peer_id != s[x].peer_id);
                            }
                        }
                    }
                }
                self.total_peers = self.total_peers - 1;
                assert(self.same_but_bucket(*old(self), b as int));
                assert(stands_at(old(self)@[b as int].peers@, *peer_id, i as int));
                assert(bucket_of(old(self).local(), *peer_id) == Some(b as nat));
                assert(p == old(self)@[b as int].peers@[i as int]);
                assert(self@[b as int].peers@ == old(self)@[b as int].peers@.remove(i as int));
                assert(old(self).removed(*self, *peer_id, p));
                Some(p)
            },
            None => None,
        }
    }

    /// The peer with an identifier.
    pub fn get(&self, peer_id: &PeerId) -> (r: Option<&PeerInfo>)
        requires
            self.wf(),
        ensures
            r is Some <==> self.knows(*peer_id),
            r matches Some(p) ==> p.peer_id == *peer_id && self@[bucket_of(
                self.local(),
                *peer_id,
            )->0 as int].peers@.contains(*p),
    {
        let b: usize = match self.local_id.bucket_index(peer_id) {
            Some(b) => b,
            None => return None,
        };
        match self.buckets[b].find(peer_id) {
            Some(i) => Some(&self.buckets[b].peers[i]),
            None => None,
        }
    }

    /// Changes a peer: what `f` makes of the peer takes its place.
    fn put_back(&mut self, b: usize, i: usize, p: PeerInfo)
        requires
            old(self).wf(),
            b < NUM_BUCKETS,
            i < old(self)@[b as int].peers@.len(),
            p.peer_id == old(self)@[b as int].peers@[i as int].peer_id,
            p.last_seen == old(self)@[b as int].peers@[i as int].last_seen,
        ensures
            final(self).wf(),
            final(self).clock() == old(self).clock(),
            final(self).same_but_bucket(*old(self), b as int),
            final(self)@[b as int].peers@ == old(self)@[b as int].peers@.update(i as int, p),
    {
        let ghost before = self.buckets@;
        assert(bucket_in_order(self.local_id, before[b as int].peers@, b as int));
        self.buckets[b].peers[i] = p;
        proof {
            lemma_peers_in_update(before, self.buckets@, b as int, NUM_BUCKETS as int);
            let s = before[b as int].peers@;
            let t = self.buckets@[b as int].peers@;
            assert forall|j: int, k: int| 0 <= j < k < t.len() implies (#[trigger] t[j]).peer_id != (#[trigger] t[k]).peer_id by {
                assert(s[j].peer_id != s[k].peer_id);
            }
            assert forall|j: int, k: int| 0 <= j < k < t.len() implies (#[trigger] t[j]).last_seen.nanos <= (#[trigger] t[k]).last_seen.nanos by {
                assert(s[j].last_seen.nanos <= s[k].last_seen.nanos);
            }
            assert(seen_by(s, self.clock));
            assert forall|j: int| 0 <= j < t.len() implies (#[trigger] t[j]).last_seen.nanos <= self.clock.nanos by {
                assert(s[j].last_seen.nanos <= self.clock.nanos);
            }
        }
    }

    /// The table after the peer `id` has become `f` of itself; unchanged where it is not
    /// known.
    pub open spec fn changed(self, o: RoutingTable, id: PeerId, f: spec_fn(PeerInfo) -> PeerInfo) -> bool {
        if self.knows(id) {
            let b = bucket_of(self.local(), id)->0 as int;
            &&& o.same_but_bucket(self, b)
            &&& exists|i: int| #[trigger]
                stands_at(self@[b].peers@, id, i) && o@[b].peers@ == self@[b].peers@.update(i, f(self@[b].peers@[i]))
        } else {
            o == self
        }
    }

    /// The table after the peer `id` has become `f` of itself and has gone to the end of its
    /// bucket; unchanged where it is not known.
    pub open spec fn moved(self, o: RoutingTable, id: PeerId, f: spec_fn(PeerInfo) -> PeerInfo) -> bool {
        if self.knows(id) {
            let b = bucket_of(self.local(), id)->0 as int;
            &&& o.same_but_bucket(self, b)
            &&& exists|i: int| #[trigger]
                stands_at(self@[b].peers@, id, i) && o@[b].peers@ == self@[b].peers@.remove(i).push(f(self@[b].peers@[i]))
        } else {
            o == self
        }
    }

    /// The bucket and the place of a peer.
    fn locate(&self, peer_id: &PeerId) -> (r: Option<(usize, usize)>)
        requires
            self.wf(),
        ensures
            r is Some <==> self.knows(*peer_id),
            r matches Some(x) ==> x.0 < NUM_BUCKETS && bucket_of(self.local(), *peer_id) == Some(x.0 as nat) && stands_at(
                self@[x.0 as int].peers@,
                *peer_id,
                x.1 as int,
            ),
    {
        let b: usize = match self.local_id.bucket_index(peer_id) {
            Some(b) => b,
            None => return None,
        };
        match self.buckets[b].find(peer_id) {
            Some(i) => Some((b, i)),
            None => None,
        }
    }

    /// The peer with an identifier, to be changed in place. The table stays in order as
    /// long as the identifier and the time when it was last heard from stay the same.
    pub fn get_mut(&mut self, peer_id: &PeerId) -> (r: Option<&mut PeerInfo>)
        requires
            old(self).wf(),
        ensures
            match r {
                Some(p) => {
                    &&& old(self).knows(*peer_id)
                    &&& p.peer_id == *peer_id
                    &&& final(p).peer_id == *peer_id && final(p).last_seen == p.last_seen ==> final(self).wf()
                    &&& final(self).clock() == old(self).clock()
                    &&& old(self).changed(*final(self), *peer_id, |q: PeerInfo| *final(p))
                    &&& old(self)@[bucket_of(old(self).local(), *peer_id)->0 as int].peers@.contains(*p)
                },
                None => !old(self).knows(*peer_id) && *final(self) == *old(self),
            },
    {
        match self.locate(peer_id) {
            Some((b, i)) => {
                let ghost before = self.buckets@;
                assert(bucket_in_order(self.local_id, before[b as int].peers@, b as int));
                proof {
                    lemma_peers_in_same(before, NUM_BUCKETS as int);
                }
                let r = &mut self.buckets[b].peers[i];
                Some(r)
            },
            None => None,
        }
    }

    /// Notes that a peer has answered. It goes to the end of its bucket.
    pub fn mark_active(&mut self, peer_id: &PeerId, latency: Duration, now: Instant)
        requires
            old(self).wf(),
        ensures
            final(self).wf(),
            old(self).moved(*final(self), *peer_id, |p: PeerInfo| p.after_answer(latency, old(self).reading(now))),
            old(self).knows(*peer_id) ==> final(self).clock() == old(self).reading(now),
            old(self).knows(*peer_id) ==> ({
                let s = final(self)@[bucket_of(old(self).local(), *peer_id)->0 as int].peers@;
                s.len() > 0 && s.last().peer_id == *peer_id && s.last().state == PeerState::Active
            }),
    {
        if let Some((b, i)) = self.locate(peer_id) {
            let ghost before = self.buckets@;
            let ghost s = before[b as int].peers@;
            assert(bucket_in_order(self.local_id, s, b as int));
            let now = self.read(now);
            let mut p = self.buckets[b].peers.remove(i);
            p.mark_active(latency, now);
            self.buckets[b].peers.push(p);
            self.clock = now;
            proof {
                let t = self.buckets@[b as int].peers@;
                assert(t =~= s.remove(i as int).push(p));
                assert(seen_by(s, old(self).clock));
                assert(seen_by(s, now));
                assert forall|j: int| 0 <= j < s.len() && j != i implies (#[trigger] s[j]).peer_id != p.peer_id by {
                    if j < i {
                        assert(s[j].peer_id != s[i as int].peer_id);
                    } else {
                        assert(s[i as int].peer_id != s[j].peer_id);
                    }
                }
                lemma_replace_distinct(s, i as int, p);
                lemma_remove_keeps_order(s, i as int, now);
                lemma_last_at_end(s.remove(i as int), p);
                assert forall|j: int| 0 <= j < t.len() implies bucket_of(self.local_id, (#[trigger] t[j]).peer_id) == Some(b as nat) by {
                    if j < s.len() - 1 {
                        let x = if j < i { j } else { j + 1 };
                        assert(t[j] == s[x]);
                    }
                }
                lemma_peers_in_update(before, self.buckets@, b as int, NUM_BUCKETS as int);
                assert(stands_at(old(self)@[b as int].peers@, *peer_id, i as int));
            }
        }
    }

    /// Notes that a peer has failed to answer.
    pub fn mark_suspect(&mut self, peer_id: &PeerId, now: Instant)
        requires
            old(self).wf(),
        ensures
            final(self).wf(),
            old(self).changed(*final(self), *peer_id, |p: PeerInfo| p.after_silence(now)),
            final(self).clock() == old(self).clock(),
    {
        if let Some((b, i)) = self.locate(peer_id) {
            let mut p = self.buckets[b].peers[i];
            p.mark_suspect(now);
            self.put_back(b, i, p);
        }
    }

    /// Gives a peer up.
    pub fn mark_dead(&mut self, peer_id: &PeerId)
        requires
            old(self).wf(),
        ensures
            final(self).wf(),
            old(self).changed(*final(self), *peer_id, |p: PeerInfo| PeerInfo { state: PeerState::Dead, ..p }),
            final(self).clock() == old(self).clock(),
    {
        if let Some((b, i)) = self.locate(peer_id) {
            let mut p = self.buckets[b].peers[i];
            p.mark_dead();
            self.put_back(b, i, p);
        }
    }

    /// Puts a peer at its place in the order of scores.
    pub fn set_rank(&mut self, peer_id: &PeerId, rank: i64)
        requires
            old(self).wf(),
        ensures
            final(self).wf(),
            old(self).changed(
                *final(self),
                *peer_id,
                |p: PeerInfo| PeerInfo { score: crate::dht::peer_info::PeerScore { rank, ..p.score }, ..p },
            ),
            final(self).clock() == old(self).clock(),
    {
        if let Some((b, i)) = self.locate(peer_id) {
            let mut p = self.buckets[b].peers[i];
            p.score.rank = rank;
            self.put_back(b, i, p);
        }
    }

    /// Notes that a bucket was refreshed.
    pub fn mark_refreshed(&mut self, b: usize, now: Instant)
        requires
            old(self).wf(),
            b < NUM_BUCKETS,
        ensures
            final(self).wf(),
            final(self).local() == old(self).local(),
            final(self).clock() == old(self).clock(),
            final(self)@.len() == old(self)@.len(),
            forall|i: int| 0 <= i < NUM_BUCKETS ==> (#[trigger] final(self)@[i]).peers == old(self)@[i].peers,
            forall|i: int|
                0 <= i < NUM_BUCKETS ==> (#[trigger] final(self)@[i]).last_refresh == (if i == b {
                    now
                } else {
                    old(self)@[i].last_refresh
                }),
    {
        let ghost before = self.buckets@;
        assert(bucket_in_order(self.local_id, before[b as int].peers@, b as int));
        self.buckets[b].last_refresh = now;
        proof {
            lemma_peers_in_update(before, self.buckets@, b as int, NUM_BUCKETS as int);
        }
    }

    /// All peers, bucket by bucket.
    pub fn all_peers(&self) -> (r: Vec<&PeerInfo>)
        requires
            self.wf(),
        ensures
            r@.len() == self.peers().len(),
            forall|i: int| 0 <= i < r@.len() ==> *(#[trigger] r@[i]) == self.peers()[i],
    {
        let mut out: Vec<&PeerInfo> = Vec::new();
        let mut b: usize = 0;
        while b < NUM_BUCKETS
            invariant
                b <= NUM_BUCKETS,
                self.buckets@.len() == NUM_BUCKETS,
                out@.len() == flat(self.buckets@, b as int).len(),
                forall|i: int| 0 <= i < out@.len() ==> *(#[trigger] out@[i]) == flat(self.buckets@, b as int)[i],
            decreases NUM_BUCKETS - b,
        {
            let ghost f = flat(self.buckets@, b as int);
            let mut j: usize = 0;
            while j < self.buckets[b as usize].peers.len()
                invariant
                    b < NUM_BUCKETS,
                    self.buckets@.len() == NUM_BUCKETS,
                    j <= self.buckets@[b as int].peers@.len(),
                    f == flat(self.buckets@, b as int),
                    out@.len() == f.len() + j,
                    forall|i: int| 0 <= i < f.len() ==> *(#[trigger] out@[i]) == f[i],
                    forall|i: int| f.len() <= i < out@.len() ==> *(#[trigger] out@[i]) == self.buckets@[b as int].peers@[i - f.len()],
                decreases self.buckets@[b as int].peers@.len() - j,
            {
                out.push(&self.buckets[b].peers[j]);
                j += 1;
            }
            b += 1;
        }
        out
    }

    /// The peers that can be used for queries, bucket by bucket.
    pub fn active_peers(&self) -> (r: Vec<&PeerInfo>)
        requires
            self.wf(),
        ensures
            r@.len() == only_usable(self.peers()).len(),
            forall|i: int| 0 <= i < r@.len() ==> *(#[trigger] r@[i]) == only_usable(self.peers())[i],
    {
        let all = self.all_peers();
        let mut out: Vec<&PeerInfo> = Vec::new();
        let mut i: usize = 0;
        let ghost s = self.peers();
        assert(s.take(0) =~= Seq::<PeerInfo>::empty());
        while i < all.len()
            invariant
                i <= all@.len(),
                s == self.peers(),
                all@.len() == s.len(),
                forall|k: int| 0 <= k < all@.len() ==> *(#[trigger] all@[k]) == s[k],
                out@.len() == only_usable(s.take(i as int)).len(),
                forall|k: int| 0 <= k < out@.len() ==> *(#[trigger] out@[k]) == only_usable(s.take(i as int))[k],
            decreases all@.len() - i,
        {
            assert(s.take(i + 1).drop_last() =~= s.take(i as int));
            assert(s.take(i + 1).last() == s[i as int]);
            if all[i].is_usable() {
                out.push(all[i]);
            }
            i += 1;
        }
        assert(s.take(i as int) =~= s);
        out
    }

    /// The peers closest to a target, at most `count` of them, the closest first.
    pub fn find_closest(&self, target: &PeerId, count: usize) -> (r: Vec<&PeerInfo>)
        requires
            self.wf(),
        ensures
            closest_among(self.peers(), *target, count as nat, r@.map_values(|p: &PeerInfo| *p)),
    {
        let all = self.all_peers();
        let mut out: Vec<&PeerInfo> = Vec::new();
        let mut i: usize = 0;
        let ghost s = self.peers();
        let ghost m = |p: &PeerInfo| *p;
        proof {
            lemma_flat_distinct(self.local_id, self.buckets@, NUM_BUCKETS as int);
        }
        while i < all.len()
            invariant
                i <= all@.len(),
                s == self.peers(),
                distinct(s),
                m == (|p: &PeerInfo| *p),
                all@.len() == s.len(),
                forall|k: int| 0 <= k < all@.len() ==> *(#[trigger] all@[k]) == s[k],
                closest_among(s.take(i as int), *target, count as nat, out@.map_values(m)),
            decreases all@.len() - i,
        {
            let ghost t = s.take(i as int);
            let ghost u = s.take(i + 1);
            let ghost before = out@.map_values(m);
            assert(u =~= t.push(s[i as int]));
            if all[i].is_usable() {
                let peer: &PeerInfo = all[i];
                let d = peer.peer_id.xor_distance(target);
                let mut at: usize = 0;
                while at < out.len() && distance_less(&out[at].peer_id.xor_distance(target), &d)
                    invariant
                        at <= out@.len(),
                        m == (|p: &PeerInfo| *p),
                        before == out@.map_values(m),
                        crate::wire::be_val(d@) == distance(peer.peer_id, *target),
                        forall|k: int|
                            0 <= k < at ==> distance((#[trigger] before[k]).peer_id, *target) < distance(peer.peer_id, *target),
                    ensures
                        at <= out@.len(),
                        forall|k: int|
                            0 <= k < at ==> distance((#[trigger] before[k]).peer_id, *target) < distance(peer.peer_id, *target),
                        at < out@.len() ==> distance(before[at as int].peer_id, *target) >= distance(peer.peer_id, *target),
                    decreases out@.len() - at,
                {
                    assert(before[at as int] == *out@[at as int]);
                    at += 1;
                }
                let ghost e = *peer;
                out.insert(at, peer);
                assert(out@.map_values(m) =~= before.insert(at as int, e));
                if out.len() > count {
                    let _ = out.pop();
                    assert(out@.map_values(m) =~= before.insert(at as int, e).drop_last());
                }
                proof {
                    lemma_closest_step(t, *target, count as nat, before, e, at as int, s, i as int);
                    assert(out@.map_values(m) =~= trimmed(before.insert(at as int, e), count as nat));
                }
            } else {
                proof {
                    lemma_closest_skip(t, *target, count as nat, before, s[i as int]);
                }
            }
            i += 1;
        }
        assert(s.take(i as int) =~= s);
        out
    }

    /// The buckets that hold peers and have not been refreshed for too long.
    pub fn stale_buckets(&self, max_age: Duration, now: Instant) -> (r: Vec<usize>)
        requires
            self.wf(),
        ensures
            forall|i: int, j: int| 0 <= i < j < r@.len() ==> r@[i] < r@[j],
            forall|b: usize| #[trigger] r@.contains(b) <==> self.stale(b, max_age, now),
    {
        let mut out: Vec<usize> = Vec::new();
        let mut b: usize = 0;
        while b < NUM_BUCKETS
            invariant
                b <= NUM_BUCKETS,
                self.buckets@.len() == NUM_BUCKETS,
                forall|i: int, j: int| 0 <= i < j < out@.len() ==> out@[i] < out@[j],
                forall|i: int| 0 <= i < out@.len() ==> #[trigger] out@[i] < b && self.stale(out@[i], max_age, now),
                forall|c: usize| c < b && self.stale(c, max_age, now) ==> #[trigger] out@.contains(c),
            decreases NUM_BUCKETS - b,
        {
            let ghost was = out@;
            if self.buckets[b].peers.len() > 0 && now.since(self.buckets[b].last_refresh).nanos > max_age.nanos {
                out.push(b);
                assert(out@[out@.len() - 1] == b);
            }
            proof {
                assert forall|c: usize| c < b + 1 && self.stale(c, max_age, now) implies #[trigger] out@.contains(c) by {
                    if c < b {
                        assert(was.contains(c));
                        let k = choose|k: int| 0 <= k < was.len() && was[k] == c;
                        assert(out@[k] == c);
                    }
                }
            }
            b += 1;
        }
        out
    }

    /// The bucket holds peers and has not been refreshed for too long.
    pub open spec fn stale(self, b: usize, max_age: Duration, now: Instant) -> bool {
        &&& b < NUM_BUCKETS
        &&& self@[b as int].peers@.len() > 0
        &&& now.spec_since(self@[b as int].last_refresh).nanos > max_age.nanos
    }

    /// Drops all peers that are dead and tells how many they were.
    pub fn evict_dead(&mut self) -> (r: usize)
        requires
            old(self).wf(),
        ensures
            final(self).wf(),
            final(self).local() == old(self).local(),
            final(self).clock() == old(self).clock(),
            forall|b: int| 0 <= b < NUM_BUCKETS ==> (#[trigger] final(self)@[b]).peers@ == without_dead(old(self)@[b].peers@)
                && final(self)@[b].last_refresh == old(self)@[b].last_refresh,
            r == old(self).peers().len() - final(self).peers().len(),
    {
        let ghost start = self.buckets@;
        let mut evicted: usize = 0;
        let mut b: usize = 0;
        proof {
            lemma_total_bound(self.local_id, start, NUM_BUCKETS as int);
        }
        while b < NUM_BUCKETS
            invariant
                b <= NUM_BUCKETS,
                self.wf(),
                self.local_id == old(self).local_id,
                self.clock == old(self).clock,
                self.buckets@.len() == NUM_BUCKETS,
                start.len() == NUM_BUCKETS,
                old(self).buckets@ == start,
                peers_in(start, NUM_BUCKETS as int) <= 20 * 256,
                evicted + self.total_peers == peers_in(start, NUM_BUCKETS as int),
                forall|i: int| b <= i < NUM_BUCKETS ==> #[trigger] self.buckets@[i] == start[i],
                forall|i: int|
                    0 <= i < b ==> (#[trigger] self.buckets@[i]).peers@ == without_dead(start[i].peers@)
                        && self.buckets@[i].last_refresh == start[i].last_refresh,
            decreases NUM_BUCKETS - b,
        {
            let ghost was = self.buckets@;
            let before: usize = self.buckets[b].peers.len();
            self.buckets[b].drop_dead();
            let removed: usize;
            proof {
                lemma_without_dead(was[b as int].peers@);
                lemma_peers_in_update(was, self.buckets@, b as int, NUM_BUCKETS as int);
                let s = was[b as int].peers@;
                let t = self.buckets@[b as int].peers@;
                assert(bucket_in_order(self.local_id, s, b as int));
                assert forall|i: int| 0 <= i < t.len() implies bucket_of(self.local_id, (#[trigger] t[i]).peer_id) == Some(b as nat) by {
                    assert(t.contains(t[i]));
                    let k = choose|k: int| 0 <= k < s.len() && s[k] == t[i];
                    assert(bucket_of(self.local_id, s[k].peer_id) == Some(b as nat));
                }
                assert forall|i: int| 0 <= i < t.len() implies (#[trigger] t[i]).last_seen.nanos <= self.clock.nanos by {
                    assert(t.contains(t[i]));
                    let k = choose|k: int| 0 <= k < s.len() && s[k] == t[i];
                    assert(seen_by(s, self.clock));
                    assert(s[k].last_seen.nanos <= self.clock.nanos);
                }
                assert(bucket_in_order(self.local_id, t, b as int));
            }
            removed = before - self.buckets[b].peers.len();
            evicted = evicted + removed;
            self.total_peers = self.total_peers - removed;
            b += 1;
        }
        proof {
            lemma_flat_contains(start, NUM_BUCKETS as int, arbitrary());
            lemma_flat_contains(self.buckets@, NUM_BUCKETS as int, arbitrary());
        }
        evicted
    }

    /// Counts what the table holds.
    pub fn stats(&self) -> (r: RoutingStats)
        requires
            self.wf(),
        ensures
            r.total_peers == self.peers().len(),
            r.non_empty_buckets == filled(self@, NUM_BUCKETS as int),
            r.active == in_state(self.peers(), PeerState::Active),
            r.suspect == in_state(self.peers(), PeerState::Suspect),
            r.discovered == in_state(self.peers(), PeerState::Discovered),
    {
        let mut non_empty_buckets: usize = 0;
        let mut b: usize = 0;
        while b < NUM_BUCKETS
            invariant
                b <= NUM_BUCKETS,
                self.buckets@.len() == NUM_BUCKETS,
                non_empty_buckets <= b,
                non_empty_buckets == filled(self.buckets@, b as int),
            decreases NUM_BUCKETS - b,
        {
            if self.buckets[b].peers.len() > 0 {
                non_empty_buckets = non_empty_buckets + 1;
            }
            b += 1;
        }
        let all = self.all_peers();
        let mut active: usize = 0;
        let mut suspect: usize = 0;
        let mut discovered: usize = 0;
        let mut i: usize = 0;
        let ghost s = self.peers();
        assert(s.take(0) =~= Seq::<PeerInfo>::empty());
        while i < all.len()
            invariant
                i <= all@.len(),
                all@.len() == s.len(),
                forall|k: int| 0 <= k < all@.len() ==> *(#[trigger] all@[k]) == s[k],
                active <= i,
                suspect <= i,
                discovered <= i,
                active == in_state(s.take(i as int), PeerState::Active),
                suspect == in_state(s.take(i as int), PeerState::Suspect),
                discovered == in_state(s.take(i as int), PeerState::Discovered),
            decreases all@.len() - i,
        {
            assert(s.take(i + 1).drop_last() =~= s.take(i as int));
            assert(s.take(i + 1).last() == s[i as int]);
            match all[i].state {
                PeerState::Active => {
                    active = active + 1;
                },
                PeerState::Suspect => {
                    suspect = suspect + 1;
                },
                PeerState::Discovered => {
                    discovered = discovered + 1;
                },
                PeerState::Dead => {},
            }
            i += 1;
        }
        assert(s.take(i as int) =~= s);
        RoutingStats { total_peers: self.total_peers(), non_empty_buckets, active, suspect, discovered }
    }
}

proof fn lemma_empty_buckets(buckets: Seq<KBucket>, n: int)
    requires
        n <= buckets.len(),
        forall|b: int| 0 <= b < buckets.len() ==> (#[trigger] buckets[b]).peers@.len() == 0,
    ensures
        peers_in(buckets, n) == 0,
        flat(buckets, n) == Seq::<PeerInfo>::empty(),
    decreases n,
{
    if n > 0 {
        lemma_empty_buckets(buckets, n - 1);
        assert(flat(buckets, n) =~= Seq::<PeerInfo>::empty());
    }
}

proof fn lemma_total_bound(local: PeerId, buckets: Seq<KBucket>, n: int)
    requires
        in_order(local, buckets),
        0 <= n <= buckets.len(),
    ensures
        peers_in(buckets, n) <= 20 * n,
    decreases n,
{
    if n > 0 {
        lemma_total_bound(local, buckets, n - 1);
        assert(bucket_in_order(local, buckets[n - 1].peers@, n - 1));
    }
}

/// The first `count` of a sequence that is at most one longer.
pub open spec fn trimmed(s: Seq<PeerInfo>, count: nat) -> Seq<PeerInfo> {
    if s.len() > count {
        s.drop_last()
    } else {
        s
    }
}

proof fn lemma_closest_skip(t: Seq<PeerInfo>, target: PeerId, count: nat, r: Seq<PeerInfo>, p: PeerInfo)
    requires
        closest_among(t, target, count, r),
        !p.usable(),
    ensures
        closest_among(t.push(p), target, count, r),
{
    let u = t.push(p);
    assert forall|i: int| 0 <= i < r.len() implies u.contains(#[trigger] r[i]) by {
        assert(t.contains(r[i]));
        let k = choose|k: int| 0 <= k < t.len() && t[k] == r[i];
        assert(u[k] == r[i]);
    }
    assert forall|k: int| 0 <= k < u.len() && (#[trigger] u[k]).usable() && !r.contains(u[k]) implies r.len() == count && forall|i: int|
        0 <= i < r.len() ==> distance((#[trigger] r[i]).peer_id, target) < distance(u[k].peer_id, target) by {
        assert(u[k] == t[k]);
    }
}

/// `full` is `r` with `e` put in at `at`.
proof fn lemma_insert_members(r: Seq<PeerInfo>, e: PeerInfo, at: int, full: Seq<PeerInfo>)
    requires
        0 <= at <= r.len(),
        full == r.insert(at, e),
    ensures
        forall|x: PeerInfo| #[trigger] full.contains(x) <==> r.contains(x) || x == e,
{
    assert forall|x: PeerInfo| #[trigger] full.contains(x) <==> r.contains(x) || x == e by {
        assert(full[at] == e);
        if r.contains(x) {
            let j = choose|j: int| 0 <= j < r.len() && r[j] == x;
            if j < at {
                assert(full[j] == x);
            } else {
                assert(full[j + 1] == x);
            }
        }
        if full.contains(x) && x != e {
            let j = choose|j: int| 0 <= j < full.len() && full[j] == x;
            if j < at {
                assert(r[j] == x);
            } else {
                assert(r[j - 1] == x);
            }
        }
    }
}

/// The peers stand in the order of their distance from the target.
pub open spec fn by_distance(r: Seq<PeerInfo>, target: PeerId) -> bool {
    forall|i: int, j: int|
        0 <= i < j < r.len() ==> distance((#[trigger] r[i]).peer_id, target) < distance((#[trigger] r[j]).peer_id, target)
}

proof fn lemma_insert_by_distance(r: Seq<PeerInfo>, e: PeerInfo, at: int, target: PeerId)
    requires
        0 <= at <= r.len(),
        by_distance(r, target),
        forall|k: int| 0 <= k < r.len() ==> (#[trigger] r[k]).peer_id != e.peer_id,
        forall|k: int| 0 <= k < at ==> distance((#[trigger] r[k]).peer_id, target) < distance(e.peer_id, target),
        at < r.len() ==> distance(r[at].peer_id, target) >= distance(e.peer_id, target),
    ensures
        by_distance(r.insert(at, e), target),
{
    let full = r.insert(at, e);
    assert forall|k: int| at <= k < r.len() implies distance(e.peer_id, target) < distance((#[trigger] r[k]).peer_id, target) by {
        if k > at {
            assert(distance(r[at].peer_id, target) < distance(r[k].peer_id, target));
        } else {
            if distance(r[at].peer_id, target) == distance(e.peer_id, target) {
                law_distance_symmetric(r[at].peer_id, target);
                law_distance_symmetric(e.peer_id, target);
                law_distance_injective(target, r[at].peer_id, e.peer_id);
            }
        }
    }
    assert forall|i: int, j: int| 0 <= i < j < full.len() implies distance((#[trigger] full[i]).peer_id, target) < distance(
        (#[trigger] full[j]).peer_id,
        target,
    ) by {
        if i < at && j < at {
            assert(full[i] == r[i] && full[j] == r[j]);
        } else if i < at && j == at {
            assert(full[i] == r[i] && full[j] == e);
        } else if i < at {
            assert(full[i] == r[i] && full[j] == r[j - 1]);
        } else if i == at {
            assert(full[i] == e && full[j] == r[j - 1]);
        } else {
            assert(full[i] == r[i - 1] && full[j] == r[j - 1]);
        }
    }
}

proof fn lemma_closest_step(
    t: Seq<PeerInfo>,
    target: PeerId,
    count: nat,
    r: Seq<PeerInfo>,
    e: PeerInfo,
    at: int,
    s: Seq<PeerInfo>,
    n: int,
)
    requires
        closest_among(t, target, count, r),
        e.usable(),
        distinct(s),
        0 <= n < s.len(),
        s[n] == e,
        t == s.take(n),
        0 <= at <= r.len(),
        forall|k: int| 0 <= k < at ==> distance((#[trigger] r[k]).peer_id, target) < distance(e.peer_id, target),
        at < r.len() ==> distance(r[at].peer_id, target) >= distance(e.peer_id, target),
    ensures
        closest_among(t.push(e), target, count, trimmed(r.insert(at, e), count)),
{
    let u = t.push(e);
    let full = r.insert(at, e);
    let q = trimmed(full, count);
    assert(by_distance(r, target));
    // the newcomer is none of those that are there
    assert forall|k: int| 0 <= k < r.len() implies (#[trigger] r[k]).peer_id != e.peer_id by {
        assert(t.contains(r[k]));
        let j = choose|j: int| 0 <= j < t.len() && t[j] == r[k];
        assert(s[j] == r[k]);
        assert(s[j].peer_id != s[n].peer_id);
    }
    lemma_insert_by_distance(r, e, at, target);
    lemma_insert_members(r, e, at, full);
    assert(forall|i: int| 0 <= i < q.len() ==> #[trigger] q[i] == full[i]);
    assert(by_distance(q, target));
    assert forall|i: int| 0 <= i < q.len() implies u.contains(#[trigger] q[i]) && q[i].usable() by {
        assert(full.contains(full[i]));
        if q[i] == e {
            assert(u[t.len() as int] == e);
        } else {
            let j = choose|j: int| 0 <= j < r.len() && r[j] == q[i];
            assert(t.contains(r[j]));
            let k = choose|k: int| 0 <= k < t.len() && t[k] == r[j];
            assert(u[k] == q[i]);
        }
    }
    assert forall|k: int| 0 <= k < u.len() && (#[trigger] u[k]).usable() && !q.contains(u[k]) implies q.len() == count && forall|i: int|
        0 <= i < q.len() ==> distance((#[trigger] q[i]).peer_id, target) < distance(u[k].peer_id, target) by {
        lemma_left_out(t, target, count, r, e, at, u[k], k);
    }
}

/// A peer that is left out is farther away than those that are not.
proof fn lemma_left_out(
    t: Seq<PeerInfo>,
    target: PeerId,
    count: nat,
    r: Seq<PeerInfo>,
    e: PeerInfo,
    at: int,
    x: PeerInfo,
    k: int,
)
    requires
        closest_among(t, target, count, r),
        0 <= at <= r.len(),
        by_distance(r.insert(at, e), target),
        0 <= k < t.push(e).len(),
        x == t.push(e)[k],
        x.usable(),
        !trimmed(r.insert(at, e), count).contains(x),
    ensures
        trimmed(r.insert(at, e), count).len() == count,
        forall|i: int|
            0 <= i < count ==> distance((#[trigger] trimmed(r.insert(at, e), count)[i]).peer_id, target) < distance(
                x.peer_id,
                target,
            ),
{
    let full = r.insert(at, e);
    let q = trimmed(full, count);
    let last = full.len() - 1;
    lemma_insert_members(r, e, at, full);
    if full.contains(x) {
        let j = choose|j: int| 0 <= j < full.len() && full[j] == x;
        if j < q.len() {
            assert(q[j] == x);
        }
        assert(full.len() > count);
        assert(j == last);
        assert forall|i: int| 0 <= i < q.len() implies distance((#[trigger] q[i]).peer_id, target) < distance(x.peer_id, target) by {
            assert(full[i] == q[i]);
            assert(distance(full[i].peer_id, target) < distance(full[j].peer_id, target));
        }
    } else {
        assert(x != e && !r.contains(x));
        assert(k < t.len() && t[k] == x);
        assert(r.len() == count);
        assert forall|i: int| 0 <= i < q.len() implies distance((#[trigger] q[i]).peer_id, target) < distance(x.peer_id, target) by {
            assert(q[i] == full[i]);
            assert(distance(full[i].peer_id, target) < distance(full[last].peer_id, target));
            let rl = r[r.len() - 1];
            assert(distance(rl.peer_id, target) < distance(x.peer_id, target));
            if at < r.len() {
                assert(full[last] == rl);
            } else {
                assert(full[i] == r[i]);
                assert(distance(r[i].peer_id, target) < distance(t[k].peer_id, target));
            }
        }
    }
}

/// How many peers there are, and in which state.
#[derive(Debug, Clone)]
pub struct RoutingStats {
    pub total_peers: usize,
    pub non_empty_buckets: usize,
    pub active: usize,
    pub suspect: usize,
    pub discovered: usize,
}

impl RoutingStats {
    /// A one-line description.
    pub open spec fn description(self) -> Seq<char> {
        "RT["@ + dec(self.total_peers as nat) + " peers in "@ + dec(self.non_empty_buckets as nat) + " buckets: "@ + dec(
            self.active as nat,
        ) + " active, "@ + dec(self.suspect as nat) + " suspect, "@ + dec(self.discovered as nat) + " discovered]"@
    }

    pub fn to_string(&self) -> (r: String)
        ensures
            r@ == self.description(),
    {
        let mut out: String = String::new();
        out.append("RT[");
        push_dec(&mut out, self.total_peers as u128);
        out.append(" peers in ");
        push_dec(&mut out, self.non_empty_buckets as u128);
        out.append(" buckets: ");
        push_dec(&mut out, self.active as u128);
        out.append(" active, ");
        push_dec(&mut out, self.suspect as u128);
        out.append(" suspect, ");
        push_dec(&mut out, self.discovered as u128);
        out.append(" discovered]");
        assert(out@ =~= self.description());
        out
    }
}

/// What the peers closest to a target are is settled by what the table holds: there is
/// only one answer.
pub proof fn law_closest_is_unique(peers: Seq<PeerInfo>, target: PeerId, count: nat, a: Seq<PeerInfo>, b: Seq<PeerInfo>)
    requires
        closest_among(peers, target, count, a),
        closest_among(peers, target, count, b),
    ensures
        a == b,
{
    lemma_closest_prefix(peers, target, count, a, b, a.len() as int);
    lemma_closest_prefix(peers, target, count, b, a, b.len() as int);
    if a.len() <= b.len() {
        if a.len() < b.len() {
            assert(b[a.len() as int] == b[a.len() as int]);
        }
        assert(a =~= b.take(a.len() as int));
    }
    assert(a.len() == b.len());
    assert(a =~= b);
}

proof fn lemma_closest_prefix(peers: Seq<PeerInfo>, target: PeerId, count: nat, a: Seq<PeerInfo>, b: Seq<PeerInfo>, n: int)
    requires
        closest_among(peers, target, count, a),
        closest_among(peers, target, count, b),
        0 <= n <= a.len(),
    ensures
        n <= b.len(),
        forall|i: int| 0 <= i < n ==> #[trigger] a[i] == b[i],
    decreases n,
{
    if n > 0 {
        lemma_closest_prefix(peers, target, count, a, b, n - 1);
        let x = a[n - 1];
        assert(peers.contains(x));
        let k = choose|k: int| 0 <= k < peers.len() && peers[k] == x;
        if b.contains(x) {
            let j = choose|j: int| 0 <= j < b.len() && b[j] == x;
            if j < n - 1 {
                assert(a[j] == b[j]);
                assert(distance(a[j].peer_id, target) < distance(a[n - 1].peer_id, target));
            }
            if j > n - 1 {
                let y = b[n - 1];
                assert(distance(y.peer_id, target) < distance(x.peer_id, target));
                assert(peers.contains(y));
                let m = choose|m: int| 0 <= m < peers.len() && peers[m] == y;
                if a.contains(y) {
                    let l = choose|l: int| 0 <= l < a.len() && a[l] == y;
                    if l < n - 1 {
                        assert(b[l] == y);
                        assert(distance(b[l].peer_id, target) < distance(b[n - 1].peer_id, target));
                    } else if l > n - 1 {
                        assert(distance(a[n - 1].peer_id, target) < distance(a[l].peer_id, target));
                    }
                } else {
                    assert(distance(a[n - 1].peer_id, target) < distance(peers[m].peer_id, target));
                }
            }
        } else {
            assert(b.len() == count);
            assert(n - 1 < b.len());
            let y = b[n - 1];
            assert(distance(y.peer_id, target) < distance(peers[k].peer_id, target));
            assert(peers.contains(y));
            let m = choose|m: int| 0 <= m < peers.len() && peers[m] == y;
            if a.contains(y) {
                let l = choose|l: int| 0 <= l < a.len() && a[l] == y;
                if l < n - 1 {
                    assert(b[l] == y);
                    assert(distance(b[l].peer_id, target) < distance(b[n - 1].peer_id, target));
                } else if l > n - 1 {
                    assert(distance(a[n - 1].peer_id, target) < distance(a[l].peer_id, target));
                }
            } else {
                assert(distance(a[n - 1].peer_id, target) < distance(peers[m].peer_id, target));
            }
        }
    }
}

/// No bucket ever holds more than 20 peers, and each of them belongs to it.
pub proof fn law_buckets_are_bounded(table: RoutingTable, b: int)
    requires
        table.wf(),
        0 <= b < NUM_BUCKETS,
    ensures
        table@[b].peers@.len() <= K,
        forall|i: int|
            0 <= i < table@[b].peers@.len() ==> bucket_of(table.local(), (#[trigger] table@[b].peers@[i]).peer_id) == Some(b as nat),
{
    table.lemma_wf();
    assert(bucket_in_order(table.local(), table@[b].peers@, b));
}

/// In each bucket the peers are in the order in which they were last heard from, the most
/// recent at the end.
pub proof fn law_most_recent_stand_last(table: RoutingTable, b: int)
    requires
        table.wf(),
        0 <= b < NUM_BUCKETS,
    ensures
        by_last_seen(table@[b].peers@),
{
    table.lemma_wf();
    assert(bucket_in_order(table.local(), table@[b].peers@, b));
}

/// No peer is in the table twice, and we ourselves are not in it.
pub proof fn law_peers_are_distinct(table: RoutingTable)
    requires
        table.wf(),
    ensures
        distinct(table.peers()),
        !table.knows(table.local()),
        forall|i: int| 0 <= i < table.peers().len() ==> (#[trigger] table.peers()[i]).peer_id != table.local(),
{
    table.lemma_wf();
    lemma_flat_distinct(table.local(), table@, NUM_BUCKETS as int);
    law_distance_zero(table.local(), table.local());
}

/// Only a peer that is suspect or dead can be evicted: never one that is usable.
pub proof fn law_usable_peers_are_not_evictable(p: PeerInfo)
    ensures
        evictable(p) <==> p.state == PeerState::Suspect || p.state == PeerState::Dead,
        evictable(p) <==> !p.usable(),
{
}

/// No insertion drives out a peer that is active or was just discovered.
pub proof fn law_usable_peers_keep_their_place(s: Seq<PeerInfo>, p: PeerInfo, t: Seq<PeerInfo>, r: Result<InsertOutcome, ()>, k: int)
    requires
        bucket_insert(s, p, t, r),
        0 <= k < s.len(),
        s[k].state == PeerState::Active || s[k].state == PeerState::Discovered,
    ensures
        listed(t, s[k].peer_id),
{
    if listed(s, p.peer_id) {
        let i = choose|i: int| #[trigger]
            stands_at(s, p.peer_id, i) && t == s.remove(i).push(PeerInfo { addr: p.addr, last_seen: p.last_seen, ..s[i] });
        if k == i {
            assert(stands_at(t, s[k].peer_id, t.len() - 1));
        } else {
            assert(stands_at(t, s[k].peer_id, if k < i { k } else { k - 1 }));
        }
    } else if s.len() < K {
        assert(stands_at(t, s[k].peer_id, k));
    } else if exists|i: int| is_victim(s, i) {
        let i = choose|i: int| #[trigger] is_victim(s, i) && t == s.remove(i).push(p);
        assert(stands_at(t, s[k].peer_id, if k < i { k } else { k - 1 }));
    } else {
        assert(stands_at(t, s[k].peer_id, k));
    }
}

/// An insertion fails just if the peer is not there, the bucket is full, and every peer in it is
/// active or was just discovered; nothing changes then. Else the peer stands at the end, with
/// the address that was given, and there are never more than twenty.
pub proof fn law_insertion(s: Seq<PeerInfo>, p: PeerInfo, t: Seq<PeerInfo>, r: Result<InsertOutcome, ()>)
    requires
        bucket_insert(s, p, t, r),
        s.len() <= 20,
    ensures
        r is Err ==> s.len() == 20 && t == s && !listed(s, p.peer_id),
        r is Err ==> forall|i: int|
            0 <= i < s.len() ==> (#[trigger] s[i]).state == PeerState::Active || s[i].state == PeerState::Discovered,
        s.len() < 20 || listed(s, p.peer_id) ==> r is Ok,
        (exists|i: int| 0 <= i < s.len() && ((#[trigger] s[i]).state == PeerState::Suspect || s[i].state == PeerState::Dead)) ==> r is Ok,
        r is Ok ==> t.len() > 0 && t.len() <= 20 && t.last().peer_id == p.peer_id && t.last().addr == p.addr && t.last().last_seen
            == p.last_seen,
        r == Ok::<InsertOutcome, ()>(InsertOutcome::NewPeer) <==> !listed(s, p.peer_id) && s.len() < 20,
        r == Ok::<InsertOutcome, ()>(InsertOutcome::Updated) <==> listed(s, p.peer_id),
        r is Ok && !listed(s, p.peer_id) ==> t.last() == p,
        t.len() == s.len() + (if !listed(s, p.peer_id) && s.len() < 20 { 1int } else { 0int }),
{
    if !listed(s, p.peer_id) && s.len() >= K && !(exists|i: int| is_victim(s, i)) {
        assert forall|i: int| 0 <= i < s.len() implies (#[trigger] s[i]).state == PeerState::Active || s[i].state
            == PeerState::Discovered by {
            assert(!evictable(s[i]));
        }
    }
    if listed(s, p.peer_id) {
        let i = choose|i: int| #[trigger]
            stands_at(s, p.peer_id, i) && t == s.remove(i).push(PeerInfo { addr: p.addr, last_seen: p.last_seen, ..s[i] });
        assert(t.last().peer_id == p.peer_id);
    } else if s.len() >= K && exists|i: int| is_victim(s, i) {
        let i = choose|i: int| #[trigger] is_victim(s, i) && t == s.remove(i).push(p);
        assert(t.last() == p);
    }
}

/// A peer that is updated keeps its state, its record and the time when it was added.
pub proof fn law_update_keeps_the_record(s: Seq<PeerInfo>, p: PeerInfo, t: Seq<PeerInfo>, r: Result<InsertOutcome, ()>, k: int)
    requires
        bucket_insert(s, p, t, r),
        distinct(s),
        0 <= k < s.len(),
        s[k].peer_id == p.peer_id,
    ensures
        t.last().state == s[k].state,
        t.last().score == s[k].score,
        t.last().added_at == s[k].added_at,
        forall|j: int| 0 <= j < s.len() && j != k ==> t.contains(#[trigger] s[j]),
{
    assert(stands_at(s, p.peer_id, k));
    let i = choose|i: int| #[trigger]
        stands_at(s, p.peer_id, i) && t == s.remove(i).push(PeerInfo { addr: p.addr, last_seen: p.last_seen, ..s[i] });
    if i < k {
        assert(s[i].peer_id != s[k].peer_id);
    } else if k < i {
        assert(s[k].peer_id != s[i].peer_id);
    }
    assert forall|j: int| 0 <= j < s.len() && j != k implies t.contains(#[trigger] s[j]) by {
        assert(t[if j < k { j } else { j - 1 }] == s[j]);
    }
}

/// Where one peer makes way for another, it is one of those in doubt, and none of those ranks
/// lower. All others stay.
pub proof fn law_lowest_ranked_makes_way(s: Seq<PeerInfo>, p: PeerInfo, t: Seq<PeerInfo>, gone: int)
    requires
        bucket_insert(s, p, t, Ok(InsertOutcome::Evicted)),
        distinct(s),
        0 <= gone < s.len(),
        !listed(t, s[gone].peer_id),
    ensures
        s[gone].state == PeerState::Suspect || s[gone].state == PeerState::Dead,
        forall|j: int|
            0 <= j < s.len() && ((#[trigger] s[j]).state == PeerState::Suspect || s[j].state == PeerState::Dead) ==> s[gone].score.rank
                <= s[j].score.rank,
        forall|j: int|
            0 <= j < gone && ((#[trigger] s[j]).state == PeerState::Suspect || s[j].state == PeerState::Dead) ==> s[gone].score.rank
                < s[j].score.rank,
        forall|j: int| 0 <= j < s.len() && j != gone ==> t.contains(#[trigger] s[j]),
{
    let i = choose|i: int| #[trigger] is_victim(s, i) && t == s.remove(i).push(p);
    if gone != i {
        assert(stands_at(t, s[gone].peer_id, if gone < i { gone } else { gone - 1 }));
    }
    assert forall|j: int| 0 <= j < s.len() && j != gone implies t.contains(#[trigger] s[j]) by {
        assert(t[if j < i { j } else { j - 1 }] == s[j]);
    }
    assert forall|j: int|
        0 <= j < s.len() && ((#[trigger] s[j]).state == PeerState::Suspect || s[j].state == PeerState::Dead) implies s[gone].score.rank
        <= s[j].score.rank by {
        assert(evictable(s[j]));
    }
    assert forall|j: int|
        0 <= j < gone && ((#[trigger] s[j]).state == PeerState::Suspect || s[j].state == PeerState::Dead) implies s[gone].score.rank
        < s[j].score.rank by {
        assert(evictable(s[j]));
    }
}

/// What is told of an insertion: a new peer, or one that drove out another, is new; one that was
/// there is not; and of a full bucket the number is told.
pub proof fn law_insertion_is_told(bucket: usize)
    ensures
        insert_result(Ok(InsertOutcome::NewPeer), bucket) == Ok::<bool, DhtError>(true),
        insert_result(Ok(InsertOutcome::Evicted), bucket) == Ok::<bool, DhtError>(true),
        insert_result(Ok(InsertOutcome::Updated), bucket) == Ok::<bool, DhtError>(false),
        insert_result(Err(()), bucket) == Err::<bool, DhtError>(DhtError::BucketFull { bucket }),
{
}

/// Just the dead are dropped, and the others keep their order.
pub proof fn law_only_the_dead_are_dropped(s: Seq<PeerInfo>, p: PeerInfo)
    ensures
        without_dead(s.push(p)) == (if p.state == PeerState::Dead { without_dead(s) } else { without_dead(s).push(p) }),
        without_dead(Seq::<PeerInfo>::empty()) == Seq::<PeerInfo>::empty(),
        without_dead(s).contains(p) <==> s.contains(p) && p.state != PeerState::Dead,
{
    assert(s.push(p).drop_last() =~= s);
    lemma_without_dead(s);
}

/// Just the peers that are suspect or dead are left out of the usable ones, and the others keep
/// their order.
pub proof fn law_usable_peers(s: Seq<PeerInfo>, p: PeerInfo)
    ensures
        only_usable(s.push(p)) == (if p.state == PeerState::Suspect || p.state == PeerState::Dead {
            only_usable(s)
        } else {
            only_usable(s).push(p)
        }),
        only_usable(Seq::<PeerInfo>::empty()) == Seq::<PeerInfo>::empty(),
{
    assert(s.push(p).drop_last() =~= s);
}

/// Every peer is counted in its state.
pub proof fn law_every_peer_is_counted(s: Seq<PeerInfo>)
    ensures
        in_state(s, PeerState::Discovered) + in_state(s, PeerState::Active) + in_state(s, PeerState::Suspect) + in_state(
            s,
            PeerState::Dead,
        ) == s.len(),
        in_state(s, PeerState::Discovered) + in_state(s, PeerState::Active) == only_usable(s).len(),
        s.len() - in_state(s, PeerState::Dead) == without_dead(s).len(),
    decreases s.len(),
{
    if s.len() > 0 {
        law_every_peer_is_counted(s.drop_last());
    }
}

/// The closest peers are usable, each is at most as far from the target as any usable peer that
/// is left out, and none is left out while there is room.
pub proof fn law_closest_leave_out_none_that_is_closer(peers: Seq<PeerInfo>, target: PeerId, count: nat, r: Seq<PeerInfo>, k: int)
    requires
        closest_among(peers, target, count, r),
        0 <= k < peers.len(),
        peers[k].state == PeerState::Active || peers[k].state == PeerState::Discovered,
    ensures
        r.len() <= count,
        r.contains(peers[k]) || (r.len() == count && forall|i: int|
            0 <= i < r.len() ==> distance((#[trigger] r[i]).peer_id, target) < distance(peers[k].peer_id, target)),
        forall|i: int|
            0 <= i < r.len() ==> peers.contains(#[trigger] r[i]) && r[i].state != PeerState::Suspect && r[i].state != PeerState::Dead,
        forall|i: int, j: int|
            0 <= i < j < r.len() ==> distance((#[trigger] r[i]).peer_id, target) < distance((#[trigger] r[j]).peer_id, target),
{
}

/// A bucket is stale just if it holds peers and was not refreshed for longer than the given time.
pub proof fn law_stale_buckets(table: RoutingTable, b: usize, max_age: Duration, now: Instant)
    ensures
        table.stale(b, max_age, now) <==> b < 256 && table@[b as int].peers@.len() > 0 && now.nanos
            - table@[b as int].last_refresh.nanos > max_age.nanos,
{
}

/// The peers of a table are those of its buckets, and no others.
pub proof fn law_table_lists_every_peer(table: RoutingTable, p: PeerInfo)
    requires
        table.wf(),
    ensures
        table.peers().contains(p) <==> exists|b: int| 0 <= b < 256 && (#[trigger] table@[b]).peers@.contains(p),
{
    table.lemma_wf();
    lemma_flat_contains(table@, NUM_BUCKETS as int, p);
}

/// A peer that has answered stands at the end of its bucket, is active, and cannot be evicted.
pub proof fn law_answering_peer_is_active(before: RoutingTable, after: RoutingTable, id: PeerId, latency: Duration, now: Instant)
    requires
        before.wf(),
        before.knows(id),
        before.moved(after, id, |p: PeerInfo| p.after_answer(latency, now)),
    ensures
        after.knows(id),
        ({
            let s = after@[bucket_of(before.local(), id)->0 as int].peers@;
            s.len() > 0 && s.last().peer_id == id && s.last().state == PeerState::Active && s.last().last_seen == now && !evictable(
                s.last(),
            ) && s.last().usable()
        }),
{
    let b = bucket_of(before.local(), id)->0 as int;
    let s = after@[b].peers@;
    assert(stands_at(s, id, s.len() - 1));
}

/// A peer that has failed to answer is suspect, and can be evicted.
pub proof fn law_silent_peer_is_suspect(before: RoutingTable, after: RoutingTable, id: PeerId, now: Instant)
    requires
        before.wf(),
        before.knows(id),
        before.changed(after, id, |p: PeerInfo| p.after_silence(now)),
    ensures
        exists|i: int| #[trigger]
            stands_at(after@[bucket_of(before.local(), id)->0 as int].peers@, id, i) && after@[bucket_of(
                before.local(),
                id,
            )->0 as int].peers@[i].state == PeerState::Suspect,
{
    let b = bucket_of(before.local(), id)->0 as int;
    let i = choose|i: int| #[trigger]
        stands_at(before@[b].peers@, id, i) && after@[b].peers@ == before@[b].peers@.update(i, before@[b].peers@[i].after_silence(now));
    assert(stands_at(after@[b].peers@, id, i));
}

/// The figures of the table, in words.
pub proof fn law_description_of_the_table(s: RoutingStats)
    ensures
        s.description() == "RT["@ + dec(s.total_peers as nat) + " peers in "@ + dec(s.non_empty_buckets as nat) + " buckets: "@ + dec(
            s.active as nat,
        ) + " active, "@ + dec(s.suspect as nat) + " suspect, "@ + dec(s.discovered as nat) + " discovered]"@,
{
}

proof fn lemma_of_rank_contains(s: Seq<PeerInfo>, rank: i64, p: PeerInfo)
    ensures
        of_rank(s, rank).contains(p) <==> s.contains(p) && p.score.rank == rank,
    decreases s.len(),
{
    if s.len() > 0 {
        let d = s.drop_last();
        lemma_of_rank_contains(d, rank, p);
        let o = of_rank(d, rank);
        if d.contains(p) {
            let i = choose|i: int| 0 <= i < d.len() && d[i] == p;
            assert(s[i] == p);
        }
        if s.contains(p) && p != s.last() {
            let i = choose|i: int| 0 <= i < s.len() && s[i] == p;
            assert(d[i] == p);
        }
        if p == s.last() {
            assert(s[s.len() - 1] == p);
        }
        if p.score.rank == rank && p == s.last() {
            assert(of_rank(s, rank)[o.len() as int] == p);
        }
        if o.contains(p) {
            let i = choose|i: int| 0 <= i < o.len() && o[i] == p;
            assert(of_rank(s, rank)[i] == p);
        }
        if of_rank(s, rank).contains(p) {
            let i = choose|i: int| 0 <= i < of_rank(s, rank).len() && of_rank(s, rank)[i] == p;
            if i < o.len() {
                assert(o[i] == p);
            }
        }
    }
}

/// The best peers come first: those of higher rank before those of lower rank, and of equal rank in
/// the order in which they stood. Nobody comes in, and nobody is left out.
pub proof fn law_best_come_first(s: Seq<PeerInfo>, r: Seq<PeerInfo>, p: PeerInfo, i: int, j: int)
    requires
        best_first(s, r),
    ensures
        0 <= i < j < r.len() ==> r[i].score.rank >= r[j].score.rank,
        r.contains(p) <==> s.contains(p),
        of_rank(s.push(p), p.score.rank) == of_rank(s, p.score.rank).push(p),
{
    assert(of_rank(r, p.score.rank) == of_rank(s, p.score.rank));
    lemma_of_rank_contains(s, p.score.rank, p);
    lemma_of_rank_contains(r, p.score.rank, p);
    assert(s.push(p).drop_last() =~= s);
}

/// A peer counts in its own state and in no other.
pub proof fn law_peers_count_in_their_state(s: Seq<PeerInfo>, p: PeerInfo, state: PeerState)
    ensures
        in_state(Seq::<PeerInfo>::empty(), state) == 0,
        state == p.state ==> in_state(s.push(p), state) == in_state(s, state) + 1,
        state != p.state ==> in_state(s.push(p), state) == in_state(s, state),
{
    assert(s.push(p).drop_last() =~= s);
}

/// There are as many peers as are listed, and a bucket counts as filled just if somebody is in it.
pub proof fn law_buckets_are_counted(buckets: Seq<KBucket>, n: int)
    requires
        0 <= n < buckets.len(),
    ensures
        flat(buckets, n).len() == peers_in(buckets, n),
        filled(buckets, 0) == 0,
        buckets[n].peers@.len() > 0 ==> filled(buckets, n + 1) == filled(buckets, n) + 1,
        buckets[n].peers@.len() == 0 ==> filled(buckets, n + 1) == filled(buckets, n),
        peers_in(buckets, n + 1) == peers_in(buckets, n) + buckets[n].peers@.len(),
        flat(buckets, n + 1) == flat(buckets, n) + buckets[n].peers@,
{
    lemma_flat_contains(buckets, n, arbitrary());
}

/// The table's clock does not go back.
pub proof fn law_clock_does_not_go_back(table: RoutingTable, now: Instant)
    ensures
        table.reading(now).nanos >= table.clock().nanos,
        table.reading(now).nanos >= now.nanos,
        table.reading(now) == now || table.reading(now) == table.clock(),
{
}

/// A peer that is removed is no longer known.
pub proof fn law_removed_peer_is_gone(before: RoutingTable, after: RoutingTable, id: PeerId, p: PeerInfo)
    requires
        before.wf(),
        before.removed(after, id, p),
    ensures
        !after.knows(id),
        before.knows(id),
        p.peer_id == id,
{
    before.lemma_wf();
    let b = bucket_of(before.local(), id)->0 as int;
    let s = before@[b].peers@;
    let i = choose|i: int| #[trigger] stands_at(s, id, i) && p == s[i] && after@[b].peers@ == s.remove(i);
    lemma_bucket_index(before.local(), id);
    assert(bucket_in_order(before.local(), s, b));
    assert forall|j: int| !stands_at(after@[b].peers@, id, j) by {
        if stands_at(after@[b].peers@, id, j) {
            assert(stands_at(s, id, if j < i { j } else { j + 1 }));
            assert(s[i].peer_id != s[if j < i { j } else { j + 1 }].peer_id);
        }
    }
}

/// What is done about one peer leaves the others known, or not, as they were.
pub proof fn law_other_peers_stay(
    before: RoutingTable,
    after: RoutingTable,
    id: PeerId,
    other: PeerId,
    f: spec_fn(PeerInfo) -> PeerInfo, p: PeerInfo,
)
    requires
        before.wf(),
        other != id,
        forall|q: PeerInfo| #[trigger] f(q).peer_id == q.peer_id,
        before.changed(after, id, f) || before.moved(after, id, f) || before.removed(after, id, p),
    ensures
        after.knows(other) == before.knows(other),
{
    before.lemma_wf();
    let b = bucket_of(before.local(), id)->0 as int;
    if (before.knows(id) || before.removed(after, id, p)) && bucket_of(before.local(), other) is Some {
        lemma_bucket_index(before.local(), id);
        lemma_bucket_index(before.local(), other);
        let c = bucket_of(before.local(), other)->0 as int;
        if c == b {
            let s = before@[b].peers@;
            let t = after@[b].peers@;
            let i = choose|i: int| #[trigger]
                stands_at(s, id, i) && (t == s.update(i, f(s[i])) || t == s.remove(i).push(f(s[i])) || t == s.remove(i));
            if listed(s, other) {
                let k = choose|k: int| stands_at(s, other, k);
                if t == s.update(i, f(s[i])) {
                    assert(stands_at(t, other, k));
                } else {
                    assert(stands_at(t, other, if k < i { k } else { k - 1 }));
                }
            }
            if listed(t, other) {
                let k = choose|k: int| stands_at(t, other, k);
                assert(f(s[i]).peer_id == id);
                if t == s.update(i, f(s[i])) {
                    assert(stands_at(s, other, k));
                } else {
                    assert(stands_at(s, other, if k < i { k } else { k + 1 }));
                }
            }
        } else {
            assert(after@[c] == before@[c]);
        }
    }
}

proof fn lemma_bucket_index(local: PeerId, id: PeerId)
    ensures
        bucket_of(local, id) is Some ==> bucket_of(local, id)->0 < NUM_BUCKETS,
{
    if let Some(n) = bucket_of(local, id) {
        law_bucket_tells_the_first_difference(local, id, n);
    }
}

/// A peer that answers stands last in its bucket, active, as seen just now. One that does not is
/// suspect, one that is given up dead, and one that is removed is gone.
pub proof fn law_what_happens_in_the_table(id: PeerId, latency: Duration, now: Instant, r: Option<PeerInfo>)
    ensures
        forall|t: &mut RoutingTable| #[trigger]
            call_ensures(RoutingTable::mark_active, (t, &id, latency, now), ()) && t.knows(id) ==> {
                let s = final(t)@[bucket_of(t.local(), id)->0 as int].peers@;
                s.len() > 0 && s.last().peer_id == id && s.last().state == PeerState::Active && s.last().last_seen == t.reading(now)
            },
        forall|t: &mut RoutingTable| #[trigger]
            call_ensures(RoutingTable::mark_suspect, (t, &id, now), ()) && t.knows(id) ==> exists|i: int| #[trigger]
                stands_at(final(t)@[bucket_of(t.local(), id)->0 as int].peers@, id, i) && final(t)@[bucket_of(
                    t.local(),
                    id,
                )->0 as int].peers@[i].state == PeerState::Suspect,
        forall|t: &mut RoutingTable| #[trigger]
            call_ensures(RoutingTable::mark_dead, (t, &id), ()) && t.knows(id) ==> exists|i: int| #[trigger]
                stands_at(final(t)@[bucket_of(t.local(), id)->0 as int].peers@, id, i) && final(t)@[bucket_of(
                    t.local(),
                    id,
                )->0 as int].peers@[i].state == PeerState::Dead,
        forall|t: &mut RoutingTable| #[trigger]
            call_ensures(RoutingTable::remove, (t, &id), r) ==> !final(t).knows(id) && (r is Some <==> t.knows(id)),
{
    assert forall|t: &mut RoutingTable| #[trigger]
        call_ensures(RoutingTable::mark_active, (t, &id, latency, now), ()) && t.knows(id) implies {
        let s = final(t)@[bucket_of(t.local(), id)->0 as int].peers@;
        s.len() > 0 && s.last().peer_id == id && s.last().state == PeerState::Active && s.last().last_seen == t.reading(now)
    } by {
        let b = bucket_of(t.local(), id)->0 as int;
        let f = |p: PeerInfo| p.after_answer(latency, t.reading(now));
        let i = choose|i: int| #[trigger]
            stands_at(t@[b].peers@, id, i) && final(t)@[b].peers@ == t@[b].peers@.remove(i).push(f(t@[b].peers@[i]));
        assert(final(t)@[b].peers@.last() == f(t@[b].peers@[i]));
    }
    assert forall|t: &mut RoutingTable| #[trigger] call_ensures(RoutingTable::mark_suspect, (t, &id, now), ()) && t.knows(id)
        implies exists|i: int| #[trigger]
        stands_at(final(t)@[bucket_of(t.local(), id)->0 as int].peers@, id, i)
            && final(t)@[bucket_of(t.local(), id)->0 as int].peers@[i].state
            == PeerState::Suspect by {
        let b = bucket_of(t.local(), id)->0 as int;
        let f = |p: PeerInfo| p.after_silence(now);
        let i = choose|i: int| #[trigger]
            stands_at(t@[b].peers@, id, i) && final(t)@[b].peers@ == t@[b].peers@.update(i, f(t@[b].peers@[i]));
        assert(stands_at(final(t)@[b].peers@, id, i));
    }
    assert forall|t: &mut RoutingTable| #[trigger] call_ensures(RoutingTable::mark_dead, (t, &id), ()) && t.knows(id)
        implies exists|i: int| #[trigger]
        stands_at(final(t)@[bucket_of(t.local(), id)->0 as int].peers@, id, i)
            && final(t)@[bucket_of(t.local(), id)->0 as int].peers@[i].state
            == PeerState::Dead by {
        let b = bucket_of(t.local(), id)->0 as int;
        let f = |p: PeerInfo| PeerInfo { state: PeerState::Dead, ..p };
        let i = choose|i: int| #[trigger]
            stands_at(t@[b].peers@, id, i) && final(t)@[b].peers@ == t@[b].peers@.update(i, f(t@[b].peers@[i]));
        assert(stands_at(final(t)@[b].peers@, id, i));
    }
    assert forall|t: &mut RoutingTable| #[trigger] call_ensures(RoutingTable::remove, (t, &id), r) implies (r is Some <==> t.knows(id)) by {
        if let Some(p) = r {
            assert(t.removed(*final(t), id, p));
        }
    }
}

/// Ourselves we do not put into the table. A peer that is put in is known from then on, unless its
/// bucket is full of peers that are in use.
pub proof fn law_who_comes_into_the_table(id: PeerId, addr: SocketAddr, now: Instant, r: Result<bool, DhtError>)
    ensures
        forall|t: &mut RoutingTable| #[trigger]
            call_ensures(RoutingTable::insert, (t, id, addr, now), r) && id == t.local() ==> r == Ok::<bool, DhtError>(false) && *final(t)
                == *t,
        forall|t: &mut RoutingTable| #[trigger]
            call_ensures(RoutingTable::insert, (t, id, addr, now), r) && id != t.local() && r is Ok ==> final(t).knows(id),
        forall|t: &mut RoutingTable| #[trigger]
            call_ensures(RoutingTable::insert, (t, id, addr, now), r) && id != t.local() ==> {
                let b = bucket_of(t.local(), id)->0 as int;
                &&& t@[b].peers@.len() < 20 ==> r is Ok
                &&& r is Err ==> r == Err::<bool, DhtError>(DhtError::BucketFull { bucket: b as usize }) && final(t)@[b].peers@
                    == t@[b].peers@
                &&& r is Ok ==> final(t)@[b].peers@.len() > 0 && final(t)@[b].peers@.last().peer_id == id && final(t)@[b].peers@.last().addr
                    == addr
            },
{
    assert forall|t: &mut RoutingTable| #[trigger] call_ensures(RoutingTable::insert, (t, id, addr, now), r) && id != t.local() implies {
        let b = bucket_of(t.local(), id)->0 as int;
        &&& t@[b].peers@.len() < 20 ==> r is Ok
        &&& r is Err ==> r == Err::<bool, DhtError>(DhtError::BucketFull { bucket: b as usize }) && final(t)@[b].peers@ == t@[b].peers@
        &&& r is Ok ==> final(t)@[b].peers@.len() > 0 && final(t)@[b].peers@.last().peer_id == id && final(t)@[b].peers@.last().addr == addr
    } by {
        law_distance_zero(t.local(), id);
        let b = bucket_of(t.local(), id)->0;
        let p = PeerInfo::spec_new(id, addr, t.reading(now));
        let o = choose|o: Result<InsertOutcome, ()>| #[trigger]
            bucket_insert(t@[b as int].peers@, p, final(t)@[b as int].peers@, o) && r == insert_result(o, b as usize);
        if listed(t@[b as int].peers@, id) {
            let s = t@[b as int].peers@;
            let i = choose|i: int| #[trigger]
                stands_at(s, id, i) && final(t)@[b as int].peers@ == s.remove(i).push(
                    PeerInfo { addr: p.addr, last_seen: p.last_seen, ..s[i] },
                );
            assert(s[i].peer_id == id);
        }
    }
}

/// Of the peers in use, those nearest to a target are found, nearest first.
pub proof fn law_who_is_found(table: RoutingTable, target: PeerId, count: usize, r: Vec<&PeerInfo>, i: int, k: int)
    requires
        call_ensures(RoutingTable::find_closest, (&table, &target, count), r),
        0 <= k < table.peers().len(),
    ensures
        r@.len() <= count,
        0 < i < r@.len() ==> distance(r@[i - 1].peer_id, target) < distance(r@[i].peer_id, target),
        0 <= i < r@.len() ==> r@[i].state != PeerState::Suspect && r@[i].state != PeerState::Dead && table.peers().contains(*r@[i]),
        (table.peers()[k].state == PeerState::Active || table.peers()[k].state == PeerState::Discovered) && (forall|j: int|
            0 <= j < r@.len() ==> *(#[trigger] r@[j]) != table.peers()[k]) && 0 <= i < r@.len() ==> r@.len() == count && distance(
            r@[i].peer_id,
            target,
        ) < distance(table.peers()[k].peer_id, target),
{
    let s = r@.map_values(|p: &PeerInfo| *p);
    assert(s.len() == r@.len());
    assert(forall|j: int| 0 <= j < s.len() ==> #[trigger] s[j] == *r@[j]);
    if 0 < i < r@.len() {
        assert(distance(s[i - 1].peer_id, target) < distance(s[i].peer_id, target));
    }
    if 0 <= i < r@.len() {
        assert(table.peers().contains(s[i]) && s[i].usable());
    }
    if forall|j: int| 0 <= j < r@.len() ==> *(#[trigger] r@[j]) != table.peers()[k] {
        assert(!s.contains(table.peers()[k])) by {
            if s.contains(table.peers()[k]) {
                let j = choose|j: int| 0 <= j < s.len() && s[j] == table.peers()[k];
                assert(*r@[j] == table.peers()[k]);
            }
        }
        if 0 <= i < r@.len() && table.peers()[k].usable() {
            assert(distance(s[i].peer_id, target) < distance(table.peers()[k].peer_id, target));
        }
    }
}

/// What a bucket does: it takes in a peer as the insertion says, gives up its dead, and lists those in
/// use, the best first.
pub proof fn law_what_a_bucket_does(
    peer: PeerInfo,
    r: Result<InsertOutcome, ()>,
    b: KBucket,
    list: Vec<&PeerInfo>,
    victim: Option<usize>,
    p: PeerInfo,
    i: int,
)
    requires
        call_ensures(KBucket::closest_peers, (&b,), list),
        call_ensures(KBucket::find_eviction_candidate, (&b,), victim),
    ensures
        forall|x: &mut KBucket| #[trigger]
            call_ensures(KBucket::insert_or_update, (x, peer), r) ==> bucket_insert(x.peers@, peer, final(x).peers@, r),
        forall|x: &mut KBucket| #[trigger]
            call_ensures(KBucket::drop_dead, (x,), ()) ==> (final(x).peers@.contains(p) <==> x.peers@.contains(p) && p.state
                != PeerState::Dead),
        0 < i < list@.len() ==> list@[i - 1].score.rank >= list@[i].score.rank,
        victim is Some ==> victim->0 < b.peers@.len() && (b.peers@[victim->0 as int].state == PeerState::Suspect
            || b.peers@[victim->0 as int].state == PeerState::Dead),
        victim is None && 0 <= i < b.peers@.len() ==> b.peers@[i].state == PeerState::Discovered || b.peers@[i].state
            == PeerState::Active,
{
    assert forall|x: &mut KBucket| #[trigger] call_ensures(KBucket::drop_dead, (x,), ()) implies (final(x).peers@.contains(p)
        <==> x.peers@.contains(p) && p.state != PeerState::Dead) by {
        law_only_the_dead_are_dropped(x.peers@, p);
    }
    let s = list@.map_values(|q: &PeerInfo| *q);
    if 0 < i < list@.len() {
        assert(s[i - 1] == *list@[i - 1] && s[i] == *list@[i]);
        assert(s[i - 1].score.rank >= s[i].score.rank);
    }
    if victim is None && 0 <= i < b.peers@.len() {
        assert(!evictable(b.peers@[i]));
    }
}

/// What is told of the table: how many are in it, how many of them in which state, and which buckets
/// are stale.
pub proof fn law_what_is_told_of_the_table(
    t: RoutingTable,
    n: usize,
    s: RoutingStats,
    max_age: Duration,
    now: Instant,
    stale: Vec<usize>,
    b: usize,
    active: Vec<&PeerInfo>,
)
    requires
        t.wf(),
        call_ensures(RoutingTable::total_peers, (&t,), n),
        call_ensures(RoutingTable::stats, (&t,), s),
        call_ensures(RoutingTable::stale_buckets, (&t, max_age, now), stale),
        call_ensures(RoutingTable::active_peers, (&t,), active),
    ensures
        n == t.peers().len() && s.total_peers == n,
        s.active == in_state(t.peers(), PeerState::Active) && s.suspect == in_state(t.peers(), PeerState::Suspect) && s.discovered
            == in_state(t.peers(), PeerState::Discovered),
        active@.len() == s.active + s.discovered,
        stale@.contains(b) <==> b < 256 && t@[b as int].peers@.len() > 0 && now.nanos - t@[b as int].last_refresh.nanos
            > max_age.nanos,
{
    law_every_peer_is_counted(t.peers());
    law_stale_buckets(t, b, max_age, now);
}

} // verus!
