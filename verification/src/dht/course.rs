//! The whole course of a lookup: what it has heard of, whom it has asked, and what it finds.
use vstd::prelude::*;
use vstd::set_lib::lemma_len_subset;
use crate::crypto::identity::{distance, PeerId};
use crate::dht::operations::{
    first_alpha, has_peer, ids, law_closest_are_kept, law_known_peers_stay_in_order, lemma_place, lemma_unasked_facts,
    measured, names, nearest_first, place, unasked, with_peer, with_peers, FindNodeResult, IterativeLookup, Known, MAX_KNOWN,
};
use crate::dht::routing::{ALPHA, K};

verus! {

/// A call to a lookup: it hears of peers, one after the other, or it tells which peers to
/// ask next.
pub enum Call {
    Hear(Seq<Known>),
    Ask(Seq<Known>),
}

/// What a call does to a lookup.
pub open spec fn step(before: IterativeLookup, call: Call, after: IterativeLookup) -> bool {
    &&& after.goal() == before.goal()
    &&& match call {
        Call::Hear(ps) => {
            &&& after.known() == with_peers(before.known(), before.goal(), ps)
            &&& after.asked() == before.asked()
            &&& after.rounds() == before.rounds()
            &&& after.done() == before.done()
        },
        Call::Ask(q) => {
            &&& q == first_alpha(unasked(before.known(), before.asked()))
            &&& after.known() == before.known()
            &&& after.asked() == before.asked() + ids(q)
            &&& after.rounds() == before.rounds() + 1
            &&& after.done() == (before.done() || q.len() == 0)
        },
    }
}

/// A lookup from its beginning with some peers, through the calls.
pub open spec fn course(lookups: Seq<IterativeLookup>, seeds: Seq<Known>, calls: Seq<Call>) -> bool {
    &&& lookups.len() == calls.len() + 1
    &&& forall|k: int| 0 <= k < lookups.len() ==> (#[trigger] lookups[k]).wf()
    &&& lookups[0].known() == with_peers(Seq::empty(), lookups[0].goal(), seeds)
    &&& lookups[0].asked() == Seq::<PeerId>::empty()
    &&& lookups[0].rounds() == 0
    &&& !lookups[0].done()
    &&& forall|k: int| 0 <= k < calls.len() ==> step(lookups[k], #[trigger] calls[k], lookups[k + 1])
}

/// All that was heard of, from the beginning.
pub open spec fn heard_of(seeds: Seq<Known>, calls: Seq<Call>) -> Seq<Known>
    decreases calls.len(),
{
    if calls.len() == 0 {
        seeds
    } else {
        match calls.last() {
            Call::Hear(ps) => heard_of(seeds, calls.drop_last()) + ps,
            Call::Ask(_) => heard_of(seeds, calls.drop_last()),
        }
    }
}

/// All that were to be asked, in that order.
pub open spec fn told_to_ask(calls: Seq<Call>) -> Seq<Known>
    decreases calls.len(),
{
    if calls.len() == 0 {
        Seq::empty()
    } else {
        match calls.last() {
            Call::Hear(_) => told_to_ask(calls.drop_last()),
            Call::Ask(q) => told_to_ask(calls.drop_last()) + q,
        }
    }
}

/// How often it was told whom to ask.
pub open spec fn rounds_of(calls: Seq<Call>) -> int
    decreases calls.len(),
{
    if calls.len() == 0 {
        0
    } else {
        rounds_of(calls.drop_last()) + (if calls.last() is Ask { 1int } else { 0int })
    }
}

/// There was nobody to ask at some time.
pub open spec fn ran_dry(calls: Seq<Call>) -> bool {
    exists|k: int| 0 <= k < calls.len() && (#[trigger] calls[k] matches Call::Ask(q) && q.len() == 0)
}

/// The peers are the `limit` nearest to the target of all, or all of them if they are fewer,
/// each once and the nearest first.
pub open spec fn nearest_of(all: Seq<Known>, target: PeerId, limit: int, s: Seq<Known>) -> bool {
    &&& nearest_first(s, target)
    &&& s.len() <= limit
    &&& forall|i: int| 0 <= i < s.len() ==> all.contains(#[trigger] s[i])
    &&& forall|k: int|
        0 <= k < all.len() && !has_peer(s, (#[trigger] all[k]).0) ==> s.len() == limit && forall|i: int|
            0 <= i < s.len() ==> distance((#[trigger] s[i]).0, target) < distance(all[k].0, target)
}

proof fn lemma_hear_one(all: Seq<Known>, target: PeerId, s: Seq<Known>, p: Known)
    requires
        nearest_of(all, target, MAX_KNOWN as int, s),
    ensures
        nearest_of(all.push(p), target, MAX_KNOWN as int, with_peer(s, target, p)),
{
    let u = with_peer(s, target, p);
    let more = all.push(p);
    let d = distance(p.0, target);
    let at = place(s, target, d);
    let t = s.insert(at, p);
    lemma_place(s, target, d);
    law_known_peers_stay_in_order(s, target, p);
    assert forall|i: int| 0 <= i < u.len() implies more.contains(#[trigger] u[i]) by {
        if has_peer(s, p.0) {
            assert(all.contains(s[i]));
            let k = choose|k: int| 0 <= k < all.len() && all[k] == s[i];
            assert(more[k] == u[i]);
        } else if i == at {
            assert(more[all.len() as int] == p);
        } else {
            let j = if i < at { i } else { i - 1 };
            assert(u[i] == s[j]);
            assert(all.contains(s[j]));
            let k = choose|k: int| 0 <= k < all.len() && all[k] == s[j];
            assert(more[k] == u[i]);
        }
    }
    assert forall|k: int| 0 <= k < more.len() && !has_peer(u, (#[trigger] more[k]).0) implies u.len() == MAX_KNOWN && forall|i: int|
        0 <= i < u.len() ==> distance((#[trigger] u[i]).0, target) < distance(more[k].0, target) by {
        let y = more[k];
        if has_peer(s, p.0) {
            if k == all.len() {
                assert(has_peer(s, y.0));
            } else {
                assert(all[k] == y);
            }
        } else if has_peer(s, y.0) {
            let j = choose|j: int| 0 <= j < s.len() && (#[trigger] s[j]).0 == y.0;
            assert(!u.contains(s[j])) by {
                if u.contains(s[j]) {
                    let l = choose|l: int| 0 <= l < u.len() && u[l] == s[j];
                    assert(u[l].0 == y.0);
                }
            }
            assert(s.contains(s[j]));
            law_closest_are_kept(s, target, p, s[j]);
        } else if k == all.len() {
            assert(!u.contains(p)) by {
                if u.contains(p) {
                    let l = choose|l: int| 0 <= l < u.len() && u[l] == p;
                    assert(u[l].0 == y.0);
                }
            }
            law_closest_are_kept(s, target, p, p);
        } else {
            assert(all[k] == y);
            assert(s.len() == MAX_KNOWN);
            assert(u.len() == MAX_KNOWN);
            assert forall|i: int| 0 <= i < u.len() implies distance((#[trigger] u[i]).0, target) < distance(y.0, target) by {
                if i == at {
                    assert(u[i] == p);
                    assert(distance(s[at].0, target) > d);
                } else {
                    let j = if i < at { i } else { i - 1 };
                    assert(u[i] == s[j]);
                }
            }
        }
    }
}

proof fn lemma_hear(all: Seq<Known>, target: PeerId, s: Seq<Known>, ps: Seq<Known>)
    requires
        nearest_of(all, target, MAX_KNOWN as int, s),
    ensures
        nearest_of(all + ps, target, MAX_KNOWN as int, with_peers(s, target, ps)),
    decreases ps.len(),
{
    if ps.len() == 0 {
        assert(all + ps =~= all);
    } else {
        lemma_hear(all, target, s, ps.drop_last());
        lemma_hear_one(all + ps.drop_last(), target, with_peers(s, target, ps.drop_last()), ps.last());
        assert(all + ps =~= (all + ps.drop_last()).push(ps.last()));
    }
}

/// What the calls so far have come to.
pub open spec fn stands(l: IterativeLookup, target: PeerId, seeds: Seq<Known>, calls: Seq<Call>) -> bool {
    &&& l.goal() == target
    &&& nearest_of(heard_of(seeds, calls), target, MAX_KNOWN as int, l.known())
    &&& l.asked() == ids(told_to_ask(calls))
    &&& l.rounds() == rounds_of(calls)
    &&& l.done() == ran_dry(calls)
}

proof fn lemma_course(lookups: Seq<IterativeLookup>, seeds: Seq<Known>, calls: Seq<Call>, n: int)
    requires
        course(lookups, seeds, calls),
        0 <= n <= calls.len(),
    ensures
        stands(lookups[n], lookups[0].goal(), seeds, calls.take(n)),
    decreases n,
{
    let target = lookups[0].goal();
    let now = calls.take(n);
    if n == 0 {
        assert(now =~= Seq::<Call>::empty());
        assert(nearest_of(Seq::<Known>::empty(), target, MAX_KNOWN as int, Seq::<Known>::empty()));
        lemma_hear(Seq::<Known>::empty(), target, Seq::<Known>::empty(), seeds);
        assert(Seq::<Known>::empty() + seeds =~= seeds);
        assert(ids(told_to_ask(now)) =~= Seq::<PeerId>::empty());
    } else {
        lemma_course(lookups, seeds, calls, n - 1);
        let was = calls.take(n - 1);
        assert(now.drop_last() =~= was);
        assert(now.last() == calls[n - 1]);
        let before = lookups[n - 1];
        let after = lookups[n - 1 + 1];
        assert(step(before, calls[n - 1], after));
        assert forall|k: int| 0 <= k < n - 1 implies now[k] == was[k] by {}
        match calls[n - 1] {
            Call::Hear(ps) => {
                lemma_hear(heard_of(seeds, was), target, before.known(), ps);
            },
            Call::Ask(q) => {
                assert(ids(told_to_ask(now)) =~= ids(told_to_ask(was)) + ids(q));
            },
        }
        assert(ran_dry(now) == (ran_dry(was) || (calls[n - 1] matches Call::Ask(q) && q.len() == 0))) by {
            if ran_dry(was) {
                let k = choose|k: int| 0 <= k < was.len() && (#[trigger] was[k] matches Call::Ask(q) && q.len() == 0);
                assert(now[k] == was[k]);
            }
            if ran_dry(now) {
                let k = choose|k: int| 0 <= k < now.len() && (#[trigger] now[k] matches Call::Ask(q) && q.len() == 0);
                if k < n - 1 {
                    assert(now[k] == was[k]);
                }
            }
            if calls[n - 1] matches Call::Ask(q) && q.len() == 0 {
                assert(now[n - 1] == calls[n - 1]);
            }
        }
    }
}

proof fn lemma_distinct_ids(s: Seq<Known>, target: PeerId)
    requires
        nearest_first(s, target),
    ensures
        ids(s).no_duplicates(),
{
    assert forall|i: int, j: int| 0 <= i < ids(s).len() && 0 <= j < ids(s).len() && i != j implies ids(s)[i] != ids(s)[j] by {
        if i < j {
            assert(distance(s[i].0, target) < distance(s[j].0, target));
        } else {
            assert(distance(s[j].0, target) < distance(s[i].0, target));
        }
    }
}

/// As many of them as there are, or as the limit allows.
proof fn lemma_nearest_count(all: Seq<Known>, target: PeerId, limit: int, s: Seq<Known>)
    requires
        nearest_of(all, target, limit, s),
    ensures
        s.len() == (if ids(all).to_set().len() < limit { ids(all).to_set().len() as int } else { limit }),
{
    let few = ids(s).to_set();
    let many = ids(all).to_set();
    lemma_distinct_ids(s, target);
    ids(s).unique_seq_to_set();
    vstd::seq_lib::seq_to_set_is_finite(ids(all));
    assert(few.subset_of(many)) by {
        assert forall|x: PeerId| few.contains(x) implies many.contains(x) by {
            let i = choose|i: int| 0 <= i < ids(s).len() && ids(s)[i] == x;
            assert(all.contains(s[i]));
            let k = choose|k: int| 0 <= k < all.len() && all[k] == s[i];
            assert(ids(all)[k] == x);
        }
    }
    lemma_len_subset(few, many);
    if s.len() < limit {
        assert(many.subset_of(few)) by {
            assert forall|x: PeerId| many.contains(x) implies few.contains(x) by {
                let k = choose|k: int| 0 <= k < ids(all).len() && ids(all)[k] == x;
                assert(all[k].0 == x);
                assert(has_peer(s, x));
                let i = choose|i: int| 0 <= i < s.len() && (#[trigger] s[i]).0 == x;
                assert(ids(s)[i] == x);
            }
        }
        assert(many =~= few);
    }
}

proof fn lemma_nearest_prefix(all: Seq<Known>, target: PeerId, limit: int, s: Seq<Known>, few: int)
    requires
        nearest_of(all, target, limit, s),
        0 <= few <= limit,
    ensures
        nearest_of(all, target, few, s.take(if s.len() < few { s.len() as int } else { few })),
{
    let t = s.take(if s.len() < few { s.len() as int } else { few });
    assert forall|i: int, j: int| 0 <= i < j < t.len() implies distance((#[trigger] t[i]).0, target) < distance((#[trigger] t[j]).0, target) by {
        assert(t[i] == s[i] && t[j] == s[j]);
    }
    assert forall|i: int| 0 <= i < t.len() implies all.contains(#[trigger] t[i]) by {
        assert(t[i] == s[i]);
    }
    assert forall|k: int| 0 <= k < all.len() && !has_peer(t, (#[trigger] all[k]).0) implies t.len() == few && forall|i: int|
        0 <= i < t.len() ==> distance((#[trigger] t[i]).0, target) < distance(all[k].0, target) by {
        if has_peer(s, all[k].0) {
            let j = choose|j: int| 0 <= j < s.len() && (#[trigger] s[j]).0 == all[k].0;
            if j < t.len() {
                assert(t[j].0 == all[k].0);
            }
            assert forall|i: int| 0 <= i < t.len() implies distance((#[trigger] t[i]).0, target) < distance(all[k].0, target) by {
                assert(t[i] == s[i]);
                assert(distance(s[i].0, target) < distance(s[j].0, target));
            }
        } else {
            assert forall|i: int| 0 <= i < t.len() implies distance((#[trigger] t[i]).0, target) < distance(all[k].0, target) by {
                assert(t[i] == s[i]);
            }
        }
    }
}

/// Whatever a lookup has heard of and whenever it was asked, it finds the nearest peers of all
/// that it ever heard of: twenty of them, or all if they are fewer, each once, with their
/// distances and the nearest first. It tells how often it was asked, and how many peers it
/// named.
pub proof fn law_result_is_the_nearest_ever_heard_of(
    lookups: Seq<IterativeLookup>,
    seeds: Seq<Known>,
    calls: Seq<Call>,
    r: FindNodeResult,
)
    requires
        course(lookups, seeds, calls),
        lookups.last().reports(r),
    ensures
        nearest_of(heard_of(seeds, calls), lookups[0].goal(), K as int, names(r.closest@)),
        r.closest@.len() == (if ids(heard_of(seeds, calls)).to_set().len() < K {
            ids(heard_of(seeds, calls)).to_set().len() as int
        } else {
            K as int
        }),
        measured(r.closest@, lookups[0].goal()),
        r.hops == rounds_of(calls),
        r.queried_count == told_to_ask(calls).len(),
{
    let n = calls.len() as int;
    let target = lookups[0].goal();
    lemma_course(lookups, seeds, calls, n);
    assert(calls.take(n) =~= calls);
    let l = lookups[n];
    lemma_nearest_prefix(heard_of(seeds, calls), target, MAX_KNOWN as int, l.known(), K as int);
    lemma_nearest_count(heard_of(seeds, calls), target, K as int, names(r.closest@));
    assert(names(r.closest@).len() == r.closest@.len());
}

/// At any time a lookup considers the sixty nearest peers of all that it ever heard of. It
/// names the nearest three of those that it has not named before, in the order of their
/// distance.
pub proof fn law_nearest_are_asked_next(lookups: Seq<IterativeLookup>, seeds: Seq<Known>, calls: Seq<Call>, n: int)
    requires
        course(lookups, seeds, calls),
        0 <= n < calls.len(),
        calls[n] is Ask,
    ensures
        nearest_of(heard_of(seeds, calls.take(n)), lookups[0].goal(), MAX_KNOWN as int, lookups[n].known()),
        nearest_of(unasked(lookups[n].known(), ids(told_to_ask(calls.take(n)))), lookups[0].goal(), ALPHA as int, calls[n]->Ask_0),
        forall|p: Known| #[trigger]
            unasked(lookups[n].known(), ids(told_to_ask(calls.take(n)))).contains(p) <==> lookups[n].known().contains(p) && !ids(
                told_to_ask(calls.take(n)),
            ).contains(p.0),
        lookups[n + 1].rounds() == lookups[n].rounds() + 1,
{
    let target = lookups[0].goal();
    lemma_course(lookups, seeds, calls, n);
    let l = lookups[n];
    let u = unasked(l.known(), l.asked());
    assert(step(l, calls[n], lookups[n + 1]));
    lemma_unasked_facts(l.known(), l.asked(), target);
    assert forall|p: Known| #[trigger] u.contains(p) implies l.known().contains(p) && !l.asked().contains(p.0) by {
        let i = choose|i: int| 0 <= i < u.len() && u[i] == p;
        assert(l.known().contains(u[i]));
    }
    assert(nearest_of(u, target, u.len() as int + ALPHA, u)) by {
        assert forall|k: int| 0 <= k < u.len() implies has_peer(u, (#[trigger] u[k]).0) by {}
        assert forall|i: int| 0 <= i < u.len() implies u.contains(#[trigger] u[i]) by {}
    }
    lemma_nearest_prefix(u, target, u.len() as int + ALPHA, u, ALPHA as int);
    assert(u.take(u.len() as int) =~= u);
}

/// In the whole course of a lookup nobody is named twice. The lookup is complete just if there
/// was nobody to name at some time.
pub proof fn law_nobody_is_ever_asked_twice(lookups: Seq<IterativeLookup>, seeds: Seq<Known>, calls: Seq<Call>, n: int)
    requires
        course(lookups, seeds, calls),
        0 <= n <= calls.len(),
    ensures
        ids(told_to_ask(calls.take(n))).no_duplicates(),
        lookups[n].done() <==> ran_dry(calls.take(n)),
        lookups[n].rounds() == rounds_of(calls.take(n)),
{
    lemma_course(lookups, seeds, calls, n);
    lookups[n].lemma_wf();
}

/// Hearing of one peer is hearing of a list with that peer alone.
pub proof fn law_one_peer_is_a_list(s: Seq<Known>, target: PeerId, p: Known)
    ensures
        with_peer(s, target, p) == with_peers(s, target, seq![p]),
{
    reveal_with_fuel(with_peers, 2);
    let ps = seq![p];
    assert(ps.drop_last() =~= Seq::<Known>::empty());
    assert(ps.last() == p);
}

} // verus!
