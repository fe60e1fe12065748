//! A table of values under keys of fixed width.
use vstd::prelude::*;
use dashmap::DashMap;

verus! {

/// The key of a table.
pub type Key = [u8; 32];

/// The concurrent hash map of the `dashmap` crate.
#[verifier::external_type_specification]
#[verifier::external_body]
#[verifier::reject_recursive_types(A)]
#[verifier::reject_recursive_types(B)]
#[verifier::reject_recursive_types(S)]
pub struct ExDashMap<A, B, S>(dashmap::DashMap<A, B, S>);

/// What a hash map from keys to slot numbers holds.
pub uninterp spec fn index_contents(map: DashMap<Key, usize>) -> Map<Key, usize>;

/// `DashMap::new`: an empty map.
#[verifier::external_body]
fn index_new() -> (r: DashMap<Key, usize>)
    ensures
        forall|k: Key| !(#[trigger] index_contents(r).contains_key(k)),
{
    DashMap::new()
}

/// `DashMap::insert`: binds the key to the value, over any earlier binding of that key,
/// and leaves every other key as it was. The earlier value is dropped.
#[verifier::external_body]
fn index_insert(map: &mut DashMap<Key, usize>, key: Key, slot: usize)
    ensures
        index_contents(*final(map)) == index_contents(*old(map)).insert(key, slot),
{
    let _ = map.insert(key, slot);
}

/// `DashMap::remove`: unbinds the key, if it is bound, and leaves every other key as
/// it was. The value that it had is handed out.
#[verifier::external_body]
fn index_remove(map: &mut DashMap<Key, usize>, key: &Key) -> (r: Option<usize>)
    ensures
        index_contents(*final(map)) == index_contents(*old(map)).remove(*key),
        r is Some <==> index_contents(*old(map)).contains_key(*key),
        r matches Some(slot) ==> slot == index_contents(*old(map))[*key],
{
    match map.remove(key) {
        Some(pair) => Some(pair.1),
        None => None,
    }
}

/// `DashMap::get`: the value that the key is bound to, if it is bound.
#[verifier::external_body]
fn index_get(map: &DashMap<Key, usize>, key: &Key) -> (r: Option<usize>)
    ensures
        r is Some <==> index_contents(*map).contains_key(*key),
        r matches Some(slot) ==> slot == index_contents(*map)[*key],
{
    match map.get(key) {
        Some(entry) => Some(*entry.value()),
        None => None,
    }
}

/// Values under keys. The values stand in slots without gaps, so that they can be walked
/// by number; a hash map leads from each key to its slot.
pub struct Table<V> {
    index: DashMap<Key, usize>,
    keys: Vec<Key>,
    values: Vec<V>,
}

impl<V> Table<V> {
    /// Keys and slots agree.
    pub closed spec fn wf(self) -> bool {
        let m = index_contents(self.index);
        &&& self.keys@.len() == self.values@.len()
        &&& forall|i: int|
            0 <= i < self.keys@.len() ==> m.contains_key(#[trigger] self.keys@[i]) && m[self.keys@[i]] == i
        &&& forall|k: Key| #[trigger] m.contains_key(k) ==> m[k] < self.keys@.len() && self.keys@[m[k] as int] == k
    }

    /// What the table holds.
    pub closed spec fn view(self) -> Map<Key, V> {
        Map::new(
            |k: Key| index_contents(self.index).contains_key(k),
            |k: Key| self.values@[index_contents(self.index)[k] as int],
        )
    }

    /// The keys in the order of their slots.
    pub closed spec fn order(self) -> Seq<Key> {
        self.keys@
    }

    /// The slots hold each key of the table exactly once.
    pub proof fn lemma_order(self)
        requires
            self.wf(),
        ensures
            self.order().no_duplicates(),
            forall|i: int| 0 <= i < self.order().len() ==> self@.contains_key(#[trigger] self.order()[i]),
            forall|k: Key| #[trigger] self@.contains_key(k) ==> self.order().contains(k),
            self@.dom().finite(),
            self@.len() == self.order().len(),
    {
        assert(self@.dom() =~= self.keys@.to_set());
        self.keys@.unique_seq_to_set();
    }

    pub fn new() -> (r: Self)
        ensures
            r.wf(),
            r@ == Map::<Key, V>::empty(),
    {
        let r = Table { index: index_new(), keys: Vec::new(), values: Vec::new() };
        assert(r@ =~= Map::<Key, V>::empty());
        r
    }

    /// How many values the table holds.
    pub fn len(&self) -> (r: usize)
        requires
            self.wf(),
        ensures
            r == self@.len(),
            r == self.order().len(),
            self@.dom().finite(),
    {
        proof {
            self.lemma_order();
        }
        self.keys.len()
    }

    /// The slot of a key.
    fn slot(&self, key: &Key) -> (r: Option<usize>)
        requires
            self.wf(),
        ensures
            r is Some <==> self@.contains_key(*key),
            r matches Some(i) ==> i < self.keys@.len() && self.keys@[i as int] == *key && self.values@[i as int] == self@[*key],
    {
        index_get(&self.index, key)
    }

    pub fn contains(&self, key: &Key) -> (r: bool)
        requires
            self.wf(),
        ensures
            r == self@.contains_key(*key),
    {
        self.slot(key).is_some()
    }

    /// The value under a key.
    pub fn get(&self, key: &Key) -> (r: Option<&V>)
        requires
            self.wf(),
        ensures
            r is Some <==> self@.contains_key(*key),
            r matches Some(v) ==> *v == self@[*key],
    {
        match self.slot(key) {
            Some(i) => Some(&self.values[i]),
            None => None,
        }
    }

    /// The key in a slot.
    pub fn key_at(&self, i: usize) -> (r: Key)
        requires
            self.wf(),
            i < self.order().len(),
        ensures
            r == self.order()[i as int],
            self@.contains_key(r),
    {
        self.keys[i]
    }

    /// The value in a slot.
    pub fn value_at(&self, i: usize) -> (r: &V)
        requires
            self.wf(),
            i < self.order().len(),
        ensures
            self@.contains_key(self.order()[i as int]),
            *r == self@[self.order()[i as int]],
    {
        assert(index_contents(self.index).contains_key(self.keys@[i as int]));
        &self.values[i]
    }

    /// Puts a value under a key and hands out the one that stood there.
    pub fn insert(&mut self, key: Key, value: V) -> (r: Option<V>)
        requires
            old(self).wf(),
        ensures
            final(self).wf(),
            final(self)@ == old(self)@.insert(key, value),
            r is Some <==> old(self)@.contains_key(key),
            r matches Some(v) ==> v == old(self)@[key],
            old(self)@.contains_key(key) ==> final(self).order() == old(self).order(),
            !old(self)@.contains_key(key) ==> final(self).order() == old(self).order().push(key),
    {
        match self.slot(&key) {
            Some(i) => {
                let mut displaced = value;
                std::mem::swap(&mut self.values[i], &mut displaced);
                assert(self@ =~= old(self)@.insert(key, value));
                Some(displaced)
            },
            None => {
                let n: usize = self.keys.len();
                index_insert(&mut self.index, key, n);
                self.keys.push(key);
                self.values.push(value);
                assert(self@ =~= old(self)@.insert(key, value));
                None
            },
        }
    }

    /// Takes the value under a key out of the table.
    pub fn remove(&mut self, key: &Key) -> (r: Option<V>)
        requires
            old(self).wf(),
        ensures
            final(self).wf(),
            final(self)@ == old(self)@.remove(*key),
            r is Some <==> old(self)@.contains_key(*key),
            r matches Some(v) ==> v == old(self)@[*key],
    {
        match index_remove(&mut self.index, key) {
            Some(i) => {
                let last: usize = self.keys.len() - 1;
                if i < last {
                    let moved = self.keys[last];
                    index_insert(&mut self.index, moved, i);
                }
                let _ = self.keys.swap_remove(i);
                let value = self.values.swap_remove(i);
                assert(self@ =~= old(self)@.remove(*key));
                Some(value)
            },
            None => {
                assert(self@ =~= old(self)@.remove(*key));
                None
            },
        }
    }
}

} // verus!
