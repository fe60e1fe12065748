//! Storage in two tiers: a cache of entries in memory, and rows on disk that are written
//! behind in batches.
use vstd::prelude::*;
use vstd::string::*;
use crate::crypto::identity::PeerId;
use crate::dht::DhtError;
use crate::table::{Key, Table};
use crate::time::{unix_secs, Duration};
use crate::wire::{
    be, be_at, be_val, bytes_equal, copy_array, copy_range, get_be, lemma_array_eq, lemma_be_len, lemma_be_roundtrip, lemma_pow256_values,
    put_be, put_bytes,
};

verus! {

/// A stored value, with who published it and when it expires.
#[derive(Debug)]
pub struct StoredEntry {
    pub key: [u8; 32],
    pub value: Vec<u8>,
    pub publisher: PeerId,
    /// In seconds since the Unix epoch.
    pub expires_at: u64,
}

impl Clone for StoredEntry {
    fn clone(&self) -> (r: Self)
        ensures
            r.same(*self),
    {
        let value = copy_range(self.value.as_slice(), 0, self.value.len());
        assert(value@ =~= self.value@);
        StoredEntry { key: self.key, value, publisher: self.publisher, expires_at: self.expires_at }
    }
}

/// When something expires that lives for `ttl` seconds from `now` on. What would expire
/// beyond the end of time never does.
pub open spec fn expiry(now: u64, ttl: u64) -> u64 {
    if now + ttl <= u64::MAX {
        (now + ttl) as u64
    } else {
        u64::MAX
    }
}

impl StoredEntry {
    /// The same entry.
    pub open spec fn same(self, o: StoredEntry) -> bool {
        &&& self.key == o.key
        &&& self.value@ == o.value@
        &&& self.publisher == o.publisher
        &&& self.expires_at == o.expires_at
    }

    /// An entry that lives for `ttl_secs` from `now` on.
    pub fn new_at(key: [u8; 32], value: Vec<u8>, publisher: PeerId, ttl_secs: u64, now: u64) -> (r: Self)
        ensures
            r == (StoredEntry { key, value, publisher, expires_at: expiry(now, ttl_secs) }),
    {
        let expires_at: u64 = if now <= u64::MAX - ttl_secs {
            now + ttl_secs
        } else {
            u64::MAX
        };
        StoredEntry { key, value, publisher, expires_at }
    }

    /// An entry that lives for `ttl_secs` from now on.
    pub fn new(key: [u8; 32], value: Vec<u8>, publisher: PeerId, ttl_secs: u64) -> (r: Self)
        ensures
            exists|now: u64| r == (StoredEntry { key, value, publisher, expires_at: #[trigger] expiry(now, ttl_secs) }),
    {
        Self::new_at(key, value, publisher, ttl_secs, unix_secs())
    }

    /// The entry has expired at the time `now`.
    pub open spec fn expired(self, now: u64) -> bool {
        self.expires_at <= now
    }

    pub fn is_expired_at(&self, now: u64) -> (r: bool)
        ensures
            r == self.expired(now),
    {
        self.expires_at <= now
    }

    /// Whether the entry has expired by now.
    pub fn is_expired(&self) -> (r: bool)
        ensures
            exists|now: u64| r == #[trigger] self.expired(now),
            self.expires_at == 0 ==> r,
    {
        let now: u64 = unix_secs();
        self.is_expired_at(now)
    }

    /// The entry as a row on disk: key(32), publisher(32), expiry(8), length(4), value.
    pub open spec fn wire(self) -> Seq<u8> {
        self.key@ + self.publisher@ + be(self.expires_at as nat, 8) + be(self.value@.len() % 0x1_0000_0000, 4) + self.value@
    }

    pub fn encode(&self) -> (r: Vec<u8>)
        ensures
            r@ == self.wire(),
    {
        let mut out: Vec<u8> = Vec::new();
        put_bytes(&mut out, self.key.as_slice());
        put_bytes(&mut out, self.publisher.0.as_slice());
        put_be(&mut out, self.expires_at as u128, 8);
        put_be(&mut out, self.value.len() as u128 % 0x1_0000_0000, 4);
        put_bytes(&mut out, self.value.as_slice());
        assert(out@ =~= self.wire());
        out
    }

    /// What is wrong with a row.
    pub open spec fn fault(p: Seq<u8>) -> Option<Seq<char>> {
        if p.len() < 76 {
            Some("payload too short for stored entry"@)
        } else if p.len() - 76 < be_at(p, 72, 4) {
            Some("payload too short for value"@)
        } else {
            None
        }
    }

    /// This is the entry that a row holds.
    pub open spec fn read_from(self, p: Seq<u8>) -> bool {
        &&& self.key@ == p.subrange(0, 32)
        &&& self.publisher@ == p.subrange(32, 64)
        &&& self.expires_at == be_at(p, 64, 8)
        &&& self.value@ == p.subrange(76, 76 + be_at(p, 72, 4) as int)
    }

    pub fn decode(payload: &[u8]) -> (r: Result<Self, DhtError>)
        ensures
            match r {
                Ok(e) => Self::fault(payload@) is None && e.read_from(payload@),
                Err(e) => e matches DhtError::InvalidKey { reason } && Self::fault(payload@) == Some(reason@),
            },
    {
        proof {
            lemma_pow256_values();
        }
        if payload.len() < 76 {
            return Err(DhtError::InvalidKey { reason: String::from_str("payload too short for stored entry") });
        }
        let key = copy_array::<32>(payload, 0);
        let publisher = PeerId(copy_array::<32>(payload, 32));
        let expires_at: u64 = get_be(payload, 64, 8) as u64;
        let n: usize = get_be(payload, 72, 4) as usize;
        if payload.len() - 76 < n {
            return Err(DhtError::InvalidKey { reason: String::from_str("payload too short for value") });
        }
        let value = copy_range(payload, 76, 76 + n);
        Ok(StoredEntry { key, value, publisher, expires_at })
    }
}

/// An entry is read back from its row.
pub proof fn law_stored_entry_roundtrip(e: StoredEntry, d: StoredEntry)
    requires
        e.value@.len() <= u32::MAX,
    ensures
        StoredEntry::fault(e.wire()) is None,
        d.read_from(e.wire()) <==> d.same(e),
{
    broadcast use lemma_be_len;

    lemma_pow256_values();
    let p = e.wire();
    let n = e.value@.len();
    assert(p.subrange(0, 32) =~= e.key@);
    assert(p.subrange(32, 64) =~= e.publisher@);
    assert(p.subrange(64, 72) =~= be(e.expires_at as nat, 8));
    assert(p.subrange(72, 76) =~= be(n, 4));
    assert(p.subrange(76, 76 + n as int) =~= e.value@);
    lemma_be_roundtrip(e.expires_at as nat, 8);
    lemma_be_roundtrip(n, 4);
    if d.read_from(p) {
        lemma_array_eq(d.key, e.key);
        lemma_array_eq(d.publisher.0, e.publisher.0);
    }
}

/// A row for the disk: under its key, and under the time when it expires.
#[derive(Debug)]
pub struct Row {
    pub key: [u8; 32],
    pub data: Vec<u8>,
    pub expires_at: u64,
}

impl Row {
    /// This is the row of an entry.
    pub open spec fn is_row_of(self, e: StoredEntry) -> bool {
        &&& self.key == e.key
        &&& self.data@ == e.wire()
        &&& self.expires_at == e.expires_at
    }
}

/// How many entries are written at once at most.
pub const WRITE_BATCH_SIZE: usize = 100;

/// What happens to the writer.
#[derive(Debug)]
pub enum WriterEvent {
    /// An entry to be written.
    Entry(StoredEntry),
    /// The time for gathering is up.
    Timeout,
    /// There will be no more entries.
    Closed,
}

/// What the writer does next.
#[derive(Debug)]
pub enum WriterAction {
    /// Wait for an entry, however long it takes.
    Wait,
    /// Gather more entries, until the time is up that starts with the first.
    Gather,
    /// Write the rows, then wait for an entry again.
    Write(Vec<Row>),
    /// Stop.
    Stop,
}

/// Gathers entries until they are written together: a hundred of them, or those that
/// have come within half a second of the first.
#[derive(Debug)]
pub struct BatchWriter {
    pub batch: Vec<StoredEntry>,
}

/// The rows of entries, in the same order.
pub open spec fn rows_of(rows: Seq<Row>, entries: Seq<StoredEntry>) -> bool {
    &&& rows.len() == entries.len()
    &&& forall|i: int| 0 <= i < rows.len() ==> (#[trigger] rows[i]).is_row_of(entries[i])
}

impl BatchWriter {
    /// How long entries are gathered.
    pub fn gather_time() -> (r: Duration)
        ensures
            r.nanos == 500_000_000,
    {
        Duration::from_millis(500)
    }

    pub fn new() -> (r: Self)
        ensures
            r.batch@ == Seq::<StoredEntry>::empty(),
    {
        let batch: Vec<StoredEntry> = Vec::new();
        assert(batch@ =~= Seq::<StoredEntry>::empty());
        BatchWriter { batch }
    }

    /// What to do about an event.
    pub fn on_event(&mut self, event: WriterEvent) -> (r: WriterAction)
        requires
            old(self).batch@.len() < WRITE_BATCH_SIZE,
        ensures
            final(self).batch@.len() < WRITE_BATCH_SIZE,
            match event {
                WriterEvent::Entry(e) => if old(self).batch@.len() + 1 < WRITE_BATCH_SIZE {
                    r is Gather && final(self).batch@ == old(self).batch@.push(e)
                } else {
                    r matches WriterAction::Write(rows) && rows_of(rows@, old(self).batch@.push(e)) && final(self).batch@.len() == 0
                },
                WriterEvent::Timeout => if old(self).batch@.len() == 0 {
                    r is Wait && final(self).batch@.len() == 0
                } else {
                    r matches WriterAction::Write(rows) && rows_of(rows@, old(self).batch@) && final(self).batch@.len() == 0
                },
                WriterEvent::Closed => if old(self).batch@.len() == 0 {
                    r is Stop && final(self).batch@.len() == 0
                } else {
                    r matches WriterAction::Write(rows) && rows_of(rows@, old(self).batch@) && final(self).batch@.len() == 0
                },
            },
    {
        match event {
            WriterEvent::Entry(e) => {
                self.batch.push(e);
                if self.batch.len() < WRITE_BATCH_SIZE {
                    WriterAction::Gather
                } else {
                    WriterAction::Write(self.take_rows())
                }
            },
            WriterEvent::Timeout => {
                if self.batch.len() == 0 {
                    WriterAction::Wait
                } else {
                    WriterAction::Write(self.take_rows())
                }
            },
            WriterEvent::Closed => {
                if self.batch.len() == 0 {
                    WriterAction::Stop
                } else {
                    WriterAction::Write(self.take_rows())
                }
            },
        }
    }

    /// The rows of all that was gathered, which is gone with that.
    fn take_rows(&mut self) -> (r: Vec<Row>)
        ensures
            rows_of(r@, old(self).batch@),
            final(self).batch@.len() == 0,
    {
        let mut rows: Vec<Row> = Vec::new();
        let mut i: usize = 0;
        while i < self.batch.len()
            invariant
                i <= self.batch@.len(),
                self.batch@ == old(self).batch@,
                rows@.len() == i,
                forall|j: int| 0 <= j < i ==> (#[trigger] rows@[j]).is_row_of(self.batch@[j]),
            decreases self.batch@.len() - i,
        {
            let data = self.batch[i].encode();
            rows.push(Row { key: self.batch[i].key, data, expires_at: self.batch[i].expires_at });
            i += 1;
        }
        self.batch = Vec::new();
        rows
    }
}

/// What the cache says of a key.
#[derive(Debug)]
pub enum CacheLookup {
    /// Here it is.
    Fresh(StoredEntry),
    /// It has expired, and will be cleared away.
    Expired,
    /// Not in the cache: the disk is to be asked.
    Absent,
}

/// The store: its cache, and the entries that are to be written.
pub struct PersistentStore {
    hot_cache: Table<StoredEntry>,
    pending: Vec<StoredEntry>,
    /// The keys of what is not on disk yet, in order.
    unwritten: Vec<Key>,
}

impl PersistentStore {
    /// How often what has expired is cleared away.
    pub fn gc_interval() -> (r: Duration)
        ensures
            r.nanos == 300_000_000_000,
    {
        Duration::from_secs(300)
    }

    /// What the cache holds.
    pub closed spec fn cache(self) -> Map<Key, StoredEntry> {
        self.hot_cache@
    }

    /// What is to be written, in order.
    pub closed spec fn to_write(self) -> Seq<StoredEntry> {
        self.pending@
    }

    /// The keys of the entries that are not on disk yet, in the order in which they were put.
    pub closed spec fn unwritten(self) -> Seq<Key> {
        self.unwritten@
    }

    /// Everything in the cache stands under its own key.
    pub closed spec fn wf(self) -> bool {
        self.hot_cache.wf()
    }

    pub fn new() -> (r: Self)
        ensures
            r.wf(),
            r.cache() == Map::<Key, StoredEntry>::empty(),
            r.to_write() == Seq::<StoredEntry>::empty(),
            r.unwritten() == Seq::<Key>::empty(),
    {
        let pending: Vec<StoredEntry> = Vec::new();
        assert(pending@ =~= Seq::<StoredEntry>::empty());
        let unwritten: Vec<Key> = Vec::new();
        assert(unwritten@ =~= Seq::<Key>::empty());
        PersistentStore { hot_cache: Table::new(), pending, unwritten }
    }

    /// Stores an entry: at once in the cache, and later on disk.
    pub fn put(&mut self, entry: StoredEntry) -> (r: Result<(), DhtError>)
        requires
            old(self).wf(),
        ensures
            final(self).wf(),
            r is Ok,
            final(self).cache() == old(self).cache().insert(entry.key, entry),
            final(self).to_write().len() == old(self).to_write().len() + 1,
            final(self).to_write().drop_last() == old(self).to_write(),
            final(self).to_write().last().same(entry),
            final(self).unwritten() == old(self).unwritten().push(entry.key),
    {
        let copy = entry.clone();
        self.unwritten.push(entry.key);
        let _ = self.hot_cache.insert(entry.key, entry);
        self.pending.push(copy);
        assert(self.pending@.drop_last() =~= old(self).pending@);
        Ok(())
    }

    /// Hands out what is to be written.
    pub fn take_pending(&mut self) -> (r: Vec<StoredEntry>)
        requires
            old(self).wf(),
        ensures
            final(self).wf(),
            r@ == old(self).to_write(),
            final(self).to_write() == Seq::<StoredEntry>::empty(),
            final(self).cache() == old(self).cache(),
            final(self).unwritten() == old(self).unwritten(),
    {
        let mut out: Vec<StoredEntry> = Vec::new();
        std::mem::swap(&mut self.pending, &mut out);
        assert(self.pending@ =~= Seq::<StoredEntry>::empty());
        out
    }

    /// The first `n` of the entries that were not on disk yet have been written.
    pub fn mark_written(&mut self, n: usize)
        requires
            old(self).wf(),
        ensures
            final(self).wf(),
            final(self).cache() == old(self).cache(),
            final(self).to_write() == old(self).to_write(),
            n <= old(self).unwritten().len() ==> final(self).unwritten() == old(self).unwritten().skip(n as int),
            n > old(self).unwritten().len() ==> final(self).unwritten() == Seq::<Key>::empty(),
    {
        let mut rest: Vec<Key> = Vec::new();
        let mut i: usize = n;
        while i < self.unwritten.len()
            invariant
                n <= i,
                n <= self.unwritten@.len() ==> i <= self.unwritten@.len() && rest@ == self.unwritten@.subrange(n as int, i as int),
                n > self.unwritten@.len() ==> rest@.len() == 0,
            decreases self.unwritten@.len() - i,
        {
            rest.push(self.unwritten[i]);
            i += 1;
            assert(rest@ =~= self.unwritten@.subrange(n as int, i as int));
        }
        assert(n <= self.unwritten@.len() ==> rest@ =~= self.unwritten@.skip(n as int));
        assert(n > self.unwritten@.len() ==> rest@ =~= Seq::<Key>::empty());
        self.unwritten = rest;
    }

    /// Of the rows of the index, those whose key has nothing that is still to be written. The
    /// others are left for another time.
    pub fn settled(&self, listed: &Vec<(u64, Key)>) -> (r: Vec<(u64, Key)>)
        requires
            self.wf(),
        ensures
            r@ == listed@.filter(|x: (u64, Key)| !self.unwritten().contains(x.1)),
    {
        let mut out: Vec<(u64, Key)> = Vec::new();
        let ghost p = |x: (u64, Key)| !self.unwritten().contains(x.1);
        let mut i: usize = 0;
        assert(listed@.take(0) =~= Seq::empty());
        assert(out@ =~= listed@.take(0).filter(p)) by {
            reveal(Seq::filter);
        }
        while i < listed.len()
            invariant
                i <= listed@.len(),
                p == (|x: (u64, Key)| !self.unwritten().contains(x.1)),
                out@ == listed@.take(i as int).filter(p),
            decreases listed@.len() - i,
        {
            proof {
                reveal(Seq::filter);
                assert(listed@.take(i + 1).drop_last() =~= listed@.take(i as int));
                assert(listed@.take(i + 1).last() == listed@[i as int]);
            }
            if !self.is_unwritten(&listed[i].1) {
                out.push(listed[i]);
            }
            i += 1;
        }
        assert(listed@.take(i as int) =~= listed@);
        out
    }

    fn is_unwritten(&self, key: &Key) -> (r: bool)
        ensures
            r == self.unwritten().contains(*key),
    {
        let mut i: usize = 0;
        while i < self.unwritten.len()
            invariant
                i <= self.unwritten@.len(),
                forall|j: int| 0 <= j < i ==> self.unwritten@[j] != *key,
            decreases self.unwritten@.len() - i,
        {
            if bytes_equal(self.unwritten[i].as_slice(), key.as_slice()) {
                proof {
                    lemma_array_eq(self.unwritten@[i as int], *key);
                }
                return true;
            }
            i += 1;
        }
        false
    }

    /// Looks for a key in the cache.
    pub fn get_hot(&self, key: &Key, now: u64) -> (r: CacheLookup)
        requires
            self.wf(),
        ensures
            match r {
                CacheLookup::Absent => !self.cache().contains_key(*key),
                CacheLookup::Expired => self.cache().contains_key(*key) && self.cache()[*key].expired(now),
                CacheLookup::Fresh(e) => {
                    &&& self.cache().contains_key(*key)
                    &&& !self.cache()[*key].expired(now)
                    &&& e.same(self.cache()[*key])
                },
            },
    {
        match self.hot_cache.get(key) {
            Some(e) => if e.is_expired_at(now) {
                CacheLookup::Expired
            } else {
                CacheLookup::Fresh(e.clone())
            },
            None => CacheLookup::Absent,
        }
    }

    /// What a row that was found on disk yields: an entry, if it is sound and has not
    /// expired.
    pub open spec fn row_yields(row: Option<Seq<u8>>, now: u64) -> bool {
        row matches Some(p) && StoredEntry::fault(p) is None && be_at(p, 64, 8) > now
    }

    /// Takes up the row that was found on disk under a key, if any: what it yields goes
    /// into the cache.
    pub fn get_cold(&mut self, key: &Key, row: Option<Vec<u8>>, now: u64) -> (r: Option<StoredEntry>)
        requires
            old(self).wf(),
        ensures
            final(self).wf(),
            final(self).to_write() == old(self).to_write(),
            final(self).unwritten() == old(self).unwritten(),
            r is Some <==> Self::row_yields((match row { Some(v) => Some(v@), None => None }), now),
            match r {
                Some(e) => {
                    &&& e.read_from(row->0@)
                    &&& exists|c: StoredEntry| #[trigger] c.same(e) && final(self).cache() == old(self).cache().insert(*key, c)
                },
                None => final(self).cache() == old(self).cache(),
            },
    {
        match row {
            Some(data) => match StoredEntry::decode(data.as_slice()) {
                Ok(e) => {
                    if e.is_expired_at(now) {
                        return None;
                    }
                    let copy = e.clone();
                    let ghost c = copy;
                    let _ = self.hot_cache.insert(*key, copy);
                    assert(c.same(e));
                    Some(e)
                },
                Err(_) => None,
            },
            None => None,
        }
    }

    /// What a look for a key does and finds: what the cache holds, or else what the row on disk
    /// yields, which then goes into the cache; nothing that has expired.
    pub open spec fn looked_up(self, after: PersistentStore, key: Key, row: Option<Seq<u8>>, now: u64, r: Option<StoredEntry>) -> bool {
        &&& after.to_write() == self.to_write()
        &&& after.unwritten() == self.unwritten()
        &&& if self.cache().contains_key(key) {
            &&& after.cache() == self.cache()
            &&& r is Some <==> !self.cache()[key].expired(now)
            &&& r matches Some(e) ==> e.same(self.cache()[key])
        } else if Self::row_yields(row, now) {
            &&& r matches Some(e) && e.read_from(row->0)
            &&& exists|c: StoredEntry| #[trigger] c.same(r->0) && after.cache() == self.cache().insert(key, c)
        } else {
            &&& r is None
            &&& after.cache() == self.cache()
        }
    }

    /// Whether the row on disk is needed to look for a key.
    pub fn needs_row(&self, key: &Key) -> (r: bool)
        requires
            self.wf(),
        ensures
            r == !self.cache().contains_key(*key),
    {
        !self.hot_cache.contains(key)
    }

    /// Looks for a key: in the cache, and if it is not there, in the row that was found on disk
    /// under it, if any.
    pub fn get(&mut self, key: &Key, row: Option<Vec<u8>>, now: u64) -> (r: Option<StoredEntry>)
        requires
            old(self).wf(),
        ensures
            final(self).wf(),
            old(self).looked_up(*final(self), *key, (match row { Some(v) => Some(v@), None => None }), now, r),
    {
        match self.get_hot(key, now) {
            CacheLookup::Fresh(e) => Some(e),
            CacheLookup::Expired => None,
            CacheLookup::Absent => self.get_cold(key, row, now),
        }
    }

    /// Takes a key out of the cache. (The row on disk is to be removed as well.)
    pub fn remove(&mut self, key: &Key) -> (r: Option<StoredEntry>)
        requires
            old(self).wf(),
        ensures
            final(self).wf(),
            final(self).cache() == old(self).cache().remove(*key),
            final(self).to_write() == old(self).to_write(),
            final(self).unwritten() == old(self).unwritten(),
            r is Some <==> old(self).cache().contains_key(*key),
            r matches Some(e) ==> e == old(self).cache()[*key],
    {
        self.hot_cache.remove(key)
    }

    /// Clears away what has expired of the given keys: those that the index on disk lists up
    /// to the present time. The entry in the cache decides, as the index may list a key for an
    /// entry that it held before.
    pub fn collect(&mut self, expired: &Vec<(u64, Key)>, now: u64)
        requires
            old(self).wf(),
        ensures
            final(self).wf(),
            final(self).to_write() == old(self).to_write(),
            final(self).unwritten() == old(self).unwritten(),
            final(self).cache() == collected(old(self).cache(), expired@, now),
            forall|k: Key| #[trigger]
                final(self).cache().contains_key(k) <==> old(self).cache().contains_key(k) && !(index_lists(expired@, k)
                    && old(self).cache()[k].expired(now)),
    {
        let mut i: usize = 0;
        assert(self.cache() =~= collected(self.cache(), expired@.take(0), now));
        while i < expired.len()
            invariant
                i <= expired@.len(),
                self.wf(),
                self.to_write() == old(self).to_write(),
                self.unwritten() == old(self).unwritten(),
                self.cache() == collected(old(self).cache(), expired@.take(i as int), now),
            decreases expired@.len() - i,
        {
            let key = expired[i].1;
            let due: bool = match self.hot_cache.get(&key) {
                Some(e) => e.is_expired_at(now),
                None => false,
            };
            if due {
                let _ = self.hot_cache.remove(&key);
            }
            i += 1;
            proof {
                let t = expired@.take(i as int);
                let s = expired@.take(i - 1);
                assert forall|k: Key| #[trigger] index_lists(t, k) <==> index_lists(s, k) || k == key by {
                    assert(t[i - 1] == expired@[i - 1]);
                    if index_lists(s, k) {
                        let j = choose|j: int| 0 <= j < s.len() && (#[trigger] s[j]).1 == k;
                        assert(t[j].1 == k);
                    }
                    if index_lists(t, k) && k != key {
                        let j = choose|j: int| 0 <= j < t.len() && (#[trigger] t[j]).1 == k;
                        assert(s[j].1 == k);
                    }
                }
                assert(self.cache() =~= collected(old(self).cache(), t, now));
            }
        }
        assert(expired@.take(i as int) =~= expired@);
    }

    /// How many entries the cache holds.
    pub fn len(&self) -> (r: usize)
        requires
            self.wf(),
        ensures
            r == self.cache().len(),
    {
        self.hot_cache.len()
    }

    pub fn is_empty(&self) -> (r: bool)
        requires
            self.wf(),
        ensures
            r == (self.cache().len() == 0),
    {
        self.hot_cache.len() == 0
    }
}

/// The list names the key.
pub open spec fn index_lists(list: Seq<(u64, Key)>, k: Key) -> bool {
    exists|j: int| 0 <= j < list.len() && (#[trigger] list[j]).1 == k
}

/// The cache without what has expired of the listed keys.
pub open spec fn collected(cache: Map<Key, StoredEntry>, listed: Seq<(u64, Key)>, now: u64) -> Map<Key, StoredEntry> {
    Map::new(|k: Key| cache.contains_key(k) && !(index_lists(listed, k) && cache[k].expired(now)), |k: Key| cache[k])
}

/// Whether a row on disk is to be removed when the index lists its key: just if it yields
/// no entry any more. A row that was written over the one that the index means may stay.
pub fn row_is_due(row: &[u8], now: u64) -> (r: bool)
    ensures
        r == !PersistentStore::row_yields(Some(row@), now),
        StoredEntry::fault(row@) is None ==> r == (be_at(row@, 64, 8) <= now),
{
    match StoredEntry::decode(row) {
        Ok(e) => e.is_expired_at(now),
        Err(_) => true,
    }
}

/// The keys of an index by time that have expired: those up to the present time.
pub fn expired_keys(index: &Vec<(u64, Key)>, now: u64) -> (r: Vec<(u64, Key)>)
    ensures
        r@ == index@.filter(|x: (u64, Key)| x.0 <= now),
{
    let mut out: Vec<(u64, Key)> = Vec::new();
    let ghost p = |x: (u64, Key)| x.0 <= now;
    let mut i: usize = 0;
    assert(index@.take(0) =~= Seq::empty());
    assert(out@ =~= index@.take(0).filter(p)) by {
        reveal(Seq::filter);
    }
    while i < index.len()
        invariant
            i <= index@.len(),
            p == (|x: (u64, Key)| x.0 <= now),
            out@ == index@.take(i as int).filter(p),
        decreases index@.len() - i,
    {
        proof {
            reveal(Seq::filter);
            assert(index@.take(i + 1).drop_last() =~= index@.take(i as int));
            assert(index@.take(i + 1).last() == index@[i as int]);
        }
        if index[i].0 <= now {
            out.push(index[i]);
        }
        i += 1;
    }
    assert(index@.take(i as int) =~= index@);
    out
}

/// A store as a whole: the cache, what is still to be written, the rows on disk, and the
/// index on disk of keys by time.
pub struct StoreModel {
    pub cache: Map<Key, StoredEntry>,
    pub queue: Seq<StoredEntry>,
    pub rows: Map<Key, Seq<u8>>,
    pub index: Set<(u64, Key)>,
}

impl StoreModel {
    /// Something is still to be written under the key.
    pub open spec fn awaits(self, k: Key) -> bool {
        exists|i: int| 0 <= i < self.queue.len() && (#[trigger] self.queue[i]).key == k
    }

    /// The last that is to be written under the key is the entry.
    pub open spec fn awaits_last(self, k: Key, e: StoredEntry) -> bool {
        exists|i: int| #[trigger] self.stands_last(k, e, i)
    }

    /// The entry stands at `i` among what is to be written, and nothing under its key after it.
    pub open spec fn stands_last(self, k: Key, e: StoredEntry, i: int) -> bool {
        &&& 0 <= i < self.queue.len()
        &&& self.queue[i].key == k
        &&& self.queue[i].same(e)
        &&& forall|j: int| i < j < self.queue.len() ==> (#[trigger] self.queue[j]).key != k
    }

    /// The store after an entry was put.
    pub open spec fn put(self, e: StoredEntry) -> StoreModel {
        StoreModel { cache: self.cache.insert(e.key, e), queue: self.queue.push(e), ..self }
    }

    /// The store after the next entry was written to disk.
    pub open spec fn written(self) -> StoreModel {
        let e = self.queue[0];
        StoreModel {
            queue: self.queue.skip(1),
            rows: self.rows.insert(e.key, e.wire()),
            index: self.index.insert((e.expires_at, e.key)),
            ..self
        }
    }

    /// The store after what has expired was cleared away, for the listed rows of the index.
    pub open spec fn evicted(self, listed: Seq<(u64, Key)>, now: u64) -> StoreModel {
        StoreModel {
            cache: collected(self.cache, listed, now),
            rows: Map::new(
                |k: Key| self.rows.contains_key(k) && !(index_lists(listed, k) && !PersistentStore::row_yields(Some(self.rows[k]), now)),
                |k: Key| self.rows[k],
            ),
            index: self.index.difference(listed.to_set()),
            ..self
        }
    }

    /// The rows of the index can be cleared away: they are there, their time has come, and
    /// nothing is still to be written under their keys.
    pub open spec fn clearable(self, listed: Seq<(u64, Key)>, now: u64) -> bool {
        forall|i: int|
            0 <= i < listed.len() ==> self.index.contains(#[trigger] listed[i]) && listed[i].0 <= now && !self.awaits(listed[i].1)
    }

    /// What is done to a store at the time `now`, but for putting anything under the key `k` and
    /// for removing it by hand.
    pub open spec fn step(self, after: StoreModel, k: Key, now: u64) -> bool {
        ||| exists|e: StoredEntry| e.key != k && after == #[trigger] self.put(e)
        ||| self.queue.len() > 0 && after == self.written()
        ||| exists|listed: Seq<(u64, Key)>| #[trigger] self.clearable(listed, now) && after == self.evicted(listed, now)
        ||| exists|j: Key, e: StoredEntry| #[trigger] self.reads_row(j, now, e) && after == (StoreModel {
            cache: self.cache.insert(j, e),
            ..self
        })
        ||| self.queue.len() == 0 && after == (StoreModel { cache: Map::empty(), ..self })
        ||| exists|j: Key| j != k && after == #[trigger] self.removed(j)
    }

    /// The store after a key was removed by hand.
    pub open spec fn removed(self, j: Key) -> StoreModel {
        StoreModel { cache: self.cache.remove(j), rows: self.rows.remove(j), ..self }
    }

    /// The key is not in the cache, and its row on disk yields the entry.
    pub open spec fn reads_row(self, j: Key, now: u64, e: StoredEntry) -> bool {
        &&& !self.cache.contains_key(j)
        &&& self.rows.contains_key(j)
        &&& PersistentStore::row_yields(Some(self.rows[j]), now)
        &&& e.read_from(self.rows[j])
    }

    /// What a lookup finds under the key: what the cache holds, or else what the row on disk
    /// yields; nothing that has expired.
    pub open spec fn finds(self, k: Key, now: u64, r: Option<StoredEntry>) -> bool {
        if self.cache.contains_key(k) {
            if self.cache[k].expired(now) {
                r is None
            } else {
                r matches Some(e) && e.same(self.cache[k])
            }
        } else if self.rows.contains_key(k) && PersistentStore::row_yields(Some(self.rows[k]), now) {
            r matches Some(e) && e.read_from(self.rows[k])
        } else {
            r is None
        }
    }

    /// The entry is what the store holds under its key; from its expiry on, the disk need not
    /// hold it any more.
    pub open spec fn holds(self, e: StoredEntry, now: u64) -> bool {
        if self.awaits(e.key) {
            &&& self.awaits_last(e.key, e)
            &&& self.cache.contains_key(e.key)
            &&& self.cache[e.key].same(e)
        } else {
            &&& self.cache.contains_key(e.key) ==> self.cache[e.key].same(e)
            &&& self.rows.contains_key(e.key) ==> self.rows[e.key] == e.wire()
            &&& !e.expired(now) ==> self.rows.contains_key(e.key)
        }
    }
}

impl PersistentStore {
    /// The store is the part in memory of the model.
    pub open spec fn models(self, m: StoreModel) -> bool {
        &&& self.cache() == m.cache
        &&& self.unwritten() == m.queue.map_values(|e: StoredEntry| e.key)
    }
}

/// What the disk holds under a key.
pub open spec fn row_under(m: StoreModel, k: Key) -> Option<Seq<u8>> {
    if m.rows.contains_key(k) {
        Some(m.rows[k])
    } else {
        None
    }
}

/// The store follows the model: when an entry is put, when entries have been written, when a
/// key is removed, and when what has expired is cleared away for the settled of the rows that
/// the index lists.
pub proof fn law_store_follows_the_model(
    before: PersistentStore,
    after: PersistentStore,
    m: StoreModel,
    e: StoredEntry,
    listed: Seq<(u64, Key)>,
    now: u64,
)
    requires
        before.models(m),
        forall|i: int| 0 <= i < listed.len() ==> m.index.contains(#[trigger] listed[i]) && listed[i].0 <= now,
    ensures
        after.cache() == before.cache().insert(e.key, e) && after.unwritten() == before.unwritten().push(e.key) ==> after.models(
            m.put(e),
        ),
        m.queue.len() > 0 && after.cache() == before.cache() && after.unwritten() == before.unwritten().skip(1) ==> after.models(
            m.written(),
        ),
        after.cache() == before.cache().remove(e.key) && after.unwritten() == before.unwritten() ==> after.models(m.removed(e.key)),
        m.clearable(listed.filter(|x: (u64, Key)| !before.unwritten().contains(x.1)), now),
        after.cache() == collected(before.cache(), listed.filter(|x: (u64, Key)| !before.unwritten().contains(x.1)), now)
            && after.unwritten() == before.unwritten() ==> after.models(
            m.evicted(listed.filter(|x: (u64, Key)| !before.unwritten().contains(x.1)), now),
        ),
{
    let key = |x: StoredEntry| x.key;
    assert(m.queue.push(e).map_values(key) =~= m.queue.map_values(key).push(e.key));
    if m.queue.len() > 0 {
        assert(m.queue.skip(1).map_values(key) =~= m.queue.map_values(key).skip(1));
    }
    let p = |x: (u64, Key)| !before.unwritten().contains(x.1);
    let due = listed.filter(p);
    assert forall|i: int| 0 <= i < due.len() implies m.index.contains(#[trigger] due[i]) && due[i].0 <= now && !m.awaits(due[i].1) by {
        listed.lemma_filter_pred(p, i);
        assert(due.contains(due[i]));
        listed.lemma_filter_contains_rev(p, due[i]);
        let j = choose|j: int| 0 <= j < listed.len() && listed[j] == due[i];
        assert(m.index.contains(listed[j]));
        if m.awaits(due[i].1) {
            let k = choose|k: int| 0 <= k < m.queue.len() && (#[trigger] m.queue[k]).key == due[i].1;
            assert(before.unwritten()[k] == due[i].1);
        }
    }
}

/// A look for a key finds in the store what it finds in the model, whether the row on disk is
/// handed over or is not needed; and the store follows the model, which takes at most a step.
pub proof fn law_look_follows_the_model(
    before: PersistentStore,
    after: PersistentStore,
    m: StoreModel,
    k: Key,
    row: Option<Seq<u8>>,
    now: u64,
    r: Option<StoredEntry>,
)
    requires
        before.models(m),
        m.cache.contains_key(k) || row == row_under(m, k),
        before.looked_up(after, k, row, now, r),
    ensures
        m.finds(k, now, r),
        exists|n: StoreModel| #[trigger] after.models(n) && (n == m || forall|j: Key| #[trigger] m.step(n, j, now)),
{
    if !m.cache.contains_key(k) && PersistentStore::row_yields(row, now) {
        let c = choose|c: StoredEntry| #[trigger] c.same(r->0) && after.cache() == before.cache().insert(k, c);
        let n = StoreModel { cache: m.cache.insert(k, c), ..m };
        assert(c.read_from(m.rows[k]));
        assert(m.reads_row(k, now, c));
        assert(after.models(n));
        assert forall|j: Key| #[trigger] m.step(n, j, now) by {}
    } else {
        assert(after.models(m));
    }
}

proof fn lemma_same_wire(a: StoredEntry, b: StoredEntry)
    requires
        a.same(b),
    ensures
        a.wire() == b.wire(),
{
}

proof fn lemma_row_of_entry(e: StoredEntry, now: u64)
    requires
        e.value@.len() <= u32::MAX,
    ensures
        PersistentStore::row_yields(Some(e.wire()), now) == !e.expired(now),
        forall|d: StoredEntry| #[trigger] d.read_from(e.wire()) ==> d.same(e),
{
    assert forall|d: StoredEntry| #[trigger] d.read_from(e.wire()) implies d.same(e) by {
        law_stored_entry_roundtrip(e, d);
    }
    law_stored_entry_roundtrip(e, e);
    assert(e.read_from(e.wire()));
}

/// Whatever is done to a store but for putting something else under the key or removing it
/// by hand, the store holds the last entry that was put.
proof fn lemma_step_holds(m: StoreModel, after: StoreModel, e: StoredEntry, was: u64, now: u64)
    requires
        e.value@.len() <= u32::MAX,
        was <= now,
        m.holds(e, was),
        m.step(after, e.key, now),
    ensures
        after.holds(e, now),
{
    let k = e.key;
    lemma_row_of_entry(e, now);
    if exists|f: StoredEntry| f.key != k && after == #[trigger] m.put(f) {
        let f = choose|f: StoredEntry| f.key != k && after == #[trigger] m.put(f);
        if m.awaits(k) {
            let i = choose|i: int| #[trigger] m.stands_last(k, e, i);
            assert(after.queue[i].key == k);
            assert(after.stands_last(k, e, i));
        }
        if after.awaits(k) {
            let i = choose|i: int| 0 <= i < after.queue.len() && (#[trigger] after.queue[i]).key == k;
            assert(m.queue[i].key == k);
        }
    } else if m.queue.len() > 0 && after == m.written() {
        let f = m.queue[0];
        if after.awaits(k) {
            let i = choose|i: int| 0 <= i < after.queue.len() && (#[trigger] after.queue[i]).key == k;
            assert(m.queue[i + 1].key == k);
            let l = choose|l: int| #[trigger] m.stands_last(k, e, l);
            assert(l >= i + 1);
            assert(after.queue[l - 1] == m.queue[l]);
            assert forall|j: int| l - 1 < j < after.queue.len() implies (#[trigger] after.queue[j]).key != k by {
                assert(m.queue[j + 1].key != k);
            }
            assert(after.stands_last(k, e, l - 1));
        } else if m.awaits(k) {
            let l = choose|l: int| #[trigger] m.stands_last(k, e, l);
            if l > 0 {
                assert(after.queue[l - 1].key == k);
            }
            lemma_same_wire(f, e);
        } else {
            assert(m.queue[0].key != k);
        }
    } else if exists|listed: Seq<(u64, Key)>| #[trigger] m.clearable(listed, now) && after == m.evicted(listed, now) {
        let listed = choose|listed: Seq<(u64, Key)>| #[trigger] m.clearable(listed, now) && after == m.evicted(listed, now);
        assert(after.awaits(k) == m.awaits(k));
        if m.awaits(k) {
            let i = choose|i: int| #[trigger] m.stands_last(k, e, i);
            assert(after.stands_last(k, e, i));
            assert(!index_lists(listed, k));
        }
    } else if exists|j: Key, c: StoredEntry| #[trigger] m.reads_row(j, now, c) && after == (StoreModel {
        cache: m.cache.insert(j, c),
        ..m
    }) {
        assert(after.awaits(k) == m.awaits(k));
        if m.awaits(k) {
            let i = choose|i: int| #[trigger] m.stands_last(k, e, i);
            assert(after.stands_last(k, e, i));
        }
    } else if m.queue.len() == 0 && after == (StoreModel { cache: Map::empty(), ..m }) {
        assert(!after.awaits(k) && !m.awaits(k));
    } else {
        let j = choose|j: Key| j != k && after == #[trigger] m.removed(j);
        assert(after.awaits(k) == m.awaits(k));
        if m.awaits(k) {
            let i = choose|i: int| #[trigger] m.stands_last(k, e, i);
            assert(after.stands_last(k, e, i));
        }
    }
}

/// What was put last under a key is found until it expires, and nothing is found under the
/// key from then on: whatever has been put under other keys, written to disk, cleared away,
/// read or removed meanwhile.
pub proof fn law_put_is_found(models: Seq<StoreModel>, times: Seq<u64>, before: StoreModel, e: StoredEntry, now: u64, r: Option<StoredEntry>)
    requires
        e.value@.len() <= u32::MAX,
        models.len() > 0,
        models[0] == before.put(e),
        times.len() == models.len() - 1,
        forall|i: int, j: int| 0 <= i <= j < times.len() ==> times[i] <= times[j],
        forall|i: int| 0 <= i < times.len() ==> times[i] <= now,
        forall|i: int| 0 <= i < times.len() ==> models[i].step(models[i + 1], e.key, #[trigger] times[i]),
        models.last().finds(e.key, now, r),
    ensures
        !e.expired(now) ==> (r matches Some(f) && f.same(e)),
        e.expired(now) ==> r is None,
{
    lemma_held(models, times, before, e, times.len() as int);
    lemma_row_of_entry(e, now);
}

/// What was put last under a key is read back from the store until it expires, and nothing is
/// from then on: whatever has been put under other keys, written to disk, cleared away, read or
/// removed meanwhile, and whatever stood under the key before.
pub proof fn law_last_put_is_read(
    models: Seq<StoreModel>,
    times: Seq<u64>,
    before: StoreModel,
    e: StoredEntry,
    store: PersistentStore,
    after: PersistentStore,
    row: Option<Seq<u8>>,
    now: u64,
    r: Option<StoredEntry>,
)
    requires
        e.value@.len() <= u32::MAX,
        models.len() > 0,
        models[0] == before.put(e),
        times.len() == models.len() - 1,
        forall|i: int, j: int| 0 <= i <= j < times.len() ==> times[i] <= times[j],
        forall|i: int| 0 <= i < times.len() ==> times[i] <= now,
        forall|i: int| 0 <= i < times.len() ==> models[i].step(models[i + 1], e.key, #[trigger] times[i]),
        store.models(models.last()),
        store.cache().contains_key(e.key) || row == row_under(models.last(), e.key),
        store.looked_up(after, e.key, row, now, r),
    ensures
        !e.expired(now) ==> (r matches Some(f) && f.same(e)),
        e.expired(now) ==> r is None,
{
    law_look_follows_the_model(store, after, models.last(), e.key, row, now, r);
    law_put_is_found(models, times, before, e, now, r);
}

proof fn lemma_held(models: Seq<StoreModel>, times: Seq<u64>, before: StoreModel, e: StoredEntry, n: int)
    requires
        e.value@.len() <= u32::MAX,
        models.len() > 0,
        models[0] == before.put(e),
        times.len() == models.len() - 1,
        forall|i: int, j: int| 0 <= i <= j < times.len() ==> times[i] <= times[j],
        forall|i: int| 0 <= i < times.len() ==> models[i].step(models[i + 1], e.key, #[trigger] times[i]),
        0 <= n <= times.len(),
    ensures
        models[n].holds(e, if n == 0 { 0 } else { times[n - 1] }),
    decreases n,
{
    if n == 0 {
        let m = models[0];
        let i = m.queue.len() - 1;
        assert(m.queue[i].key == e.key);
        assert(m.stands_last(e.key, e, i));
    } else {
        lemma_held(models, times, before, e, n - 1);
        let was = if n == 1 { 0 } else { times[n - 2] };
        assert(models[n - 1].step(models[n - 1 + 1], e.key, times[n - 1]));
        lemma_step_holds(models[n - 1], models[n], e, was, times[n - 1]);
    }
}

/// An entry lives for as long as it was given: it has not expired before, and has from then on.
pub proof fn law_entries_live_their_time(e: StoredEntry, now: u64, ttl: u64, t: u64)
    requires
        e.expires_at == expiry(now, ttl),
        now + ttl <= u64::MAX,
    ensures
        e.expired(t) <==> t >= now + ttl,
        e.expires_at == now + ttl,
{
}

/// An entry that would expire beyond the end of time expires there.
pub proof fn law_expiry_ends_with_time(now: u64, ttl: u64)
    ensures
        now + ttl > u64::MAX ==> expiry(now, ttl) == u64::MAX,
        expiry(now, ttl) >= now,
{
}

/// An entry on disk: key, publisher, expiry, length and value in their places. It can be read
/// just if all of it is there, and yields an entry until its own expiry.
pub proof fn law_rows_are_read(p: Seq<u8>, e: StoredEntry, now: u64)
    ensures
        StoredEntry::fault(p) is None <==> p.len() >= 76 && p.len() >= 76 + be_val(p.subrange(72, 76)),
        e.read_from(p) <==> {
            &&& e.key@ == p.subrange(0, 32)
            &&& e.publisher@ == p.subrange(32, 64)
            &&& e.expires_at == be_val(p.subrange(64, 72))
            &&& e.value@ == p.subrange(76, 76 + be_val(p.subrange(72, 76)) as int)
        },
        e.wire().len() == 76 + e.value@.len(),
        PersistentStore::row_yields(Some(p), now) <==> p.len() >= 76 && p.len() >= 76 + be_val(p.subrange(72, 76)) && be_val(
            p.subrange(64, 72),
        ) > now,
        !PersistentStore::row_yields(None, now),
{
    broadcast use lemma_be_len;

}

/// Clearing away takes from the cache just what is listed and has expired.
pub proof fn law_only_expired_entries_go(cache: Map<Key, StoredEntry>, listed: Seq<(u64, Key)>, now: u64, k: Key)
    ensures
        collected(cache, listed, now).contains_key(k) ==> cache.contains_key(k) && collected(cache, listed, now)[k] == cache[k],
        cache.contains_key(k) && cache[k].expires_at > now ==> collected(cache, listed, now).contains_key(k),
        cache.contains_key(k) && !(exists|j: int| 0 <= j < listed.len() && (#[trigger] listed[j]).1 == k) ==> collected(
            cache,
            listed,
            now,
        ).contains_key(k),
        (exists|j: int| 0 <= j < listed.len() && (#[trigger] listed[j]).1 == k) && cache.contains_key(k) && cache[k].expires_at <= now
            ==> !collected(cache, listed, now).contains_key(k),
{
}

/// A batch is written when a hundred entries have come, one row for each, in order: the key, the
/// whole entry, and the time when it expires.
pub proof fn law_rows_of_a_batch(rows: Seq<Row>, entries: Seq<StoredEntry>, i: int)
    requires
        rows_of(rows, entries),
        0 <= i < entries.len(),
    ensures
        rows.len() == entries.len(),
        rows[i].key == entries[i].key,
        rows[i].expires_at == entries[i].expires_at,
        rows[i].data@ == entries[i].wire(),
        WRITE_BATCH_SIZE == 100,
{
    assert(rows[i].is_row_of(entries[i]));
}

/// An entry that is at hand is given until it expires. Else the row on disk is, while it can be read
/// and has not expired, and is at hand from then on. To look changes nothing else.
pub proof fn law_what_a_look_finds(
    before: PersistentStore,
    after: PersistentStore,
    key: Key,
    row: Option<Seq<u8>>,
    now: u64,
    r: Option<StoredEntry>,
    other: Key,
)
    requires
        before.looked_up(after, key, row, now, r),
    ensures
        before.cache().contains_key(key) && before.cache()[key].expires_at > now ==> r is Some && r->0.value@
            == before.cache()[key].value@ && r->0.expires_at == before.cache()[key].expires_at && r->0.publisher
            == before.cache()[key].publisher,
        before.cache().contains_key(key) && before.cache()[key].expires_at <= now ==> r is None,
        !before.cache().contains_key(key) && row is None ==> r is None,
        !before.cache().contains_key(key) && row is Some && row->0.len() >= 76 && row->0.len() >= 76 + be_val(row->0.subrange(72, 76))
            && be_val(row->0.subrange(64, 72)) > now ==> r is Some && r->0.value@ == row->0.subrange(
            76,
            76 + be_val(row->0.subrange(72, 76)) as int,
        ) && after.cache().contains_key(key) && after.cache()[key].same(r->0),
        !before.cache().contains_key(key) && row is Some && be_val(row->0.subrange(64, 72)) <= now ==> r is None,
        before.cache().contains_key(key) || r is None ==> after.cache() == before.cache(),
        other != key ==> after.cache().contains_key(other) == before.cache().contains_key(other) && after.cache()[other]
            == before.cache()[other],
        after.to_write() == before.to_write() && after.unwritten() == before.unwritten(),
{
}

/// Entries are the same if they are so in all that they hold.
pub proof fn law_same_entries(a: StoredEntry, b: StoredEntry)
    ensures
        a.same(b) <==> a.key == b.key && a.value@ == b.value@ && a.publisher == b.publisher && a.expires_at == b.expires_at,
        a.same(b) ==> a.wire() == b.wire(),
{
}

/// An entry lives from when it was made for as long as it was made for, and is read back from its
/// bytes as what it was.
pub proof fn law_entries_are_kept_whole(
    key: [u8; 32],
    value: Vec<u8>,
    publisher: PeerId,
    ttl: u64,
    now: u64,
    e: StoredEntry,
    t: u64,
    over: bool,
    b: Vec<u8>,
    p: &[u8],
    d: Result<StoredEntry, DhtError>,
)
    requires
        call_ensures(StoredEntry::new_at, (key, value, publisher, ttl, now), e),
        call_ensures(StoredEntry::is_expired_at, (&e, t), over),
        value@.len() <= u32::MAX,
        call_ensures(StoredEntry::encode, (&e,), b),
        p@ == b@,
        call_ensures(StoredEntry::decode, (p,), d),
    ensures
        e.key == key && e.value == value && e.publisher == publisher,
        now + ttl <= u64::MAX ==> (over <==> t >= now + ttl),
        now + ttl > u64::MAX ==> (over <==> t == u64::MAX),
        d is Ok && d->Ok_0.key == key && d->Ok_0.value@ == value@ && d->Ok_0.publisher == publisher && d->Ok_0.expires_at
            == e.expires_at,
{
    law_stored_entry_roundtrip(e, if d is Ok { d->Ok_0 } else { e });
}

/// What is put is at hand and waits to be written, behind what waits already. Only what has expired,
/// and is listed, is collected.
pub proof fn law_what_the_store_does(e: StoredEntry, expired: Vec<(u64, Key)>, now: u64, r: Result<(), DhtError>, other: Key)
    ensures
        forall|s: &mut PersistentStore| #[trigger]
            call_ensures(PersistentStore::put, (s, e), r) ==> r is Ok && final(s).cache().contains_key(e.key) && final(s).cache()[e.key]
                == e && final(s).to_write().len() == s.to_write().len() + 1 && final(s).to_write().last().value@ == e.value@
                && final(s).to_write().last().key == e.key && (other != e.key ==> final(s).cache().contains_key(other)
                == s.cache().contains_key(other)),
        forall|s: &mut PersistentStore| #[trigger]
            call_ensures(PersistentStore::collect, (s, &expired, now), ()) && s.cache().contains_key(other) && s.cache()[other].expires_at
                > now ==> final(s).cache().contains_key(other) && final(s).cache()[other] == s.cache()[other],
        forall|s: &mut PersistentStore, j: int|
            #![trigger call_ensures(PersistentStore::collect, (s, &expired, now), ()), expired@[j]]
            call_ensures(PersistentStore::collect, (s, &expired, now), ()) && 0 <= j < expired@.len() && s.cache().contains_key(
                expired@[j].1,
            ) && s.cache()[expired@[j].1].expires_at <= now ==> !final(s).cache().contains_key(expired@[j].1),
{
    assert forall|s: &mut PersistentStore, j: int|
        #![trigger call_ensures(PersistentStore::collect, (s, &expired, now), ()), expired@[j]]
        call_ensures(PersistentStore::collect, (s, &expired, now), ()) && 0 <= j < expired@.len() && s.cache().contains_key(
            expired@[j].1,
        ) && s.cache()[expired@[j].1].expires_at <= now implies !final(s).cache().contains_key(expired@[j].1) by {
        assert(index_lists(expired@, expired@[j].1));
    }
}

/// Rows are gathered, a hundred at a time, or as many as there are when the time is up or nothing more
/// comes; none is lost and none is written twice.
pub proof fn law_writer_gathers(e: StoredEntry, r: WriterAction)
    ensures
        forall|w: &mut BatchWriter| #[trigger]
            call_ensures(BatchWriter::on_event, (w, WriterEvent::Entry(e)), r) && w.batch@.len() + 1 < 100 ==> r is Gather
                && final(w).batch@ == w.batch@.push(e),
        forall|w: &mut BatchWriter| #[trigger]
            call_ensures(BatchWriter::on_event, (w, WriterEvent::Entry(e)), r) && w.batch@.len() + 1 == 100 ==> (
            r matches WriterAction::Write(rows) && rows@.len() == 100 && rows@.last().key == e.key && rows@.last().data@ == e.wire())
                && final(w).batch@.len() == 0,
        forall|w: &mut BatchWriter| #[trigger]
            call_ensures(BatchWriter::on_event, (w, WriterEvent::Timeout), r) ==> (r is Wait <==> w.batch@.len() == 0) && (
            r matches WriterAction::Write(rows) ==> rows@.len() == w.batch@.len()) && final(w).batch@.len() == 0,
        forall|w: &mut BatchWriter| #[trigger]
            call_ensures(BatchWriter::on_event, (w, WriterEvent::Closed), r) ==> (r is Stop <==> w.batch@.len() == 0) && (
            r matches WriterAction::Write(rows) ==> rows@.len() == w.batch@.len()) && final(w).batch@.len() == 0,
{
    assert forall|w: &mut BatchWriter| #[trigger]
        call_ensures(BatchWriter::on_event, (w, WriterEvent::Entry(e)), r) && w.batch@.len() + 1 == 100 implies (
    r matches WriterAction::Write(rows) && rows@.len() == 100 && rows@.last().key == e.key && rows@.last().data@ == e.wire())
        && final(w).batch@.len() == 0 by {
        if let WriterAction::Write(rows) = r {
            assert(rows@[99].is_row_of(w.batch@.push(e)[99]));
        }
    }
}

/// What is asked of the store: an entry that is at hand, from the cache or from its row, while it has
/// not expired; what is due to go; and what waits to be written.
pub proof fn law_what_the_store_says(
    s: PersistentStore,
    key: Key,
    now: u64,
    hot: CacheLookup,
    row: &[u8],
    due: bool,
    index: Vec<(u64, Key)>,
    expired: Vec<(u64, Key)>,
    settled: Vec<(u64, Key)>,
    data: Option<Vec<u8>>,
    got: Option<StoredEntry>,
    removed: Option<StoredEntry>,
    x: (u64, Key),
)
    requires
        call_ensures(PersistentStore::get_hot, (&s, &key, now), hot),
        call_ensures(row_is_due, (row, now), due),
        call_ensures(expired_keys, (&index, now), expired),
        call_ensures(PersistentStore::settled, (&s, &index), settled),
    ensures
        hot is Absent <==> !s.cache().contains_key(key),
        hot is Expired <==> s.cache().contains_key(key) && s.cache()[key].expires_at <= now,
        hot is Fresh ==> hot->Fresh_0.value@ == s.cache()[key].value@,
        due <==> !(row@.len() >= 76 && row@.len() >= 76 + be_val(row@.subrange(72, 76)) && be_val(row@.subrange(64, 72)) > now),
        expired@.contains(x) <==> index@.contains(x) && x.0 <= now,
        settled@.contains(x) <==> index@.contains(x) && !s.unwritten().contains(x.1),
        forall|p: &mut PersistentStore| #[trigger]
            call_ensures(PersistentStore::get, (p, &key, data, now), got) ==> p.looked_up(
                *final(p),
                key,
                (match data {
                    Some(v) => Some(v@),
                    None => None,
                }),
                now,
                got,
            ),
        forall|p: &mut PersistentStore| #[trigger]
            call_ensures(PersistentStore::remove, (p, &key), removed) ==> !final(p).cache().contains_key(key) && (removed is Some
                <==> p.cache().contains_key(key)),
{
    let f = |y: (u64, Key)| y.0 <= now;
    let g = |y: (u64, Key)| !s.unwritten().contains(y.1);
    lemma_filter_keeps(index@, f, x);
    lemma_filter_keeps(index@, g, x);
}

proof fn lemma_filter_keeps(s: Seq<(u64, Key)>, f: spec_fn((u64, Key)) -> bool, x: (u64, Key))
    ensures
        s.filter(f).contains(x) <==> s.contains(x) && f(x),
{
    if s.contains(x) && f(x) {
        let i = choose|i: int| 0 <= i < s.len() && s[i] == x;
        s.lemma_filter_contains(f, i);
    }
    if s.filter(f).contains(x) {
        let i = choose|i: int| 0 <= i < s.filter(f).len() && s.filter(f)[i] == x;
        s.lemma_filter_pred(f, i);
        s.lemma_filter_contains_rev(f, x);
    }
}

} // verus!
