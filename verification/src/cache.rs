//! Key→value stores whose entries expire: an in-memory store and a variant
//! that stores nothing.

use crate::bytes::bytes_eq;
use vstd::prelude::*;

verus! {

/// One stored value with the instant it was stored and how long it stays valid.
pub struct CacheEntry<V> {
    pub key: Vec<u8>,
    pub value: V,
    pub inserted_at: u64,
    pub ttl: u64,
}

impl<V> CacheEntry<V> {
    /// The first instant at which the entry is no longer served.
    pub open spec fn expires_at(self) -> int {
        self.inserted_at + self.ttl
    }

    /// Still valid at `now`.
    pub open spec fn live(self, now: u64) -> bool {
        now < self.expires_at()
    }

    /// Still valid at `now`.
    pub fn is_live(&self, now: u64) -> (r: bool)
        ensures
            r == self.live(now),
    {
        now < self.inserted_at || now - self.inserted_at < self.ttl
    }
}

/// What a read of `key` at `now` yields from the stored entries `m`.
pub open spec fn spec_get<V>(m: Map<Seq<u8>, CacheEntry<V>>, key: Seq<u8>, now: u64) -> Option<V> {
    if m.dom().contains(key) && m[key].live(now) {
        Some(m[key].value)
    } else {
        None
    }
}

/// No key is stored twice.
pub open spec fn unique_keys<V>(entries: Seq<CacheEntry<V>>) -> bool {
    forall|i: int, j: int| 0 <= i < j < entries.len() ==> (#[trigger] entries[i]).key@ != (#[trigger] entries[j]).key@
}

/// Whether some entry is stored under `key`.
pub open spec fn has_key<V>(entries: Seq<CacheEntry<V>>, key: Seq<u8>) -> bool {
    exists|i: int| 0 <= i < entries.len() && (#[trigger] entries[i]).key@ == key
}

/// The entries as a map from key to entry.
pub open spec fn entries_map<V>(entries: Seq<CacheEntry<V>>) -> Map<Seq<u8>, CacheEntry<V>> {
    Map::new(
        |k: Seq<u8>| has_key(entries, k),
        |k: Seq<u8>| entries[choose|i: int| 0 <= i < entries.len() && (#[trigger] entries[i]).key@ == k],
    )
}

proof fn lemma_entry_in_map<V>(entries: Seq<CacheEntry<V>>, i: int)
    requires
        unique_keys(entries),
        0 <= i < entries.len(),
    ensures
        entries_map(entries).dom().contains(entries[i].key@),
        entries_map(entries)[entries[i].key@] == entries[i],
{
    let k = entries[i].key@;
    assert(has_key(entries, k));
    let c = choose|c: int| 0 <= c < entries.len() && (#[trigger] entries[c]).key@ == k;
    if c < i {
        assert(entries[c].key@ != entries[i].key@);
    } else if i < c {
        assert(entries[i].key@ != entries[c].key@);
    }
}

/// An in-memory store. Entries past their expiry are never served.
pub struct MemoryCache<V> {
    entries: Vec<CacheEntry<V>>,
}

impl<V> MemoryCache<V> {
    /// The stored entries by key, expired ones included until they are replaced or deleted.
    pub closed spec fn view(&self) -> Map<Seq<u8>, CacheEntry<V>> {
        entries_map(self.entries@)
    }

    /// No key is stored twice.
    pub closed spec fn wf(&self) -> bool {
        unique_keys(self.entries@)
    }

    /// An empty store.
    pub fn new() -> (c: MemoryCache<V>)
        ensures
            c.wf(),
            c@ == Map::<Seq<u8>, CacheEntry<V>>::empty(),
    {
        let c = MemoryCache { entries: Vec::new() };
        assert(c@ =~= Map::<Seq<u8>, CacheEntry<V>>::empty());
        c
    }

    fn find(&self, key: &[u8]) -> (r: Option<usize>)
        ensures
            match r {
                Some(i) => i < self.entries@.len() && self.entries@[i as int].key@ == key@,
                None => !has_key(self.entries@, key@),
            },
    {
        let mut i: usize = 0;
        while i < self.entries.len()
            invariant
                i <= self.entries.len(),
                forall|k: int| 0 <= k < i ==> (#[trigger] self.entries@[k]).key@ != key@,
            decreases self.entries.len() - i,
        {
            if bytes_eq(self.entries[i].key.as_slice(), key) {
                return Some(i);
            }
            i = i + 1;
        }
        None
    }

    /// The value stored under `key`, unless none is stored or it has expired by `now`.
    pub fn get(&self, key: &[u8], now: u64) -> (r: Option<&V>)
        requires
            self.wf(),
        ensures
            match r {
                Some(v) => spec_get(self@, key@, now) == Some(*v),
                None => spec_get(self@, key@, now).is_none(),
            },
    {
        match self.find(key) {
            Some(i) => {
                proof {
                    lemma_entry_in_map(self.entries@, i as int);
                }
                if self.entries[i].is_live(now) {
                    Some(&self.entries[i].value)
                } else {
                    None
                }
            },
            None => None,
        }
    }

    /// Stores `value` under `key` from `now` for `ttl`, replacing what was there.
    pub fn set(&mut self, key: Vec<u8>, value: V, ttl: u64, now: u64)
        requires
            old(self).wf(),
        ensures
            final(self).wf(),
            final(self)@ == old(self)@.insert(key@, (CacheEntry { key, value, inserted_at: now, ttl })),
    {
        let found = self.find(key.as_slice());
        let ghost entry = CacheEntry { key, value, inserted_at: now, ttl };
        let e = CacheEntry { key, value, inserted_at: now, ttl };
        match found {
            Some(i) => {
                self.entries[i] = e;
                proof {
                    let before = old(self).entries@;
                    let after = self.entries@;
                    assert(after == before.update(i as int, entry));
                    assert(unique_keys(after)) by {
                        assert forall|a: int, b: int| 0 <= a < b < after.len() implies (#[trigger] after[a]).key@ != (#[trigger] after[b]).key@ by {
                            assert(before[a].key@ != before[b].key@);
                        }
                    }
                    assert forall|k: Seq<u8>| has_key(after, k) <==> (k == entry.key@ || has_key(before, k)) by {
                        if has_key(after, k) {
                            let c = choose|c: int| 0 <= c < after.len() && (#[trigger] after[c]).key@ == k;
                            assert(before[c].key@ == k);
                        }
                        if has_key(before, k) {
                            let c = choose|c: int| 0 <= c < before.len() && (#[trigger] before[c]).key@ == k;
                            assert(after[c].key@ == k);
                        }
                        if k == entry.key@ {
                            assert(after[i as int].key@ == k);
                        }
                    }
                    assert forall|k: Seq<u8>| has_key(after, k) implies #[trigger] entries_map(after)[k] == old(self)@.insert(entry.key@, entry)[k] by {
                        let c = choose|c: int| 0 <= c < after.len() && (#[trigger] after[c]).key@ == k;
                        lemma_entry_in_map(after, c);
                        if c != i {
                            assert(before[c] == after[c]);
                            lemma_entry_in_map(before, c);
                        }
                    }
                    assert(self@ =~= old(self)@.insert(entry.key@, entry));
                }
            },
            None => {
                self.entries.push(e);
                proof {
                    let before = old(self).entries@;
                    let after = self.entries@;
                    assert(after == before.push(entry));
                    assert(unique_keys(after)) by {
                        assert forall|a: int, b: int| 0 <= a < b < after.len() implies (#[trigger] after[a]).key@ != (#[trigger] after[b]).key@ by {
                            if b < before.len() {
                                assert(before[a].key@ != before[b].key@);
                            } else {
                                assert(before[a].key@ != entry.key@);
                            }
                        }
                    }
                    assert forall|k: Seq<u8>| has_key(after, k) <==> (k == entry.key@ || has_key(before, k)) by {
                        if has_key(after, k) {
                            let c = choose|c: int| 0 <= c < after.len() && (#[trigger] after[c]).key@ == k;
                            if c < before.len() {
                                assert(before[c].key@ == k);
                            }
                        }
                        if has_key(before, k) {
                            let c = choose|c: int| 0 <= c < before.len() && (#[trigger] before[c]).key@ == k;
                            assert(after[c].key@ == k);
                        }
                        if k == entry.key@ {
                            assert(after[before.len() as int].key@ == k);
                        }
                    }
                    assert forall|k: Seq<u8>| has_key(after, k) implies #[trigger] entries_map(after)[k] == old(self)@.insert(entry.key@, entry)[k] by {
                        let c = choose|c: int| 0 <= c < after.len() && (#[trigger] after[c]).key@ == k;
                        lemma_entry_in_map(after, c);
                        if c < before.len() {
                            assert(before[c] == after[c]);
                            lemma_entry_in_map(before, c);
                        }
                    }
                    assert(self@ =~= old(self)@.insert(entry.key@, entry));
                }
            },
        }
    }

    fn remove_at(&mut self, i: usize)
        requires
            old(self).wf(),
            i < old(self).entries@.len(),
        ensures
            final(self).wf(),
            final(self).entries@ == old(self).entries@.remove(i as int),
            final(self)@ == old(self)@.remove(old(self).entries@[i as int].key@),
    {
        let _ = self.entries.remove(i);
        proof {
            let before = old(self).entries@;
            let after = self.entries@;
            let key = before[i as int].key@;
            assert(after == before.remove(i as int));
            assert forall|a: int| 0 <= a < after.len() implies #[trigger] after[a] == before[if a < i { a } else { a + 1 }] by {}
            assert(unique_keys(after)) by {
                assert forall|a: int, b: int| 0 <= a < b < after.len() implies (#[trigger] after[a]).key@ != (#[trigger] after[b]).key@ by {
                    let a0 = if a < i { a } else { a + 1 };
                    let b0 = if b < i { b } else { b + 1 };
                    assert(before[a0].key@ != before[b0].key@);
                }
            }
            assert forall|k: Seq<u8>| has_key(after, k) <==> (k != key && has_key(before, k)) by {
                if has_key(after, k) {
                    let c = choose|c: int| 0 <= c < after.len() && (#[trigger] after[c]).key@ == k;
                    let c0 = if c < i { c } else { c + 1 };
                    assert(before[c0].key@ == k);
                    if c0 < i {
                        assert(before[c0].key@ != before[i as int].key@);
                    } else {
                        assert(before[i as int].key@ != before[c0].key@);
                    }
                }
                if k != key && has_key(before, k) {
                    let c = choose|c: int| 0 <= c < before.len() && (#[trigger] before[c]).key@ == k;
                    let c1 = if c < i { c } else { c - 1 };
                    assert(after[c1].key@ == k);
                }
            }
            assert forall|k: Seq<u8>| has_key(after, k) implies #[trigger] entries_map(after)[k] == old(self)@.remove(key)[k] by {
                let c = choose|c: int| 0 <= c < after.len() && (#[trigger] after[c]).key@ == k;
                let c0 = if c < i { c } else { c + 1 };
                lemma_entry_in_map(after, c);
                lemma_entry_in_map(before, c0);
            }
            assert(self@ =~= old(self)@.remove(key));
        }
    }

    /// Forgets what is stored under `key`, if anything.
    pub fn delete(&mut self, key: &[u8])
        requires
            old(self).wf(),
        ensures
            final(self).wf(),
            final(self)@ == old(self)@.remove(key@),
    {
        match self.find(key) {
            Some(i) => {
                self.remove_at(i);
            },
            None => {
                assert(self@ =~= old(self)@.remove(key@));
            },
        }
    }

    /// Number of entries held, expired ones included.
    pub fn len(&self) -> (n: usize)
        requires
            self.wf(),
        ensures
            n == self@.dom().len(),
            self@.dom().finite(),
    {
        proof {
            lemma_entries_count(self.entries@);
        }
        self.entries.len()
    }

    /// Drops every entry that has expired by `now`, and nothing else.
    pub fn purge_expired(&mut self, now: u64)
        requires
            old(self).wf(),
        ensures
            final(self).wf(),
            final(self)@ == old(self)@.restrict(spec_live_keys(old(self)@, now)),
    {
        let mut i: usize = 0;
        while i < self.entries.len()
            invariant
                self.wf(),
                i <= self.entries@.len(),
                forall|j: int| 0 <= j < i ==> (#[trigger] self.entries@[j]).live(now),
                forall|k: Seq<u8>| #[trigger] self@.dom().contains(k) ==> old(self)@.dom().contains(k) && self@[k] == old(self)@[k],
                forall|k: Seq<u8>| #[trigger] old(self)@.dom().contains(k) && old(self)@[k].live(now) ==> self@.dom().contains(k),
            decreases self.entries@.len() - i,
        {
            proof {
                lemma_entry_in_map(self.entries@, i as int);
            }
            if self.entries[i].is_live(now) {
                i = i + 1;
            } else {
                self.remove_at(i);
            }
        }
        proof {
            let goal = old(self)@.restrict(spec_live_keys(old(self)@, now));
            assert forall|k: Seq<u8>| self@.dom().contains(k) implies #[trigger] goal.dom().contains(k) by {
                assert(has_key(self.entries@, k));
                let c = choose|c: int| 0 <= c < self.entries@.len() && (#[trigger] self.entries@[c]).key@ == k;
                lemma_entry_in_map(self.entries@, c);
            }
            assert(self@ =~= goal);
        }
    }
}

/// The keys whose entry in `m` is still valid at `now`.
pub open spec fn spec_live_keys<V>(m: Map<Seq<u8>, CacheEntry<V>>, now: u64) -> Set<Seq<u8>> {
    Set::new(|k: Seq<u8>| m.dom().contains(k) && m[k].live(now))
}

proof fn lemma_entries_count<V>(entries: Seq<CacheEntry<V>>)
    requires
        unique_keys(entries),
    ensures
        entries_map(entries).dom().finite(),
        entries_map(entries).dom().len() == entries.len(),
    decreases entries.len(),
{
    if entries.len() == 0 {
        assert(entries_map(entries).dom() =~= Set::<Seq<u8>>::empty());
    } else {
        let front = entries.drop_last();
        let last = entries.last();
        assert forall|a: int, b: int| 0 <= a < b < front.len() implies (#[trigger] front[a]).key@ != (#[trigger] front[b]).key@ by {
            assert(entries[a].key@ != entries[b].key@);
        }
        lemma_entries_count(front);
        assert(!has_key(front, last.key@)) by {
            if has_key(front, last.key@) {
                let c = choose|c: int| 0 <= c < front.len() && (#[trigger] front[c]).key@ == last.key@;
                assert(entries[c].key@ != entries[entries.len() - 1].key@);
            }
        }
        assert forall|k: Seq<u8>| has_key(entries, k) <==> (k == last.key@ || has_key(front, k)) by {
            if has_key(entries, k) {
                let c = choose|c: int| 0 <= c < entries.len() && (#[trigger] entries[c]).key@ == k;
                if c < front.len() {
                    assert(front[c].key@ == k);
                }
            }
            if has_key(front, k) {
                let c = choose|c: int| 0 <= c < front.len() && (#[trigger] front[c]).key@ == k;
                assert(entries[c].key@ == k);
            }
            if k == last.key@ {
                assert(entries[entries.len() - 1].key@ == k);
            }
        }
        assert(entries_map(entries).dom() =~= entries_map(front).dom().insert(last.key@));
    }
}

/// The store handed to every component: a real one, or one that stores nothing.
pub enum Cache<V> {
    /// Accepts every call, keeps nothing, never has anything.
    Noop,
    /// Keeps entries in memory until they expire, are replaced or deleted.
    Memory(MemoryCache<V>),
}

impl<V> Cache<V> {
    /// The stored entries by key; always empty for the variant that stores nothing.
    pub open spec fn view(&self) -> Map<Seq<u8>, CacheEntry<V>> {
        match self {
            Cache::Noop => Map::empty(),
            Cache::Memory(m) => m@,
        }
    }

    /// The store behind the handle, if any, is well formed.
    pub open spec fn wf(&self) -> bool {
        match self {
            Cache::Noop => true,
            Cache::Memory(m) => m.wf(),
        }
    }

    /// Whether this is the variant that stores nothing.
    pub open spec fn is_noop(&self) -> bool {
        self is Noop
    }

    /// A store that keeps nothing.
    pub fn noop() -> (c: Cache<V>)
        ensures
            c.wf(),
            c.is_noop(),
            c@ == Map::<Seq<u8>, CacheEntry<V>>::empty(),
    {
        Cache::Noop
    }

    /// An empty in-memory store.
    pub fn in_memory() -> (c: Cache<V>)
        ensures
            c.wf(),
            !c.is_noop(),
            c@ == Map::<Seq<u8>, CacheEntry<V>>::empty(),
    {
        Cache::Memory(MemoryCache::new())
    }

    /// The value stored under `key` and not expired at `now`; always absent
    /// for the variant that stores nothing.
    pub fn get(&self, key: &[u8], now: u64) -> (r: Option<&V>)
        requires
            self.wf(),
        ensures
            match r {
                Some(v) => spec_get(self@, key@, now) == Some(*v),
                None => spec_get(self@, key@, now).is_none(),
            },
    {
        match self {
            Cache::Noop => None,
            Cache::Memory(m) => m.get(key, now),
        }
    }

    /// Stores `value` under `key` from `now` for `ttl`; does nothing in the
    /// variant that stores nothing.
    pub fn set(&mut self, key: Vec<u8>, value: V, ttl: u64, now: u64)
        requires
            old(self).wf(),
        ensures
            final(self).wf(),
            final(self).is_noop() == old(self).is_noop(),
            final(self)@ == if old(self).is_noop() {
                Map::<Seq<u8>, CacheEntry<V>>::empty()
            } else {
                old(self)@.insert(key@, (CacheEntry { key, value, inserted_at: now, ttl }))
            },
    {
        match self {
            Cache::Noop => {},
            Cache::Memory(m) => {
                m.set(key, value, ttl, now);
            },
        }
    }

    /// Drops every entry that has expired by `now`, and nothing else.
    pub fn purge_expired(&mut self, now: u64)
        requires
            old(self).wf(),
        ensures
            final(self).wf(),
            final(self).is_noop() == old(self).is_noop(),
            final(self)@ == old(self)@.restrict(spec_live_keys(old(self)@, now)),
    {
        match self {
            Cache::Noop => {
                assert(self@ =~= old(self)@.restrict(spec_live_keys(old(self)@, now)));
            },
            Cache::Memory(m) => {
                m.purge_expired(now);
            },
        }
    }

    /// Forgets what is stored under `key`, if anything.
    pub fn delete(&mut self, key: &[u8])
        requires
            old(self).wf(),
        ensures
            final(self).wf(),
            final(self).is_noop() == old(self).is_noop(),
            final(self)@ == old(self)@.remove(key@),
    {
        match self {
            Cache::Noop => {
                assert(self@ =~= old(self)@.remove(key@));
            },
            Cache::Memory(m) => {
                m.delete(key);
            },
        }
    }
}

/// A value stored at `now` for `ttl` is read back unchanged at every instant
/// before `now + ttl` and is absent at every instant from `now + ttl` on,
/// whatever the store held before.
pub proof fn lemma_set_then_get<V>(m: Map<Seq<u8>, CacheEntry<V>>, entry: CacheEntry<V>, at: u64)
    ensures
        at < entry.inserted_at + entry.ttl ==> spec_get(m.insert(entry.key@, entry), entry.key@, at) == Some(entry.value),
        at >= entry.inserted_at + entry.ttl ==> spec_get(m.insert(entry.key@, entry), entry.key@, at).is_none(),
        entry.ttl > 0 ==> spec_get(m.insert(entry.key@, entry), entry.key@, entry.inserted_at) == Some(entry.value),
{
}

/// Writing one key leaves what is read under every other key as it was.
pub proof fn lemma_set_keeps_others<V>(m: Map<Seq<u8>, CacheEntry<V>>, entry: CacheEntry<V>, other: Seq<u8>, at: u64)
    requires
        other != entry.key@,
    ensures
        spec_get(m.insert(entry.key@, entry), other, at) == spec_get(m, other, at),
{
}

/// After a delete the key reads as absent at every instant.
pub proof fn lemma_delete_then_get<V>(m: Map<Seq<u8>, CacheEntry<V>>, key: Seq<u8>, at: u64)
    ensures
        spec_get(m.remove(key), key, at).is_none(),
{
}

/// A store that keeps nothing reads as absent for every key at every instant.
pub proof fn lemma_empty_reads_absent<V>(key: Seq<u8>, at: u64)
    ensures
        spec_get(Map::<Seq<u8>, CacheEntry<V>>::empty(), key, at).is_none(),
{
}

/// Dropping the expired entries changes nothing that is read at `now` or later.
pub proof fn lemma_purge_is_invisible<V>(m: Map<Seq<u8>, CacheEntry<V>>, now: u64, key: Seq<u8>, at: u64)
    requires
        now <= at,
    ensures
        spec_get(m.restrict(spec_live_keys(m, now)), key, at) == spec_get(m, key, at),
{
}

} // verus!
