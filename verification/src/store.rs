//! The capacity-bounded response cache.
//!
//! `CacheTable` is the sequential store: one insertion-ordered sequence of
//! key/entry pairs serving as both the value map and the FIFO eviction
//! order, so the two can never fall out of sync. `MemoryCache` wraps it in
//! a reader/writer lock whose invariant is the table's well-formedness:
//! every mutation happens under one exclusive critical section, and no
//! caller can ever observe a torn state.

use vstd::prelude::*;

use crate::cache::{entry_usable, is_entry_usable, now_unix_secs, CacheEntry};
use std::collections::VecDeque;
use vstd::rwlock::{RwLock, RwLockPredicate};

verus! {

/// The contents of a store: key/entry pairs in insertion order.
pub type Entries = Seq<(Seq<char>, CacheEntry)>;

/// No key occurs twice.
pub open spec fn unique_keys(es: Entries) -> bool {
    forall|i: int, j: int| 0 <= i < j < es.len() ==> (#[trigger] es[i]).0 != (#[trigger] es[j]).0
}

/// Whether some pair holds the key.
pub open spec fn has_key(es: Entries, k: Seq<char>) -> bool {
    exists|i: int| 0 <= i < es.len() && (#[trigger] es[i]).0 == k
}

/// The entry stored under `k`: the first match, which with unique keys is
/// the only one.
pub open spec fn spec_lookup(es: Entries, k: Seq<char>) -> Option<CacheEntry>
    decreases es.len(),
{
    if es.len() == 0 {
        None
    } else if es[0].0 == k {
        Some(es[0].1)
    } else {
        spec_lookup(es.drop_first(), k)
    }
}

/// Entries evicted from the front while the store is at or over `max`:
/// what one insertion does to make room.
pub open spec fn drop_while_full(es: Entries, max: int) -> Entries
    decreases es.len(),
{
    if es.len() >= max && es.len() > 0 {
        drop_while_full(es.drop_first(), max)
    } else {
        es
    }
}

/// The first pair holding `k` replaced by `(k, e)`, in place.
pub open spec fn replace_value(es: Entries, k: Seq<char>, e: CacheEntry) -> Entries
    decreases es.len(),
{
    if es.len() == 0 {
        es
    } else if es[0].0 == k {
        seq![(k, e)] + es.drop_first()
    } else {
        seq![es[0]] + replace_value(es.drop_first(), k, e)
    }
}

/// The first pair holding `k` removed.
pub open spec fn remove_key(es: Entries, k: Seq<char>) -> Entries
    decreases es.len(),
{
    if es.len() == 0 {
        es
    } else if es[0].0 == k {
        es.drop_first()
    } else {
        seq![es[0]] + remove_key(es.drop_first(), k)
    }
}

/// What one `set` does to the contents: a `no-store` entry is discarded;
/// otherwise the oldest pairs are evicted while the store is full, and the
/// entry then replaces the key's pair in place (keeping its eviction
/// position) or is appended as the newest.
pub open spec fn entries_after_set(es: Entries, max: int, k: Seq<char>, e: CacheEntry) -> Entries {
    if e.cache_control.no_store {
        es
    } else {
        let room = drop_while_full(es, max);
        if has_key(room, k) {
            replace_value(room, k, e)
        } else {
            room + seq![(k, e)]
        }
    }
}

/// The number of entries a store configured for `max` may reach: one
/// insertion always goes through, so a zero-capacity store can still hold
/// a single entry for a moment.
pub open spec fn spec_cap(max: int) -> int {
    if max == 0 {
        1
    } else {
        max
    }
}

/// The sequential store: key/entry pairs in insertion order, with a
/// configured capacity.
pub struct CacheTable {
    store: VecDeque<(String, CacheEntry)>,
    max_entries: usize,
}

impl CacheTable {
    /// The contents, in insertion order.
    pub closed spec fn entries(&self) -> Entries {
        self.store@.map_values(|p: (String, CacheEntry)| (p.0@, p.1))
    }

    /// The configured maximum number of entries.
    pub closed spec fn capacity(&self) -> usize {
        self.max_entries
    }

    /// Well-formed: no key occurs twice, and the store is within capacity.
    pub open spec fn wf(&self) -> bool {
        unique_keys(self.entries()) && self.entries().len() <= spec_cap(self.capacity() as int)
    }

    /// Create an empty store with the given maximum number of entries.
    pub fn new(max_entries: usize) -> (s: Self)
        ensures
            s.wf(),
            s.entries() == Seq::<(Seq<char>, CacheEntry)>::empty(),
            s.capacity() == max_entries,
    {
        let s = CacheTable { store: VecDeque::with_capacity(max_entries), max_entries };
        proof {
            assert(s.entries() =~= Seq::<(Seq<char>, CacheEntry)>::empty());
        }
        s
    }

    /// The current number of entries.
    pub fn size(&self) -> (n: usize)
        ensures
            n == self.entries().len(),
    {
        self.store.len()
    }

    /// Remove all entries.
    pub fn clear(&mut self)
        ensures
            final(self).wf(),
            final(self).entries() == Seq::<(Seq<char>, CacheEntry)>::empty(),
            final(self).capacity() == old(self).capacity(),
    {
        self.store.clear();
        proof {
            assert(self.entries() =~= Seq::<(Seq<char>, CacheEntry)>::empty());
        }
    }

    /// The position of the first pair holding `key`, if any.
    fn find_index(&self, key: &String) -> (r: Option<usize>)
        ensures
            match r {
                Some(i) => i < self.entries().len() && self.entries()[i as int].0 == key@
                    && forall|j: int| 0 <= j < i ==> (#[trigger] self.entries()[j]).0 != key@,
                None => !has_key(self.entries(), key@),
            },
    {
        let n = self.store.len();
        let mut i: usize = 0;
        while i < n
            invariant
                i <= n,
                n == self.entries().len(),
                n == self.store@.len(),
                forall|j: int| 0 <= j < i ==> (#[trigger] self.entries()[j]).0 != key@,
            decreases n - i,
        {
            proof {
                assert(self.entries()[i as int] == (self.store@[i as int].0@, self.store@[
                    i as int].1));
            }
            if self.store[i].0 == *key {
                return Some(i);
            }
            i = i + 1;
        }
        None
    }

    /// Look up `key` at time `now`.
    ///
    /// Returns the stored entry while it may still be served: fresh, or
    /// expired but inside its stale-while-revalidate window. A fully
    /// expired entry is reported as a miss but not removed: eviction on
    /// the read path is deliberately lazy.
    pub fn get_at(&self, key: &String, now: u64) -> (r: Option<CacheEntry>)
        ensures
            ({
                match spec_lookup(self.entries(), key@) {
                    Some(e) => r == (if entry_usable(e, now) {
                        Some(e)
                    } else {
                        None::<CacheEntry>
                    }),
                    None => r is None,
                }
            }),
    {
        match self.find_index(key) {
            None => {
                proof {
                    lemma_lookup_absent(self.entries(), key@);
                }
                None
            },
            Some(i) => {
                proof {
                    lemma_lookup_first_match(self.entries(), key@, i as int);
                }
                let p = &self.store[i];
                if is_entry_usable(&p.1, now) {
                    Some(p.1.clone())
                } else {
                    None
                }
            },
        }
    }

    /// Store `entry` under `key`.
    ///
    /// A `no-store` entry is silently discarded. Otherwise the oldest
    /// entries are evicted while the store is at capacity, and the entry
    /// is inserted; re-insertion under an existing key replaces the value
    /// in place and keeps the key's eviction position.
    pub fn set(&mut self, key: String, entry: CacheEntry)
        requires
            old(self).wf(),
        ensures
            final(self).wf(),
            final(self).capacity() == old(self).capacity(),
            final(self).entries() == entries_after_set(
                old(self).entries(),
                old(self).capacity() as int,
                key@,
                entry,
            ),
    {
        if entry.cache_control.no_store {
            return ;
        }
        let ghost orig = self.entries();
        let ghost max = self.max_entries as int;
        while self.store.len() >= self.max_entries && self.store.len() > 0
            invariant
                self.max_entries == old(self).max_entries,
                unique_keys(self.entries()),
                max == self.max_entries as int,
                drop_while_full(self.entries(), max) == drop_while_full(orig, max),
            decreases self.store.len(),
        {
            let ghost pre = self.entries();
            self.store.pop_front();
            proof {
                assert(self.entries() =~= pre.drop_first());
                assert forall|i: int, j: int|
                    0 <= i < j < self.entries().len() implies (#[trigger] self.entries()[i]).0 != (
                #[trigger] self.entries()[j]).0 by {
                    assert(pre[i + 1].0 != pre[j + 1].0);
                }
            }
        }
        let ghost room = self.entries();
        proof {
            assert(drop_while_full(room, max) == room);
            assert(room.len() < max || room.len() == 0);
        }
        match self.find_index(&key) {
            Some(i) => {
                let ghost pre_raw = self.store@;
                self.store.remove(i);
                self.store.insert(i, (key, entry));
                proof {
                    assert(self.store@ =~= pre_raw.update(i as int, (key, entry)));
                    assert(self.entries() =~= room.update(i as int, (key@, entry)));
                    lemma_replace_at(room, key@, entry, i as int);
                    assert(has_key(room, key@));
                    assert forall|a: int, b: int|
                        0 <= a < b < self.entries().len() implies (#[trigger] self.entries()[
                    a]).0 != (#[trigger] self.entries()[b]).0 by {
                        assert(room[a].0 == self.entries()[a].0);
                        assert(room[b].0 == self.entries()[b].0);
                    }
                }
            },
            None => {
                self.store.push_back((key, entry));
                proof {
                    assert(self.entries() =~= room + seq![(key@, entry)]);
                    assert forall|a: int, b: int|
                        0 <= a < b < self.entries().len() implies (#[trigger] self.entries()[
                    a]).0 != (#[trigger] self.entries()[b]).0 by {
                        if b < room.len() {
                            assert(room[a].0 != room[b].0);
                        } else {
                            assert(self.entries()[b].0 == key@);
                            assert(self.entries()[a] == room[a]);
                        }
                    }
                }
            },
        }
    }

    /// Remove `key` and its entry, if present.
    pub fn delete(&mut self, key: &String)
        requires
            old(self).wf(),
        ensures
            final(self).wf(),
            final(self).capacity() == old(self).capacity(),
            final(self).entries() == remove_key(old(self).entries(), key@),
    {
        let ghost es = self.entries();
        match self.find_index(key) {
            None => {
                proof {
                    lemma_remove_key_absent(es, key@);
                }
            },
            Some(i) => {
                self.store.remove(i);
                proof {
                    assert(self.entries() =~= es.remove(i as int));
                    lemma_remove_at(es, key@, i as int);
                    assert forall|a: int, b: int|
                        0 <= a < b < self.entries().len() implies (#[trigger] self.entries()[
                    a]).0 != (#[trigger] self.entries()[b]).0 by {
                        let pa = if a < i { a } else { a + 1 };
                        let pb = if b < i { b } else { b + 1 };
                        assert(self.entries()[a] == es[pa]);
                        assert(self.entries()[b] == es[pb]);
                    }
                }
            },
        }
    }
}

/// The stored keys, in insertion order.
pub open spec fn keys_of(es: Entries) -> Seq<Seq<char>> {
    es.map_values(|p: (Seq<char>, CacheEntry)| p.0)
}

/// Round trip: storing a cacheable entry makes it the one found under its
/// key, whatever was stored before and whatever had to be evicted.
/// Together with `get_at`'s contract, a `get` before the entry expires
/// returns exactly the stored entry.
pub proof fn lemma_set_then_get(es: Entries, max: int, k: Seq<char>, e: CacheEntry)
    requires
        !e.cache_control.no_store,
    ensures
        spec_lookup(entries_after_set(es, max, k, e), k) == Some(e),
{
    let room = drop_while_full(es, max);
    if has_key(room, k) {
        lemma_lookup_replace(room, k, e);
    } else {
        lemma_lookup_append(room, k, e);
    }
}

/// FIFO eviction: inserting a new key into a full store drops exactly the
/// oldest entry. The dropped key becomes unretrievable, and every younger
/// entry survives, still retrievable under its key.
pub proof fn lemma_set_evicts_oldest(es: Entries, max: int, k: Seq<char>, e: CacheEntry)
    requires
        unique_keys(es),
        es.len() == max,
        max >= 1,
        !has_key(es, k),
        !e.cache_control.no_store,
    ensures
        entries_after_set(es, max, k, e) == es.drop_first().push((k, e)),
        !has_key(entries_after_set(es, max, k, e), es[0].0),
        forall|i: int|
            1 <= i < es.len() ==> spec_lookup(entries_after_set(es, max, k, e), (#[trigger] es[
            i]).0) == Some(es[i].1),
{
    let tail = es.drop_first();
    assert(drop_while_full(es, max) == drop_while_full(tail, max));
    assert(drop_while_full(tail, max) == tail);
    assert(!has_key(tail, k)) by {
        if has_key(tail, k) {
            let w = choose|w: int| 0 <= w < tail.len() && tail[w].0 == k;
            assert(es[w + 1].0 == k);
        }
    }
    let after = entries_after_set(es, max, k, e);
    assert(after =~= tail.push((k, e)));
    assert(es[0].0 != k);
    assert(!has_key(after, es[0].0)) by {
        if has_key(after, es[0].0) {
            let w = choose|w: int| 0 <= w < after.len() && after[w].0 == es[0].0;
            if w < tail.len() {
                assert(es[w + 1].0 == es[0].0);
            }
        }
    }
    assert forall|i: int| 1 <= i < es.len() implies spec_lookup(after, (#[trigger] es[i]).0)
        == Some(es[i].1) by {
        assert(after[i - 1] == es[i]);
        assert forall|j: int| 0 <= j < i - 1 implies (#[trigger] after[j]).0 != es[i].0 by {
            assert(after[j] == es[j + 1]);
        }
        lemma_lookup_first_match(after, es[i].0, i - 1);
    }
}

/// Refreshing the value under an existing key leaves the eviction order
/// alone: below capacity, the stored keys stay exactly as they were, and
/// only the value under that key changes.
pub proof fn lemma_reset_keeps_order(es: Entries, max: int, k: Seq<char>, e: CacheEntry)
    requires
        es.len() < max,
        has_key(es, k),
        !e.cache_control.no_store,
    ensures
        keys_of(entries_after_set(es, max, k, e)) == keys_of(es),
        spec_lookup(entries_after_set(es, max, k, e), k) == Some(e),
{
    assert(drop_while_full(es, max) == es);
    lemma_replace_keeps_keys(es, k, e);
    assert(keys_of(replace_value(es, k, e)) =~= keys_of(es));
    lemma_lookup_replace(es, k, e);
}

/// The value map and the eviction order cannot disagree: in a well-formed
/// store the keys have no duplicates, so the number of distinct keys (the
/// map's size) equals the length of the insertion-order sequence.
pub proof fn lemma_store_structures_in_sync(es: Entries)
    requires
        unique_keys(es),
    ensures
        keys_of(es).no_duplicates(),
        keys_of(es).to_set().len() == es.len(),
{
    let ks = keys_of(es);
    assert forall|i: int, j: int|
        0 <= i < ks.len() && 0 <= j < ks.len() && i != j implies ks[i] != ks[j] by {
        if i < j {
            assert(es[i].0 != es[j].0);
        } else {
            assert(es[j].0 != es[i].0);
        }
    }
    ks.unique_seq_to_set();
}

proof fn lemma_lookup_replace(es: Entries, k: Seq<char>, e: CacheEntry)
    requires
        has_key(es, k),
    ensures
        spec_lookup(replace_value(es, k, e), k) == Some(e),
    decreases es.len(),
{
    if es.len() > 0 {
        if es[0].0 == k {
            let r = seq![(k, e)] + es.drop_first();
            assert(r[0] == (k, e));
        } else {
            let tail = es.drop_first();
            assert(has_key(tail, k)) by {
                let w = choose|w: int| 0 <= w < es.len() && es[w].0 == k;
                assert(tail[w - 1].0 == k);
            }
            lemma_lookup_replace(tail, k, e);
            let r = seq![es[0]] + replace_value(tail, k, e);
            assert(r[0] == es[0]);
            assert(r.drop_first() =~= replace_value(tail, k, e));
        }
    }
}

proof fn lemma_lookup_append(es: Entries, k: Seq<char>, e: CacheEntry)
    requires
        !has_key(es, k),
    ensures
        spec_lookup(es + seq![(k, e)], k) == Some(e),
    decreases es.len(),
{
    let r = es + seq![(k, e)];
    if es.len() == 0 {
        assert(r[0] == (k, e));
    } else {
        assert(es[0].0 != k);
        assert(r[0] == es[0]);
        let tail = es.drop_first();
        assert(!has_key(tail, k)) by {
            if has_key(tail, k) {
                let w = choose|w: int| 0 <= w < tail.len() && tail[w].0 == k;
                assert(es[w + 1].0 == k);
            }
        }
        lemma_lookup_append(tail, k, e);
        assert(r.drop_first() =~= tail + seq![(k, e)]);
    }
}

proof fn lemma_replace_keeps_keys(es: Entries, k: Seq<char>, e: CacheEntry)
    ensures
        replace_value(es, k, e).len() == es.len(),
        forall|i: int|
            0 <= i < es.len() ==> (#[trigger] replace_value(es, k, e)[i]).0 == es[i].0,
    decreases es.len(),
{
    if es.len() > 0 {
        if es[0].0 == k {
            let r = seq![(k, e)] + es.drop_first();
            assert forall|i: int| 0 <= i < es.len() implies (#[trigger] r[i]).0 == es[i].0 by {
                if i > 0 {
                    assert(r[i] == es.drop_first()[i - 1]);
                }
            }
        } else {
            lemma_replace_keeps_keys(es.drop_first(), k, e);
            let r = seq![es[0]] + replace_value(es.drop_first(), k, e);
            assert forall|i: int| 0 <= i < es.len() implies (#[trigger] r[i]).0 == es[i].0 by {
                if i > 0 {
                    assert(r[i] == replace_value(es.drop_first(), k, e)[i - 1]);
                    assert(es.drop_first()[i - 1] == es[i]);
                }
            }
        }
    }
}

proof fn lemma_lookup_absent(es: Entries, k: Seq<char>)
    requires
        !has_key(es, k),
    ensures
        spec_lookup(es, k) is None,
    decreases es.len(),
{
    if es.len() > 0 {
        assert(es[0].0 != k);
        assert forall|i: int| 0 <= i < es.drop_first().len() implies (#[trigger] es.drop_first()[
        i]).0 != k by {
            assert(es.drop_first()[i] == es[i + 1]);
        }
        lemma_lookup_absent(es.drop_first(), k);
    }
}

proof fn lemma_lookup_first_match(es: Entries, k: Seq<char>, i: int)
    requires
        0 <= i < es.len(),
        es[i].0 == k,
        forall|j: int| 0 <= j < i ==> (#[trigger] es[j]).0 != k,
    ensures
        spec_lookup(es, k) == Some(es[i].1),
    decreases es.len(),
{
    if i > 0 {
        assert(es.drop_first()[i - 1] == es[i]);
        assert forall|j: int| 0 <= j < i - 1 implies (#[trigger] es.drop_first()[j]).0 != k by {
            assert(es.drop_first()[j] == es[j + 1]);
        }
        lemma_lookup_first_match(es.drop_first(), k, i - 1);
    }
}

proof fn lemma_replace_at(es: Entries, k: Seq<char>, e: CacheEntry, i: int)
    requires
        0 <= i < es.len(),
        es[i].0 == k,
        forall|j: int| 0 <= j < i ==> (#[trigger] es[j]).0 != k,
    ensures
        replace_value(es, k, e) == es.update(i, (k, e)),
    decreases es.len(),
{
    if i == 0 {
        assert(replace_value(es, k, e) == seq![(k, e)] + es.drop_first());
        assert(seq![(k, e)] + es.drop_first() =~= es.update(0, (k, e)));
    } else {
        assert(es.drop_first()[i - 1] == es[i]);
        assert forall|j: int| 0 <= j < i - 1 implies (#[trigger] es.drop_first()[j]).0 != k by {
            assert(es.drop_first()[j] == es[j + 1]);
        }
        lemma_replace_at(es.drop_first(), k, e, i - 1);
        assert(seq![es[0]] + es.drop_first().update(i - 1, (k, e)) =~= es.update(i, (k, e)));
    }
}

proof fn lemma_remove_key_absent(es: Entries, k: Seq<char>)
    requires
        !has_key(es, k),
    ensures
        remove_key(es, k) == es,
    decreases es.len(),
{
    if es.len() > 0 {
        assert(es[0].0 != k);
        assert forall|i: int| 0 <= i < es.drop_first().len() implies (#[trigger] es.drop_first()[
        i]).0 != k by {
            assert(es.drop_first()[i] == es[i + 1]);
        }
        lemma_remove_key_absent(es.drop_first(), k);
        assert(seq![es[0]] + es.drop_first() =~= es);
    }
}

proof fn lemma_remove_at(es: Entries, k: Seq<char>, i: int)
    requires
        0 <= i < es.len(),
        es[i].0 == k,
        forall|j: int| 0 <= j < i ==> (#[trigger] es[j]).0 != k,
    ensures
        remove_key(es, k) == es.remove(i),
    decreases es.len(),
{
    if i == 0 {
        assert(es.drop_first() =~= es.remove(0));
    } else {
        assert(es.drop_first()[i - 1] == es[i]);
        assert forall|j: int| 0 <= j < i - 1 implies (#[trigger] es.drop_first()[j]).0 != k by {
            assert(es.drop_first()[j] == es[j + 1]);
        }
        lemma_remove_at(es.drop_first(), k, i - 1);
        assert(seq![es[0]] + es.drop_first().remove(i - 1) =~= es.remove(i));
    }
}

/// The lock invariant of a shared cache: the protected table is
/// well-formed and keeps its configured capacity.
pub struct CachePred {
    /// The capacity the cache was created with.
    pub max_entries: usize,
}

impl RwLockPredicate<CacheTable> for CachePred {
    open spec fn inv(self, t: CacheTable) -> bool {
        t.wf() && t.capacity() == self.max_entries
    }
}

/// Trait for cache implementations shared by concurrent callers.
///
/// Each call is atomic; beyond that, nothing is promised across
/// concurrent callers, so the methods carry no contracts. The sequential
/// semantics live on `CacheTable`.
pub trait Cache: Send + Sync {
    /// Get a cached entry by key.
    fn get(&self, key: &String) -> Option<CacheEntry>;

    /// Store an entry in the cache.
    fn set(&self, key: String, entry: CacheEntry);

    /// Delete an entry from the cache.
    fn delete(&self, key: &String);
}

/// In-memory cache with FIFO eviction, safe for concurrent callers.
///
/// A reader/writer lock guards the table: reads may run concurrently,
/// every mutation runs in one exclusive critical section, and the lock's
/// invariant is `CacheTable::wf`, so no caller ever observes the value
/// map and the eviction order out of sync.
pub struct MemoryCache {
    inner: RwLock<CacheTable, CachePred>,
}

impl MemoryCache {
    /// The maximum number of entries the cache was created with.
    pub closed spec fn capacity(&self) -> usize {
        self.inner.pred().max_entries
    }

    /// Create a new memory cache with the given maximum entries.
    pub fn new(max_entries: usize) -> (c: Self)
        ensures
            c.capacity() == max_entries,
    {
        let table = CacheTable::new(max_entries);
        MemoryCache { inner: RwLock::new(table, Ghost(CachePred { max_entries })) }
    }

    /// The current number of entries: never more than the lock invariant
    /// admits, whatever concurrent callers have done.
    pub fn size(&self) -> (n: usize)
        ensures
            n <= spec_cap(self.capacity() as int),
    {
        let handle = self.inner.acquire_read();
        let n = handle.borrow().size();
        handle.release_read();
        n
    }

    /// Remove all entries.
    pub fn clear(&self) {
        let (mut table, handle) = self.inner.acquire_write();
        table.clear();
        handle.release_write(table);
    }

    /// Look up `key` at time `now` in the locked table, as
    /// `CacheTable::get_at` does. Which entry comes back depends on what
    /// concurrent callers have stored, but every hit is one that may be
    /// served at `now`: fresh, or inside its stale window.
    pub fn get_at(&self, key: &String, now: u64) -> (r: Option<CacheEntry>)
        ensures
            r matches Some(e) ==> entry_usable(e, now),
    {
        let handle = self.inner.acquire_read();
        let r = handle.borrow().get_at(key, now);
        handle.release_read();
        r
    }

    /// Look up `key` at the current time.
    pub fn get(&self, key: &String) -> Option<CacheEntry> {
        self.get_at(key, now_unix_secs())
    }

    /// Store `entry` under `key`, evicting FIFO-oldest entries at
    /// capacity, as `CacheTable::set` does.
    pub fn set(&self, key: String, entry: CacheEntry) {
        let (mut table, handle) = self.inner.acquire_write();
        table.set(key, entry);
        handle.release_write(table);
    }

    /// Remove `key` and its entry, if present.
    pub fn delete(&self, key: &String) {
        let (mut table, handle) = self.inner.acquire_write();
        table.delete(key);
        handle.release_write(table);
    }
}

impl Cache for MemoryCache {
    fn get(&self, key: &String) -> Option<CacheEntry> {
        MemoryCache::get(self, key)
    }

    fn set(&self, key: String, entry: CacheEntry) {
        MemoryCache::set(self, key, entry)
    }

    fn delete(&self, key: &String) {
        MemoryCache::delete(self, key)
    }
}

impl Default for MemoryCache {
    /// A cache that holds up to one hundred entries.
    fn default() -> (c: Self)
        ensures
            c.capacity() == 100,
    {
        MemoryCache::new(100)
    }
}

} // verus!
