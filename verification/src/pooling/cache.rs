//! Caching with least-recently-used eviction and a time to live.

use crate::key::Key;
use crate::time;
use crate::time::{Clock, Duration, Instant};
use vstd::prelude::*;

verus! {

/// Cache configuration.
#[derive(Debug, Clone, Copy)]
pub struct CacheConfig {
    /// Maximum number of entries.
    pub capacity: usize,
    /// Time to live of an entry.
    pub ttl: Option<Duration>,
    /// Whether the least recently used entry is evicted, rather than the oldest.
    pub enable_lru: bool,
}

impl Default for CacheConfig {
    fn default() -> (c: CacheConfig)
        ensures
            c.capacity == 1000,
            c.ttl matches Some(d) && d@ == time::secs(300),
            c.enable_lru,
    {
        CacheConfig { capacity: 1000, ttl: Some(Duration::from_secs(300)), enable_lru: true }
    }
}

impl CacheConfig {
    /// Creates a new cache configuration.
    pub fn new() -> (c: CacheConfig)
        ensures
            c.capacity == 1000,
            c.ttl matches Some(d) && d@ == time::secs(300),
            c.enable_lru,
    {
        CacheConfig::default()
    }

    /// Sets the capacity.
    pub fn with_capacity(self, capacity: usize) -> (c: CacheConfig)
        ensures
            c == (CacheConfig { capacity, ..self }),
    {
        CacheConfig { capacity, ..self }
    }

    /// Sets the time to live.
    pub fn with_ttl(self, ttl: Option<Duration>) -> (c: CacheConfig)
        ensures
            c == (CacheConfig { ttl, ..self }),
    {
        CacheConfig { ttl, ..self }
    }

    /// Enables or disables eviction of the least recently used entry.
    pub fn with_lru(self, enable: bool) -> (c: CacheConfig)
        ensures
            c == (CacheConfig { enable_lru: enable, ..self }),
    {
        CacheConfig { enable_lru: enable, ..self }
    }
}

/// Cache statistics.
#[derive(Debug, Clone, Copy)]
pub struct CacheStats {
    /// Current number of entries.
    pub size: usize,
    /// Maximum capacity.
    pub capacity: usize,
    /// Total number of accesses.
    pub total_accesses: u64,
}

/// What a cache entry holds. Times are in nanoseconds of the cache's clock.
pub struct EntryView<I, V> {
    pub key: I,
    pub value: V,
    pub created_at: nat,
    pub last_accessed: nat,
    pub access_count: nat,
}

impl<I, V> EntryView<I, V> {
    /// An entry that was just made.
    pub open spec fn fresh(key: I, value: V, now: nat) -> EntryView<I, V> {
        EntryView { key, value, created_at: now, last_accessed: now, access_count: 0 }
    }

    /// Whether the entry has outlived its time.
    pub open spec fn expired(self, ttl: Option<Duration>, now: nat) -> bool {
        ttl matches Some(limit) && time::passed(self.created_at, now) > limit@
    }

    /// The entry after one more access.
    pub open spec fn touched(self, now: nat) -> EntryView<I, V> {
        EntryView { last_accessed: now, access_count: self.access_count + 1, ..self }
    }
}

/// Whether some entry has a key.
pub open spec fn present<I, V>(entries: Seq<EntryView<I, V>>, id: I) -> bool {
    exists|i: int| 0 <= i < entries.len() && (#[trigger] entries[i]).key == id
}

/// The place of the entry that has a key.
pub open spec fn slot<I, V>(entries: Seq<EntryView<I, V>>, id: I) -> int {
    choose|i: int| 0 <= i < entries.len() && (#[trigger] entries[i]).key == id
}

/// Whether no key occurs twice.
pub open spec fn distinct<I, V>(entries: Seq<EntryView<I, V>>) -> bool {
    forall|i: int, j: int|
        0 <= i < entries.len() && 0 <= j < entries.len() && i != j ==> (#[trigger] entries[i]).key
            != (#[trigger] entries[j]).key
}

/// The accesses of all entries together.
pub open spec fn accesses<I, V>(entries: Seq<EntryView<I, V>>) -> nat
    decreases entries.len(),
{
    if entries.len() == 0 {
        0
    } else {
        accesses(entries.drop_last()) + entries.last().access_count
    }
}

/// What a [`Cache`] holds: its entries in the order in which they would be evicted.
pub struct CacheView<I, V> {
    pub config: CacheConfig,
    pub entries: Seq<EntryView<I, V>>,
}

impl<I, V> CacheView<I, V> {
    /// The cache that was just made.
    pub open spec fn fresh(config: CacheConfig) -> CacheView<I, V> {
        CacheView { config, entries: Seq::empty() }
    }

    /// What every cache keeps: no key twice, and no more entries than allowed. A cache
    /// of no capacity still holds the last entry.
    pub open spec fn wf(self) -> bool {
        &&& distinct(self.entries)
        &&& self.entries.len() <= self.config.capacity || self.entries.len() <= 1
        &&& accesses(self.entries) <= u64::MAX
    }

    /// Whether a key has an entry that has not outlived its time.
    pub open spec fn live(self, id: I, now: nat) -> bool {
        present(self.entries, id) && !self.entries[slot(self.entries, id)].expired(
            self.config.ttl,
            now,
        )
    }

    /// The value under a key.
    pub open spec fn value(self, id: I) -> V {
        self.entries[slot(self.entries, id)].value
    }

    /// What is found under a key, if anything is.
    pub open spec fn found(self, id: I, now: nat) -> Option<V> {
        if self.live(id, now) {
            Some(self.value(id))
        } else {
            None
        }
    }

    /// The entries when the one at a place is used and becomes `e`.
    pub open spec fn used(self, i: int, e: EntryView<I, V>) -> Seq<EntryView<I, V>> {
        if self.config.enable_lru {
            self.entries.remove(i).push(e)
        } else {
            self.entries.update(i, e)
        }
    }

    /// The cache after a key was looked up.
    pub open spec fn got(self, id: I, now: nat) -> CacheView<I, V> {
        let i = slot(self.entries, id);
        if !present(self.entries, id) {
            self
        } else if self.live(id, now) {
            CacheView { entries: self.used(i, self.entries[i].touched(now)), ..self }
        } else {
            CacheView { entries: self.entries.remove(i), ..self }
        }
    }

    /// The cache after a value was inserted under a key.
    pub open spec fn inserted(self, id: I, value: V, now: nat) -> CacheView<I, V> {
        let e = EntryView::fresh(id, value, now);
        if present(self.entries, id) {
            CacheView { entries: self.used(slot(self.entries, id), e), ..self }
        } else if self.entries.len() >= self.config.capacity && self.entries.len() > 0 {
            CacheView { entries: self.entries.drop_first().push(e), ..self }
        } else {
            CacheView { entries: self.entries.push(e), ..self }
        }
    }

    /// The cache after a key was removed.
    pub open spec fn removed(self, id: I) -> CacheView<I, V> {
        if present(self.entries, id) {
            CacheView { entries: self.entries.remove(slot(self.entries, id)), ..self }
        } else {
            self
        }
    }

    /// The value that removing a key gives back, if there is one.
    pub open spec fn taken(self, id: I) -> Option<V> {
        if present(self.entries, id) {
            Some(self.value(id))
        } else {
            None
        }
    }

    /// The cache after the entries that have outlived their time were removed.
    pub open spec fn pruned(self, now: nat) -> CacheView<I, V> {
        CacheView {
            entries: self.entries.filter(|e: EntryView<I, V>| !e.expired(self.config.ttl, now)),
            ..self
        }
    }
}

/// The place of a key is where it was found.
proof fn lemma_slot<I, V>(entries: Seq<EntryView<I, V>>, id: I, i: int)
    requires
        distinct(entries),
        0 <= i < entries.len(),
        entries[i].key == id,
    ensures
        present(entries, id),
        slot(entries, id) == i,
{
}

/// Leaving an entry out takes its accesses away.
proof fn lemma_accesses_remove<I, V>(entries: Seq<EntryView<I, V>>, i: int)
    requires
        0 <= i < entries.len(),
    ensures
        accesses(entries.remove(i)) + entries[i].access_count == accesses(entries),
    decreases entries.len(),
{
    if i == entries.len() - 1 {
        assert(entries.remove(i) =~= entries.drop_last());
    } else {
        lemma_accesses_remove(entries.drop_last(), i);
        assert(entries.remove(i).drop_last() =~= entries.drop_last().remove(i));
        assert(entries.remove(i).last() == entries.last());
    }
}

/// An entry at the end adds its accesses.
proof fn lemma_accesses_push<I, V>(entries: Seq<EntryView<I, V>>, e: EntryView<I, V>)
    ensures
        accesses(entries.push(e)) == accesses(entries) + e.access_count,
{
    assert(entries.push(e).drop_last() =~= entries);
}

/// An entry that takes another's place changes the accesses by the difference.
proof fn lemma_accesses_update<I, V>(
    entries: Seq<EntryView<I, V>>,
    i: int,
    e: EntryView<I, V>,
)
    requires
        0 <= i < entries.len(),
    ensures
        accesses(entries.update(i, e)) + entries[i].access_count == accesses(entries)
            + e.access_count,
    decreases entries.len(),
{
    if i == entries.len() - 1 {
        assert(entries.update(i, e).drop_last() =~= entries.drop_last());
    } else {
        lemma_accesses_update(entries.drop_last(), i, e);
        assert(entries.update(i, e).drop_last() =~= entries.drop_last().update(i, e));
    }
}

/// Entries in a row have no more accesses than all of them.
proof fn lemma_accesses_bound<I, V>(entries: Seq<EntryView<I, V>>, n: int)
    requires
        0 <= n <= entries.len(),
    ensures
        accesses(entries.take(n)) <= accesses(entries),
    decreases entries.len(),
{
    if n == entries.len() {
        assert(entries.take(n) =~= entries);
    } else {
        lemma_accesses_bound(entries.drop_last(), n);
        assert(entries.drop_last().take(n) =~= entries.take(n));
    }
}

/// Using an entry keeps the cache in order.
proof fn lemma_used_wf<I, V>(c: CacheView<I, V>, i: int, e: EntryView<I, V>)
    requires
        c.wf(),
        0 <= i < c.entries.len(),
        e.key == c.entries[i].key,
        accesses(c.entries) - c.entries[i].access_count + e.access_count <= u64::MAX,
    ensures
        (CacheView { entries: c.used(i, e), ..c }).wf(),
{
    lemma_accesses_remove(c.entries, i);
    lemma_accesses_push(c.entries.remove(i), e);
    lemma_accesses_update(c.entries, i, e);
    let after = c.used(i, e);
    assert forall|a: int, b: int| 0 <= a < after.len() && 0 <= b < after.len() && a != b implies (
    #[trigger] after[a]).key != (#[trigger] after[b]).key by {
        if c.config.enable_lru {
            let x = if a == after.len() - 1 {
                i
            } else if a < i {
                a
            } else {
                a + 1
            };
            let y = if b == after.len() - 1 {
                i
            } else if b < i {
                b
            } else {
                b + 1
            };
            assert(after[a].key == c.entries[x].key);
            assert(after[b].key == c.entries[y].key);
        } else {
            assert(after[a].key == c.entries[a].key);
            assert(after[b].key == c.entries[b].key);
        }
    }
}

/// Removing an entry keeps the cache in order.
proof fn lemma_remove_wf<I, V>(c: CacheView<I, V>, i: int)
    requires
        c.wf(),
        0 <= i < c.entries.len(),
    ensures
        (CacheView { entries: c.entries.remove(i), ..c }).wf(),
{
    lemma_accesses_remove(c.entries, i);
    let after = c.entries.remove(i);
    assert forall|a: int, b: int| 0 <= a < after.len() && 0 <= b < after.len() && a != b implies (
    #[trigger] after[a]).key != (#[trigger] after[b]).key by {
        let x = if a < i {
            a
        } else {
            a + 1
        };
        let y = if b < i {
            b
        } else {
            b + 1
        };
        assert(after[a] == c.entries[x]);
        assert(after[b] == c.entries[y]);
    }
}

/// Adding an entry under a new key keeps the cache in order.
proof fn lemma_push_wf<I, V>(c: CacheView<I, V>, e: EntryView<I, V>)
    requires
        c.wf(),
        !present(c.entries, e.key),
        c.entries.len() < c.config.capacity || c.entries.len() == 0,
        accesses(c.entries) + e.access_count <= u64::MAX,
    ensures
        (CacheView { entries: c.entries.push(e), ..c }).wf(),
{
    lemma_accesses_push(c.entries, e);
    let after = c.entries.push(e);
    assert forall|a: int, b: int| 0 <= a < after.len() && 0 <= b < after.len() && a != b implies (
    #[trigger] after[a]).key != (#[trigger] after[b]).key by {
        if a == c.entries.len() {
            assert(after[b] == c.entries[b]);
        } else if b == c.entries.len() {
            assert(after[a] == c.entries[a]);
        } else {
            assert(after[a] == c.entries[a] && after[b] == c.entries[b]);
        }
    }
}

/// Looking up keeps the cache in order.
pub proof fn got_keeps_order<I, V>(c: CacheView<I, V>, id: I, now: nat)
    requires
        c.wf(),
        accesses(c.entries) < u64::MAX,
    ensures
        c.got(id, now).wf(),
{
    if present(c.entries, id) {
        let i = slot(c.entries, id);
        lemma_accesses_remove(c.entries, i);
        lemma_used_wf(c, i, c.entries[i].touched(now));
        lemma_remove_wf(c, i);
    }
}

/// Inserting keeps the cache in order.
pub proof fn inserted_keeps_order<I, V>(c: CacheView<I, V>, id: I, value: V, now: nat)
    requires
        c.wf(),
    ensures
        c.inserted(id, value, now).wf(),
{
    let e = EntryView::fresh(id, value, now);
    if present(c.entries, id) {
        let i = slot(c.entries, id);
        lemma_accesses_remove(c.entries, i);
        lemma_used_wf(c, i, e);
    } else if c.entries.len() >= c.config.capacity && c.entries.len() > 0 {
        lemma_remove_wf(c, 0);
        assert(c.entries.remove(0) =~= c.entries.drop_first());
        let rest = CacheView { entries: c.entries.drop_first(), ..c };
        assert(!present(rest.entries, id)) by {
            if present(rest.entries, id) {
                let j = slot(rest.entries, id);
                assert(c.entries[j + 1].key == id);
            }
        }
        lemma_push_wf(rest, e);
    } else {
        lemma_push_wf(c, e);
    }
}

/// Keeping some of the entries in their order keeps them distinct, and adds no access.
proof fn lemma_filter<I, V>(entries: Seq<EntryView<I, V>>, keep: spec_fn(EntryView<I, V>) -> bool)
    requires
        distinct(entries),
    ensures
        distinct(entries.filter(keep)),
        accesses(entries.filter(keep)) <= accesses(entries),
        entries.filter(keep).len() <= entries.len(),
        forall|id: I| #[trigger] present(entries.filter(keep), id) ==> present(entries, id),
        forall|i: int|
            0 <= i < entries.filter(keep).len() ==> entries.contains(
                #[trigger] entries.filter(keep)[i],
            ),
    decreases entries.len(),
{
    reveal(Seq::filter);
    if entries.len() > 0 {
        let rest = entries.drop_last();
        let last = entries.last();
        lemma_filter(rest, keep);
        let kept = rest.filter(keep);
        assert forall|id: I| present(rest, id) implies #[trigger] present(entries, id) by {
            let i = slot(rest, id);
            assert(entries[i].key == id);
        }
        assert forall|e: EntryView<I, V>| rest.contains(e) implies #[trigger] entries.contains(e) by {
            let i = choose|i: int| 0 <= i < rest.len() && rest[i] == e;
            assert(entries[i] == e);
        }
        if keep(last) {
            let all = entries.filter(keep);
            assert(all == kept.push(last));
            assert forall|i: int| 0 <= i < all.len() implies entries.contains(
                #[trigger] all[i],
            ) by {
                if i < kept.len() {
                    assert(all[i] == kept[i]);
                } else {
                    assert(entries[entries.len() - 1] == all[i]);
                }
            }
            lemma_accesses_push(kept, last);
            assert(!present(kept, last.key)) by {
                if present(kept, last.key) {
                    let i = slot(rest, last.key);
                    assert(present(rest, last.key));
                    assert(entries[i].key == entries[entries.len() - 1].key);
                }
            }
            assert forall|a: int, b: int|
                0 <= a < all.len() && 0 <= b < all.len() && a != b implies (
            #[trigger] all[a]).key != (#[trigger] all[b]).key by {
                if a == kept.len() {
                    assert(all[b] == kept[b]);
                } else if b == kept.len() {
                    assert(all[a] == kept[a]);
                } else {
                    assert(all[a] == kept[a] && all[b] == kept[b]);
                }
            }
            assert forall|id: I| #[trigger] present(all, id) implies present(entries, id) by {
                let i = slot(all, id);
                if i < kept.len() {
                    assert(kept[i].key == id);
                    assert(present(kept, id));
                } else {
                    assert(entries[entries.len() - 1].key == id);
                }
            }
        }
    }
}

/// Pruning keeps the cache in order.
pub proof fn pruned_keeps_order<I, V>(c: CacheView<I, V>, now: nat)
    requires
        c.wf(),
    ensures
        c.pruned(now).wf(),
{
    lemma_filter(c.entries, |e: EntryView<I, V>| !e.expired(c.config.ttl, now));
}

/// A cache entry with its metadata.
struct CacheEntry<K: Key, V> {
    key: K,
    value: V,
    created_at: Instant,
    last_accessed: Instant,
    access_count: u64,
}

impl<K: Key, V> View for CacheEntry<K, V> {
    type V = EntryView<K::Id, V>;

    closed spec fn view(&self) -> EntryView<K::Id, V> {
        EntryView {
            key: self.key.id(),
            value: self.value,
            created_at: self.created_at@,
            last_accessed: self.last_accessed@,
            access_count: self.access_count as nat,
        }
    }
}

impl<K: Key, V> CacheEntry<K, V> {
    /// An entry that is made at a given time.
    fn new(key: K, value: V, now: Instant) -> (e: CacheEntry<K, V>)
        ensures
            e@ == EntryView::fresh(key.id(), value, now@),
    {
        CacheEntry { key, value, created_at: now, last_accessed: now, access_count: 0 }
    }

    /// Whether the entry has outlived a time to live.
    fn is_expired(&self, ttl: Option<Duration>, now: Instant) -> (b: bool)
        ensures
            b == self@.expired(ttl, now@),
    {
        match ttl {
            Some(limit) => now.duration_since(self.created_at).exceeds(limit),
            None => false,
        }
    }

    /// Notes an access.
    fn touch(&mut self, now: Instant)
        requires
            old(self)@.access_count < u64::MAX,
        ensures
            final(self)@ == old(self)@.touched(now@),
    {
        self.last_accessed = now;
        self.access_count = self.access_count + 1;
    }
}

/// Cache with least-recently-used eviction and a time to live.
pub struct Cache<K: Key, V: Clone> {
    config: CacheConfig,
    clock: Clock,
    entries: Vec<CacheEntry<K, V>>,
}

impl<K: Key, V: Clone> View for Cache<K, V> {
    type V = CacheView<K::Id, V>;

    closed spec fn view(&self) -> CacheView<K::Id, V> {
        CacheView {
            config: self.config,
            entries: self.entries@.map_values(|e: CacheEntry<K, V>| e@),
        }
    }
}

impl<K: Key, V: Clone> Cache<K, V> {
    /// Creates a new cache.
    pub fn new(config: CacheConfig) -> (c: Cache<K, V>)
        ensures
            c@ == CacheView::<K::Id, V>::fresh(config),
            c@.wf(),
    {
        let c = Cache { config, clock: Clock::start(), entries: Vec::new() };
        assert(c@.entries =~= Seq::empty());
        c
    }

    /// Creates a cache with the default configuration.
    pub fn with_default_config() -> (c: Cache<K, V>)
        ensures
            c@ == CacheView::<K::Id, V>::fresh(c@.config),
            c@.wf(),
            c@.config.capacity == 1000,
            c@.config.ttl matches Some(d) && d@ == time::secs(300),
            c@.config.enable_lru,
    {
        Cache::new(CacheConfig::default())
    }

    /// What the cache's clock shows. Any time may come.
    pub fn now(&self) -> Instant {
        self.clock.now()
    }

    /// The place of the entry that has a key.
    fn find(&self, key: &K) -> (r: Option<usize>)
        requires
            distinct(self@.entries),
        ensures
            match r {
                Some(i) => i < self@.entries.len() && present(self@.entries, key.id()) && slot(
                    self@.entries,
                    key.id(),
                ) == i,
                None => !present(self@.entries, key.id()),
            },
    {
        let mut i: usize = 0;
        while i < self.entries.len()
            invariant
                i <= self.entries@.len(),
                self@.entries.len() == self.entries@.len(),
                distinct(self@.entries),
                forall|j: int| 0 <= j < i ==> (#[trigger] self@.entries[j]).key != key.id(),
            decreases self.entries@.len() - i,
        {
            assert(self@.entries[i as int] == self.entries@[i as int]@);
            if self.entries[i].key.same(key) {
                proof {
                    lemma_slot(self@.entries, key.id(), i as int);
                }
                return Some(i);
            }
            i = i + 1;
        }
        None
    }

    /// Looks a value up at a given time.
    pub fn get_at(&mut self, key: &K, now: Instant) -> (r: Option<V>)
        requires
            old(self)@.wf(),
            accesses(old(self)@.entries) < u64::MAX,
        ensures
            final(self)@.wf(),
            final(self)@ == old(self)@.got(key.id(), now@),
            match (r, old(self)@.found(key.id(), now@)) {
                (Some(v), Some(kept)) => cloned(kept, v),
                (None, None) => true,
                _ => false,
            },
    {
        proof {
            got_keeps_order(self@, key.id(), now@);
        }
        let ghost before = self@;
        match self.find(key) {
            None => None,
            Some(i) => {
                assert(before.entries[i as int] == self.entries@[i as int]@);
                let mut entry = self.entries.remove(i);
                assert(self@.entries =~= before.entries.remove(i as int));
                if entry.is_expired(self.config.ttl, now) {
                    return None;
                }
                proof {
                    lemma_accesses_remove(before.entries, i as int);
                }
                entry.touch(now);
                let value = entry.value.clone();
                let ghost e = entry@;
                if self.config.enable_lru {
                    self.entries.push(entry);
                } else {
                    self.entries.insert(i, entry);
                }
                assert(self@.entries =~= before.used(i as int, e));
                Some(value)
            },
        }
    }

    /// Looks a value up.
    pub fn get(&mut self, key: &K) -> (r: Option<V>)
        requires
            old(self)@.wf(),
            accesses(old(self)@.entries) < u64::MAX,
        ensures
            final(self)@.wf(),
            exists|now: nat|
                {
                    &&& final(self)@ == #[trigger] old(self)@.got(key.id(), now)
                    &&& match (r, old(self)@.found(key.id(), now)) {
                        (Some(v), Some(kept)) => cloned(kept, v),
                        (None, None) => true,
                        _ => false,
                    }
                },
    {
        let now = self.clock.now();
        self.get_at(key, now)
    }

    /// Inserts a value under a key at a given time.
    pub fn insert_at(&mut self, key: K, value: V, now: Instant)
        requires
            old(self)@.wf(),
        ensures
            final(self)@.wf(),
            final(self)@ == old(self)@.inserted(key.id(), value, now@),
    {
        proof {
            inserted_keeps_order(self@, key.id(), value, now@);
        }
        let ghost before = self@;
        let found = self.find(&key);
        let entry = CacheEntry::new(key, value, now);
        let ghost e = entry@;
        match found {
            Some(i) => {
                let _ = self.entries.remove(i);
                if self.config.enable_lru {
                    self.entries.push(entry);
                } else {
                    self.entries.insert(i, entry);
                }
                assert(self@.entries =~= before.used(i as int, e));
            },
            None => {
                if self.entries.len() >= self.config.capacity {
                    self.evict_one();
                }
                let ghost rest = self@.entries;
                self.entries.push(entry);
                assert(self@.entries =~= rest.push(e));
            },
        }
    }

    /// Inserts a value under a key.
    pub fn insert(&mut self, key: K, value: V)
        requires
            old(self)@.wf(),
        ensures
            final(self)@.wf(),
            exists|now: nat| final(self)@ == #[trigger] old(self)@.inserted(key.id(), value, now),
    {
        let now = self.clock.now();
        self.insert_at(key, value, now)
    }

    /// Evicts the first entry, if there is one.
    fn evict_one(&mut self)
        ensures
            final(self)@ == (CacheView {
                entries: if old(self)@.entries.len() > 0 {
                    old(self)@.entries.drop_first()
                } else {
                    old(self)@.entries
                },
                ..old(self)@
            }),
    {
        let ghost before = self@.entries;
        if self.entries.len() > 0 {
            let _ = self.entries.remove(0);
            assert(self@.entries =~= before.drop_first());
        }
    }

    /// Removes the value under a key.
    pub fn remove(&mut self, key: &K) -> (r: Option<V>)
        requires
            old(self)@.wf(),
        ensures
            final(self)@.wf(),
            final(self)@ == old(self)@.removed(key.id()),
            r == old(self)@.taken(key.id()),
    {
        let ghost before = self@;
        match self.find(key) {
            None => None,
            Some(i) => {
                proof {
                    lemma_remove_wf(before, i as int);
                }
                assert(before.entries[i as int] == self.entries@[i as int]@);
                let entry = self.entries.remove(i);
                assert(self@.entries =~= before.entries.remove(i as int));
                Some(entry.value)
            },
        }
    }

    /// Clears all entries.
    pub fn clear(&mut self)
        ensures
            final(self)@ == CacheView::<K::Id, V>::fresh(old(self)@.config),
            final(self)@.wf(),
    {
        self.entries.clear();
        assert(self@.entries =~= Seq::empty());
    }

    /// Cache statistics.
    pub fn stats(&self) -> (s: CacheStats)
        requires
            self@.wf(),
        ensures
            s.size == self@.entries.len(),
            s.capacity == self@.config.capacity,
            s.total_accesses == accesses(self@.entries),
    {
        let mut total: u64 = 0;
        let mut i: usize = 0;
        assert(self@.entries.take(0) =~= Seq::empty());
        while i < self.entries.len()
            invariant
                i <= self.entries@.len(),
                self@.entries.len() == self.entries@.len(),
                total == accesses(self@.entries.take(i as int)),
                accesses(self@.entries) <= u64::MAX,
            decreases self.entries@.len() - i,
        {
            proof {
                assert(self@.entries[i as int] == self.entries@[i as int]@);
                lemma_accesses_bound(self@.entries, i + 1);
                assert(self@.entries.take(i + 1) =~= self@.entries.take(i as int).push(
                    self@.entries[i as int],
                ));
                lemma_accesses_push(self@.entries.take(i as int), self@.entries[i as int]);
            }
            total = total + self.entries[i].access_count;
            i = i + 1;
        }
        assert(self@.entries.take(self.entries@.len() as int) =~= self@.entries);
        CacheStats { size: self.entries.len(), capacity: self.config.capacity, total_accesses: total }
    }

    /// Removes the entries that have outlived their time at a given time, and says how
    /// many there were.
    pub fn prune_expired_at(&mut self, now: Instant) -> (count: usize)
        requires
            old(self)@.wf(),
        ensures
            final(self)@.wf(),
            final(self)@ == old(self)@.pruned(now@),
            count == old(self)@.entries.len() - final(self)@.entries.len(),
    {
        let ghost before = self@;
        let ghost keep = |e: EntryView<K::Id, V>| !e.expired(before.config.ttl, now@);
        let size: usize = self.entries.len();
        let mut count: usize = 0;
        let mut i: usize = 0;
        proof {
            pruned_keeps_order(before, now@);
            reveal(Seq::filter);
            assert(before.entries.take(0) =~= Seq::empty());
            assert(self@.entries =~= before.entries.take(0).filter(keep) + before.entries.skip(0));
        }
        while i < self.entries.len()
            invariant
                keep == (|e: EntryView<K::Id, V>| !e.expired(before.config.ttl, now@)),
                self.config == before.config,
                before.entries.len() == size,
                i + count <= size,
                self@.entries == before.entries.take(i + count).filter(keep)
                    + before.entries.skip(i + count),
                i == before.entries.take(i + count).filter(keep).len(),
            decreases self.entries@.len() - i,
        {
            let ghost n = i + count;
            let ghost held = self@.entries;
            proof {
                reveal(Seq::filter);
                assert(held.len() == self.entries@.len());
                assert(held[i as int] == self.entries@[i as int]@);
                assert(held[i as int] == before.entries[n]);
                assert(before.entries.take(n + 1).drop_last() =~= before.entries.take(n));
                assert(before.entries.take(n + 1).last() == before.entries[n]);
            }
            if self.entries[i].is_expired(self.config.ttl, now) {
                let _ = self.entries.remove(i);
                assert(self@.entries =~= held.remove(i as int));
                assert(held.remove(i as int) =~= before.entries.take(n + 1).filter(keep)
                    + before.entries.skip(n + 1));
                count = count + 1;
            } else {
                assert(held =~= before.entries.take(n + 1).filter(keep) + before.entries.skip(
                    n + 1,
                ));
                i = i + 1;
            }
        }
        proof {
            assert(self@.entries.len() == self.entries@.len());
            assert(i + count == before.entries.len());
            assert(before.entries.take(before.entries.len() as int) =~= before.entries);
            assert(self@.entries =~= before.entries.filter(keep));
        }
        count
    }

    /// Removes the entries that have outlived their time, and says how many there were.
    pub fn prune_expired(&mut self) -> (count: usize)
        requires
            old(self)@.wf(),
        ensures
            final(self)@.wf(),
            exists|now: nat| final(self)@ == #[trigger] old(self)@.pruned(now),
            count == old(self)@.entries.len() - final(self)@.entries.len(),
    {
        let now = self.clock.now();
        self.prune_expired_at(now)
    }

    /// Looks a value up at a given time, and where there is none computes it and inserts a
    /// clone of it at a later time.
    pub fn get_or_insert_with_at<F: FnOnce() -> V>(
        &mut self,
        key: K,
        f: F,
        now: Instant,
        later: Instant,
    ) -> (v: V)
        requires
            old(self)@.wf(),
            accesses(old(self)@.entries) < u64::MAX,
            call_requires(f, ()),
        ensures
            final(self)@.wf(),
            if old(self)@.live(key.id(), now@) {
                final(self)@ == old(self)@.got(key.id(), now@) && cloned(
                    old(self)@.value(key.id()),
                    v,
                )
            } else {
                call_ensures(f, (), v) && exists|kept: V|
                    cloned(v, kept) && final(self)@ == #[trigger] old(self)@.got(
                        key.id(),
                        now@,
                    ).inserted(key.id(), kept, later@)
            },
    {
        if let Some(value) = self.get_at(&key, now) {
            return value;
        }
        let value = f();
        let kept = value.clone();
        self.insert_at(key, kept, later);
        value
    }

    /// Looks a value up, and where there is none computes it and inserts a clone of it. Its
    /// age counts from when it was computed.
    pub fn get_or_insert_with<F: FnOnce() -> V>(&mut self, key: K, f: F) -> (v: V)
        requires
            old(self)@.wf(),
            accesses(old(self)@.entries) < u64::MAX,
            call_requires(f, ()),
        ensures
            final(self)@.wf(),
            exists|now: nat|
                if #[trigger] old(self)@.live(key.id(), now) {
                    final(self)@ == old(self)@.got(key.id(), now) && cloned(
                        old(self)@.value(key.id()),
                        v,
                    )
                } else {
                    call_ensures(f, (), v) && exists|kept: V, later: nat|
                        cloned(v, kept) && final(self)@ == #[trigger] old(self)@.got(
                            key.id(),
                            now,
                        ).inserted(key.id(), kept, later)
                },
    {
        let now = self.clock.now();
        if let Some(value) = self.get_at(&key, now) {
            return value;
        }
        let value = f();
        let kept = value.clone();
        let later = self.clock.now();
        self.insert_at(key, kept, later);
        value
    }
}

/// Two-tier cache: a first tier in memory, in front of a second that may lie elsewhere.
pub struct TieredCache<K: Key, V: Clone> {
    l1: Cache<K, V>,
}

impl<K: Key, V: Clone> View for TieredCache<K, V> {
    type V = CacheView<K::Id, V>;

    closed spec fn view(&self) -> CacheView<K::Id, V> {
        self.l1@
    }
}

impl<K: Key, V: Clone> TieredCache<K, V> {
    /// Creates a new tiered cache.
    pub fn new(l1_capacity: usize, l1_ttl: Option<Duration>) -> (c: TieredCache<K, V>)
        ensures
            c@ == CacheView::<K::Id, V>::fresh(
                CacheConfig { capacity: l1_capacity, ttl: l1_ttl, enable_lru: true },
            ),
            c@.wf(),
    {
        let config = CacheConfig::new().with_capacity(l1_capacity).with_ttl(l1_ttl);
        TieredCache { l1: Cache::new(config) }
    }

    /// What the cache's clock shows. Any time may come.
    pub fn now(&self) -> Instant {
        self.l1.now()
    }

    /// Looks a value up in the first tier at a given time.
    pub fn get_at(&mut self, key: &K, now: Instant) -> (r: Option<V>)
        requires
            old(self)@.wf(),
            accesses(old(self)@.entries) < u64::MAX,
        ensures
            final(self)@.wf(),
            final(self)@ == old(self)@.got(key.id(), now@),
            match (r, old(self)@.found(key.id(), now@)) {
                (Some(v), Some(kept)) => cloned(kept, v),
                (None, None) => true,
                _ => false,
            },
    {
        self.l1.get_at(key, now)
    }

    /// Looks a value up in the first tier.
    pub fn get(&mut self, key: &K) -> (r: Option<V>)
        requires
            old(self)@.wf(),
            accesses(old(self)@.entries) < u64::MAX,
        ensures
            final(self)@.wf(),
            exists|now: nat|
                {
                    &&& final(self)@ == #[trigger] old(self)@.got(key.id(), now)
                    &&& match (r, old(self)@.found(key.id(), now)) {
                        (Some(v), Some(kept)) => cloned(kept, v),
                        (None, None) => true,
                        _ => false,
                    }
                },
    {
        self.l1.get(key)
    }

    /// Inserts a value into the first tier at a given time.
    pub fn insert_at(&mut self, key: K, value: V, now: Instant)
        requires
            old(self)@.wf(),
        ensures
            final(self)@.wf(),
            final(self)@ == old(self)@.inserted(key.id(), value, now@),
    {
        self.l1.insert_at(key, value, now)
    }

    /// Inserts a value into the first tier.
    pub fn insert(&mut self, key: K, value: V)
        requires
            old(self)@.wf(),
        ensures
            final(self)@.wf(),
            exists|now: nat| final(self)@ == #[trigger] old(self)@.inserted(key.id(), value, now),
    {
        self.l1.insert(key, value)
    }

    /// Statistics of the first tier.
    pub fn stats(&self) -> (s: CacheStats)
        requires
            self@.wf(),
        ensures
            s.size == self@.entries.len(),
            s.capacity == self@.config.capacity,
            s.total_accesses == accesses(self@.entries),
    {
        self.l1.stats()
    }

    /// Clears all tiers.
    pub fn clear(&mut self)
        ensures
            final(self)@ == CacheView::<K::Id, V>::fresh(old(self)@.config),
            final(self)@.wf(),
    {
        self.l1.clear()
    }
}

/// The capacity bounds the number of entries, except that a cache of no capacity holds
/// one.
pub proof fn capacity_bounds_size<I, V>(c: CacheView<I, V>)
    requires
        c.wf(),
        c.config.capacity > 0,
    ensures
        c.entries.len() <= c.config.capacity,
{
}

/// What was inserted is what is found, until its time to live has passed.
pub proof fn inserted_is_found<I, V>(c: CacheView<I, V>, id: I, value: V, then: nat, now: nat)
    requires
        c.wf(),
    ensures
        c.inserted(id, value, then).value(id) == value,
        c.inserted(id, value, then).live(id, now) <==> match c.config.ttl {
            Some(limit) => time::passed(then, now) <= limit@,
            None => true,
        },
{
    let after = c.inserted(id, value, then);
    inserted_keeps_order(c, id, value, then);
    if present(c.entries, id) && !c.config.enable_lru {
        let i = slot(c.entries, id);
        assert(after.entries[i].key == id);
        lemma_slot(after.entries, id, i);
    } else {
        let i = after.entries.len() - 1;
        assert(after.entries[i].key == id);
        lemma_slot(after.entries, id, i);
    }
}

/// What was removed is not found, and neither is anything in a cache that was cleared.
pub proof fn removed_is_gone<I, V>(c: CacheView<I, V>, id: I, now: nat)
    requires
        c.wf(),
    ensures
        !c.removed(id).live(id, now),
        !CacheView::<I, V>::fresh(c.config).live(id, now),
{
    if present(c.entries, id) {
        let i = slot(c.entries, id);
        let after = c.removed(id).entries;
        if present(after, id) {
            let j = slot(after, id);
            let k = if j < i {
                j
            } else {
                j + 1
            };
            assert(after[j] == c.entries[k]);
            assert(c.entries[k].key == c.entries[i].key);
        }
    }
}

/// Pruning takes away exactly the entries that would not be found any more.
pub proof fn pruning_is_invisible<I, V>(c: CacheView<I, V>, id: I, now: nat)
    requires
        c.wf(),
    ensures
        c.pruned(now).live(id, now) == c.live(id, now),
        present(c.pruned(now).entries, id) == c.live(id, now),
        c.live(id, now) ==> c.pruned(now).value(id) == c.value(id),
{
    let keep = |e: EntryView<I, V>| !e.expired(c.config.ttl, now);
    let after = c.pruned(now).entries;
    pruned_keeps_order(c, now);
    lemma_filter(c.entries, keep);
    if present(after, id) {
        let j = slot(after, id);
        c.entries.lemma_filter_pred(keep, j);
        assert(c.entries.contains(after[j]));
        let i = choose|i: int| 0 <= i < c.entries.len() && c.entries[i] == after[j];
        lemma_slot(c.entries, id, i);
        assert(keep(after[j]));
    }
    if c.live(id, now) {
        let i = slot(c.entries, id);
        assert(keep(c.entries[i]));
        c.entries.lemma_filter_contains(keep, i);
        let j = choose|j: int| 0 <= j < after.len() && after[j] == c.entries[i];
        lemma_slot(after, id, j);
    }
}

/// The cache after several insertions, each of a key, a value and a time.
pub open spec fn inserted_all<I, V>(c: CacheView<I, V>, items: Seq<(I, V, nat)>) -> CacheView<I, V>
    decreases items.len(),
{
    if items.len() == 0 {
        c
    } else {
        let item = items.last();
        inserted_all(c, items.drop_last()).inserted(item.0, item.1, item.2)
    }
}

/// Inserting another key moves an entry towards eviction by one place at most.
proof fn lemma_insert_shifts<I, V>(c: CacheView<I, V>, id: I, i: int, other: I, value: V, now: nat)
    requires
        c.wf(),
        0 < i < c.entries.len(),
        c.entries[i].key == id,
        other != id,
    ensures
        ({
            let after = c.inserted(other, value, now);
            exists|j: int|
                i - 1 <= j < after.entries.len() && #[trigger] after.entries[j] == c.entries[i]
        }),
{
    let after = c.inserted(other, value, now);
    if present(c.entries, other) {
        let k = slot(c.entries, other);
        if c.config.enable_lru && k < i {
            assert(after.entries[i - 1] == c.entries[i]);
        } else {
            assert(after.entries[i] == c.entries[i]);
        }
    } else if c.entries.len() >= c.config.capacity {
        assert(after.entries[i - 1] == c.entries[i]);
    } else {
        assert(after.entries[i] == c.entries[i]);
    }
}

/// An entry far enough from eviction is still there, unchanged, after insertions of
/// other keys.
proof fn lemma_survives<I, V>(c: CacheView<I, V>, id: I, i: int, items: Seq<(I, V, nat)>)
    requires
        c.wf(),
        0 <= i < c.entries.len(),
        c.entries[i].key == id,
        items.len() <= i,
        forall|k: int| 0 <= k < items.len() ==> (#[trigger] items[k]).0 != id,
    ensures
        inserted_all(c, items).wf(),
        inserted_all(c, items).config == c.config,
        exists|j: int|
            i - items.len() <= j < inserted_all(c, items).entries.len()
                && #[trigger] inserted_all(c, items).entries[j] == c.entries[i],
    decreases items.len(),
{
    if items.len() > 0 {
        let rest = items.drop_last();
        let item = items.last();
        assert forall|k: int| 0 <= k < rest.len() implies (#[trigger] rest[k]).0 != id by {
            assert(rest[k] == items[k]);
        }
        lemma_survives(c, id, i, rest);
        let before = inserted_all(c, rest);
        let j = choose|j: int|
            i - rest.len() <= j < before.entries.len() && #[trigger] before.entries[j]
                == c.entries[i];
        assert(items[items.len() - 1].0 != id);
        lemma_insert_shifts(before, id, j, item.0, item.1, item.2);
        inserted_keeps_order(before, item.0, item.1, item.2);
    } else {
        assert(inserted_all(c, items).entries[i] == c.entries[i]);
    }
}

/// The least recently used entry is the one that goes: an entry that was found, or
/// inserted, in a full cache is kept while fewer other keys are inserted than the cache
/// holds entries.
pub proof fn recently_used_survives<I, V>(c: CacheView<I, V>, id: I, items: Seq<(I, V, nat)>)
    requires
        c.wf(),
        c.entries.len() > 0,
        c.entries.last().key == id,
        items.len() < c.entries.len(),
        forall|k: int| 0 <= k < items.len() ==> (#[trigger] items[k]).0 != id,
    ensures
        present(inserted_all(c, items).entries, id),
        inserted_all(c, items).value(id) == c.entries.last().value,
{
    let i = c.entries.len() - 1;
    lemma_survives(c, id, i, items);
    let after = inserted_all(c, items);
    let j = choose|j: int|
        i - items.len() <= j < after.entries.len() && #[trigger] after.entries[j] == c.entries[i];
    lemma_slot(after.entries, id, j);
}

/// With eviction of the least recently used entry, a key that is found or inserted
/// becomes the last in the order of eviction.
pub proof fn use_makes_last<I, V>(c: CacheView<I, V>, id: I, value: V, now: nat)
    requires
        c.wf(),
        c.config.enable_lru,
    ensures
        c.inserted(id, value, now).entries.last().key == id,
        c.live(id, now) ==> c.got(id, now).entries.last().key == id && c.got(
            id,
            now,
        ).entries.last().value == c.value(id),
{
}

/// An entry that is evicted is the first in the order of eviction, and it goes only to
/// make room in a full cache for a key that has no entry.
pub proof fn evicts_first_only_when_full<I, V>(c: CacheView<I, V>, id: I, value: V, now: nat, i: int)
    requires
        c.wf(),
        0 <= i < c.entries.len(),
        c.entries[i].key != id,
        !present(c.inserted(id, value, now).entries, c.entries[i].key),
    ensures
        i == 0,
        c.entries.len() >= c.config.capacity,
        !present(c.entries, id),
{
    let after = c.inserted(id, value, now).entries;
    if present(c.entries, id) {
        let k = slot(c.entries, id);
        if c.config.enable_lru && k < i {
            assert(after[i - 1] == c.entries[i]);
        } else {
            assert(after[i] == c.entries[i]);
        }
    } else if c.entries.len() >= c.config.capacity {
        if i > 0 {
            assert(after[i - 1] == c.entries[i]);
        }
    } else {
        assert(after[i] == c.entries[i]);
    }
}

/// The entries under other keys than one, in order.
pub open spec fn others<I, V>(entries: Seq<EntryView<I, V>>, id: I) -> Seq<EntryView<I, V>> {
    entries.filter(|e: EntryView<I, V>| e.key != id)
}

/// An entry that is left out anyway can be removed before.
proof fn lemma_filter_skips<I, V>(
    entries: Seq<EntryView<I, V>>,
    keep: spec_fn(EntryView<I, V>) -> bool,
    i: int,
)
    requires
        0 <= i < entries.len(),
        !keep(entries[i]),
    ensures
        entries.remove(i).filter(keep) == entries.filter(keep),
    decreases entries.len(),
{
    reveal(Seq::filter);
    let rest = entries.drop_last();
    if i == entries.len() - 1 {
        assert(entries.remove(i) =~= rest);
    } else {
        lemma_filter_skips(rest, keep, i);
        assert(entries.remove(i).drop_last() =~= rest.remove(i));
        assert(entries.remove(i).last() == entries.last());
    }
}

/// An entry that is left out anyway can be replaced by another such entry.
proof fn lemma_filter_update<I, V>(
    entries: Seq<EntryView<I, V>>,
    keep: spec_fn(EntryView<I, V>) -> bool,
    i: int,
    e: EntryView<I, V>,
)
    requires
        0 <= i < entries.len(),
        !keep(entries[i]),
        !keep(e),
    ensures
        entries.update(i, e).filter(keep) == entries.filter(keep),
{
    lemma_filter_skips(entries, keep, i);
    lemma_filter_skips(entries.update(i, e), keep, i);
    assert(entries.update(i, e).remove(i) =~= entries.remove(i));
}

/// Where every entry is kept, all of them are.
proof fn lemma_filter_all<I, V>(
    entries: Seq<EntryView<I, V>>,
    keep: spec_fn(EntryView<I, V>) -> bool,
)
    requires
        forall|i: int| 0 <= i < entries.len() ==> keep(#[trigger] entries[i]),
    ensures
        entries.filter(keep) == entries,
    decreases entries.len(),
{
    reveal(Seq::filter);
    if entries.len() > 0 {
        let rest = entries.drop_last();
        assert forall|i: int| 0 <= i < rest.len() implies keep(#[trigger] rest[i]) by {
            assert(rest[i] == entries[i]);
        }
        lemma_filter_all(rest, keep);
        assert(keep(entries[entries.len() - 1]));
        assert(rest.push(entries.last()) =~= entries);
    } else {
        assert(entries.filter(keep) =~= entries);
    }
}

/// Without a key, all entries are under other keys.
proof fn lemma_others_all<I, V>(entries: Seq<EntryView<I, V>>, id: I)
    requires
        !present(entries, id),
    ensures
        others(entries, id) == entries,
{
    assert forall|i: int| 0 <= i < entries.len() implies (#[trigger] entries[i]).key != id by {}
    lemma_filter_all(entries, |e: EntryView<I, V>| e.key != id);
}

/// What lies under another key is found among the entries under other keys.
proof fn lemma_others<I, V>(entries: Seq<EntryView<I, V>>, id: I, other: I)
    requires
        distinct(entries),
        other != id,
    ensures
        present(others(entries, id), other) == present(entries, other),
        present(entries, other) ==> others(entries, id)[slot(others(entries, id), other)]
            == entries[slot(entries, other)],
{
    let keep = |e: EntryView<I, V>| e.key != id;
    let rest = others(entries, id);
    lemma_filter(entries, keep);
    if present(entries, other) {
        let i = slot(entries, other);
        assert(keep(entries[i]));
        entries.lemma_filter_contains(keep, i);
        let j = choose|j: int| 0 <= j < rest.len() && rest[j] == entries[i];
        lemma_slot(rest, other, j);
    }
    if present(rest, other) {
        let j = slot(rest, other);
        assert(entries.contains(rest[j]));
        let i = choose|i: int| 0 <= i < entries.len() && entries[i] == rest[j];
        lemma_slot(entries, other, i);
    }
}

/// Caches with the same entries under other keys than one find the same under them.
proof fn lemma_same_others<I, V>(
    before: CacheView<I, V>,
    after: CacheView<I, V>,
    id: I,
    other: I,
    now: nat,
)
    requires
        before.wf(),
        after.wf(),
        before.config == after.config,
        others(before.entries, id) == others(after.entries, id),
        other != id,
    ensures
        present(after.entries, other) == present(before.entries, other),
        after.live(other, now) == before.live(other, now),
        present(before.entries, other) ==> after.value(other) == before.value(other),
{
    lemma_others(before.entries, id, other);
    lemma_others(after.entries, id, other);
}

/// Removing a key leaves the entries under the other keys as they are and in their order:
/// whatever was found under another key is still found, with the same value.
pub proof fn removal_leaves_others<I, V>(c: CacheView<I, V>, id: I, other: I, now: nat)
    requires
        c.wf(),
        other != id,
    ensures
        c.removed(id).wf(),
        c.removed(id).config == c.config,
        c.removed(id).entries == others(c.entries, id),
        c.removed(id).live(other, now) == c.live(other, now),
        c.live(other, now) ==> c.removed(id).value(other) == c.value(other),
{
    let keep = |e: EntryView<I, V>| e.key != id;
    let after = c.removed(id);
    if present(c.entries, id) {
        let i = slot(c.entries, id);
        lemma_remove_wf(c, i);
        lemma_filter_skips(c.entries, keep, i);
        removed_is_gone(c, id, now);
        assert forall|j: int| 0 <= j < after.entries.len() implies (#[trigger] after.entries[j]).key
            != id by {
            let k = if j < i {
                j
            } else {
                j + 1
            };
            assert(after.entries[j] == c.entries[k]);
        }
    }
    lemma_others_all(after.entries, id);
    lemma_same_others(c, after, id, other, now);
}

/// Looking a key up leaves the entries under the other keys as they are and in their order:
/// whatever was found under another key is still found, with the same value.
pub proof fn lookup_leaves_others<I, V>(c: CacheView<I, V>, id: I, other: I, then: nat, now: nat)
    requires
        c.wf(),
        accesses(c.entries) < u64::MAX,
        other != id,
    ensures
        c.got(id, then).config == c.config,
        others(c.got(id, then).entries, id) == others(c.entries, id),
        c.got(id, then).live(other, now) == c.live(other, now),
        c.live(other, now) ==> c.got(id, then).value(other) == c.value(other),
{
    let keep = |e: EntryView<I, V>| e.key != id;
    let after = c.got(id, then);
    got_keeps_order(c, id, then);
    if present(c.entries, id) {
        let i = slot(c.entries, id);
        lemma_used_others(c, i, c.entries[i].touched(then));
        lemma_filter_skips(c.entries, keep, i);
    }
    lemma_same_others(c, after, id, other, now);
}

/// Using an entry leaves those under other keys as they are.
proof fn lemma_used_others<I, V>(c: CacheView<I, V>, i: int, e: EntryView<I, V>)
    requires
        0 <= i < c.entries.len(),
        e.key == c.entries[i].key,
    ensures
        others(c.used(i, e), e.key) == others(c.entries, e.key),
{
    let keep = |x: EntryView<I, V>| x.key != e.key;
    lemma_filter_skips(c.entries, keep, i);
    lemma_filter_update(c.entries, keep, i, e);
    let moved = c.entries.remove(i).push(e);
    lemma_filter_skips(moved, keep, moved.len() - 1);
    assert(moved.remove(moved.len() - 1) =~= c.entries.remove(i));
}

/// Looking up what is there counts one access and changes neither the value nor how long it
/// lives: it is found again until its time to live has passed since it was inserted. What
/// has outlived its time is not there any more afterwards, and a key without an entry
/// changes nothing. Only eviction of the least recently used entry moves anything.
pub proof fn lookup_keeps_value<I, V>(c: CacheView<I, V>, id: I, then: nat, now: nat)
    requires
        c.wf(),
        accesses(c.entries) < u64::MAX,
    ensures
        c.got(id, then).live(id, now) == (c.live(id, then) && c.live(id, now)),
        c.live(id, then) ==> c.got(id, then).value(id) == c.value(id) && accesses(
            c.got(id, then).entries,
        ) == accesses(c.entries) + 1 && c.got(id, then).entries.len() == c.entries.len(),
        c.live(id, then) && !c.config.enable_lru ==> slot(c.got(id, then).entries, id) == slot(
            c.entries,
            id,
        ),
        !c.live(id, then) ==> !present(c.got(id, then).entries, id) && c.got(id, then)
            == c.removed(id),
{
    let after = c.got(id, then);
    got_keeps_order(c, id, then);
    if present(c.entries, id) {
        let i = slot(c.entries, id);
        let e = c.entries[i].touched(then);
        if c.live(id, then) {
            lemma_accesses_remove(c.entries, i);
            lemma_accesses_push(c.entries.remove(i), e);
            lemma_accesses_update(c.entries, i, e);
            if c.config.enable_lru {
                assert(after.entries[after.entries.len() - 1] == e);
                lemma_slot(after.entries, id, after.entries.len() - 1);
            } else {
                assert(after.entries[i] == e);
                lemma_slot(after.entries, id, i);
            }
        } else {
            assert(after.entries == c.removed(id).entries);
            if present(after.entries, id) {
                let j = slot(after.entries, id);
                let k = if j < i {
                    j
                } else {
                    j + 1
                };
                assert(after.entries[j] == c.entries[k]);
                assert(c.entries[k].key == c.entries[i].key);
            }
        }
    }
}

/// Inserting leaves the entries under the other keys as they are and in their order, where
/// there is room: whatever was found under another key is still found, with the same value.
/// The new value has not been accessed.
pub proof fn insertion_leaves_others<I, V>(
    c: CacheView<I, V>,
    id: I,
    value: V,
    then: nat,
    other: I,
    now: nat,
)
    requires
        c.wf(),
        other != id,
        present(c.entries, id) || c.entries.len() == 0 || c.entries.len() < c.config.capacity,
    ensures
        c.inserted(id, value, then).config == c.config,
        others(c.inserted(id, value, then).entries, id) == others(c.entries, id),
        accesses(c.inserted(id, value, then).entries) == accesses(others(c.entries, id)),
        c.inserted(id, value, then).live(other, now) == c.live(other, now),
        c.live(other, now) ==> c.inserted(id, value, then).value(other) == c.value(other),
{
    let e = EntryView::fresh(id, value, then);
    let after = c.inserted(id, value, then);
    inserted_keeps_order(c, id, value, then);
    if present(c.entries, id) {
        let i = slot(c.entries, id);
        lemma_used_others(c, i, e);
        lemma_accesses_remove(c.entries, i);
        lemma_accesses_push(c.entries.remove(i), e);
        lemma_accesses_update(c.entries, i, e);
        removal_leaves_others(c, id, other, now);
    } else {
        lemma_others_all(c.entries, id);
        lemma_accesses_push(c.entries, e);
        lemma_push_others(c.entries, e);
    }
    lemma_same_others(c, after, id, other, now);
}

/// An entry at the end leaves those under other keys as they are.
proof fn lemma_push_others<I, V>(entries: Seq<EntryView<I, V>>, e: EntryView<I, V>)
    ensures
        others(entries.push(e), e.key) == others(entries, e.key),
{
    let pushed = entries.push(e);
    lemma_filter_skips(pushed, |x: EntryView<I, V>| x.key != e.key, pushed.len() - 1);
    assert(pushed.remove(pushed.len() - 1) =~= entries);
}

/// A new key in a full cache makes the first entry go, and no other: it is as if that had
/// been removed before, which leaves room.
pub proof fn eviction_takes_first<I, V>(c: CacheView<I, V>, id: I, value: V, now: nat)
    requires
        c.wf(),
        !present(c.entries, id),
        c.entries.len() > 0,
        c.entries.len() >= c.config.capacity,
    ensures
        c.inserted(id, value, now) == c.removed(c.entries[0].key).inserted(id, value, now),
        c.removed(c.entries[0].key).entries == c.entries.skip(1),
        !present(c.removed(c.entries[0].key).entries, id),
        c.config.capacity > 0 ==> c.removed(c.entries[0].key).entries.len() < c.config.capacity,
{
    let first = c.entries[0].key;
    lemma_slot(c.entries, first, 0);
    let kept = c.removed(first);
    assert(c.entries.remove(0) =~= c.entries.drop_first());
    assert(c.entries.remove(0) =~= c.entries.skip(1));
    assert(kept.entries == c.entries.drop_first());
    if present(kept.entries, id) {
        let j = slot(kept.entries, id);
        assert(c.entries[j + 1].key == id);
    }
}

/// Inserting under a key that has an entry already makes room for nothing: the cache keeps
/// its size, and without eviction of the least recently used entry also the place.
pub proof fn insertion_replaces<I, V>(c: CacheView<I, V>, id: I, value: V, now: nat)
    requires
        c.wf(),
        present(c.entries, id),
    ensures
        c.inserted(id, value, now).entries.len() == c.entries.len(),
        !c.config.enable_lru ==> slot(c.inserted(id, value, now).entries, id) == slot(
            c.entries,
            id,
        ),
{
    inserted_keeps_order(c, id, value, now);
    if !c.config.enable_lru {
        let i = slot(c.entries, id);
        assert(c.inserted(id, value, now).entries[i].key == id);
        lemma_slot(c.inserted(id, value, now).entries, id, i);
    }
}

/// A new key comes last in the order of eviction.
pub proof fn new_key_is_last<I, V>(c: CacheView<I, V>, id: I, value: V, now: nat)
    requires
        c.wf(),
        !present(c.entries, id),
    ensures
        c.inserted(id, value, now).entries.last().key == id,
{
}

/// Pruning removes the keys under which nothing would be found, one after another, and
/// nothing else: where all would be found, nothing changes.
pub proof fn pruning_removes_expired<I, V>(c: CacheView<I, V>, id: I, now: nat)
    requires
        c.wf(),
        present(c.entries, id),
    ensures
        !c.live(id, now) ==> c.pruned(now) == c.removed(id).pruned(now),
        (forall|i: int| 0 <= i < c.entries.len() ==> c.live((#[trigger] c.entries[i]).key, now))
            ==> c.pruned(now) == c,
{
    let keep = |e: EntryView<I, V>| !e.expired(c.config.ttl, now);
    if !c.live(id, now) {
        lemma_filter_skips(c.entries, keep, slot(c.entries, id));
    }
    if forall|i: int| 0 <= i < c.entries.len() ==> c.live((#[trigger] c.entries[i]).key, now) {
        assert forall|i: int| 0 <= i < c.entries.len() implies keep(#[trigger] c.entries[i]) by {
            assert(c.live(c.entries[i].key, now));
            lemma_slot(c.entries, c.entries[i].key, i);
        }
        lemma_filter_all(c.entries, keep);
    }
}

/// A cache that was just made, or cleared, is empty and has counted nothing.
pub proof fn fresh_is_empty<I, V>(config: CacheConfig)
    ensures
        CacheView::<I, V>::fresh(config).entries.len() == 0,
        CacheView::<I, V>::fresh(config).config == config,
        accesses(CacheView::<I, V>::fresh(config).entries) == 0,
{
}

/// Removing a key gives back what was inserted under it last, and nothing where it was
/// removed before. What would be found is what is given back.
pub proof fn removal_gives_back_value<I, V>(c: CacheView<I, V>, id: I, value: V, now: nat)
    requires
        c.wf(),
    ensures
        c.inserted(id, value, now).taken(id) == Some(value),
        c.removed(id).taken(id) is None,
        c.live(id, now) ==> c.taken(id) == Some(c.value(id)),
        CacheView::<I, V>::fresh(c.config).taken(id) is None,
{
    let after = c.inserted(id, value, now);
    inserted_is_found(c, id, value, now, now);
    inserted_keeps_order(c, id, value, now);
    if present(c.entries, id) && !c.config.enable_lru {
        assert(after.entries[slot(c.entries, id)].key == id);
    } else {
        assert(after.entries[after.entries.len() - 1].key == id);
    }
    if present(c.removed(id).entries, id) {
        let i = slot(c.entries, id);
        let j = slot(c.removed(id).entries, id);
        let k = if j < i {
            j
        } else {
            j + 1
        };
        assert(c.removed(id).entries[j] == c.entries[k]);
        assert(c.entries[k].key == c.entries[i].key);
    }
}

/// What is found under a key is what was inserted under it, for as long as its time to live;
/// nothing is found under a key that was removed, nor in a cache that was cleared, and what is
/// found under one key does not depend on what is done under another, where there is room.
pub proof fn lookup_finds_inserted<I, V>(
    c: CacheView<I, V>,
    id: I,
    value: V,
    other: I,
    then: nat,
    now: nat,
)
    requires
        c.wf(),
        accesses(c.entries) < u64::MAX,
        other != id,
    ensures
        c.inserted(id, value, then).found(id, now) == match c.config.ttl {
            Some(limit) => if time::passed(then, now) <= limit@ {
                Some(value)
            } else {
                None
            },
            None => Some(value),
        },
        c.removed(id).found(id, now) is None,
        CacheView::<I, V>::fresh(c.config).found(id, now) is None,
        c.removed(id).found(other, now) == c.found(other, now),
        c.got(id, then).found(other, now) == c.found(other, now),
        c.found(id, then) is Some ==> c.got(id, then).found(id, now) == c.found(id, now),
        c.entries.len() < c.config.capacity || present(c.entries, id) ==> c.inserted(
            id,
            value,
            then,
        ).found(other, now) == c.found(other, now),
{
    inserted_is_found(c, id, value, then, now);
    removed_is_gone(c, id, now);
    removal_leaves_others(c, id, other, now);
    lookup_leaves_others(c, id, other, then, now);
    lookup_keeps_value(c, id, then, now);
    if c.entries.len() < c.config.capacity || present(c.entries, id) {
        insertion_leaves_others(c, id, value, then, other, now);
    }
}

} // verus!
