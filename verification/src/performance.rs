//! Throughput helpers: a pool of reusable resources, a small
//! recency-ordered cache and fixed-capacity batches.
use vstd::prelude::*;
use std::collections::VecDeque;
use crate::common::ObjectId;
use crate::keyed::KeyEq;

verus! {

#[derive(Clone, Debug)]
pub struct PooledResource<T: Clone> {
    pub id: ObjectId,
    pub resource: T,
    pub in_use: bool,
}

/// Resources waiting to be handed out (in release order) and resources
/// handed out (in acquisition order).
#[derive(Clone, Debug)]
pub struct ObjectPool<T: Clone> {
    available: VecDeque<PooledResource<T>>,
    in_use: Vec<PooledResource<T>>,
    max_size: usize,
}

impl<T: Clone + Default> ObjectPool<T> {
    pub closed spec fn available_view(&self) -> Seq<PooledResource<T>> {
        self.available@
    }

    pub closed spec fn in_use_view(&self) -> Seq<PooledResource<T>> {
        self.in_use@
    }

    pub closed spec fn capacity(&self) -> usize {
        self.max_size
    }

    /// `initial_size` idle resources, each with a fresh identity.
    pub fn new(initial_size: usize) -> (p: ObjectPool<T>)
        ensures
            p.available_view().len() == initial_size,
            forall|i: int| 0 <= i < initial_size ==> (#[trigger] p.available_view()[i]).id.value != 0
                && !p.available_view()[i].in_use,
            p.in_use_view().len() == 0,
            p.capacity() == initial_size,
    {
        let mut available: VecDeque<PooledResource<T>> = VecDeque::new();
        let mut i: usize = 0;
        while i < initial_size
            invariant
                i <= initial_size,
                available@.len() == i,
                forall|j: int| 0 <= j < i ==> (#[trigger] available@[j]).id.value != 0 && !available@[j].in_use,
            decreases initial_size - i,
        {
            available.push_back(PooledResource { id: ObjectId::new(), resource: T::default(), in_use: false });
            i = i + 1;
        }
        ObjectPool { available, in_use: Vec::new(), max_size: initial_size }
    }

    /// Hand out the longest-idle resource, now holding `resource`, and
    /// return its identity; `None` (nothing changed) when none is idle.
    pub fn acquire(&mut self, resource: T) -> (r: Option<ObjectId>)
        ensures
            final(self).capacity() == old(self).capacity(),
            old(self).available_view().len() == 0 ==> r.is_none()
                && final(self).available_view() == old(self).available_view()
                && final(self).in_use_view() == old(self).in_use_view(),
            old(self).available_view().len() > 0 ==> {
                let p = old(self).available_view()[0];
                &&& r == Some(p.id)
                &&& final(self).available_view() == old(self).available_view().drop_first()
                &&& final(self).in_use_view() == old(self).in_use_view().push(
                    PooledResource { id: p.id, resource, in_use: true })
            },
    {
        match self.available.pop_front() {
            Some(pooled) => {
                let id = pooled.id;
                self.in_use.push(PooledResource { id, resource, in_use: true });
                Some(id)
            },
            None => None,
        }
    }

    /// Return the first handed-out resource with identity `id` to the idle
    /// queue; false when none has it.
    pub fn release(&mut self, id: &ObjectId) -> (b: bool)
        ensures
            final(self).capacity() == old(self).capacity(),
            b == exists|i: int| 0 <= i < old(self).in_use_view().len() && (#[trigger] old(self).in_use_view()[i]).id == *id,
            !b ==> final(self).available_view() == old(self).available_view()
                && final(self).in_use_view() == old(self).in_use_view(),
            b ==> exists|k: int| {
                &&& 0 <= k < old(self).in_use_view().len()
                &&& old(self).in_use_view()[k].id == *id
                &&& forall|j: int| 0 <= j < k ==> (#[trigger] old(self).in_use_view()[j]).id != *id
                &&& final(self).in_use_view() == old(self).in_use_view().remove(k)
                &&& final(self).available_view() == old(self).available_view().push(
                    PooledResource { in_use: false, ..old(self).in_use_view()[k] })
            },
    {
        let mut k: usize = 0;
        while k < self.in_use.len()
            invariant
                k <= self.in_use@.len(),
                self.in_use@ == old(self).in_use@,
                self.available@ == old(self).available@,
                self.max_size == old(self).max_size,
                forall|j: int| 0 <= j < k ==> (#[trigger] self.in_use@[j]).id != *id,
            decreases self.in_use@.len() - k,
        {
            if self.in_use[k].id == *id {
                let ghost k0 = k as int;
                let mut pooled = self.in_use.remove(k);
                pooled.in_use = false;
                self.available.push_back(pooled);
                assert(old(self).in_use_view()[k0].id == *id);
                return true;
            }
            k = k + 1;
        }
        false
    }

    pub fn available_count(&self) -> (n: usize)
        ensures
            n == self.available_view().len(),
    {
        self.available.len()
    }

    pub fn in_use_count(&self) -> (n: usize)
        ensures
            n == self.in_use_view().len(),
    {
        self.in_use.len()
    }
}

#[derive(Clone, Debug)]
pub struct CacheEntry<K: Clone, V: Clone> {
    pub key: K,
    pub value: V,
    pub access_count: u32,
    pub timestamp: u64,
}

/// Entries in recency order (least recently used first), possibly with
/// repeated keys; lookups find the first entry with the key.
#[derive(Clone, Debug)]
pub struct Cache<K: Clone, V: Clone> {
    entries: Vec<CacheEntry<K, V>>,
    max_entries: usize,
    hits: u64,
    misses: u64,
}

/// Position of the first entry of `s` whose key is `k`, if any.
pub open spec fn first_key_pos<K: Clone + KeyEq, V: Clone>(s: Seq<CacheEntry<K, V>>, k: K::V) -> Option<int> {
    if exists|i: int| 0 <= i < s.len() && (#[trigger] s[i]).key@ == k {
        Some(choose|i: int| 0 <= i < s.len() && s[i].key@ == k && forall|j: int| 0 <= j < i ==> (#[trigger] s[j]).key@ != k)
    } else {
        None
    }
}

proof fn lemma_first_key_pos<K: Clone + KeyEq, V: Clone>(s: Seq<CacheEntry<K, V>>, k: K::V, p: int)
    requires
        0 <= p <= s.len(),
        p < s.len() ==> s[p].key@ == k,
        forall|j: int| 0 <= j < p ==> (#[trigger] s[j]).key@ != k,
    ensures
        first_key_pos(s, k) == if p < s.len() { Some(p) } else { None::<int> },
{
    if p < s.len() {
        let f = choose|i: int| 0 <= i < s.len() && s[i].key@ == k && forall|j: int| 0 <= j < i ==> (#[trigger] s[j]).key@ != k;
        assert(s[p].key@ == k);
        if f < p {
        } else if f > p {
        }
    } else {
        if exists|i: int| 0 <= i < s.len() && (#[trigger] s[i]).key@ == k {
            let i = choose|i: int| 0 <= i < s.len() && (#[trigger] s[i]).key@ == k;
            assert(s[i].key@ != k);
        }
    }
}

/// A key the cache does not hold is found, right after `put` adds it, at
/// the entry `put` appended (the most recent one), whether or not the least
/// recent entry was evicted to make room; so a following `get` returns a
/// clone of the value put.
pub proof fn lemma_put_then_find<K: Clone + KeyEq, V: Clone>(s: Seq<CacheEntry<K, V>>, evict: bool, e: CacheEntry<K, V>)
    requires
        first_key_pos(s, e.key@).is_none(),
        evict ==> s.len() > 0,
    ensures
        ({
            let t = (if evict { s.drop_first() } else { s }).push(e);
            first_key_pos(t, e.key@) == Some(t.len() - 1)
        }),
{
    let t = (if evict { s.drop_first() } else { s }).push(e);
    assert forall|j: int| 0 <= j < t.len() - 1 implies (#[trigger] t[j]).key@ != e.key@ by {
        let i = if evict { j + 1 } else { j };
        assert(t[j] == s[i]);
        if s[i].key@ == e.key@ {
            assert(exists|x: int| 0 <= x < s.len() && (#[trigger] s[x]).key@ == e.key@);
        }
    }
    lemma_first_key_pos(t, e.key@, t.len() - 1);
}

impl<K: Clone + KeyEq, V: Clone> Cache<K, V> {
    /// The cache never holds more than `max_entries` entries.
    pub closed spec fn wf(&self) -> bool {
        self.entries@.len() <= self.max_entries
    }

    pub closed spec fn entries_view(&self) -> Seq<CacheEntry<K, V>> {
        self.entries@
    }

    pub closed spec fn max_entries_view(&self) -> usize {
        self.max_entries
    }

    pub closed spec fn hits_view(&self) -> u64 {
        self.hits
    }

    pub closed spec fn misses_view(&self) -> u64 {
        self.misses
    }

    pub fn new(max_entries: usize) -> (c: Cache<K, V>)
        ensures
            c.wf(),
            c.entries_view().len() == 0,
            c.max_entries_view() == max_entries,
            c.hits_view() == 0 && c.misses_view() == 0,
    {
        Cache { entries: Vec::new(), max_entries, hits: 0, misses: 0 }
    }

    /// Look `key` up at `current_time`. A hit moves the entry to the most
    /// recent end with one more access and the new timestamp, and returns a
    /// clone of its value; a miss changes only the miss count.
    pub fn get(&mut self, key: &K, current_time: u64) -> (r: Option<V>)
        requires
            old(self).wf(),
            old(self).hits_view() < u64::MAX,
            old(self).misses_view() < u64::MAX,
            forall|i: int| 0 <= i < old(self).entries_view().len() ==> (#[trigger] old(self).entries_view()[i]).access_count < u32::MAX,
        ensures
            final(self).wf(),
            final(self).max_entries_view() == old(self).max_entries_view(),
            match first_key_pos(old(self).entries_view(), key@) {
                None => {
                    &&& r.is_none()
                    &&& final(self).entries_view() == old(self).entries_view()
                    &&& final(self).misses_view() == old(self).misses_view() + 1
                    &&& final(self).hits_view() == old(self).hits_view()
                },
                Some(p) => {
                    let e = old(self).entries_view()[p];
                    &&& r matches Some(v) && cloned(e.value, v)
                    &&& final(self).entries_view() == old(self).entries_view().remove(p).push(
                        CacheEntry { access_count: (e.access_count + 1) as u32, timestamp: current_time, ..e })
                    &&& final(self).hits_view() == old(self).hits_view() + 1
                    &&& final(self).misses_view() == old(self).misses_view()
                },
            },
    {
        let mut p: usize = 0;
        let mut found = false;
        while p < self.entries.len() && !found
            invariant
                p <= self.entries@.len(),
                self.entries@ == old(self).entries@,
                found ==> p < self.entries@.len() && self.entries@[p as int].key@ == key@,
                forall|j: int| 0 <= j < p ==> (#[trigger] self.entries@[j]).key@ != key@,
            decreases self.entries@.len() - p + if found { 0int } else { 1int },
        {
            if self.entries[p].key.key_eq(key) {
                found = true;
            } else {
                p = p + 1;
            }
        }
        proof {
            lemma_first_key_pos(old(self).entries@, key@, p as int);
        }
        if p < self.entries.len() {
            let mut entry = self.entries.remove(p);
            entry.access_count = entry.access_count + 1;
            entry.timestamp = current_time;
            let value = entry.value.clone();
            self.entries.push(entry);
            self.hits = self.hits + 1;
            Some(value)
        } else {
            self.misses = self.misses + 1;
            None
        }
    }

    /// Add an entry for `key` (one access, stamped `current_time`) at the
    /// most recent end, first evicting the least recent entry when full.
    pub fn put(&mut self, key: K, value: V, current_time: u64)
        requires
            old(self).wf(),
            old(self).max_entries_view() > 0,
        ensures
            final(self).wf(),
            final(self).entries_view().len() == if old(self).entries_view().len() < old(self).max_entries_view() {
                old(self).entries_view().len() + 1
            } else {
                old(self).max_entries_view() as nat
            },
            final(self).max_entries_view() == old(self).max_entries_view(),
            final(self).hits_view() == old(self).hits_view(),
            final(self).misses_view() == old(self).misses_view(),
            final(self).entries_view() == (if old(self).entries_view().len() >= old(self).max_entries_view() {
                old(self).entries_view().drop_first()
            } else {
                old(self).entries_view()
            }).push(CacheEntry { key, value, access_count: 1, timestamp: current_time }),
    {
        if self.entries.len() >= self.max_entries {
            let _ = self.entries.remove(0);
            assert(self.entries@ =~= old(self).entries@.drop_first());
        }
        self.entries.push(CacheEntry { key, value, access_count: 1, timestamp: current_time });
    }

    pub fn size(&self) -> (n: usize)
        ensures
            n == self.entries_view().len(),
    {
        self.entries.len()
    }

    /// Drop every entry and zero the hit and miss counts.
    pub fn clear(&mut self)
        ensures
            final(self).wf(),
            final(self).entries_view().len() == 0,
            final(self).max_entries_view() == old(self).max_entries_view(),
            final(self).hits_view() == 0 && final(self).misses_view() == 0,
    {
        self.entries.clear();
        self.hits = 0;
        self.misses = 0;
    }

    pub fn hits(&self) -> (n: u64)
        ensures
            n == self.hits_view(),
    {
        self.hits
    }

    pub fn misses(&self) -> (n: u64)
        ensures
            n == self.misses_view(),
    {
        self.misses
    }
}

/// Items collected up to a fixed capacity, then flushed together.
#[derive(Clone, Debug)]
pub struct Batch<T: Clone> {
    items: Vec<T>,
    size: usize,
    max_size: usize,
}

impl<T: Clone> Batch<T> {
    pub closed spec fn items_view(&self) -> Seq<T> {
        self.items@
    }

    pub closed spec fn capacity(&self) -> usize {
        self.max_size
    }

    /// The recorded size always equals the number of items held.
    pub closed spec fn wf(&self) -> bool {
        self.size == self.items@.len()
    }

    pub fn new(max_size: usize) -> (b: Batch<T>)
        ensures
            b.wf(),
            b.items_view().len() == 0,
            b.capacity() == max_size,
    {
        Batch { items: Vec::new(), size: 0, max_size }
    }

    /// Append `item` unless the batch is full; whether it was taken.
    pub fn add(&mut self, item: T) -> (taken: bool)
        requires
            old(self).wf(),
        ensures
            final(self).wf(),
            final(self).capacity() == old(self).capacity(),
            taken == (old(self).items_view().len() < old(self).capacity()),
            taken ==> final(self).items_view() == old(self).items_view().push(item),
            !taken ==> final(self).items_view() == old(self).items_view(),
    {
        if self.size < self.max_size {
            self.items.push(item);
            self.size = self.size + 1;
            true
        } else {
            false
        }
    }

    /// Hand out every item, in order, leaving the batch empty.
    pub fn flush(&mut self) -> (items: Vec<T>)
        ensures
            final(self).wf(),
            final(self).capacity() == old(self).capacity(),
            items@ == old(self).items_view(),
            final(self).items_view().len() == 0,
    {
        let mut items: Vec<T> = Vec::new();
        std::mem::swap(&mut items, &mut self.items);
        self.size = 0;
        items
    }

    pub fn is_full(&self) -> (b: bool)
        requires
            self.wf(),
        ensures
            b == (self.items_view().len() >= self.capacity()),
    {
        self.size >= self.max_size
    }

    pub fn is_empty(&self) -> (b: bool)
        requires
            self.wf(),
        ensures
            b == (self.items_view().len() == 0),
    {
        self.size == 0
    }

    pub fn current_size(&self) -> (n: usize)
        requires
            self.wf(),
        ensures
            n == self.items_view().len(),
    {
        self.size
    }
}

/// A batch never holds more items than its capacity once created.
pub proof fn lemma_batch_bounded<T: Clone>(b0: Batch<T>, b1: Batch<T>, item: T, taken: bool)
    requires
        b0.items_view().len() <= b0.capacity(),
        b1.capacity() == b0.capacity(),
        taken == (b0.items_view().len() < b0.capacity()),
        taken ==> b1.items_view() == b0.items_view().push(item),
        !taken ==> b1.items_view() == b0.items_view(),
    ensures
        b1.items_view().len() <= b1.capacity(),
{
}

} // verus!
