//! Tier 0 slab allocator: per-CPU caches of small objects (8 to 64 bytes).
//!
//! Each per-CPU cache is a stack of up to 256 ready object addresses.
//! Allocation pops the most recently returned object; deallocation pushes
//! it back, refusing when the stack is full. Refilling draws fresh,
//! zeroed objects from the system allocator; the cache owns their memory.
use vstd::prelude::*;
use crate::common::{buffer_address, Error, Result};

verus! {

/// Capacity of a per-CPU cache stack.
pub const CACHE_CAPACITY: usize = 256;

/// Number of Tier 0 size classes.
pub const TIER0_CLASSES: usize = 6;

/// An object address handed out by a slab allocator.
#[derive(Debug, Clone, Copy, PartialEq, Eq, Hash, Structural)]
pub struct ObjectPtr {
    pub addr: usize,
}

impl ObjectPtr {
    pub fn is_null(&self) -> (b: bool)
        ensures
            b == (self.addr == 0),
    {
        self.addr == 0
    }
}

/// Tier 0 size classes: 8, 16, 24, 32, 48 and 64 bytes.
#[derive(Debug, Clone, Copy, PartialEq, Eq, Hash, Structural)]
pub enum SizeClass {
    Bytes8,
    Bytes16,
    Bytes24,
    Bytes32,
    Bytes48,
    Bytes64,
}

/// The class serving a request of `size` bytes, if Tier 0 serves it.
pub open spec fn class_for(size: usize) -> Option<SizeClass> {
    if 1 <= size <= 8 {
        Some(SizeClass::Bytes8)
    } else if 9 <= size <= 16 {
        Some(SizeClass::Bytes16)
    } else if 17 <= size <= 24 {
        Some(SizeClass::Bytes24)
    } else if 25 <= size <= 32 {
        Some(SizeClass::Bytes32)
    } else if 33 <= size <= 48 {
        Some(SizeClass::Bytes48)
    } else if 49 <= size <= 64 {
        Some(SizeClass::Bytes64)
    } else {
        None
    }
}

pub open spec fn class_size(c: SizeClass) -> usize {
    match c {
        SizeClass::Bytes8 => 8,
        SizeClass::Bytes16 => 16,
        SizeClass::Bytes24 => 24,
        SizeClass::Bytes32 => 32,
        SizeClass::Bytes48 => 48,
        SizeClass::Bytes64 => 64,
    }
}

/// Tier 0 serves every request from 1 to 64 bytes and no other, and
/// serves it from the smallest class whose objects hold the request: the
/// class's objects are at least as large as the request, and every smaller
/// class's objects are too small for it.
pub proof fn lemma_class_for_smallest_fit(size: usize)
    ensures
        class_for(size).is_some() <==> 1 <= size <= 64,
        class_for(size).is_some() ==> size <= class_size(class_for(size).unwrap()),
        class_for(size).is_some() ==> forall|c: SizeClass|
            class_size(c) < class_size(class_for(size).unwrap()) ==> #[trigger] class_size(c) < size,
{
    if class_for(size).is_some() {
        let k = class_for(size).unwrap();
        assert forall|c: SizeClass| class_size(c) < class_size(k) implies #[trigger] class_size(c) < size by {
            match c {
                SizeClass::Bytes8 => {},
                SizeClass::Bytes16 => {},
                SizeClass::Bytes24 => {},
                SizeClass::Bytes32 => {},
                SizeClass::Bytes48 => {},
                SizeClass::Bytes64 => {},
            }
        }
    }
}

pub open spec fn class_index(c: SizeClass) -> usize {
    match c {
        SizeClass::Bytes8 => 0,
        SizeClass::Bytes16 => 1,
        SizeClass::Bytes24 => 2,
        SizeClass::Bytes32 => 3,
        SizeClass::Bytes48 => 4,
        SizeClass::Bytes64 => 5,
    }
}

/// The class at table position `i`.
pub open spec fn class_at(i: int) -> SizeClass {
    if i == 0 {
        SizeClass::Bytes8
    } else if i == 1 {
        SizeClass::Bytes16
    } else if i == 2 {
        SizeClass::Bytes24
    } else if i == 3 {
        SizeClass::Bytes32
    } else if i == 4 {
        SizeClass::Bytes48
    } else {
        SizeClass::Bytes64
    }
}

impl SizeClass {
    pub fn from_size(size: usize) -> (c: Option<SizeClass>)
        ensures
            c == class_for(size),
    {
        if 1 <= size && size <= 8 {
            Some(SizeClass::Bytes8)
        } else if 9 <= size && size <= 16 {
            Some(SizeClass::Bytes16)
        } else if 17 <= size && size <= 24 {
            Some(SizeClass::Bytes24)
        } else if 25 <= size && size <= 32 {
            Some(SizeClass::Bytes32)
        } else if 33 <= size && size <= 48 {
            Some(SizeClass::Bytes48)
        } else if 49 <= size && size <= 64 {
            Some(SizeClass::Bytes64)
        } else {
            None
        }
    }

    pub fn actual_size(&self) -> (n: usize)
        ensures
            n == class_size(*self),
    {
        match self {
            SizeClass::Bytes8 => 8,
            SizeClass::Bytes16 => 16,
            SizeClass::Bytes24 => 24,
            SizeClass::Bytes32 => 32,
            SizeClass::Bytes48 => 48,
            SizeClass::Bytes64 => 64,
        }
    }

    pub fn as_index(&self) -> (i: usize)
        ensures
            i == class_index(*self),
            i < TIER0_CLASSES,
    {
        match self {
            SizeClass::Bytes8 => 0,
            SizeClass::Bytes16 => 1,
            SizeClass::Bytes24 => 2,
            SizeClass::Bytes32 => 3,
            SizeClass::Bytes48 => 4,
            SizeClass::Bytes64 => 5,
        }
    }

    pub fn objects_per_page(&self) -> (n: usize)
        ensures
            n == 4096usize / class_size(*self),
    {
        4096 / self.actual_size()
    }
}

/// Every served size gets a class at least as large, and no larger than
/// the next class boundary requires.
pub proof fn lemma_class_fits(size: usize)
    requires
        1 <= size <= 64,
    ensures
        class_for(size).is_some(),
        size <= class_size(class_for(size).unwrap()),
        class_size(class_for(size).unwrap()) < size + 16,
{
}

/// Table positions and classes correspond.
pub proof fn lemma_class_index_roundtrip(c: SizeClass)
    ensures
        class_at(class_index(c) as int) == c,
{
}

#[derive(Debug, Clone, Copy)]
pub struct CacheStats {
    pub allocations: usize,
    pub deallocations: usize,
    pub cache_hits: usize,
    pub cache_misses: usize,
}

impl Default for CacheStats {
    fn default() -> (s: CacheStats)
        ensures
            s.allocations == 0 && s.deallocations == 0 && s.cache_hits == 0 && s.cache_misses == 0,
    {
        CacheStats { allocations: 0, deallocations: 0, cache_hits: 0, cache_misses: 0 }
    }
}

/// How many objects a stack of `n` holds after `count` more were pushed,
/// stopping when it is full.
pub open spec fn refill_target(n: int, count: usize) -> int {
    if n + count <= CACHE_CAPACITY { n + count } else { CACHE_CAPACITY as int }
}

/// `after` is cache `before` with some fresh objects pushed, at most as
/// many as `count` and room allow: the objects already there stay, in
/// order, below the new ones; every new object is 8-byte aligned and
/// differs from every object below it, new or old.
pub open spec fn grown(before: CpuSlabCache, after: CpuSlabCache, count: usize) -> bool {
    let n = before.stack().len();
    &&& after.spec_object_size() == before.spec_object_size()
    &&& n <= after.stack().len() <= refill_target(n as int, count)
    &&& after.stack().subrange(0, n as int) == before.stack()
    &&& forall|i: int| n <= i < after.stack().len() ==> (#[trigger] after.stack()[i]).addr % 8 == 0
    &&& forall|i: int, j: int| 0 <= i < j < after.stack().len() && n <= j ==>
        #[trigger] after.stack()[i] != #[trigger] after.stack()[j]
}

/// `after` is cache `before` once `count` fresh objects were pushed,
/// stopping when the stack is full (see `grown`).
pub open spec fn refilled(before: CpuSlabCache, after: CpuSlabCache, count: usize) -> bool {
    &&& grown(before, after, count)
    &&& after.stack().len() == refill_target(before.stack().len() as int, count)
}

/// A cache with nothing pushed has grown by nothing.
proof fn lemma_grown_refl(c: CpuSlabCache, count: usize)
    requires
        c.wf(),
    ensures
        grown(c, c, count),
{
    assert(c.stack().subrange(0, c.stack().len() as int) =~= c.stack());
}

/// Whether some object of `objects` is at `addr`.
fn holds_addr(objects: &Vec<ObjectPtr>, addr: usize) -> (b: bool)
    ensures
        b == exists|i: int| 0 <= i < objects@.len() && (#[trigger] objects@[i]).addr == addr,
{
    let mut i: usize = 0;
    while i < objects.len()
        invariant
            i <= objects@.len(),
            forall|j: int| 0 <= j < i ==> (#[trigger] objects@[j]).addr != addr,
        decreases objects@.len() - i,
    {
        if objects[i].addr == addr {
            return true;
        }
        i = i + 1;
    }
    false
}

/// A per-CPU cache for one size class.
pub struct CpuSlabCache {
    /// Ready objects; the last one is handed out first.
    objects: Vec<ObjectPtr>,
    /// Memory of the objects this cache drew from the system, by address.
    backing: Vec<(usize, Vec<u64>)>,
    object_size: usize,
    stats: CacheStats,
}

impl CpuSlabCache {
    pub closed spec fn wf(&self) -> bool {
        self.objects@.len() <= CACHE_CAPACITY
    }

    /// Ready objects, bottom of the stack first.
    pub closed spec fn stack(&self) -> Seq<ObjectPtr> {
        self.objects@
    }

    pub closed spec fn spec_object_size(&self) -> usize {
        self.object_size
    }

    pub fn new(size_class: SizeClass) -> (c: CpuSlabCache)
        ensures
            c.wf(),
            c.stack().len() == 0,
            c.spec_object_size() == class_size(size_class),
    {
        CpuSlabCache {
            objects: Vec::new(),
            backing: Vec::new(),
            object_size: size_class.actual_size(),
            stats: CacheStats::default(),
        }
    }

    pub fn object_size(&self) -> (n: usize)
        ensures
            n == self.spec_object_size(),
    {
        self.object_size
    }

    /// Pop the most recently pushed object; `None` when the cache is empty.
    pub fn allocate(&mut self) -> (r: Option<ObjectPtr>)
        requires
            old(self).wf(),
        ensures
            final(self).wf(),
            final(self).spec_object_size() == old(self).spec_object_size(),
            old(self).stack().len() == 0 ==> r.is_none() && final(self).stack() == old(self).stack(),
            old(self).stack().len() > 0 ==> r == Some(old(self).stack().last())
                && final(self).stack() == old(self).stack().drop_last(),
    {
        self.objects.pop()
    }

    /// Push `ptr` back; `false`, with nothing changed, when the cache is full.
    pub fn deallocate(&mut self, ptr: ObjectPtr) -> (pushed: bool)
        requires
            old(self).wf(),
        ensures
            final(self).wf(),
            final(self).spec_object_size() == old(self).spec_object_size(),
            pushed == (old(self).stack().len() < CACHE_CAPACITY),
            pushed ==> final(self).stack() == old(self).stack().push(ptr),
            !pushed ==> final(self).stack() == old(self).stack(),
    {
        if self.objects.len() >= CACHE_CAPACITY {
            return false;
        }
        self.objects.push(ptr);
        true
    }

    /// Draw up to `count` fresh zeroed, 8-byte aligned objects from the
    /// system allocator and push them, stopping when the stack is full.
    /// Fails with `Error::OutOfMemory`, keeping the objects pushed so far,
    /// should the system hand out memory at the address of an object the
    /// stack already holds.
    pub fn refill_cache(&mut self, count: usize) -> (r: Result<()>)
        requires
            old(self).wf(),
        ensures
            final(self).wf(),
            grown(*old(self), *final(self), count),
            r.is_ok() ==> refilled(*old(self), *final(self), count),
            r.is_err() ==> r == Err::<(), Error>(Error::OutOfMemory),
    {
        let ghost s0 = self.objects@;
        let mut k: usize = 0;
        while k < count && self.objects.len() < CACHE_CAPACITY
            invariant
                self.wf(),
                k <= count,
                self.object_size == old(self).object_size,
                self.objects@.len() == s0.len() + k,
                self.objects@.subrange(0, s0.len() as int) == s0,
                s0 == old(self).stack(),
                forall|i: int| s0.len() <= i < self.objects@.len() ==> (#[trigger] self.objects@[i]).addr % 8 == 0,
                forall|i: int, j: int| 0 <= i < j < self.objects@.len() && s0.len() <= j ==>
                    #[trigger] self.objects@[i] != #[trigger] self.objects@[j],
            decreases count - k,
        {
            let words = if self.object_size % 8 == 0 { self.object_size / 8 } else { self.object_size / 8 + 1 };
            let buf: Vec<u64> = vec![0u64; words];
            let addr = buffer_address(&buf);
            if holds_addr(&self.objects, addr) {
                return Err(Error::OutOfMemory);
            }
            let ghost prev = self.objects@;
            self.backing.push((addr, buf));
            self.objects.push(ObjectPtr { addr });
            proof {
                assert(self.objects@.subrange(0, s0.len() as int) =~= s0);
                assert forall|i: int, j: int| 0 <= i < j < self.objects@.len() && s0.len() <= j implies
                    #[trigger] self.objects@[i] != #[trigger] self.objects@[j] by {
                    if j == prev.len() {
                        assert(prev[i].addr != addr);
                    } else {
                        assert(prev[i] != prev[j]);
                    }
                }
            }
            k = k + 1;
        }
        Ok(())
    }

    /// Return every ready object to the system allocator and empty the stack.
    pub fn drain_cache(&mut self) -> (r: Result<()>)
        requires
            old(self).wf(),
        ensures
            r.is_ok(),
            final(self).wf(),
            final(self).stack().len() == 0,
            final(self).spec_object_size() == old(self).spec_object_size(),
    {
        let mut kept: Vec<(usize, Vec<u64>)> = Vec::new();
        let mut backing: Vec<(usize, Vec<u64>)> = Vec::new();
        std::mem::swap(&mut backing, &mut self.backing);
        while backing.len() > 0
            decreases backing@.len(),
        {
            let entry = backing.pop().unwrap();
            let mut ready = false;
            let mut j: usize = 0;
            while j < self.objects.len()
                decreases self.objects@.len() - j,
            {
                if self.objects[j].addr == entry.0 {
                    ready = true;
                }
                j = j + 1;
            }
            if !ready {
                kept.push(entry);
            }
        }
        self.backing = kept;
        self.objects.clear();
        Ok(())
    }

    pub fn current_count(&self) -> (n: usize)
        ensures
            n == self.stack().len(),
    {
        self.objects.len()
    }

    pub fn is_empty(&self) -> (b: bool)
        ensures
            b == (self.stack().len() == 0),
    {
        self.objects.len() == 0
    }

    pub fn is_full(&self) -> (b: bool)
        ensures
            b == (self.stack().len() >= CACHE_CAPACITY),
    {
        self.objects.len() >= CACHE_CAPACITY
    }
}

/// A cache hands back the object most recently returned to it: pushing
/// `p` onto a non-full stack and popping gives `p` and the old stack.
pub proof fn lemma_cache_lifo(s: Seq<ObjectPtr>, p: ObjectPtr)
    requires
        s.len() < CACHE_CAPACITY,
    ensures
        s.push(p).len() > 0,
        s.push(p).last() == p,
        s.push(p).drop_last() == s,
{
    assert(s.push(p).drop_last() =~= s);
}

/// Per-CPU Tier 0 caches, one per size class on each CPU.
pub struct Tier0Allocator {
    caches: Vec<Vec<CpuSlabCache>>,
    num_cpus: usize,
}

impl Tier0Allocator {
    pub closed spec fn wf(&self) -> bool {
        &&& self.caches@.len() == self.num_cpus
        &&& forall|c: int| 0 <= c < self.num_cpus ==> {
            &&& (#[trigger] self.caches@[c])@.len() == TIER0_CLASSES
            &&& forall|k: int| 0 <= k < TIER0_CLASSES ==> {
                &&& (#[trigger] self.caches@[c]@[k]).wf()
                &&& self.caches@[c]@[k].spec_object_size() == class_size(class_at(k))
            }
        }
    }

    pub closed spec fn cpus(&self) -> usize {
        self.num_cpus
    }

    /// The cache of CPU `cpu` for class `c`.
    pub closed spec fn cache(&self, cpu: int, c: SizeClass) -> CpuSlabCache {
        self.caches@[cpu]@[class_index(c) as int]
    }

    /// One empty cache per size class on each of `num_cpus` CPUs.
    pub fn new(num_cpus: usize) -> (r: Result<Tier0Allocator>)
        ensures
            r.is_ok(),
            r.unwrap().wf(),
            r.unwrap().cpus() == num_cpus,
            forall|cpu: int, c: SizeClass| 0 <= cpu < num_cpus ==>
                (#[trigger] r.unwrap().cache(cpu, c)).stack().len() == 0,
    {
        let mut caches: Vec<Vec<CpuSlabCache>> = Vec::new();
        let mut cpu: usize = 0;
        while cpu < num_cpus
            invariant
                cpu <= num_cpus,
                caches@.len() == cpu,
                forall|c: int| 0 <= c < cpu ==> {
                    &&& (#[trigger] caches@[c])@.len() == TIER0_CLASSES
                    &&& forall|k: int| 0 <= k < TIER0_CLASSES ==> {
                        &&& (#[trigger] caches@[c]@[k]).wf()
                        &&& caches@[c]@[k].spec_object_size() == class_size(class_at(k))
                        &&& caches@[c]@[k].stack().len() == 0
                    }
                },
            decreases num_cpus - cpu,
        {
            let mut per_cpu: Vec<CpuSlabCache> = Vec::new();
            per_cpu.push(CpuSlabCache::new(SizeClass::Bytes8));
            per_cpu.push(CpuSlabCache::new(SizeClass::Bytes16));
            per_cpu.push(CpuSlabCache::new(SizeClass::Bytes24));
            per_cpu.push(CpuSlabCache::new(SizeClass::Bytes32));
            per_cpu.push(CpuSlabCache::new(SizeClass::Bytes48));
            per_cpu.push(CpuSlabCache::new(SizeClass::Bytes64));
            caches.push(per_cpu);
            cpu = cpu + 1;
        }
        let a = Tier0Allocator { caches, num_cpus };
        assert forall|cpu: int, c: SizeClass| 0 <= cpu < num_cpus implies
            (#[trigger] a.cache(cpu, c)).stack().len() == 0 by {
            assert(class_index(c) < TIER0_CLASSES);
        }
        Ok(a)
    }

    /// Number of CPUs with caches.
    pub fn num_cpus(&self) -> (n: usize)
        ensures
            n == self.cpus(),
    {
        self.num_cpus
    }

    /// Allocate `size` bytes from the cache of CPU `cpu_id % cpus` for the
    /// class serving `size`. `None` when the size is outside Tier 0 or that
    /// cache is empty.
    pub fn allocate(&mut self, cpu_id: usize, size: usize) -> (r: Option<ObjectPtr>)
        requires
            old(self).wf(),
            class_for(size).is_some() ==> old(self).cpus() > 0,
        ensures
            final(self).wf(),
            final(self).cpus() == old(self).cpus(),
            class_for(size).is_none() ==> r.is_none() && *final(self) == *old(self),
            class_for(size).is_some() ==> {
                let cpu = (cpu_id % old(self).cpus()) as int;
                let c = class_for(size).unwrap();
                let s = old(self).cache(cpu, c).stack();
                &&& (s.len() == 0 ==> r.is_none() && final(self).cache(cpu, c).stack() == s)
                &&& (s.len() > 0 ==> r == Some(s.last())
                    && final(self).cache(cpu, c).stack() == s.drop_last())
                &&& forall|cpu2: int, c2: SizeClass| 0 <= cpu2 < old(self).cpus()
                    && (cpu2 != cpu || c2 != c) ==> #[trigger] final(self).cache(cpu2, c2) == old(self).cache(cpu2, c2)
            },
    {
        let sc = match SizeClass::from_size(size) {
            Some(sc) => sc,
            None => return None,
        };
        let cpu = cpu_id % self.num_cpus;
        let k = sc.as_index();
        let ghost c0 = self.caches@;
        let row = &mut self.caches[cpu];
        let cache = &mut row[k];
        let r = cache.allocate();
        proof {
            assert forall|cpu2: int, c2: SizeClass| 0 <= cpu2 < old(self).cpus()
                && (cpu2 != cpu || c2 != sc) implies #[trigger] final(self).cache(cpu2, c2) == old(self).cache(cpu2, c2) by {
                if cpu2 == cpu {
                    assert(class_index(c2) != class_index(sc));
                }
            }
        }
        r
    }

    /// Push `ptr` back onto the cache of CPU `cpu_id % cpus` for the class
    /// serving `size`. `false` when the size is outside Tier 0 or that cache
    /// is full.
    pub fn deallocate(&mut self, cpu_id: usize, ptr: ObjectPtr, size: usize) -> (pushed: bool)
        requires
            old(self).wf(),
            class_for(size).is_some() ==> old(self).cpus() > 0,
        ensures
            final(self).wf(),
            final(self).cpus() == old(self).cpus(),
            class_for(size).is_none() ==> !pushed && *final(self) == *old(self),
            class_for(size).is_some() ==> {
                let cpu = (cpu_id % old(self).cpus()) as int;
                let c = class_for(size).unwrap();
                let s = old(self).cache(cpu, c).stack();
                &&& pushed == (s.len() < CACHE_CAPACITY)
                &&& (pushed ==> final(self).cache(cpu, c).stack() == s.push(ptr))
                &&& (!pushed ==> final(self).cache(cpu, c).stack() == s)
                &&& forall|cpu2: int, c2: SizeClass| 0 <= cpu2 < old(self).cpus()
                    && (cpu2 != cpu || c2 != c) ==> #[trigger] final(self).cache(cpu2, c2) == old(self).cache(cpu2, c2)
            },
    {
        let sc = match SizeClass::from_size(size) {
            Some(sc) => sc,
            None => return false,
        };
        let cpu = cpu_id % self.num_cpus;
        let k = sc.as_index();
        let row = &mut self.caches[cpu];
        let cache = &mut row[k];
        let r = cache.deallocate(ptr);
        proof {
            assert forall|cpu2: int, c2: SizeClass| 0 <= cpu2 < old(self).cpus()
                && (cpu2 != cpu || c2 != sc) implies #[trigger] final(self).cache(cpu2, c2) == old(self).cache(cpu2, c2) by {
                if cpu2 == cpu {
                    assert(class_index(c2) != class_index(sc));
                }
            }
        }
        r
    }

    /// Refill every cache with up to `objects_per_refill` fresh objects.
    pub fn refill_all_caches(&mut self, objects_per_refill: usize) -> (r: Result<()>)
        requires
            old(self).wf(),
        ensures
            final(self).wf(),
            final(self).cpus() == old(self).cpus(),
            forall|cpu: int, c: SizeClass| 0 <= cpu < old(self).cpus() ==>
                grown(old(self).cache(cpu, c), #[trigger] final(self).cache(cpu, c), objects_per_refill),
            r.is_ok() ==> forall|cpu: int, c: SizeClass| 0 <= cpu < old(self).cpus() ==>
                refilled(old(self).cache(cpu, c), #[trigger] final(self).cache(cpu, c), objects_per_refill),
            r.is_err() ==> r == Err::<(), Error>(Error::OutOfMemory),
    {
        let mut cpu: usize = 0;
        while cpu < self.num_cpus
            invariant
                self.wf(),
                old(self).wf(),
                self.num_cpus == old(self).num_cpus,
                cpu <= self.num_cpus,
                forall|c: int, k: int| 0 <= c < cpu && 0 <= k < TIER0_CLASSES ==>
                    refilled(old(self).caches@[c]@[k], #[trigger] self.caches@[c]@[k], objects_per_refill),
                forall|c: int| cpu <= c < self.num_cpus ==> #[trigger] self.caches@[c] == old(self).caches@[c],
            decreases self.num_cpus - cpu,
        {
            let mut k: usize = 0;
            while k < TIER0_CLASSES
                invariant
                    self.wf(),
                    old(self).wf(),
                    self.num_cpus == old(self).num_cpus,
                    cpu < self.num_cpus,
                    k <= TIER0_CLASSES,
                    forall|c: int, k2: int| 0 <= c < cpu && 0 <= k2 < TIER0_CLASSES ==>
                        refilled(old(self).caches@[c]@[k2], #[trigger] self.caches@[c]@[k2], objects_per_refill),
                    forall|k2: int| 0 <= k2 < k ==>
                        refilled(old(self).caches@[cpu as int]@[k2], #[trigger] self.caches@[cpu as int]@[k2], objects_per_refill),
                    forall|k2: int| k <= k2 < TIER0_CLASSES ==> #[trigger] self.caches@[cpu as int]@[k2] == old(self).caches@[cpu as int]@[k2],
                    forall|c: int| cpu < c < self.num_cpus ==> #[trigger] self.caches@[c] == old(self).caches@[c],
                decreases TIER0_CLASSES - k,
            {
                let row = &mut self.caches[cpu];
                let cache = &mut row[k];
                let r = cache.refill_cache(objects_per_refill);
                if r.is_err() {
                    proof {
                        assert forall|x: int, k2: int| 0 <= x < self.num_cpus && 0 <= k2 < TIER0_CLASSES implies
                            grown(old(self).caches@[x]@[k2], #[trigger] self.caches@[x]@[k2], objects_per_refill) by {
                            if x < cpu || (x == cpu && k2 <= k) {
                            } else {
                                lemma_grown_refl(old(self).caches@[x]@[k2], objects_per_refill);
                            }
                        }
                        assert forall|c: int, k2: int| 0 <= c < self.num_cpus && 0 <= k2 < TIER0_CLASSES implies
                            (#[trigger] self.caches@[c]@[k2]).wf()
                            && self.caches@[c]@[k2].spec_object_size() == class_size(class_at(k2)) by {
                            if c == cpu && k2 == k {
                            } else if c == cpu {
                                assert(self.caches@[c]@[k2] == old(self).caches@[c]@[k2] || k2 < k);
                            }
                        }
                        assert forall|cpu2: int, c: SizeClass| 0 <= cpu2 < old(self).cpus() implies
                            grown(old(self).cache(cpu2, c), #[trigger] self.cache(cpu2, c), objects_per_refill) by {
                            assert(class_index(c) < TIER0_CLASSES);
                        }
                    }
                    return r;
                }
                k = k + 1;
            }
            cpu = cpu + 1;
        }
        Ok(())
    }

    /// Drain every cache back to the system allocator.
    pub fn drain_all_caches(&mut self) -> (r: Result<()>)
        requires
            old(self).wf(),
        ensures
            r.is_ok(),
            final(self).wf(),
            final(self).cpus() == old(self).cpus(),
            forall|cpu: int, c: SizeClass| 0 <= cpu < old(self).cpus() ==>
                (#[trigger] final(self).cache(cpu, c)).stack().len() == 0,
    {
        let mut cpu: usize = 0;
        while cpu < self.num_cpus
            invariant
                self.wf(),
                self.num_cpus == old(self).num_cpus,
                cpu <= self.num_cpus,
                forall|c: int, k: int| 0 <= c < cpu && 0 <= k < TIER0_CLASSES ==>
                    (#[trigger] self.caches@[c]@[k]).stack().len() == 0,
            decreases self.num_cpus - cpu,
        {
            let mut k: usize = 0;
            while k < TIER0_CLASSES
                invariant
                    self.wf(),
                    self.num_cpus == old(self).num_cpus,
                    cpu < self.num_cpus,
                    k <= TIER0_CLASSES,
                    forall|c: int, k2: int| 0 <= c < cpu && 0 <= k2 < TIER0_CLASSES ==>
                        (#[trigger] self.caches@[c]@[k2]).stack().len() == 0,
                    forall|k2: int| 0 <= k2 < k ==> (#[trigger] self.caches@[cpu as int]@[k2]).stack().len() == 0,
                decreases TIER0_CLASSES - k,
            {
                let row = &mut self.caches[cpu];
                let cache = &mut row[k];
                let _ = cache.drain_cache();
                k = k + 1;
            }
            cpu = cpu + 1;
        }
        assert forall|cpu: int, c: SizeClass| 0 <= cpu < old(self).cpus() implies
            (#[trigger] final(self).cache(cpu, c)).stack().len() == 0 by {
            assert(class_index(c) < TIER0_CLASSES);
        }
        Ok(())
    }

    pub fn get_cpu_count(&self) -> (n: usize)
        ensures
            n == self.cpus(),
    {
        self.num_cpus
    }
}

} // verus!
