//! Tier 1 slab allocator: per-socket slab caches for 65 B to 64 KiB objects.
//!
//! A slab page is a zeroed buffer of one or more 4 KiB pages cut into
//! equal objects. Free objects are kept on a stack of indices; an object's
//! address is the page address plus a cache-colouring offset plus its index
//! times the object size. A socket cache keeps partially filled slabs and
//! full ones, and opens a new slab when no partial slab has room.
use vstd::prelude::*;
use crate::common::{buffer_address, owned, Error, Result};
use crate::memory::tier0_slab::ObjectPtr;

verus! {

/// Number of Tier 1 size classes.
pub const TIER1_CLASSES: usize = 13;

#[derive(Debug, Clone, Copy, PartialEq, Eq, Hash, Structural)]
pub enum SizeClass {
    Bytes80,
    Bytes128,
    Bytes192,
    Bytes256,
    Bytes384,
    Bytes512,
    Bytes1K,
    Bytes2K,
    Bytes4K,
    Bytes8K,
    Bytes16K,
    Bytes32K,
    Bytes64K,
}

/// The class serving a request of `size` bytes, if Tier 1 serves it.
pub open spec fn class_for(size: usize) -> Option<SizeClass> {
    if 1 <= size <= 80 {
        Some(SizeClass::Bytes80)
    } else if 81 <= size <= 128 {
        Some(SizeClass::Bytes128)
    } else if 129 <= size <= 192 {
        Some(SizeClass::Bytes192)
    } else if 193 <= size <= 256 {
        Some(SizeClass::Bytes256)
    } else if 257 <= size <= 384 {
        Some(SizeClass::Bytes384)
    } else if 385 <= size <= 512 {
        Some(SizeClass::Bytes512)
    } else if 513 <= size <= 1024 {
        Some(SizeClass::Bytes1K)
    } else if 1025 <= size <= 2048 {
        Some(SizeClass::Bytes2K)
    } else if 2049 <= size <= 4096 {
        Some(SizeClass::Bytes4K)
    } else if 4097 <= size <= 8192 {
        Some(SizeClass::Bytes8K)
    } else if 8193 <= size <= 16384 {
        Some(SizeClass::Bytes16K)
    } else if 16385 <= size <= 32768 {
        Some(SizeClass::Bytes32K)
    } else if 32769 <= size <= 65536 {
        Some(SizeClass::Bytes64K)
    } else {
        None
    }
}

pub open spec fn class_size(c: SizeClass) -> usize {
    match c {
        SizeClass::Bytes80 => 80,
        SizeClass::Bytes128 => 128,
        SizeClass::Bytes192 => 192,
        SizeClass::Bytes256 => 256,
        SizeClass::Bytes384 => 384,
        SizeClass::Bytes512 => 512,
        SizeClass::Bytes1K => 1024,
        SizeClass::Bytes2K => 2048,
        SizeClass::Bytes4K => 4096,
        SizeClass::Bytes8K => 8192,
        SizeClass::Bytes16K => 16384,
        SizeClass::Bytes32K => 32768,
        SizeClass::Bytes64K => 65536,
    }
}

pub open spec fn class_index(c: SizeClass) -> usize {
    match c {
        SizeClass::Bytes80 => 0,
        SizeClass::Bytes128 => 1,
        SizeClass::Bytes192 => 2,
        SizeClass::Bytes256 => 3,
        SizeClass::Bytes384 => 4,
        SizeClass::Bytes512 => 5,
        SizeClass::Bytes1K => 6,
        SizeClass::Bytes2K => 7,
        SizeClass::Bytes4K => 8,
        SizeClass::Bytes8K => 9,
        SizeClass::Bytes16K => 10,
        SizeClass::Bytes32K => 11,
        SizeClass::Bytes64K => 12,
    }
}

/// Pages a slab of class `c` spans.
pub open spec fn class_pages(c: SizeClass) -> usize {
    ((class_size(c) + 4095) / 4096) as usize
}

/// Objects a slab of class `c` holds.
pub open spec fn class_objects(c: SizeClass) -> usize {
    ((class_pages(c) * 4096) / (class_size(c) as int)) as usize
}

/// The class at table position `i`.
pub open spec fn class_at(i: int) -> SizeClass {
    if i == 0 { SizeClass::Bytes80 }
    else if i == 1 { SizeClass::Bytes128 }
    else if i == 2 { SizeClass::Bytes192 }
    else if i == 3 { SizeClass::Bytes256 }
    else if i == 4 { SizeClass::Bytes384 }
    else if i == 5 { SizeClass::Bytes512 }
    else if i == 6 { SizeClass::Bytes1K }
    else if i == 7 { SizeClass::Bytes2K }
    else if i == 8 { SizeClass::Bytes4K }
    else if i == 9 { SizeClass::Bytes8K }
    else if i == 10 { SizeClass::Bytes16K }
    else if i == 11 { SizeClass::Bytes32K }
    else { SizeClass::Bytes64K }
}

/// Tier 1 serves every request from 1 to 65536 bytes and no other, and
/// serves it from the smallest class whose objects hold the request: the
/// class's objects are at least as large as the request, and every smaller
/// class's objects are too small for it.
pub proof fn lemma_class_for_smallest_fit(size: usize)
    ensures
        class_for(size).is_some() <==> 1 <= size <= 65536,
        class_for(size).is_some() ==> size <= class_size(class_for(size).unwrap()),
        class_for(size).is_some() ==> forall|c: SizeClass|
            class_size(c) < class_size(class_for(size).unwrap()) ==> #[trigger] class_size(c) < size,
{
    if class_for(size).is_some() {
        let k = class_for(size).unwrap();
        assert forall|c: SizeClass| class_size(c) < class_size(k) implies #[trigger] class_size(c) < size by {
            match c {
                SizeClass::Bytes80 => {},
                SizeClass::Bytes128 => {},
                SizeClass::Bytes192 => {},
                SizeClass::Bytes256 => {},
                SizeClass::Bytes384 => {},
                SizeClass::Bytes512 => {},
                SizeClass::Bytes1K => {},
                SizeClass::Bytes2K => {},
                SizeClass::Bytes4K => {},
                SizeClass::Bytes8K => {},
                SizeClass::Bytes16K => {},
                SizeClass::Bytes32K => {},
                SizeClass::Bytes64K => {},
            }
        }
    }
}

impl SizeClass {
    pub fn from_size(size: usize) -> (c: Option<SizeClass>)
        ensures
            c == class_for(size),
    {
        if 1 <= size && size <= 80 {
            Some(SizeClass::Bytes80)
        } else if 81 <= size && size <= 128 {
            Some(SizeClass::Bytes128)
        } else if 129 <= size && size <= 192 {
            Some(SizeClass::Bytes192)
        } else if 193 <= size && size <= 256 {
            Some(SizeClass::Bytes256)
        } else if 257 <= size && size <= 384 {
            Some(SizeClass::Bytes384)
        } else if 385 <= size && size <= 512 {
            Some(SizeClass::Bytes512)
        } else if 513 <= size && size <= 1024 {
            Some(SizeClass::Bytes1K)
        } else if 1025 <= size && size <= 2048 {
            Some(SizeClass::Bytes2K)
        } else if 2049 <= size && size <= 4096 {
            Some(SizeClass::Bytes4K)
        } else if 4097 <= size && size <= 8192 {
            Some(SizeClass::Bytes8K)
        } else if 8193 <= size && size <= 16384 {
            Some(SizeClass::Bytes16K)
        } else if 16385 <= size && size <= 32768 {
            Some(SizeClass::Bytes32K)
        } else if 32769 <= size && size <= 65536 {
            Some(SizeClass::Bytes64K)
        } else {
            None
        }
    }

    pub fn actual_size(&self) -> (n: usize)
        ensures
            n == class_size(*self),
    {
        match self {
            SizeClass::Bytes80 => 80,
            SizeClass::Bytes128 => 128,
            SizeClass::Bytes192 => 192,
            SizeClass::Bytes256 => 256,
            SizeClass::Bytes384 => 384,
            SizeClass::Bytes512 => 512,
            SizeClass::Bytes1K => 1024,
            SizeClass::Bytes2K => 2048,
            SizeClass::Bytes4K => 4096,
            SizeClass::Bytes8K => 8192,
            SizeClass::Bytes16K => 16384,
            SizeClass::Bytes32K => 32768,
            SizeClass::Bytes64K => 65536,
        }
    }

    pub fn as_index(&self) -> (i: usize)
        ensures
            i == class_index(*self),
            i < TIER1_CLASSES,
    {
        match self {
            SizeClass::Bytes80 => 0,
            SizeClass::Bytes128 => 1,
            SizeClass::Bytes192 => 2,
            SizeClass::Bytes256 => 3,
            SizeClass::Bytes384 => 4,
            SizeClass::Bytes512 => 5,
            SizeClass::Bytes1K => 6,
            SizeClass::Bytes2K => 7,
            SizeClass::Bytes4K => 8,
            SizeClass::Bytes8K => 9,
            SizeClass::Bytes16K => 10,
            SizeClass::Bytes32K => 11,
            SizeClass::Bytes64K => 12,
        }
    }

    pub fn objects_per_page(&self) -> (n: usize)
        ensures
            n == 4096usize / class_size(*self),
    {
        4096 / self.actual_size()
    }

    pub fn pages_needed(&self) -> (n: usize)
        ensures
            n == class_pages(*self),
            1 <= n <= 16,
    {
        (self.actual_size() + 4095) / 4096
    }
}

/// Every class is between 80 bytes and 64 KiB, spans 1 to 16 pages and
/// holds at least one object. A slab spans the fewest pages that hold one
/// object, and holds as many objects as fit in those pages.
pub proof fn lemma_class_shape(c: SizeClass)
    ensures
        80 <= class_size(c) <= 65536,
        1 <= class_pages(c) <= 16,
        1 <= class_objects(c) <= 51,
        class_objects(c) * class_size(c) <= class_pages(c) * 4096,
        (class_objects(c) + 1) * class_size(c) > class_pages(c) * 4096,
        (class_pages(c) - 1) * 4096 < class_size(c) <= class_pages(c) * 4096,
        class_at(class_index(c) as int) == c,
{
    match c {
        SizeClass::Bytes80 => {
            assert(class_pages(c) == 1);
            assert(class_objects(c) == 51);
        },
        SizeClass::Bytes128 => {
            assert(class_pages(c) == 1);
            assert(class_objects(c) == 32);
        },
        SizeClass::Bytes192 => {
            assert(class_pages(c) == 1);
            assert(class_objects(c) == 21);
        },
        SizeClass::Bytes256 => {
            assert(class_pages(c) == 1);
            assert(class_objects(c) == 16);
        },
        SizeClass::Bytes384 => {
            assert(class_pages(c) == 1);
            assert(class_objects(c) == 10);
        },
        SizeClass::Bytes512 => {
            assert(class_pages(c) == 1);
            assert(class_objects(c) == 8);
        },
        SizeClass::Bytes1K => {
            assert(class_pages(c) == 1);
            assert(class_objects(c) == 4);
        },
        SizeClass::Bytes2K => {
            assert(class_pages(c) == 1);
            assert(class_objects(c) == 2);
        },
        SizeClass::Bytes4K => {
            assert(class_pages(c) == 1);
            assert(class_objects(c) == 1);
        },
        SizeClass::Bytes8K => {
            assert(class_pages(c) == 2);
            assert(class_objects(c) == 1);
        },
        SizeClass::Bytes16K => {
            assert(class_pages(c) == 4);
            assert(class_objects(c) == 1);
        },
        SizeClass::Bytes32K => {
            assert(class_pages(c) == 8);
            assert(class_objects(c) == 1);
        },
        SizeClass::Bytes64K => {
            assert(class_pages(c) == 16);
            assert(class_objects(c) == 1);
        },
    }
}

#[derive(Debug, Clone, Copy)]
pub struct CacheStats {
    pub allocations: usize,
    pub deallocations: usize,
    pub slab_creations: usize,
    pub slab_destructions: usize,
}

impl Default for CacheStats {
    fn default() -> (s: CacheStats)
        ensures
            s.allocations == 0 && s.deallocations == 0 && s.slab_creations == 0
                && s.slab_destructions == 0,
    {
        CacheStats { allocations: 0, deallocations: 0, slab_creations: 0, slab_destructions: 0 }
    }
}

/// Bytes spanned by one slab of class `c`: its whole pages.
pub open spec fn slab_bytes(c: SizeClass) -> int {
    class_pages(c) * 4096
}

/// Where object `idx` of a slab lives.
pub open spec fn object_addr(vaddr: usize, color: usize, obj: usize, idx: usize) -> usize {
    (vaddr + color + idx * obj) as usize
}

/// A slab page: one buffer cut into equal objects.
pub struct SlabPage {
    backing: Vec<u64>,
    /// First and one-past-last byte address of `backing`.
    start: usize,
    end: usize,
    vaddr: usize,
    available_count: usize,
    allocated_count: usize,
    total_objects: usize,
    free_stack: Vec<usize>,
    size_class: SizeClass,
    color_offset: usize,
}

impl SlabPage {
    pub closed spec fn wf(&self) -> bool {
        &&& self.total_objects == class_objects(self.size_class)
        &&& self.color_offset < 4096
        &&& self.vaddr % 4096 == 0
        &&& self.end == self.start + 8 * self.backing@.len()
        &&& self.start <= self.vaddr
        &&& self.vaddr + slab_bytes(self.size_class) <= self.end
        &&& self.available_count == self.free_stack@.len()
        &&& self.available_count + self.allocated_count == self.total_objects
        &&& forall|i: int| 0 <= i < self.free_stack@.len() ==> #[trigger] self.free_stack@[i] < self.total_objects
    }

    pub closed spec fn class(&self) -> SizeClass {
        self.size_class
    }

    /// First byte of the memory this slab owns.
    pub closed spec fn start(&self) -> usize {
        self.start
    }

    /// One past the last byte of the memory this slab owns.
    pub closed spec fn end(&self) -> usize {
        self.end
    }

    pub closed spec fn available(&self) -> usize {
        self.available_count
    }

    pub closed spec fn allocated(&self) -> usize {
        self.allocated_count
    }

    pub closed spec fn total(&self) -> usize {
        self.total_objects
    }

    /// Free object indices; the last one is handed out next.
    pub closed spec fn free_indices(&self) -> Seq<usize> {
        self.free_stack@
    }

    pub closed spec fn base(&self) -> usize {
        self.vaddr
    }

    pub closed spec fn color(&self) -> usize {
        self.color_offset
    }

    /// Address of object `idx` in this slab, wrapping on overflow.
    pub open spec fn addr_of(&self, idx: usize) -> usize {
        vstd::wrapping::usize_specs::wrapping_add(self.base(),
            (self.color() + idx * class_size(self.class())) as usize)
    }

    /// A fresh slab of `size_class` objects, all free, coloured by
    /// `color_offset`. The slab starts on a page boundary. The colour offset
    /// must lie within a page (caches colour by cache line modulo the page
    /// size); a larger one would place objects past the slab's pages.
    pub fn new(size_class: SizeClass, color_offset: usize) -> (r: Result<SlabPage>)
        requires
            color_offset < 4096,
        ensures
            r.is_ok(),
            r.unwrap().wf(),
            r.unwrap().class() == size_class,
            r.unwrap().color() == color_offset,
            r.unwrap().base() % 4096 == 0,
            r.unwrap().start() <= r.unwrap().base(),
            r.unwrap().base() + slab_bytes(size_class) <= r.unwrap().end(),
            r.unwrap().total() == class_objects(size_class),
            r.unwrap().available() == class_objects(size_class),
            r.unwrap().allocated() == 0,
            r.unwrap().free_indices() == Seq::new(class_objects(size_class) as nat, |i: int| i as usize),
    {
        proof {
            lemma_class_shape(size_class);
        }
        let obj_size = size_class.actual_size();
        let pages = size_class.pages_needed();
        let total_size = pages * 4096;
        // One page more than the slab spans, so that a page boundary falls
        // within the buffer early enough for the whole slab to follow it.
        let backing: Vec<u64> = vec![0u64; total_size / 8 + 512];
        let start = buffer_address(&backing);
        let rem = start % 4096;
        let pad = if rem == 0 { 0 } else { 4096 - rem };
        proof {
            vstd::arithmetic::div_mod::lemma_fundamental_div_mod(start as int, 4096);
            vstd::arithmetic::div_mod::lemma_mod_multiples_basic(start as int / 4096 + 1, 4096);
            vstd::arithmetic::div_mod::lemma_mod_multiples_basic(start as int / 4096, 4096);
            assert((start + pad) % 4096 == 0) by {
                if rem != 0 {
                    assert(start + pad == (start as int / 4096 + 1) * 4096);
                } else {
                    assert(start + pad == (start as int / 4096) * 4096);
                }
            }
        }
        let vaddr = start + pad;
        let end = start + backing.len() * 8;
        let total_objects = total_size / obj_size;
        let mut free_stack: Vec<usize> = Vec::new();
        let mut i: usize = 0;
        while i < total_objects
            invariant
                i <= total_objects,
                free_stack@ == Seq::new(i as nat, |j: int| j as usize),
            decreases total_objects - i,
        {
            free_stack.push(i);
            proof {
                assert(free_stack@ =~= Seq::new((i + 1) as nat, |j: int| j as usize));
            }
            i = i + 1;
        }
        Ok(SlabPage {
            backing,
            start,
            end,
            vaddr,
            available_count: total_objects,
            allocated_count: 0,
            total_objects,
            free_stack,
            size_class,
            color_offset,
        })
    }

    /// Hand out the object on top of the free stack; `None` when the slab is full.
    pub fn allocate(&mut self) -> (r: Option<ObjectPtr>)
        requires
            old(self).wf(),
        ensures
            final(self).wf(),
            final(self).class() == old(self).class(),
            final(self).base() == old(self).base(),
            final(self).color() == old(self).color(),
            final(self).start() == old(self).start(),
            final(self).end() == old(self).end(),
            old(self).available() == 0 ==> r.is_none() && *final(self) == *old(self),
            old(self).available() > 0 ==> r.is_some() && slab_handed_out(*old(self), *final(self), r.unwrap()),
    {
        if self.available_count == 0 {
            return None;
        }
        let idx = self.free_stack.pop().unwrap();
        proof {
            lemma_class_shape(self.size_class);
            assert(idx < self.total_objects);
            assert(idx * class_size(self.size_class) <= self.total_objects * class_size(self.size_class))
                by (nonlinear_arith)
                requires idx < self.total_objects;
        }
        let obj_size = self.size_class.actual_size();
        let offset = self.color_offset + idx * obj_size;
        let addr = self.vaddr.wrapping_add(offset);
        self.available_count = self.available_count - 1;
        self.allocated_count = self.allocated_count + 1;
        Some(ObjectPtr { addr })
    }

    /// Take back the object at `ptr`: accepted when the slab is not already
    /// all free and `ptr` lies at or after the colour offset within the
    /// first `total * object size` bytes of the page; the object's index goes
    /// back on the free stack.
    pub fn deallocate(&mut self, ptr: ObjectPtr) -> (accepted: bool)
        requires
            old(self).wf(),
        ensures
            final(self).wf(),
            final(self).class() == old(self).class(),
            final(self).base() == old(self).base(),
            final(self).color() == old(self).color(),
            final(self).start() == old(self).start(),
            final(self).end() == old(self).end(),
            accepted == {
                &&& old(self).available() < old(self).total()
                &&& old(self).base() <= ptr.addr
                &&& ptr.addr - old(self).base() < old(self).total() * class_size(old(self).class())
                &&& old(self).color() <= ptr.addr - old(self).base()
            },
            !accepted ==> *final(self) == *old(self),
            accepted ==> {
                &&& final(self).free_indices() == old(self).free_indices().push(
                    ((ptr.addr - old(self).base() - old(self).color()) / (class_size(old(self).class()) as int)) as usize)
                &&& final(self).available() == old(self).available() + 1
                &&& final(self).allocated() == old(self).allocated() - 1
            },
    {
        if self.available_count >= self.total_objects {
            return false;
        }
        let obj_size = self.size_class.actual_size();
        proof {
            lemma_class_shape(self.size_class);
        }
        if ptr.addr < self.vaddr {
            return false;
        }
        let offset = ptr.addr - self.vaddr;
        if offset >= self.total_objects * obj_size {
            return false;
        }
        if offset < self.color_offset {
            return false;
        }
        let diff = offset - self.color_offset;
        let idx = diff / obj_size;
        proof {
            let total = self.total_objects;
            assert(idx * obj_size <= diff) by (nonlinear_arith)
                requires
                    idx == diff / obj_size,
                    obj_size > 0;
            assert(idx < total) by (nonlinear_arith)
                requires
                    idx * obj_size <= diff,
                    diff <= offset,
                    offset < total * obj_size,
                    obj_size > 0;
        }
        if idx < self.total_objects {
            self.free_stack.push(idx);
            self.available_count = self.available_count + 1;
            self.allocated_count = self.allocated_count - 1;
            return true;
        }
        false
    }

    /// No object of this slab is handed out.
    pub fn is_empty(&self) -> (b: bool)
        ensures
            b == (self.allocated() == 0),
    {
        self.allocated_count == 0
    }

    /// Every object of this slab is handed out.
    pub fn is_full(&self) -> (b: bool)
        ensures
            b == (self.available() == 0),
    {
        self.available_count == 0
    }

    pub fn allocation_count(&self) -> (n: usize)
        ensures
            n == self.allocated(),
    {
        self.allocated_count
    }

    pub fn available_count(&self) -> (n: usize)
        ensures
            n == self.available(),
    {
        self.available_count
    }

    pub fn size_class(&self) -> (c: SizeClass)
        ensures
            c == self.class(),
    {
        self.size_class
    }
}

/// Returning an object to the slab it came from puts its index back: the
/// index computed from the object's address is the one it was allocated at,
/// provided the address did not wrap and the object lies within the
/// checked span.
pub proof fn lemma_slab_index_roundtrip(vaddr: usize, color: usize, obj: usize, total: usize, idx: usize)
    requires
        obj > 0,
        idx < total,
        color + idx * obj < total * obj,
        vaddr + color + idx * obj <= usize::MAX,
    ensures
        ({
            let addr = object_addr(vaddr, color, obj, idx);
            &&& vaddr <= addr
            &&& addr - vaddr < total * obj
            &&& color <= addr - vaddr
            &&& (addr - vaddr - color) / (obj as int) == idx
        }),
{
    let addr = object_addr(vaddr, color, obj, idx);
    assert(addr - vaddr - color == idx * obj);
    assert((idx * obj) / (obj as int) == idx) by (nonlinear_arith)
        requires obj > 0;
}

/// `after` is slab `before` once it handed out `ptr`: the object at the top
/// of the free stack (see `SlabPage::allocate`).
pub open spec fn slab_handed_out(before: SlabPage, after: SlabPage, ptr: ObjectPtr) -> bool {
    &&& after.wf()
    &&& after.class() == before.class()
    &&& after.base() == before.base()
    &&& after.color() == before.color()
    &&& after.start() == before.start()
    &&& after.end() == before.end()
    &&& after.total() == before.total()
    &&& ptr == ObjectPtr { addr: before.addr_of(before.free_indices().last()) }
    &&& after.free_indices() == before.free_indices().drop_last()
    &&& after.available() == before.available() - 1
    &&& after.allocated() == before.allocated() + 1
}

/// Slab `s` takes back the object at `ptr` (see `SlabPage::deallocate`).
pub open spec fn slab_accepts(s: SlabPage, ptr: ObjectPtr) -> bool {
    &&& s.available() < s.total()
    &&& s.base() <= ptr.addr
    &&& ptr.addr - s.base() < s.total() * class_size(s.class())
    &&& s.color() <= ptr.addr - s.base()
}

/// `after` is slab `before` once it took back the object at `ptr`.
pub open spec fn slab_took_back(before: SlabPage, after: SlabPage, ptr: ObjectPtr) -> bool {
    &&& after.wf()
    &&& after.class() == before.class()
    &&& after.base() == before.base()
    &&& after.color() == before.color()
    &&& after.start() == before.start()
    &&& after.end() == before.end()
    &&& after.free_indices() == before.free_indices().push(
        ((ptr.addr - before.base() - before.color()) / (class_size(before.class()) as int)) as usize)
    &&& after.available() == before.available() + 1
    &&& after.allocated() == before.allocated() - 1
}

/// Some slab of `s` takes back the object at `ptr`.
pub open spec fn some_slab_accepts(s: Seq<SlabPage>, ptr: ObjectPtr) -> bool {
    exists|i: int| 0 <= i < s.len() && slab_accepts(#[trigger] s[i], ptr)
}

/// `after` is the slab list `before` once its first slab that accepts
/// `ptr`, slab `i`, took the object back.
pub open spec fn first_slab_took_back(before: Seq<SlabPage>, after: Seq<SlabPage>, ptr: ObjectPtr, i: int) -> bool {
    &&& 0 <= i < before.len()
    &&& slab_accepts(before[i], ptr)
    &&& forall|j: int| 0 <= j < i ==> !slab_accepts(#[trigger] before[j], ptr)
    &&& after.len() == before.len()
    &&& slab_took_back(before[i], after[i], ptr)
    &&& forall|j: int| 0 <= j < before.len() && j != i ==> #[trigger] after[j] == before[j]
}

/// `after` is cache `before` once it was handed the object at `ptr`, with
/// answer `accepted`: the first slab that accepts it (partial slabs first,
/// then full ones) takes it back and the deallocation is counted; when no
/// slab accepts it nothing changes.
pub open spec fn cache_took_back(before: SocketSlabCache, after: SocketSlabCache, ptr: ObjectPtr, accepted: bool) -> bool {
    &&& after.class() == before.class()
    &&& after.color_count() == before.color_count()
    &&& accepted == (some_slab_accepts(before.partial(), ptr) || some_slab_accepts(before.full(), ptr))
    &&& !accepted ==> {
        &&& after.partial() == before.partial()
        &&& after.full() == before.full()
        &&& after.stats_of() == before.stats_of()
    }
    &&& accepted ==> after.stats_of() == (CacheStats {
        deallocations: (before.stats_of().deallocations + 1) as usize, ..before.stats_of() })
    &&& some_slab_accepts(before.partial(), ptr) ==> {
        &&& after.full() == before.full()
        &&& exists|i: int| first_slab_took_back(before.partial(), after.partial(), ptr, i)
    }
    &&& !some_slab_accepts(before.partial(), ptr) && some_slab_accepts(before.full(), ptr) ==> {
        &&& after.partial() == before.partial()
        &&& exists|i: int| first_slab_took_back(before.full(), after.full(), ptr, i)
    }
}

/// Colour offset of the slab a cache opens after it opened `n`: the
/// successive cache-line offsets within a page.
pub open spec fn color_for(n: usize) -> usize {
    ((n * 64) % 4096) as usize
}

/// Slab colours are cache-line offsets within a page, and each new slab is
/// coloured one cache line (64 bytes) further than the previous one,
/// wrapping to the start of the page after 64 slabs.
pub proof fn lemma_color_steps(n: usize)
    ensures
        color_for(n) < 4096,
        color_for(n) % 64 == 0,
        color_for(0) == 0,
        n < usize::MAX ==> color_for((n + 1) as usize) == (color_for(n) + 64) % 4096,
{
    vstd::arithmetic::div_mod::lemma_mod_bound((n * 64) as int, 4096);
    vstd::arithmetic::div_mod::lemma_fundamental_div_mod((n * 64) as int, 4096);
    assert(((n * 64) % 4096) % 64 == 0) by (nonlinear_arith)
        requires
            n * 64 == 4096 * ((n * 64) / 4096) + (n * 64) % 4096,
            0 <= (n * 64) % 4096 < 4096;
    if n < usize::MAX {
        vstd::arithmetic::div_mod::lemma_add_mod_noop((n * 64) as int, 64, 4096);
        assert((n + 1) * 64 == n * 64 + 64) by (nonlinear_arith);
    }
}

/// Some slab of `s` has a free object.
pub open spec fn has_room(s: Seq<SlabPage>) -> bool {
    exists|i: int| 0 <= i < s.len() && (#[trigger] s[i]).available() > 0
}

/// Slab `i` is the first slab of `s` with a free object.
pub open spec fn first_with_room(s: Seq<SlabPage>, i: int) -> bool {
    &&& 0 <= i < s.len()
    &&& s[i].available() > 0
    &&& forall|j: int| 0 <= j < i ==> (#[trigger] s[j]).available() == 0
}

/// Slabs `a` and `b` own memory that does not overlap.
pub open spec fn apart(a: SlabPage, b: SlabPage) -> bool {
    a.end() <= b.start() || b.end() <= a.start()
}

/// The slabs of `s` own pairwise separate memory.
pub open spec fn all_apart(s: Seq<SlabPage>) -> bool {
    forall|i: int, j: int| 0 <= i < s.len() && 0 <= j < s.len() && i != j ==> apart(#[trigger] s[i], #[trigger] s[j])
}

/// Every slab of `s` owns memory separate from every slab of `t`.
pub open spec fn apart_from(s: Seq<SlabPage>, t: Seq<SlabPage>) -> bool {
    forall|i: int, j: int| 0 <= i < s.len() && 0 <= j < t.len() ==> apart(#[trigger] s[i], #[trigger] t[j])
}

/// Slab `x` owns memory separate from every slab of `s`.
pub open spec fn apart_from_each(s: Seq<SlabPage>, x: SlabPage) -> bool {
    forall|j: int| 0 <= j < s.len() ==> apart(#[trigger] s[j], x)
}

/// Replacing a slab by one over the same memory keeps slabs apart.
proof fn lemma_apart_replace(p: Seq<SlabPage>, f: Seq<SlabPage>, i: int, x: SlabPage)
    requires
        all_apart(p),
        apart_from(p, f),
        0 <= i < p.len(),
        x.start() == p[i].start(),
        x.end() == p[i].end(),
    ensures
        all_apart(p.update(i, x)),
        apart_from(p.update(i, x), f),
{
    let q = p.update(i, x);
    assert forall|a: int, b: int| 0 <= a < q.len() && 0 <= b < q.len() && a != b implies apart(#[trigger] q[a], #[trigger] q[b]) by {
        assert(apart(p[a], p[b]));
    }
    assert forall|a: int, b: int| 0 <= a < q.len() && 0 <= b < f.len() implies apart(#[trigger] q[a], #[trigger] f[b]) by {
        assert(apart(p[a], f[b]));
    }
}

/// Replacing a slab of the second list by one over the same memory keeps
/// slabs apart.
proof fn lemma_apart_replace_second(p: Seq<SlabPage>, f: Seq<SlabPage>, i: int, x: SlabPage)
    requires
        all_apart(f),
        apart_from(p, f),
        0 <= i < f.len(),
        x.start() == f[i].start(),
        x.end() == f[i].end(),
    ensures
        all_apart(f.update(i, x)),
        apart_from(p, f.update(i, x)),
{
    let q = f.update(i, x);
    assert forall|a: int, b: int| 0 <= a < q.len() && 0 <= b < q.len() && a != b implies apart(#[trigger] q[a], #[trigger] q[b]) by {
        assert(apart(f[a], f[b]));
    }
    assert forall|a: int, b: int| 0 <= a < p.len() && 0 <= b < q.len() implies apart(#[trigger] p[a], #[trigger] q[b]) by {
        assert(apart(p[a], f[b]));
    }
}

/// Appending a slab apart from every slab keeps slabs apart.
proof fn lemma_apart_push(p: Seq<SlabPage>, f: Seq<SlabPage>, x: SlabPage)
    requires
        all_apart(p),
        apart_from(p, f),
        apart_from_each(p, x),
        apart_from_each(f, x),
    ensures
        all_apart(p.push(x)),
        apart_from(p.push(x), f),
{
    let q = p.push(x);
    assert forall|a: int, b: int| 0 <= a < q.len() && 0 <= b < q.len() && a != b implies apart(#[trigger] q[a], #[trigger] q[b]) by {
        if a == p.len() {
            assert(apart(p[b], x));
        } else if b == p.len() {
            assert(apart(p[a], x));
        } else {
            assert(apart(p[a], p[b]));
        }
    }
    assert forall|a: int, b: int| 0 <= a < q.len() && 0 <= b < f.len() implies apart(#[trigger] q[a], #[trigger] f[b]) by {
        if a == p.len() {
            assert(apart(f[b], x));
        } else {
            assert(apart(p[a], f[b]));
        }
    }
}

/// Appending a slab apart from every slab to the second list keeps slabs
/// apart.
proof fn lemma_apart_push_second(p: Seq<SlabPage>, f: Seq<SlabPage>, x: SlabPage)
    requires
        all_apart(f),
        apart_from(p, f),
        apart_from_each(p, x),
        apart_from_each(f, x),
    ensures
        all_apart(f.push(x)),
        apart_from(p, f.push(x)),
{
    let q = f.push(x);
    assert forall|a: int, b: int| 0 <= a < q.len() && 0 <= b < q.len() && a != b implies apart(#[trigger] q[a], #[trigger] q[b]) by {
        if a == f.len() {
            assert(apart(f[b], x));
        } else if b == f.len() {
            assert(apart(f[a], x));
        } else {
            assert(apart(f[a], f[b]));
        }
    }
    assert forall|a: int, b: int| 0 <= a < p.len() && 0 <= b < q.len() implies apart(#[trigger] p[a], #[trigger] q[b]) by {
        if b == f.len() {
            assert(apart(p[a], x));
        } else {
            assert(apart(p[a], f[b]));
        }
    }
}

/// A slab that takes back `ptr` owns the memory at `ptr`.
pub proof fn lemma_accepted_within(s: SlabPage, ptr: ObjectPtr)
    requires
        s.wf(),
        slab_accepts(s, ptr),
    ensures
        s.start() <= ptr.addr < s.end(),
{
    lemma_class_shape(s.class());
}

/// `after` is cache `before` once an allocation returned `r`. When a
/// partial slab has a free object, the first such slab hands out its next
/// object and nothing else changes. Otherwise the next cache-line colour is
/// taken and a new slab made; unless its memory overlaps a slab the cache
/// holds (see `open_slab`), it is appended to the partial slabs and hands
/// out its last object. A successful allocation is counted.
pub open spec fn cache_allocated(before: SocketSlabCache, after: SocketSlabCache, r: Result<ObjectPtr>) -> bool {
    &&& after.class() == before.class()
    &&& after.full() == before.full()
    &&& has_room(before.partial()) ==> {
        &&& r.is_ok()
        &&& after.color_count() == before.color_count()
        &&& after.stats_of() == (CacheStats {
            allocations: (before.stats_of().allocations + 1) as usize, ..before.stats_of() })
        &&& after.partial().len() == before.partial().len()
        &&& exists|i: int| {
            &&& #[trigger] first_with_room(before.partial(), i)
            &&& slab_handed_out(before.partial()[i], after.partial()[i], r.unwrap())
            &&& forall|j: int| 0 <= j < before.partial().len() && j != i ==>
                #[trigger] after.partial()[j] == before.partial()[j]
        }
    }
    &&& !has_room(before.partial()) ==> after.color_count() == before.color_count() + 1
    &&& !has_room(before.partial()) && r.is_err() ==> {
        &&& r == Err::<ObjectPtr, Error>(Error::OutOfMemory)
        &&& before.partial().len() + before.full().len() > 0
        &&& after.partial() == before.partial()
        &&& after.stats_of() == before.stats_of()
    }
    &&& !has_room(before.partial()) && r.is_ok() ==> {
        let n = class_objects(before.class());
        let fresh = after.partial().last();
        &&& after.stats_of() == (CacheStats {
            allocations: (before.stats_of().allocations + 1) as usize,
            slab_creations: (before.stats_of().slab_creations + 1) as usize,
            ..before.stats_of() })
        &&& after.partial().len() == before.partial().len() + 1
        &&& after.partial().drop_last() == before.partial()
        &&& fresh.class() == before.class()
        &&& fresh.color() == color_for(before.color_count())
        &&& fresh.base() % 4096 == 0
        &&& fresh.base() + slab_bytes(before.class()) <= usize::MAX
        &&& apart_from_each(before.partial(), fresh)
        &&& apart_from_each(before.full(), fresh)
        &&& fresh.total() == n
        &&& fresh.free_indices() == Seq::new((n - 1) as nat, |k: int| k as usize)
        &&& fresh.available() == n - 1
        &&& fresh.allocated() == 1
        &&& r.unwrap() == (ObjectPtr { addr: fresh.addr_of((n - 1) as usize) })
    }
}

/// The next object slab `s` hands out lies within the span that
/// `SlabPage::deallocate` checks. This fails only where the colour offset
/// pushes the object at the top free index past that span.
pub open spec fn serves_back(s: SlabPage) -> bool {
    s.color() + s.free_indices().last() * class_size(s.class()) < s.total() * class_size(s.class())
}

/// The next object cache `c` hands out lies within the checked span of
/// the slab that serves it: the first partial slab with a free object, or
/// else the new slab, whose colour offset must then be below the object
/// size.
pub open spec fn cache_serves_back(c: SocketSlabCache) -> bool {
    &&& forall|i: int| #[trigger] first_with_room(c.partial(), i) ==> serves_back(c.partial()[i])
    &&& !has_room(c.partial()) ==> color_for(c.color_count()) < class_size(c.class())
}

/// An object a slab has just handed out is taken back by that slab, and
/// taking it back leaves the slab's free objects as they were before.
pub proof fn lemma_slab_allocate_deallocate(before: SlabPage, after: SlabPage, ptr: ObjectPtr, back: SlabPage)
    requires
        before.wf(),
        before.available() > 0,
        serves_back(before),
        slab_handed_out(before, after, ptr),
    ensures
        slab_accepts(after, ptr),
        slab_took_back(after, back, ptr) ==> {
            &&& back.free_indices() == before.free_indices()
            &&& back.available() == before.available()
            &&& back.allocated() == before.allocated()
        },
{
    lemma_class_shape(before.class());
    let idx = before.free_indices().last();
    let obj = class_size(before.class());
    let total = before.total();
    assert(idx < total);
    assert(total * obj <= slab_bytes(before.class()));
    lemma_slab_index_roundtrip(before.base(), before.color(), obj, total, idx);
    assert(before.addr_of(idx) == object_addr(before.base(), before.color(), obj, idx));
    if slab_took_back(after, back, ptr) {
        assert(back.free_indices() =~= before.free_indices());
    }
}

/// A slab that has handed out only the object at its last index, with a
/// colour offset below the object size, takes that object back, at that
/// index.
proof fn lemma_fresh_slab_takes_back(fresh: SlabPage, ptr: ObjectPtr)
    requires
        fresh.base() + slab_bytes(fresh.class()) <= usize::MAX,
        fresh.total() == class_objects(fresh.class()),
        fresh.available() == fresh.total() - 1,
        fresh.color() < class_size(fresh.class()),
        ptr == (ObjectPtr { addr: fresh.addr_of((fresh.total() - 1) as usize) }),
    ensures
        slab_accepts(fresh, ptr),
        (ptr.addr - fresh.base() - fresh.color()) / (class_size(fresh.class()) as int) == fresh.total() - 1,
{
    lemma_class_shape(fresh.class());
    let obj = class_size(fresh.class());
    let total = fresh.total();
    let idx = (total - 1) as usize;
    assert(fresh.color() + idx * obj < total * obj) by (nonlinear_arith)
        requires
            fresh.color() < obj,
            idx + 1 == total;
    assert(total * obj <= slab_bytes(fresh.class()));
    lemma_slab_index_roundtrip(fresh.base(), fresh.color(), obj, total, idx);
    assert(fresh.addr_of(idx) == object_addr(fresh.base(), fresh.color(), obj, idx));
}

/// Handing back an object that a partial slab of cache `c` owns (slab
/// `i`, which takes it back) is accepted, and it is that slab that takes the
/// object back: the memory of the other slabs lies elsewhere.
pub proof fn lemma_partial_owner_takes_back(c: SocketSlabCache, back: SocketSlabCache, ptr: ObjectPtr, accepted: bool, i: int)
    requires
        c.wf(),
        0 <= i < c.partial().len(),
        slab_accepts(c.partial()[i], ptr),
        cache_took_back(c, back, ptr, accepted),
    ensures
        accepted,
        back.full() == c.full(),
        first_slab_took_back(c.partial(), back.partial(), ptr, i),
{
    assert(some_slab_accepts(c.partial(), ptr));
    let k = choose|k: int| first_slab_took_back(c.partial(), back.partial(), ptr, k);
    if k != i {
        lemma_accepted_within(c.partial()[i], ptr);
        lemma_accepted_within(c.partial()[k], ptr);
        assert(apart(c.partial()[k], c.partial()[i]));
    }
}

/// Handing back an object that a full slab of cache `c` owns (slab `i`,
/// which takes it back) is accepted, and it is that slab that takes the
/// object back.
pub proof fn lemma_full_owner_takes_back(c: SocketSlabCache, back: SocketSlabCache, ptr: ObjectPtr, accepted: bool, i: int)
    requires
        c.wf(),
        0 <= i < c.full().len(),
        slab_accepts(c.full()[i], ptr),
        cache_took_back(c, back, ptr, accepted),
    ensures
        accepted,
        back.partial() == c.partial(),
        first_slab_took_back(c.full(), back.full(), ptr, i),
{
    lemma_accepted_within(c.full()[i], ptr);
    if some_slab_accepts(c.partial(), ptr) {
        let j = choose|j: int| 0 <= j < c.partial().len() && slab_accepts(#[trigger] c.partial()[j], ptr);
        lemma_accepted_within(c.partial()[j], ptr);
        assert(apart(c.partial()[j], c.full()[i]));
    }
    assert(some_slab_accepts(c.full(), ptr));
    let k = choose|k: int| first_slab_took_back(c.full(), back.full(), ptr, k);
    if k != i {
        lemma_accepted_within(c.full()[k], ptr);
        assert(apart(c.full()[k], c.full()[i]));
    }
}

/// Handing back the object a cache has just allocated, then allocating
/// again, gives the same object once more.
pub proof fn lemma_cache_free_then_reallocate(
    before: SocketSlabCache,
    mid: SocketSlabCache,
    back: SocketSlabCache,
    again: SocketSlabCache,
    ptr: ObjectPtr,
    accepted: bool,
    r: Result<ObjectPtr>,
)
    requires
        before.wf(),
        cache_serves_back(before),
        cache_allocated(before, mid, Ok(ptr)),
        mid.wf(),
        cache_took_back(mid, back, ptr, accepted),
        cache_allocated(back, again, r),
    ensures
        r == Ok::<ObjectPtr, Error>(ptr),
{
    let n = before.partial().len();
    if has_room(before.partial()) {
        let i = choose|i: int| {
            &&& #[trigger] first_with_room(before.partial(), i)
            &&& slab_handed_out(before.partial()[i], mid.partial()[i], ptr)
            &&& forall|j: int| 0 <= j < before.partial().len() && j != i ==>
                #[trigger] mid.partial()[j] == before.partial()[j]
        };
        assert(before.partial()[i].wf());
        lemma_slab_allocate_deallocate(before.partial()[i], mid.partial()[i], ptr, back.partial()[i]);
        lemma_partial_owner_takes_back(mid, back, ptr, accepted, i);
        let s0 = before.partial()[i];
        let s2 = back.partial()[i];
        assert(s2.available() > 0);
        assert(has_room(back.partial()));
        let i2 = choose|i2: int| {
            &&& #[trigger] first_with_room(back.partial(), i2)
            &&& slab_handed_out(back.partial()[i2], again.partial()[i2], r.unwrap())
            &&& forall|j: int| 0 <= j < back.partial().len() && j != i2 ==>
                #[trigger] again.partial()[j] == back.partial()[j]
        };
        if i2 < i {
            assert(back.partial()[i2] == before.partial()[i2]);
        } else if i2 > i {
            assert(back.partial()[i].available() > 0);
        }
        assert(i2 == i);
        assert(s2.addr_of(s2.free_indices().last()) == s0.addr_of(s0.free_indices().last()));
    } else {
        let fresh = mid.partial()[n as int];
        assert(mid.partial()[n as int] == mid.partial().last());
        lemma_fresh_slab_takes_back(fresh, ptr);
        lemma_partial_owner_takes_back(mid, back, ptr, accepted, n as int);
        let s2 = back.partial()[n as int];
        let t = class_objects(before.class());
        lemma_class_shape(before.class());
        assert(s2.free_indices() =~= Seq::new(t as nat, |x: int| x as usize));
        assert(s2.available() > 0);
        assert(has_room(back.partial()));
        let i2 = choose|i2: int| {
            &&& #[trigger] first_with_room(back.partial(), i2)
            &&& slab_handed_out(back.partial()[i2], again.partial()[i2], r.unwrap())
            &&& forall|j: int| 0 <= j < back.partial().len() && j != i2 ==>
                #[trigger] again.partial()[j] == back.partial()[j]
        };
        if i2 < n {
            assert(back.partial()[i2] == mid.partial()[i2]);
            assert(mid.partial()[i2] == mid.partial().drop_last()[i2]);
            assert(before.partial()[i2].available() == 0);
        } else if i2 > n {
            assert(back.partial()[n as int].available() > 0);
        }
        assert(i2 == n);
        assert(s2.free_indices().last() == (t - 1) as usize);
    }
}

/// An object a cache has just allocated is accepted when it is handed back
/// to that cache.
pub proof fn lemma_cache_allocate_deallocate(
    before: SocketSlabCache,
    after: SocketSlabCache,
    ptr: ObjectPtr,
    back: SocketSlabCache,
    accepted: bool,
)
    requires
        before.wf(),
        cache_serves_back(before),
        cache_allocated(before, after, Ok(ptr)),
        cache_took_back(after, back, ptr, accepted),
    ensures
        accepted,
{
    if has_room(before.partial()) {
        let i = choose|i: int| {
            &&& #[trigger] first_with_room(before.partial(), i)
            &&& slab_handed_out(before.partial()[i], after.partial()[i], ptr)
            &&& forall|j: int| 0 <= j < before.partial().len() && j != i ==>
                #[trigger] after.partial()[j] == before.partial()[j]
        };
        assert(before.partial()[i].wf());
        lemma_slab_allocate_deallocate(before.partial()[i], after.partial()[i], ptr, after.partial()[i]);
        assert(slab_accepts(after.partial()[i], ptr));
    } else {
        let k = after.partial().len() - 1;
        let fresh = after.partial()[k];
        lemma_fresh_slab_takes_back(fresh, ptr);
        assert(slab_accepts(after.partial()[k], ptr));
    }
}

/// `after` is cache `before` with its partial slabs that have no free
/// object moved, in order, behind its full slabs.
pub open spec fn compacted(before: SocketSlabCache, after: SocketSlabCache) -> bool {
    &&& after.class() == before.class()
    &&& after.partial() == before.partial().filter(|s: SlabPage| s.available() != 0)
    &&& after.full() == before.full() + before.partial().filter(|s: SlabPage| s.available() == 0)
}

/// Whether slab `x` owns memory separate from every slab of `slabs`.
fn apart_from_all(slabs: &Vec<SlabPage>, x: &SlabPage) -> (b: bool)
    ensures
        b == apart_from_each(slabs@, *x),
{
    let mut j: usize = 0;
    while j < slabs.len()
        invariant
            j <= slabs@.len(),
            forall|k: int| 0 <= k < j ==> apart(#[trigger] slabs@[k], *x),
        decreases slabs@.len() - j,
    {
        if !(slabs[j].end <= x.start || x.end <= slabs[j].start) {
            assert(!apart(slabs@[j as int], *x));
            return false;
        }
        j = j + 1;
    }
    true
}

/// Per-socket cache of slabs of one class.
pub struct SocketSlabCache {
    partial_slabs: Vec<SlabPage>,
    full_slabs: Vec<SlabPage>,
    size_class: SizeClass,
    color_counter: usize,
    stats: CacheStats,
}

impl SocketSlabCache {
    pub closed spec fn wf(&self) -> bool {
        &&& self.partial_slabs@.len() + self.full_slabs@.len() <= usize::MAX
        &&& forall|i: int| 0 <= i < self.partial_slabs@.len() ==> {
            &&& (#[trigger] self.partial_slabs@[i]).wf()
            &&& self.partial_slabs@[i].class() == self.size_class
        }
        &&& forall|i: int| 0 <= i < self.full_slabs@.len() ==> {
            &&& (#[trigger] self.full_slabs@[i]).wf()
            &&& self.full_slabs@[i].class() == self.size_class
        }
        &&& all_apart(self.partial_slabs@)
        &&& all_apart(self.full_slabs@)
        &&& apart_from(self.partial_slabs@, self.full_slabs@)
    }

    pub closed spec fn class(&self) -> SizeClass {
        self.size_class
    }

    pub closed spec fn partial(&self) -> Seq<SlabPage> {
        self.partial_slabs@
    }

    pub closed spec fn full(&self) -> Seq<SlabPage> {
        self.full_slabs@
    }

    pub closed spec fn stats_of(&self) -> CacheStats {
        self.stats
    }

    /// How many slabs this cache has coloured so far.
    pub closed spec fn color_count(&self) -> usize {
        self.color_counter
    }

    /// The counters an allocation may bump still have room.
    pub open spec fn can_allocate(&self) -> bool {
        &&& self.stats_of().allocations < usize::MAX
        &&& self.stats_of().slab_creations < usize::MAX
        &&& self.color_count() <= usize::MAX / 64
        &&& self.partial().len() + self.full().len() < usize::MAX
    }

    pub fn new(size_class: SizeClass) -> (c: SocketSlabCache)
        ensures
            c.wf(),
            c.class() == size_class,
            c.partial().len() == 0,
            c.full().len() == 0,
            c.color_count() == 0,
            c.stats_of() == (CacheStats { allocations: 0, deallocations: 0, slab_creations: 0, slab_destructions: 0 }),
            c.can_allocate(),
    {
        SocketSlabCache {
            partial_slabs: Vec::new(),
            full_slabs: Vec::new(),
            size_class,
            color_counter: 0,
            stats: CacheStats::default(),
        }
    }

    pub fn size_class(&self) -> (c: SizeClass)
        ensures
            c == self.class(),
    {
        self.size_class
    }

    /// Allocate from the first partial slab with room; when none has room,
    /// make a new slab (coloured by the next cache-line offset) and open it
    /// (see `open_slab`): allocate from it and keep it as the last partial
    /// slab, or fail with `Error::OutOfMemory` should its memory overlap a
    /// slab the cache already holds.
    pub fn allocate(&mut self) -> (r: Result<ObjectPtr>)
        requires
            old(self).wf(),
            old(self).can_allocate(),
        ensures
            final(self).wf(),
            cache_allocated(*old(self), *final(self), r),
    {
        let n = self.partial_slabs.len();
        let mut i: usize = 0;
        while i < n
            invariant
                self.wf(),
                *self == *old(self),
                old(self).can_allocate(),
                n == self.partial_slabs@.len(),
                i <= n,
                forall|j: int| 0 <= j < i ==> self.partial_slabs@[j].available() == 0,
            decreases n - i,
        {
            if self.partial_slabs[i].available_count > 0 {
                let ghost p0 = self.partial_slabs@;
                let slab = &mut self.partial_slabs[i];
                let r = slab.allocate();
                self.stats.allocations = self.stats.allocations + 1;
                proof {
                    assert(self.partial_slabs@ =~= p0.update(i as int, self.partial_slabs@[i as int]));
                    lemma_apart_replace(p0, self.full_slabs@, i as int, self.partial_slabs@[i as int]);
                    assert(forall|j: int| 0 <= j < n && j != i ==> self.partial_slabs@[j] == p0[j]);
                    assert(first_with_room(p0, i as int));
                    assert(has_room(p0));
                }
                return Ok(r.unwrap());
            }
            i = i + 1;
        }
        proof {
            assert(!has_room(self.partial_slabs@));
        }
        let color_offset = (self.color_counter * 64) % 4096;
        self.color_counter = self.color_counter.wrapping_add(1);
        let new_slab = match SlabPage::new(self.size_class, color_offset) {
            Ok(s) => s,
            Err(e) => return Err(e),
        };
        let ghost mid = *self;
        let r = self.open_slab(new_slab);
        proof {
            let n = class_objects(self.size_class);
            if r.is_ok() {
                let fresh = self.partial_slabs@.last();
                assert(fresh.free_indices() =~= Seq::new((n - 1) as nat, |k: int| k as usize));
                assert(self.partial_slabs@.drop_last() =~= old(self).partial_slabs@);
                assert forall|j: int| 0 <= j < old(self).partial().len() implies apart(
                    #[trigger] old(self).partial()[j], fresh) by {
                    assert(apart(old(self).partial()[j], new_slab));
                }
                assert forall|j: int| 0 <= j < old(self).full().len() implies apart(
                    #[trigger] old(self).full()[j], fresh) by {
                    assert(apart(old(self).full()[j], new_slab));
                }
            }
        }
        r
    }

    /// Start using `slab`, a freshly made slab of this cache's class with
    /// every object free: when its memory overlaps none of the slabs the
    /// cache holds, hand out its last object, keep it as the last partial
    /// slab and count the allocation and the slab; otherwise leave the cache
    /// as it is and fail with `Error::OutOfMemory`.
    pub fn open_slab(&mut self, slab: SlabPage) -> (r: Result<ObjectPtr>)
        requires
            old(self).wf(),
            slab.wf(),
            slab.class() == old(self).class(),
            slab.available() == slab.total(),
            slab.free_indices() == Seq::new(slab.total() as nat, |k: int| k as usize),
            old(self).stats_of().allocations < usize::MAX,
            old(self).stats_of().slab_creations < usize::MAX,
            old(self).partial().len() + old(self).full().len() < usize::MAX,
        ensures
            final(self).wf(),
            !(apart_from_each(old(self).partial(), slab) && apart_from_each(old(self).full(), slab)) ==> {
                &&& r == Err::<ObjectPtr, Error>(Error::OutOfMemory)
                &&& *final(self) == *old(self)
            },
            apart_from_each(old(self).partial(), slab) && apart_from_each(old(self).full(), slab) ==> {
                &&& r.is_ok()
                &&& final(self).class() == old(self).class()
                &&& final(self).full() == old(self).full()
                &&& final(self).color_count() == old(self).color_count()
                &&& final(self).partial().len() == old(self).partial().len() + 1
                &&& final(self).partial().drop_last() == old(self).partial()
                &&& slab_handed_out(slab, final(self).partial().last(), r.unwrap())
                &&& final(self).stats_of() == (CacheStats {
                    allocations: (old(self).stats_of().allocations + 1) as usize,
                    slab_creations: (old(self).stats_of().slab_creations + 1) as usize,
                    ..old(self).stats_of() })
            },
    {
        let fits = apart_from_all(&self.partial_slabs, &slab) && apart_from_all(&self.full_slabs, &slab);
        if !fits {
            return Err(Error::OutOfMemory);
        }
        proof {
            lemma_class_shape(self.size_class);
        }
        let mut new_slab = slab;
        let ptr = match new_slab.allocate() {
            Some(p) => p,
            None => return Err(Error::OutOfMemory),
        };
        proof {
            assert forall|j: int| 0 <= j < self.partial_slabs@.len() implies apart(
                #[trigger] self.partial_slabs@[j], new_slab) by {
                assert(apart(self.partial_slabs@[j], slab));
            }
            assert forall|j: int| 0 <= j < self.full_slabs@.len() implies apart(
                #[trigger] self.full_slabs@[j], new_slab) by {
                assert(apart(self.full_slabs@[j], slab));
            }
            lemma_apart_push(self.partial_slabs@, self.full_slabs@, new_slab);
        }
        self.partial_slabs.push(new_slab);
        self.stats.slab_creations = self.stats.slab_creations + 1;
        self.stats.allocations = self.stats.allocations + 1;
        proof {
            assert(self.partial_slabs@.drop_last() =~= old(self).partial_slabs@);
        }
        Ok(ptr)
    }

    /// Return `ptr` to the first slab (partial slabs first, then full ones)
    /// that accepts it; `false` when none does.
    pub fn deallocate(&mut self, ptr: ObjectPtr) -> (accepted: bool)
        requires
            old(self).wf(),
            old(self).stats_of().deallocations < usize::MAX,
        ensures
            final(self).wf(),
            final(self).class() == old(self).class(),
            final(self).partial().len() == old(self).partial().len(),
            final(self).full().len() == old(self).full().len(),
            !accepted ==> final(self).partial() == old(self).partial() && final(self).full() == old(self).full(),
            final(self).can_allocate() == old(self).can_allocate(),
            cache_took_back(*old(self), *final(self), ptr, accepted),
    {
        let ghost p0 = self.partial_slabs@;
        let ghost f0 = self.full_slabs@;
        let n = self.partial_slabs.len();
        let mut i: usize = 0;
        while i < n
            invariant
                self.wf(),
                self.partial_slabs@ == p0,
                self.full_slabs@ == f0,
                p0 == old(self).partial_slabs@,
                f0 == old(self).full_slabs@,
                self.size_class == old(self).size_class,
                self.color_counter == old(self).color_counter,
                self.stats == old(self).stats,
                old(self).stats_of().deallocations < usize::MAX,
                n == p0.len(),
                i <= n,
                forall|j: int| 0 <= j < i ==> !slab_accepts(#[trigger] p0[j], ptr),
            decreases n - i,
        {
            let slab = &mut self.partial_slabs[i];
            if slab.deallocate(ptr) {
                self.stats.deallocations = self.stats.deallocations + 1;
                proof {
                    assert(first_slab_took_back(p0, self.partial_slabs@, ptr, i as int));
                    assert(some_slab_accepts(p0, ptr));
                    assert(self.full() == old(self).full());
                    assert(first_slab_took_back(old(self).partial(), self.partial(), ptr, i as int));
                }
                return true;
            }
            proof {
                assert(self.partial_slabs@ =~= p0);
            }
            i = i + 1;
        }
        let m = self.full_slabs.len();
        let mut k: usize = 0;
        while k < m
            invariant
                self.wf(),
                self.partial_slabs@ == p0,
                self.full_slabs@ == f0,
                p0 == old(self).partial_slabs@,
                f0 == old(self).full_slabs@,
                self.size_class == old(self).size_class,
                self.color_counter == old(self).color_counter,
                self.stats == old(self).stats,
                old(self).stats_of().deallocations < usize::MAX,
                !some_slab_accepts(p0, ptr),
                m == f0.len(),
                k <= m,
                forall|j: int| 0 <= j < k ==> !slab_accepts(#[trigger] f0[j], ptr),
            decreases m - k,
        {
            let slab = &mut self.full_slabs[k];
            if slab.deallocate(ptr) {
                self.stats.deallocations = self.stats.deallocations + 1;
                proof {
                    assert(first_slab_took_back(f0, self.full_slabs@, ptr, k as int));
                    assert(some_slab_accepts(f0, ptr));
                    assert(self.partial() == old(self).partial());
                    assert(first_slab_took_back(old(self).full(), self.full(), ptr, k as int));
                }
                return true;
            }
            proof {
                assert(self.full_slabs@ =~= f0);
            }
            k = k + 1;
        }
        false
    }

    /// Move every partial slab that has no free object to the full list,
    /// keeping the relative order of both lists.
    pub fn compact(&mut self)
        requires
            old(self).wf(),
        ensures
            final(self).wf(),
            final(self).class() == old(self).class(),
            final(self).partial() == old(self).partial().filter(|s: SlabPage| s.available() != 0),
            final(self).full() == old(self).full() + old(self).partial().filter(|s: SlabPage| s.available() == 0),
    {
        let ghost p0 = self.partial_slabs@;
        let ghost keep = |s: SlabPage| s.available() != 0;
        let ghost moved = |s: SlabPage| s.available() == 0;
        let ghost f0 = self.full_slabs@;
        let mut rest: Vec<SlabPage> = Vec::new();
        std::mem::swap(&mut rest, &mut self.partial_slabs);
        proof {
            assert forall|a: int, b: int| 0 <= a < f0.len() && 0 <= b < p0.len() implies
                apart(#[trigger] f0[a], #[trigger] p0[b]) by {
                assert(apart(p0[b], f0[a]));
            }
        }
        let mut i: usize = 0;
        while rest.len() > 0
            invariant
                all_apart(self.partial_slabs@),
                all_apart(self.full_slabs@),
                apart_from(self.partial_slabs@, self.full_slabs@),
                all_apart(rest@),
                apart_from(self.partial_slabs@, rest@),
                apart_from(self.full_slabs@, rest@),
                self.size_class == old(self).size_class,
                keep == (|s: SlabPage| s.available() != 0),
                moved == (|s: SlabPage| s.available() == 0),
                p0 == old(self).partial_slabs@,
                f0 == old(self).full_slabs@,
                old(self).wf(),
                i + rest@.len() == p0.len(),
                rest@ == p0.subrange(i as int, p0.len() as int),
                self.partial_slabs@ == p0.subrange(0, i as int).filter(keep),
                self.full_slabs@ == f0 + p0.subrange(0, i as int).filter(moved),
                forall|j: int| 0 <= j < self.partial_slabs@.len() ==> (#[trigger] self.partial_slabs@[j]).wf()
                    && self.partial_slabs@[j].class() == self.size_class,
                forall|j: int| 0 <= j < self.full_slabs@.len() ==> (#[trigger] self.full_slabs@[j]).wf()
                    && self.full_slabs@[j].class() == self.size_class,
                self.partial_slabs@.len() + self.full_slabs@.len() == f0.len() + i,
            decreases rest@.len(),
        {
            let ghost r0 = rest@;
            let s = rest.remove(0);
            proof {
                assert(rest@ =~= r0.subrange(1, r0.len() as int));
                assert(r0[0] == s);
                assert forall|j: int| 0 <= j < self.partial_slabs@.len() implies
                    apart(#[trigger] self.partial_slabs@[j], s) by {
                    assert(apart(self.partial_slabs@[j], r0[0]));
                }
                assert forall|j: int| 0 <= j < self.full_slabs@.len() implies
                    apart(#[trigger] self.full_slabs@[j], s) by {
                    assert(apart(self.full_slabs@[j], r0[0]));
                }
                assert(all_apart(rest@)) by {
                    assert forall|a: int, b: int| 0 <= a < rest@.len() && 0 <= b < rest@.len() && a != b
                        implies apart(#[trigger] rest@[a], #[trigger] rest@[b]) by {
                        assert(apart(r0[a + 1], r0[b + 1]));
                    }
                }
                assert forall|a: int, b: int| 0 <= a < self.partial_slabs@.len() && 0 <= b < rest@.len()
                    implies apart(#[trigger] self.partial_slabs@[a], #[trigger] rest@[b]) by {
                    assert(apart(self.partial_slabs@[a], r0[b + 1]));
                }
                assert forall|a: int, b: int| 0 <= a < self.full_slabs@.len() && 0 <= b < rest@.len()
                    implies apart(#[trigger] self.full_slabs@[a], #[trigger] rest@[b]) by {
                    assert(apart(self.full_slabs@[a], r0[b + 1]));
                }
                assert(p0[i as int] == s);
                assert(p0.subrange(0, i as int + 1) =~= p0.subrange(0, i as int).push(s));
                p0.subrange(0, i as int).lemma_filter_push(s, keep);
                p0.subrange(0, i as int).lemma_filter_push(s, moved);
                assert(rest@ =~= p0.subrange(i as int + 1, p0.len() as int));
                assert(s.wf() && s.class() == self.size_class);
                p0.subrange(0, i as int).lemma_filter_len(keep);
                p0.subrange(0, i as int + 1).lemma_filter_len(keep);
            }
            proof {
                assert forall|b: int| 0 <= b < rest@.len() implies apart(s, #[trigger] rest@[b]) by {
                    assert(apart(r0[0], r0[b + 1]));
                }
            }
            if s.available_count != 0 {
                proof {
                    lemma_apart_push(self.partial_slabs@, self.full_slabs@, s);
                }
                self.partial_slabs.push(s);
                proof {
                    assert forall|a: int, b: int| 0 <= a < self.partial_slabs@.len() && 0 <= b < rest@.len()
                        implies apart(#[trigger] self.partial_slabs@[a], #[trigger] rest@[b]) by {
                        if a == self.partial_slabs@.len() - 1 {
                            assert(apart(s, rest@[b]));
                        }
                    }
                }
            } else {
                proof {
                    lemma_apart_push_second(self.partial_slabs@, self.full_slabs@, s);
                }
                self.full_slabs.push(s);
                proof {
                    assert forall|a: int, b: int| 0 <= a < self.full_slabs@.len() && 0 <= b < rest@.len()
                        implies apart(#[trigger] self.full_slabs@[a], #[trigger] rest@[b]) by {
                        if a == self.full_slabs@.len() - 1 {
                            assert(apart(s, rest@[b]));
                        }
                    }
                }
                proof {
                    assert((f0 + p0.subrange(0, i as int).filter(moved)).push(s)
                        =~= f0 + p0.subrange(0, i as int).filter(moved).push(s));
                }
            }
            proof {
                filter_split_len(p0.subrange(0, i as int + 1), keep, moved);
            }
            i = i + 1;
        }
        assert(p0.subrange(0, i as int) =~= p0);
    }

    /// Drop every slab with no object handed out (from both lists). The
    /// destruction counter then grows by the number of slabs that remain.
    pub fn shrink(&mut self)
        requires
            old(self).wf(),
            old(self).stats_of().slab_destructions + old(self).partial().len() + old(self).full().len()
                <= usize::MAX,
        ensures
            final(self).wf(),
            final(self).class() == old(self).class(),
            final(self).partial() == old(self).partial().filter(|s: SlabPage| s.allocated() != 0),
            final(self).full() == old(self).full().filter(|s: SlabPage| s.allocated() != 0),
            final(self).stats_of().slab_destructions == old(self).stats_of().slab_destructions
                + final(self).partial().len() + final(self).full().len(),
    {
        let ghost pred = |s: SlabPage| s.allocated() != 0;
        let ghost p0 = self.partial_slabs@;
        let ghost f0 = self.full_slabs@;
        let mut src: Vec<SlabPage> = Vec::new();
        std::mem::swap(&mut src, &mut self.partial_slabs);
        let kept_partial = Self::retain_in_use(src, Ghost(self.size_class), Ghost(f0));
        proof {
            assert forall|a: int, b: int| 0 <= a < f0.len() && 0 <= b < kept_partial@.len() implies
                apart(#[trigger] f0[a], #[trigger] kept_partial@[b]) by {
                assert(apart(kept_partial@[b], f0[a]));
            }
        }
        let mut src2: Vec<SlabPage> = Vec::new();
        std::mem::swap(&mut src2, &mut self.full_slabs);
        let kept_full = Self::retain_in_use(src2, Ghost(self.size_class), Ghost(kept_partial@));
        proof {
            assert forall|a: int, b: int| 0 <= a < kept_partial@.len() && 0 <= b < kept_full@.len() implies
                apart(#[trigger] kept_partial@[a], #[trigger] kept_full@[b]) by {
                assert(apart(kept_full@[b], kept_partial@[a]));
            }
        }
        proof {
            p0.lemma_filter_len(pred);
            f0.lemma_filter_len(pred);
        }
        self.partial_slabs = kept_partial;
        self.full_slabs = kept_full;
        self.stats.slab_destructions = self.stats.slab_destructions + self.partial_slabs.len()
            + self.full_slabs.len();
    }

    /// The slabs of `src` that still have objects handed out, in order.
    fn retain_in_use(src: Vec<SlabPage>, Ghost(class): Ghost<SizeClass>, Ghost(other): Ghost<Seq<SlabPage>>) -> (r: Vec<SlabPage>)
        requires
            forall|j: int| 0 <= j < src@.len() ==> (#[trigger] src@[j]).wf() && src@[j].class() == class,
            all_apart(src@),
            apart_from(src@, other),
        ensures
            r@ == src@.filter(|s: SlabPage| s.allocated() != 0),
            forall|j: int| 0 <= j < r@.len() ==> (#[trigger] r@[j]).wf() && r@[j].class() == class,
            all_apart(r@),
            apart_from(r@, other),
    {
        let ghost pred = |s: SlabPage| s.allocated() != 0;
        let ghost s0 = src@;
        let src_len = src.len();
        let mut rest = src;
        let mut out: Vec<SlabPage> = Vec::new();
        let mut i: usize = 0;
        while rest.len() > 0
            invariant
                pred == (|s: SlabPage| s.allocated() != 0),
                forall|j: int| 0 <= j < s0.len() ==> (#[trigger] s0[j]).wf() && s0[j].class() == class,
                i + rest@.len() == s0.len(),
                s0.len() == src_len,
                rest@ == s0.subrange(i as int, s0.len() as int),
                out@ == s0.subrange(0, i as int).filter(pred),
                forall|j: int| 0 <= j < out@.len() ==> (#[trigger] out@[j]).wf() && out@[j].class() == class,
                all_apart(s0),
                apart_from(s0, other),
                all_apart(out@),
                apart_from(out@, other),
                apart_from(out@, rest@),
            decreases rest@.len(),
        {
            let ghost r0 = rest@;
            let s = rest.remove(0);
            proof {
                assert(r0[0] == s0[i as int]);
                assert forall|j: int| 0 <= j < out@.len() implies apart(#[trigger] out@[j], s) by {
                    assert(apart(out@[j], r0[0]));
                }
                assert forall|j: int| 0 <= j < other.len() implies apart(#[trigger] other[j], s) by {
                    assert(apart(s0[i as int], other[j]));
                }
                assert forall|b: int| 0 <= b < r0.len() - 1 implies apart(s, #[trigger] r0[b + 1]) by {
                    assert(apart(s0[i as int], s0[i + b + 1]));
                }
                assert(s0[i as int] == s);
                assert(s0.subrange(0, i as int + 1) =~= s0.subrange(0, i as int).push(s));
                s0.subrange(0, i as int).lemma_filter_push(s, pred);
                assert(rest@ =~= s0.subrange(i as int + 1, s0.len() as int));
            }
            if s.allocated_count != 0 {
                proof {
                    lemma_apart_push(out@, other, s);
                }
                out.push(s);
            }
            proof {
                assert forall|a: int, b: int| 0 <= a < out@.len() && 0 <= b < rest@.len()
                    implies apart(#[trigger] out@[a], #[trigger] rest@[b]) by {
                    assert(rest@[b] == r0[b + 1]);
                    if a < r0.len() && out@[a] != s {
                        assert(apart(out@[a], r0[b + 1]));
                    } else {
                        assert(apart(s, r0[b + 1]));
                    }
                }
            }
            i = i + 1;
        }
        assert(s0.subrange(0, i as int) =~= s0);
        out
    }

    pub fn slab_count(&self) -> (n: usize)
        requires
            self.wf(),
        ensures
            n == self.partial().len() + self.full().len(),
    {
        self.partial_slabs.len() + self.full_slabs.len()
    }

    pub fn partial_slab_count(&self) -> (n: usize)
        ensures
            n == self.partial().len(),
    {
        self.partial_slabs.len()
    }
}

/// Splitting a sequence by a predicate and its negation keeps every element once.
proof fn filter_split_len(s: Seq<SlabPage>, p: spec_fn(SlabPage) -> bool, q: spec_fn(SlabPage) -> bool)
    requires
        forall|x: SlabPage| #[trigger] p(x) == !q(x),
    ensures
        s.filter(p).len() + s.filter(q).len() == s.len(),
    decreases s.len(),
{
    if s.len() > 0 {
        let t = s.drop_last();
        assert(s =~= t.push(s.last()));
        t.lemma_filter_push(s.last(), p);
        t.lemma_filter_push(s.last(), q);
        filter_split_len(t, p, q);
    }
}

/// Per-socket Tier 1 caches, one per size class on each socket.
/// `after` is `before` with its empty slabs dropped and its destruction
/// count raised by the number of slabs it keeps (as a shrink counts them).
pub open spec fn shrunk(before: SocketSlabCache, after: SocketSlabCache) -> bool {
    &&& after.class() == before.class()
    &&& after.partial() == before.partial().filter(|s: SlabPage| s.allocated() != 0)
    &&& after.full() == before.full().filter(|s: SlabPage| s.allocated() != 0)
    &&& after.stats_of().slab_destructions == before.stats_of().slab_destructions
        + after.partial().len() + after.full().len()
}

pub struct Tier1Allocator {
    caches: Vec<Vec<SocketSlabCache>>,
    num_sockets: usize,
}

impl Tier1Allocator {
    pub closed spec fn wf(&self) -> bool {
        &&& self.caches@.len() == self.num_sockets
        &&& forall|s: int| 0 <= s < self.num_sockets ==> {
            &&& (#[trigger] self.caches@[s])@.len() == TIER1_CLASSES
            &&& forall|k: int| 0 <= k < TIER1_CLASSES ==> {
                &&& (#[trigger] self.caches@[s]@[k]).wf()
                &&& self.caches@[s]@[k].class() == class_at(k)
            }
        }
    }

    pub closed spec fn sockets(&self) -> usize {
        self.num_sockets
    }

    /// The cache of socket `socket` for class `c`.
    pub closed spec fn cache(&self, socket: int, c: SizeClass) -> SocketSlabCache {
        self.caches@[socket]@[class_index(c) as int]
    }

    /// One empty cache per size class on each of `num_sockets` sockets.
    pub fn new(num_sockets: usize) -> (r: Result<Tier1Allocator>)
        ensures
            r.is_ok(),
            r.unwrap().wf(),
            r.unwrap().sockets() == num_sockets,
            forall|s: int, c: SizeClass| 0 <= s < num_sockets ==> {
                &&& (#[trigger] r.unwrap().cache(s, c)).partial().len() == 0
                &&& r.unwrap().cache(s, c).full().len() == 0
                &&& r.unwrap().cache(s, c).color_count() == 0
                &&& r.unwrap().cache(s, c).stats_of() == (CacheStats { allocations: 0, deallocations: 0, slab_creations: 0, slab_destructions: 0 })
                &&& r.unwrap().cache(s, c).can_allocate()
            },
    {
        let mut caches: Vec<Vec<SocketSlabCache>> = Vec::new();
        let mut s: usize = 0;
        while s < num_sockets
            invariant
                s <= num_sockets,
                caches@.len() == s,
                forall|x: int| 0 <= x < s ==> {
                    &&& (#[trigger] caches@[x])@.len() == TIER1_CLASSES
                    &&& forall|k: int| 0 <= k < TIER1_CLASSES ==> {
                        &&& (#[trigger] caches@[x]@[k]).wf()
                        &&& caches@[x]@[k].class() == class_at(k)
                        &&& caches@[x]@[k].partial().len() == 0
                        &&& caches@[x]@[k].full().len() == 0
                        &&& caches@[x]@[k].color_count() == 0
                        &&& caches@[x]@[k].stats_of() == (CacheStats { allocations: 0, deallocations: 0, slab_creations: 0, slab_destructions: 0 })
                        &&& caches@[x]@[k].can_allocate()
                    }
                },
            decreases num_sockets - s,
        {
            let mut row: Vec<SocketSlabCache> = Vec::new();
            row.push(SocketSlabCache::new(SizeClass::Bytes80));
            row.push(SocketSlabCache::new(SizeClass::Bytes128));
            row.push(SocketSlabCache::new(SizeClass::Bytes192));
            row.push(SocketSlabCache::new(SizeClass::Bytes256));
            row.push(SocketSlabCache::new(SizeClass::Bytes384));
            row.push(SocketSlabCache::new(SizeClass::Bytes512));
            row.push(SocketSlabCache::new(SizeClass::Bytes1K));
            row.push(SocketSlabCache::new(SizeClass::Bytes2K));
            row.push(SocketSlabCache::new(SizeClass::Bytes4K));
            row.push(SocketSlabCache::new(SizeClass::Bytes8K));
            row.push(SocketSlabCache::new(SizeClass::Bytes16K));
            row.push(SocketSlabCache::new(SizeClass::Bytes32K));
            row.push(SocketSlabCache::new(SizeClass::Bytes64K));
            caches.push(row);
            s = s + 1;
        }
        let a = Tier1Allocator { caches, num_sockets };
        assert forall|s: int, c: SizeClass| 0 <= s < num_sockets implies {
            &&& (#[trigger] a.cache(s, c)).partial().len() == 0
            &&& a.cache(s, c).full().len() == 0
            &&& a.cache(s, c).color_count() == 0
            &&& a.cache(s, c).stats_of() == (CacheStats { allocations: 0, deallocations: 0, slab_creations: 0, slab_destructions: 0 })
            &&& a.cache(s, c).can_allocate()
        } by {
            assert(class_index(c) < TIER1_CLASSES);
        }
        Ok(a)
    }

    /// Allocate `size` bytes on socket `socket_id % sockets` (see
    /// `SocketSlabCache::allocate`). Fails with `Error::AllocationFailed`,
    /// changing nothing, when `size` is outside Tier 1 (0 or more than
    /// 64 KiB).
    pub fn allocate(&mut self, size: usize, socket_id: usize) -> (r: Result<ObjectPtr>)
        requires
            old(self).wf(),
            old(self).sockets() > 0,
            class_for(size).is_some() ==> old(self).cache(
                (socket_id % old(self).sockets()) as int, class_for(size).unwrap()).can_allocate(),
        ensures
            final(self).wf(),
            final(self).sockets() == old(self).sockets(),
            class_for(size).is_none() ==> *final(self) == *old(self)
                && r matches Err(Error::AllocationFailed(_)),
            class_for(size).is_some() ==> {
                let sock = (socket_id % old(self).sockets()) as int;
                let c = class_for(size).unwrap();
                &&& cache_allocated(old(self).cache(sock, c), final(self).cache(sock, c), r)
                &&& forall|s: int, c2: SizeClass| 0 <= s < old(self).sockets() && (s != sock || c2 != c)
                    ==> #[trigger] final(self).cache(s, c2) == old(self).cache(s, c2)
            },
    {
        let sc = match SizeClass::from_size(size) {
            Some(sc) => sc,
            None => return Err(Error::AllocationFailed(owned("Size out of Tier 1 range"))),
        };
        let socket = socket_id % self.num_sockets;
        let k = sc.as_index();
        proof {
            lemma_class_shape(sc);
        }
        let row = &mut self.caches[socket];
        let cache = &mut row[k];
        let r = cache.allocate();
        proof {
            assert forall|s: int, c: SizeClass| 0 <= s < old(self).sockets()
                && (s != socket || c != sc) implies #[trigger] final(self).cache(s, c) == old(self).cache(s, c) by {
                if s == socket {
                    assert(class_index(c) != class_index(sc));
                }
            }
        }
        r
    }

    /// Return `ptr` to the cache for `size` on socket `socket_id % sockets`.
    /// `false` when `size` is outside Tier 1 or no slab there accepts it.
    pub fn deallocate(&mut self, ptr: ObjectPtr, size: usize, socket_id: usize) -> (accepted: bool)
        requires
            old(self).wf(),
            old(self).sockets() > 0,
            class_for(size).is_some() ==> old(self).cache(
                (socket_id % old(self).sockets()) as int, class_for(size).unwrap()).stats_of().deallocations
                < usize::MAX,
        ensures
            final(self).wf(),
            final(self).sockets() == old(self).sockets(),
            class_for(size).is_none() ==> !accepted && *final(self) == *old(self),
            class_for(size).is_some() ==> {
                let sock = (socket_id % old(self).sockets()) as int;
                let c = class_for(size).unwrap();
                &&& cache_took_back(old(self).cache(sock, c), final(self).cache(sock, c), ptr, accepted)
                &&& forall|s: int, c2: SizeClass| 0 <= s < old(self).sockets() && (s != sock || c2 != c)
                    ==> #[trigger] final(self).cache(s, c2) == old(self).cache(s, c2)
            },
    {
        let sc = match SizeClass::from_size(size) {
            Some(sc) => sc,
            None => return false,
        };
        let socket = socket_id % self.num_sockets;
        let k = sc.as_index();
        proof {
            lemma_class_shape(sc);
        }
        let row = &mut self.caches[socket];
        let cache = &mut row[k];
        let accepted = cache.deallocate(ptr);
        proof {
            assert forall|s: int, c: SizeClass| 0 <= s < old(self).sockets()
                && (s != socket || c != sc) implies #[trigger] final(self).cache(s, c) == old(self).cache(s, c) by {
                if s == socket {
                    assert(class_index(c) != class_index(sc));
                }
            }
        }
        accepted
    }

    /// Compact every cache (see `SocketSlabCache::compact`).
    pub fn compact_all(&mut self) -> (r: Result<()>)
        requires
            old(self).wf(),
        ensures
            r.is_ok(),
            final(self).wf(),
            final(self).sockets() == old(self).sockets(),
            forall|s: int, c: SizeClass| 0 <= s < old(self).sockets() ==>
                compacted(old(self).cache(s, c), #[trigger] final(self).cache(s, c)),
    {
        let mut s: usize = 0;
        while s < self.num_sockets
            invariant
                self.wf(),
                s <= self.num_sockets,
                self.num_sockets == old(self).num_sockets,
                forall|x: int, k: int| s <= x < self.num_sockets && 0 <= k < TIER1_CLASSES ==>
                    #[trigger] self.caches@[x]@[k] == old(self).caches@[x]@[k],
                forall|x: int, k: int| 0 <= x < s && 0 <= k < TIER1_CLASSES ==>
                    compacted(old(self).caches@[x]@[k], #[trigger] self.caches@[x]@[k]),
            decreases self.num_sockets - s,
        {
            let mut k: usize = 0;
            while k < TIER1_CLASSES
                invariant
                    self.wf(),
                    s < self.num_sockets,
                    k <= TIER1_CLASSES,
                    self.num_sockets == old(self).num_sockets,
                    forall|x: int, k2: int| s < x < self.num_sockets && 0 <= k2 < TIER1_CLASSES ==>
                        #[trigger] self.caches@[x]@[k2] == old(self).caches@[x]@[k2],
                    forall|k2: int| k <= k2 < TIER1_CLASSES ==>
                        #[trigger] self.caches@[s as int]@[k2] == old(self).caches@[s as int]@[k2],
                    forall|x: int, k2: int| 0 <= x < s && 0 <= k2 < TIER1_CLASSES ==>
                        compacted(old(self).caches@[x]@[k2], #[trigger] self.caches@[x]@[k2]),
                    forall|k2: int| 0 <= k2 < k ==>
                        compacted(old(self).caches@[s as int]@[k2], #[trigger] self.caches@[s as int]@[k2]),
                decreases TIER1_CLASSES - k,
            {
                let row = &mut self.caches[s];
                let cache = &mut row[k];
                cache.compact();
                k = k + 1;
            }
            s = s + 1;
        }
        Ok(())
    }

    /// Shrink every cache (see `SocketSlabCache::shrink`).
    pub fn shrink_all(&mut self) -> (r: Result<()>)
        requires
            old(self).wf(),
            forall|s: int, c: SizeClass| 0 <= s < old(self).sockets() ==> {
                let x = #[trigger] old(self).cache(s, c);
                x.stats_of().slab_destructions + x.partial().len() + x.full().len() <= usize::MAX
            },
        ensures
            r.is_ok(),
            final(self).wf(),
            final(self).sockets() == old(self).sockets(),
            forall|s: int, c: SizeClass| 0 <= s < old(self).sockets() ==>
                shrunk(old(self).cache(s, c), #[trigger] final(self).cache(s, c)),
    {
        let mut s: usize = 0;
        while s < self.num_sockets
            invariant
                self.wf(),
                s <= self.num_sockets,
                self.num_sockets == old(self).num_sockets,
                forall|x: int, k: int| s <= x < self.num_sockets && 0 <= k < TIER1_CLASSES ==>
                    #[trigger] self.caches@[x]@[k] == old(self).caches@[x]@[k],
                forall|x: int, k: int| 0 <= x < s && 0 <= k < TIER1_CLASSES ==>
                    shrunk(old(self).caches@[x]@[k], #[trigger] self.caches@[x]@[k]),
                forall|x: int, c: SizeClass| 0 <= x < old(self).sockets() ==> {
                    let y = #[trigger] old(self).cache(x, c);
                    y.stats_of().slab_destructions + y.partial().len() + y.full().len() <= usize::MAX
                },
            decreases self.num_sockets - s,
        {
            let mut k: usize = 0;
            while k < TIER1_CLASSES
                invariant
                    self.wf(),
                    s < self.num_sockets,
                    k <= TIER1_CLASSES,
                    self.num_sockets == old(self).num_sockets,
                    forall|x: int, k2: int| s < x < self.num_sockets && 0 <= k2 < TIER1_CLASSES ==>
                        #[trigger] self.caches@[x]@[k2] == old(self).caches@[x]@[k2],
                    forall|k2: int| k <= k2 < TIER1_CLASSES ==>
                        #[trigger] self.caches@[s as int]@[k2] == old(self).caches@[s as int]@[k2],
                    forall|x: int, k2: int| 0 <= x < s && 0 <= k2 < TIER1_CLASSES ==>
                        shrunk(old(self).caches@[x]@[k2], #[trigger] self.caches@[x]@[k2]),
                    forall|k2: int| 0 <= k2 < k ==>
                        shrunk(old(self).caches@[s as int]@[k2], #[trigger] self.caches@[s as int]@[k2]),
                    forall|x: int, c: SizeClass| 0 <= x < old(self).sockets() ==> {
                        let y = #[trigger] old(self).cache(x, c);
                        y.stats_of().slab_destructions + y.partial().len() + y.full().len() <= usize::MAX
                    },
                decreases TIER1_CLASSES - k,
            {
                proof {
                    let c = class_at(k as int);
                    assert(class_index(c) == k);
                    assert(old(self).cache(s as int, c) == self.caches@[s as int]@[k as int]);
                }
                let row = &mut self.caches[s];
                let cache = &mut row[k];
                cache.shrink();
                k = k + 1;
            }
            s = s + 1;
        }
        Ok(())
    }

    pub fn get_socket_count(&self) -> (n: usize)
        ensures
            n == self.sockets(),
    {
        self.num_sockets
    }
}

/// An object `Tier1Allocator::allocate` has just returned for `size` on
/// socket `socket_id` is accepted when it is handed back to
/// `Tier1Allocator::deallocate` with the same size and socket.
pub proof fn lemma_tier1_allocate_deallocate(
    a0: Tier1Allocator,
    a1: Tier1Allocator,
    a2: Tier1Allocator,
    size: usize,
    socket_id: usize,
    ptr: ObjectPtr,
    accepted: bool,
)
    requires
        a0.wf(),
        a0.sockets() > 0,
        class_for(size).is_some(),
        cache_serves_back(a0.cache((socket_id % a0.sockets()) as int, class_for(size).unwrap())),
        cache_allocated(
            a0.cache((socket_id % a0.sockets()) as int, class_for(size).unwrap()),
            a1.cache((socket_id % a0.sockets()) as int, class_for(size).unwrap()),
            Ok(ptr),
        ),
        a1.sockets() == a0.sockets(),
        cache_took_back(
            a1.cache((socket_id % a1.sockets()) as int, class_for(size).unwrap()),
            a2.cache((socket_id % a1.sockets()) as int, class_for(size).unwrap()),
            ptr,
            accepted,
        ),
    ensures
        accepted,
{
    let sock = (socket_id % a0.sockets()) as int;
    let c = class_for(size).unwrap();
    assert(0 <= sock < a0.sockets());
    assert(class_index(c) < TIER1_CLASSES);
    assert(a0.cache(sock, c).wf());
    lemma_cache_allocate_deallocate(a0.cache(sock, c), a1.cache(sock, c), ptr, a2.cache(sock, c), accepted);
}

/// Handing the object `Tier1Allocator::allocate` has just returned for
/// `size` on socket `socket_id` back to `Tier1Allocator::deallocate`, then
/// allocating the same size on the same socket again, gives the same object
/// once more.
pub proof fn lemma_tier1_free_then_reallocate(
    a0: Tier1Allocator,
    a1: Tier1Allocator,
    a2: Tier1Allocator,
    a3: Tier1Allocator,
    size: usize,
    socket_id: usize,
    ptr: ObjectPtr,
    accepted: bool,
    r: Result<ObjectPtr>,
)
    requires
        a0.wf(),
        a0.sockets() > 0,
        a1.sockets() == a0.sockets(),
        a2.sockets() == a0.sockets(),
        class_for(size).is_some(),
        cache_serves_back(a0.cache((socket_id % a0.sockets()) as int, class_for(size).unwrap())),
        cache_allocated(
            a0.cache((socket_id % a0.sockets()) as int, class_for(size).unwrap()),
            a1.cache((socket_id % a0.sockets()) as int, class_for(size).unwrap()),
            Ok(ptr),
        ),
        a1.wf(),
        cache_took_back(
            a1.cache((socket_id % a0.sockets()) as int, class_for(size).unwrap()),
            a2.cache((socket_id % a0.sockets()) as int, class_for(size).unwrap()),
            ptr,
            accepted,
        ),
        cache_allocated(
            a2.cache((socket_id % a0.sockets()) as int, class_for(size).unwrap()),
            a3.cache((socket_id % a0.sockets()) as int, class_for(size).unwrap()),
            r,
        ),
    ensures
        r == Ok::<ObjectPtr, Error>(ptr),
{
    let sock = (socket_id % a0.sockets()) as int;
    let c = class_for(size).unwrap();
    assert(0 <= sock < a0.sockets());
    assert(class_index(c) < TIER1_CLASSES);
    assert(a0.cache(sock, c).wf());
    assert(a1.cache(sock, c).wf());
    lemma_cache_free_then_reallocate(
        a0.cache(sock, c), a1.cache(sock, c), a2.cache(sock, c), a3.cache(sock, c), ptr, accepted, r);
}

} // verus!
