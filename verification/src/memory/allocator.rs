//! A byte-budget allocator: tracks how much of a fixed amount of memory is
//! handed out and how much is free.
use vstd::prelude::*;
use crate::common::{owned, Error, Result};

verus! {

#[derive(Debug, Clone)]
pub struct MemoryAllocator {
    pub total_memory: u64,
    pub allocated: u64,
    pub free: u64,
}

/// The allocator after a successful allocation of `size` bytes.
pub open spec fn after_allocate(a: MemoryAllocator, size: u64) -> MemoryAllocator {
    MemoryAllocator {
        allocated: (a.allocated + size) as u64,
        free: (a.free - size) as u64,
        ..a
    }
}

/// The allocator after returning `size` bytes: the allocated count goes
/// down without passing zero, the free count goes up by `size`.
pub open spec fn after_deallocate(a: MemoryAllocator, size: u64) -> MemoryAllocator {
    MemoryAllocator {
        allocated: if a.allocated >= size { (a.allocated - size) as u64 } else { 0 },
        free: (a.free + size) as u64,
        ..a
    }
}

impl MemoryAllocator {
    pub fn new(total_memory: u64) -> (a: MemoryAllocator)
        ensures
            a.total_memory == total_memory,
            a.allocated == 0,
            a.free == total_memory,
    {
        MemoryAllocator { total_memory, allocated: 0, free: total_memory }
    }

    /// Take `size` bytes from the free pool. Returns the offset at which the
    /// allocation starts (the allocated count before the call); fails with
    /// `Error::Memory`, changing nothing, when fewer than `size` bytes are free.
    pub fn allocate(&mut self, size: u64) -> (r: Result<u64>)
        requires
            size <= old(self).free ==> old(self).allocated + size <= u64::MAX,
        ensures
            size > old(self).free ==> r.is_err() && *final(self) == *old(self)
                && r matches Err(Error::Memory(_)),
            size <= old(self).free ==> r == Ok::<u64, Error>(old(self).allocated)
                && *final(self) == after_allocate(*old(self), size),
    {
        if size > self.free {
            let msg = owned("Insufficient memory: requested ")
                .concat(size.to_string().as_str())
                .concat(", available ")
                .concat(self.free.to_string().as_str());
            return Err(Error::Memory(msg));
        }
        self.allocated = self.allocated + size;
        self.free = self.free - size;
        Ok(self.allocated - size)
    }

    /// Return `size` bytes to the free pool. The allocated count saturates
    /// at zero rather than underflowing. Always succeeds.
    pub fn deallocate(&mut self, size: u64) -> (r: Result<()>)
        requires
            old(self).free + size <= u64::MAX,
        ensures
            r.is_ok(),
            *final(self) == after_deallocate(*old(self), size),
    {
        self.allocated = self.allocated.saturating_sub(size);
        self.free = self.free + size;
        Ok(())
    }
}

/// Returning what was just taken restores the allocator.
pub proof fn lemma_allocate_then_deallocate_restores(a: MemoryAllocator, size: u64)
    requires
        size <= a.free,
        a.allocated + size <= u64::MAX,
    ensures
        after_deallocate(after_allocate(a, size), size) == a,
{
}

/// A successful allocation keeps the sum of allocated and free bytes.
pub proof fn lemma_allocate_preserves_sum(a: MemoryAllocator, size: u64)
    requires
        size <= a.free,
        a.allocated + size <= u64::MAX,
    ensures
        after_allocate(a, size).allocated + after_allocate(a, size).free == a.allocated + a.free,
{
}

} // verus!
