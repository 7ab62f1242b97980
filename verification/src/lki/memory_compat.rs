//! The `kmalloc` / `kfree` compatibility entry points: call counting and
//! the address each allocation is reported at.
use vstd::prelude::*;
use crate::common::Result;

verus! {

#[derive(Debug, Clone, Copy)]
pub struct LinuxMemoryApi {
    pub kmalloc_count: u32,
    pub kfree_count: u32,
}

impl Default for LinuxMemoryApi {
    fn default() -> (a: LinuxMemoryApi)
        ensures
            a.kmalloc_count == 0 && a.kfree_count == 0,
    {
        LinuxMemoryApi { kmalloc_count: 0, kfree_count: 0 }
    }
}

impl LinuxMemoryApi {
    /// Count the call; the `n`-th allocation of `size` bytes is reported at
    /// `0x1000 * n + size`.
    pub fn kmalloc(&mut self, size: u64) -> (r: Result<u64>)
        requires
            old(self).kmalloc_count < u32::MAX,
            0x1000 * (old(self).kmalloc_count + 1) + size <= u64::MAX,
        ensures
            final(self).kmalloc_count == old(self).kmalloc_count + 1,
            final(self).kfree_count == old(self).kfree_count,
            r == Ok::<u64, crate::common::Error>((0x1000 * final(self).kmalloc_count + size) as u64),
    {
        self.kmalloc_count = self.kmalloc_count + 1;
        Ok(0x1000 * self.kmalloc_count as u64 + size)
    }

    /// Count the call.
    pub fn kfree(&mut self) -> (r: Result<()>)
        requires
            old(self).kfree_count < u32::MAX,
        ensures
            r.is_ok(),
            final(self).kfree_count == old(self).kfree_count + 1,
            final(self).kmalloc_count == old(self).kmalloc_count,
    {
        self.kfree_count = self.kfree_count + 1;
        Ok(())
    }
}

} // verus!
