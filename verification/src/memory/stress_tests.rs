//! Parameters and outcome of the allocator stress runs.
use vstd::prelude::*;

verus! {

/// How an allocator stress run is set up.
#[derive(Debug, Clone, Copy)]
pub struct StressTestConfig {
    /// Number of allocation/deallocation cycles.
    pub cycle_count: usize,
    /// Largest allocation size.
    pub max_size: usize,
    /// Smallest allocation size.
    pub min_size: usize,
    /// Number of concurrent threads.
    pub thread_count: usize,
    /// Free blocks at random points (chaos testing).
    pub random_dealloc: bool,
    /// Track every allocation to detect leaks.
    pub track_allocations: bool,
}

impl Default for StressTestConfig {
    /// A thousand cycles of 8 B to 64 KiB allocations on four threads,
    /// freeing in order and tracking every allocation.
    fn default() -> (c: StressTestConfig)
        ensures
            c.cycle_count == 1000,
            c.max_size == 65536,
            c.min_size == 8,
            c.thread_count == 4,
            !c.random_dealloc,
            c.track_allocations,
    {
        StressTestConfig {
            cycle_count: 1000,
            max_size: 65536,
            min_size: 8,
            thread_count: 4,
            random_dealloc: false,
            track_allocations: true,
        }
    }
}

/// What an allocator stress run observed.
#[derive(Debug, Clone)]
pub struct StressTestResult {
    pub total_allocations: usize,
    pub total_deallocations: usize,
    pub allocation_failures: usize,
    pub deallocation_failures: usize,
    /// Some block could not be given back.
    pub memory_leak: bool,
    pub peak_memory: usize,
    pub passed: bool,
    pub error: Option<String>,
}

impl StressTestResult {
    /// A result with nothing counted yet, passing so far.
    pub fn empty() -> (r: StressTestResult)
        ensures
            r.total_allocations == 0,
            r.total_deallocations == 0,
            r.allocation_failures == 0,
            r.deallocation_failures == 0,
            !r.memory_leak,
            r.peak_memory == 0,
            r.passed,
            r.error is None,
    {
        StressTestResult {
            total_allocations: 0,
            total_deallocations: 0,
            allocation_failures: 0,
            deallocation_failures: 0,
            memory_leak: false,
            peak_memory: 0,
            passed: true,
            error: None,
        }
    }

    /// A run passes when nothing leaked, every allocation succeeded and no
    /// error was recorded.
    pub fn conclude(&mut self)
        ensures
            final(self).passed == (!old(self).memory_leak && old(self).allocation_failures == 0
                && old(self).error is None),
            final(self).total_allocations == old(self).total_allocations,
            final(self).total_deallocations == old(self).total_deallocations,
            final(self).allocation_failures == old(self).allocation_failures,
            final(self).deallocation_failures == old(self).deallocation_failures,
            final(self).memory_leak == old(self).memory_leak,
            final(self).peak_memory == old(self).peak_memory,
            final(self).error == old(self).error,
    {
        self.passed = !self.memory_leak && self.allocation_failures == 0 && self.error.is_none();
    }
}

} // verus!
