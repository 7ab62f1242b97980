//! Counters and per-iteration decisions of the kernel stress tests. The
//! timed loops that drive them, the worker threads and the rates computed
//! from the counters live with the program that runs the tests.
use vstd::prelude::*;

verus! {

#[derive(Clone, Copy, Debug)]
pub struct StressTestConfig {
    pub duration_seconds: u64,
    pub concurrent_operations: usize,
    pub allocation_size_bytes: usize,
    pub max_concurrent_allocations: usize,
    pub enable_memory_pressure: bool,
    pub enable_cpu_saturation: bool,
}

impl Default for StressTestConfig {
    /// Ten seconds, four workers, 4 KiB allocations, at most 1000 live,
    /// memory pressure and CPU saturation on.
    fn default() -> (c: StressTestConfig)
        ensures
            c.duration_seconds == 10,
            c.concurrent_operations == 4,
            c.allocation_size_bytes == 4096,
            c.max_concurrent_allocations == 1000,
            c.enable_memory_pressure,
            c.enable_cpu_saturation,
    {
        StressTestConfig {
            duration_seconds: 10,
            concurrent_operations: 4,
            allocation_size_bytes: 4096,
            max_concurrent_allocations: 1000,
            enable_memory_pressure: true,
            enable_cpu_saturation: true,
        }
    }
}

/// A run stops once this many operations in a row have failed.
pub const FAILURE_CASCADE_THRESHOLD: usize = 10;

/// `n` plus one, wrapping around at the top of `usize` as an atomic counter does.
pub open spec fn bumped(n: usize) -> usize {
    if n == usize::MAX { 0 } else { (n + 1) as usize }
}

pub struct StressTest {
    config: StressTestConfig,
    operations_completed: usize,
    operations_failed: usize,
    peak_memory: usize,
}

impl StressTest {
    pub closed spec fn config_view(&self) -> StressTestConfig {
        self.config
    }

    pub closed spec fn completed(&self) -> usize {
        self.operations_completed
    }

    pub closed spec fn failed(&self) -> usize {
        self.operations_failed
    }

    pub closed spec fn peak(&self) -> usize {
        self.peak_memory
    }

    /// A test with the given configuration and all counters at zero.
    pub fn new(config: StressTestConfig) -> (t: StressTest)
        ensures
            t.config_view() == config,
            t.completed() == 0,
            t.failed() == 0,
            t.peak() == 0,
    {
        StressTest { config, operations_completed: 0, operations_failed: 0, peak_memory: 0 }
    }

    pub fn config(&self) -> (c: StressTestConfig)
        ensures
            c == self.config_view(),
    {
        self.config
    }

    pub fn operations_completed(&self) -> (n: usize)
        ensures
            n == self.completed(),
    {
        self.operations_completed
    }

    pub fn operations_failed(&self) -> (n: usize)
        ensures
            n == self.failed(),
    {
        self.operations_failed
    }

    pub fn peak_memory(&self) -> (n: usize)
        ensures
            n == self.peak(),
    {
        self.peak_memory
    }

    /// Count one completed operation.
    pub fn record_success(&mut self)
        ensures
            final(self).completed() == bumped(old(self).completed()),
            final(self).failed() == old(self).failed(),
            final(self).peak() == old(self).peak(),
            final(self).config_view() == old(self).config_view(),
    {
        self.operations_completed = self.operations_completed.wrapping_add(1);
    }

    /// Count one failed operation.
    pub fn record_failure(&mut self)
        ensures
            final(self).failed() == bumped(old(self).failed()),
            final(self).completed() == old(self).completed(),
            final(self).peak() == old(self).peak(),
            final(self).config_view() == old(self).config_view(),
    {
        self.operations_failed = self.operations_failed.wrapping_add(1);
    }

    /// Set every counter back to zero.
    pub fn reset(&mut self)
        ensures
            final(self).completed() == 0,
            final(self).failed() == 0,
            final(self).peak() == 0,
            final(self).config_view() == old(self).config_view(),
    {
        self.operations_completed = 0;
        self.operations_failed = 0;
        self.peak_memory = 0;
    }

    /// One round of the memory stress test over the live allocations
    /// `live`: below the limit a zeroed block of the configured size is
    /// allocated (and counted as completed); above half the limit the newest
    /// block is dropped.
    pub fn memory_stress_step(&mut self, live: &mut Vec<Vec<u8>>)
        ensures
            final(self).config_view() == old(self).config_view(),
            final(self).failed() == old(self).failed(),
            final(self).peak() == old(self).peak(),
            ({
                let max = old(self).config_view().max_concurrent_allocations;
                let grew = old(live)@.len() < max;
                let n: int = if grew { old(live)@.len() as int + 1 } else { old(live)@.len() as int };
                &&& final(self).completed() == (if grew { bumped(old(self).completed()) } else { old(self).completed() })
                &&& final(live)@.len() == (if n > max / 2 { n - 1 } else { n })
                &&& forall|i: int| 0 <= i < final(live)@.len() && i < old(live)@.len()
                    ==> #[trigger] final(live)@[i] == old(live)@[i]
                &&& grew && n <= max / 2 ==> final(live)@.last()@
                    == Seq::new(old(self).config_view().allocation_size_bytes as nat, |j: int| 0u8)
            }),
    {
        let max = self.config.max_concurrent_allocations;
        if live.len() < max {
            let block = vec![0u8; self.config.allocation_size_bytes];
            assert(block@ =~= Seq::new(self.config.allocation_size_bytes as nat, |j: int| 0u8));
            live.push(block);
            self.operations_completed = self.operations_completed.wrapping_add(1);
        }
        if live.len() > max / 2 {
            let _ = live.pop();
        }
    }

    /// One round of the cascade-failure test: the outcome of an operation is
    /// counted, and the run of consecutive failures is extended or reset.
    /// Returns the new run length.
    pub fn cascade_step(&mut self, succeeded: bool, consecutive_failures: usize) -> (n: usize)
        requires
            consecutive_failures < usize::MAX,
        ensures
            n == (if succeeded { 0 } else { consecutive_failures + 1 }),
            succeeded ==> final(self).completed() == bumped(old(self).completed())
                && final(self).failed() == old(self).failed(),
            !succeeded ==> final(self).failed() == bumped(old(self).failed())
                && final(self).completed() == old(self).completed(),
            final(self).peak() == old(self).peak(),
            final(self).config_view() == old(self).config_view(),
    {
        if succeeded {
            self.record_success();
            0
        } else {
            self.record_failure();
            consecutive_failures + 1
        }
    }

    /// Whether a cascade-failure run goes on after `consecutive_failures`
    /// failures in a row.
    pub fn cascade_continues(consecutive_failures: usize) -> (b: bool)
        ensures
            b == (consecutive_failures < FAILURE_CASCADE_THRESHOLD),
    {
        consecutive_failures < FAILURE_CASCADE_THRESHOLD
    }

    /// Completed, failed and total operations, as the results report them.
    pub fn operation_totals(&self) -> (r: (u64, u64, u64))
        requires
            self.completed() + self.failed() <= u64::MAX,
        ensures
            r == (self.completed() as u64, self.failed() as u64, (self.completed() + self.failed()) as u64),
    {
        let c = self.operations_completed as u64;
        let f = self.operations_failed as u64;
        (c, f, c + f)
    }
}

} // verus!
