//! Benchmark measurements with integer values: per-operation latencies and
//! memory footprints, and the average latency of an operation over a set of
//! measurements. Throughput figures are rates in floating point and are kept
//! by the benchmark runner, outside this library.
use vstd::prelude::*;
use crate::common::owned;
use crate::keyed::str_eq;

verus! {

#[derive(Clone, Debug)]
pub struct LatencyMeasurement {
    pub operation: String,
    pub duration_us: u64,
    pub iterations: u32,
}

#[derive(Clone, Debug)]
pub struct MemoryMeasurement {
    pub resource_name: String,
    pub bytes_allocated: usize,
    pub peak_bytes: usize,
}

/// A latency measurement of `iterations` runs of `name` that took
/// `elapsed_us` microseconds in all: the time per run, rounded down (the
/// total is first cut to 64 bits).
pub fn latency_measurement(name: &str, elapsed_us: u128, iterations: u32) -> (m: LatencyMeasurement)
    requires
        iterations > 0,
    ensures
        m.operation@ == name@,
        m.iterations == iterations,
        m.duration_us == (elapsed_us as u64) / (iterations as u64),
{
    LatencyMeasurement {
        operation: owned(name),
        duration_us: (elapsed_us as u64) / (iterations as u64),
        iterations,
    }
}

/// A memory measurement of resource `name`.
pub fn memory_measurement(name: &str, bytes: usize, peak: usize) -> (m: MemoryMeasurement)
    ensures
        m.resource_name@ == name@,
        m.bytes_allocated == bytes,
        m.peak_bytes == peak,
{
    MemoryMeasurement { resource_name: owned(name), bytes_allocated: bytes, peak_bytes: peak }
}

/// Sum of the latencies of the measurements of `s` named `op`.
pub open spec fn latency_sum(s: Seq<LatencyMeasurement>, op: Seq<char>) -> nat
    decreases s.len(),
{
    if s.len() == 0 {
        0
    } else {
        latency_sum(s.drop_last(), op) + if s.last().operation@ == op { s.last().duration_us as nat } else { 0nat }
    }
}

/// Number of measurements of `s` named `op`.
pub open spec fn latency_count(s: Seq<LatencyMeasurement>, op: Seq<char>) -> nat
    decreases s.len(),
{
    if s.len() == 0 {
        0
    } else {
        latency_count(s.drop_last(), op) + if s.last().operation@ == op { 1nat } else { 0nat }
    }
}

proof fn lemma_latency_prefix(s: Seq<LatencyMeasurement>, op: Seq<char>, i: int)
    requires
        0 <= i <= s.len(),
    ensures
        latency_sum(s.subrange(0, i), op) <= latency_sum(s, op),
        latency_count(s.subrange(0, i), op) <= latency_count(s, op),
        latency_count(s, op) <= s.len(),
    decreases s.len() - i,
{
    if i < s.len() {
        lemma_latency_prefix(s, op, i + 1);
        assert(s.subrange(0, i + 1).drop_last() =~= s.subrange(0, i));
    } else {
        assert(s.subrange(0, i) =~= s);
        lemma_latency_count_bound(s, op);
    }
}

proof fn lemma_latency_count_bound(s: Seq<LatencyMeasurement>, op: Seq<char>)
    ensures
        latency_count(s, op) <= s.len(),
    decreases s.len(),
{
    if s.len() > 0 {
        lemma_latency_count_bound(s.drop_last(), op);
    }
}

/// The mean latency of the measurements of `latencies` named `operation`,
/// rounded down; `None` when there are none.
pub fn average_latency_us(latencies: &[LatencyMeasurement], operation: &str) -> (r: Option<u64>)
    requires
        latency_sum(latencies@, operation@) <= u64::MAX,
    ensures
        latency_count(latencies@, operation@) == 0 ==> r is None,
        latency_count(latencies@, operation@) > 0 ==> r == Some(
            (latency_sum(latencies@, operation@) / latency_count(latencies@, operation@)) as u64),
{
    let ghost s = latencies@;
    let ghost op = operation@;
    let mut sum: u64 = 0;
    let mut count: u64 = 0;
    let mut i: usize = 0;
    proof {
        lemma_latency_count_bound(s, op);
    }
    while i < latencies.len()
        invariant
            s == latencies@,
            op == operation@,
            i <= s.len(),
            latency_sum(s, op) <= u64::MAX,
            latency_count(s, op) <= s.len(),
            sum == latency_sum(s.subrange(0, i as int), op),
            count == latency_count(s.subrange(0, i as int), op),
        decreases s.len() - i,
    {
        proof {
            lemma_latency_prefix(s, op, i as int + 1);
            assert(s.subrange(0, i as int + 1).drop_last() =~= s.subrange(0, i as int));
        }
        if str_eq(latencies[i].operation.as_str(), operation) {
            sum = sum + latencies[i].duration_us;
            count = count + 1;
        }
        i = i + 1;
    }
    assert(s.subrange(0, s.len() as int) =~= s);
    if count == 0 {
        None
    } else {
        Some(sum / count)
    }
}

} // verus!
