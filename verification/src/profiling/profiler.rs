//! Per-operation latency samples, operation counts and running timers,
//! with min / max / mean / percentile summaries.
use vstd::prelude::*;
use vstd::relations::{sorted_by, total_ordering};
use std::time::Instant;
use crate::common::owned;
use crate::keyed::{keys_of, VecMap};

verus! {

#[verifier::external_type_specification]
#[verifier::external_body]
pub struct ExInstant(Instant);

/// `Instant::now()`: a reading of the monotonic clock. Nothing is promised
/// about it beyond being a value of the type.
#[verifier::external_body]
fn instant_now() -> (t: Instant) {
    Instant::now()
}

/// Nanoseconds elapsed since `start` (`Instant::elapsed`, truncated to
/// `u64`). Depends on the clock, so nothing is promised about the value.
#[verifier::external_body]
fn nanos_since(start: &Instant) -> (n: u64) {
    start.elapsed().as_nanos() as u64
}

/// Non-decreasing order on samples.
pub open spec fn sample_le(a: u64, b: u64) -> bool {
    a <= b
}

/// The samples of `s` in non-decreasing order.
pub open spec fn sorted_samples(s: Seq<u64>) -> Seq<u64> {
    s.sort_by(|a: u64, b: u64| sample_le(a, b))
}

/// Sum of the samples.
pub open spec fn sample_sum(s: Seq<u64>) -> nat
    decreases s.len(),
{
    if s.len() == 0 { 0 } else { sample_sum(s.drop_last()) + s.last() as nat }
}

proof fn lemma_sample_le_total()
    ensures
        total_ordering(|a: u64, b: u64| sample_le(a, b)),
{
}

proof fn lemma_sum_prefix(s: Seq<u64>, i: int)
    requires
        0 <= i <= s.len(),
    ensures
        sample_sum(s.subrange(0, i)) <= sample_sum(s),
    decreases s.len() - i,
{
    if i < s.len() {
        lemma_sum_prefix(s, i + 1);
        assert(s.subrange(0, i + 1).drop_last() =~= s.subrange(0, i));
    } else {
        assert(s.subrange(0, i) =~= s);
    }
}

proof fn lemma_sum_permutation(a: Seq<u64>, b: Seq<u64>)
    requires
        a.to_multiset() == b.to_multiset(),
    ensures
        sample_sum(a) == sample_sum(b),
    decreases a.len(),
{
    broadcast use vstd::seq_lib::group_to_multiset_ensures;
    broadcast use vstd::multiset::group_multiset_axioms;
    if a.len() == 0 {
        assert(b.len() == b.to_multiset().len());
    } else {
        let x = a.last();
        assert(a.to_multiset().count(x) > 0);
        assert(b.contains(x));
        let k = choose|k: int| 0 <= k < b.len() && b[k] == x;
        let b2 = b.remove(k);
        assert(a.drop_last().push(x) =~= a);
        assert(a.drop_last().to_multiset() =~= a.to_multiset().remove(x));
        assert(b2.to_multiset() =~= b.to_multiset().remove(x));
        lemma_sum_permutation(a.drop_last(), b2);
        lemma_sum_remove(b, k);
    }
}

proof fn lemma_sum_remove(s: Seq<u64>, k: int)
    requires
        0 <= k < s.len(),
    ensures
        sample_sum(s) == sample_sum(s.remove(k)) + s[k],
    decreases s.len(),
{
    if k == s.len() - 1 {
        assert(s.remove(k) =~= s.drop_last());
    } else {
        lemma_sum_remove(s.drop_last(), k);
        assert(s.remove(k).drop_last() =~= s.drop_last().remove(k));
        assert(s.remove(k).last() == s.last());
    }
}

/// The first sorted sample is the smallest sample and the last the largest.
proof fn lemma_sorted_bounds(s: Seq<u64>)
    requires
        s.len() > 0,
    ensures
        sorted_samples(s).len() == s.len(),
        s.contains(sorted_samples(s)[0]),
        s.contains(sorted_samples(s).last()),
        forall|i: int| 0 <= i < s.len() ==> sorted_samples(s)[0] <= #[trigger] s[i] <= sorted_samples(s).last(),
{
    broadcast use vstd::seq_lib::group_to_multiset_ensures;
    lemma_sample_le_total();
    s.lemma_sort_by_ensures(|a: u64, b: u64| sample_le(a, b));
    let t = sorted_samples(s);
    let leq = |a: u64, b: u64| sample_le(a, b);
    assert(t.len() == t.to_multiset().len());
    assert(s.len() == s.to_multiset().len());
    assert(t.contains(t[0]));
    assert(t.contains(t.last()));
    assert forall|i: int| 0 <= i < s.len() implies t[0] <= #[trigger] s[i] <= t.last() by {
        assert(s.contains(s[i]));
        assert(t.to_multiset().count(s[i]) > 0);
        let j = choose|j: int| 0 <= j < t.len() && t[j] == s[i];
        if 0 < j {
            assert(leq(t[0], t[j]));
        }
        if j < t.len() - 1 {
            assert(leq(t[j], t[t.len() - 1]));
        }
    }
}

/// Recording latency `l` moves the smallest and largest sample only to
/// take it in: after `l` is appended to samples `s`, the smallest sorted
/// sample is the smaller of `l` and the old smallest and the largest is
/// the larger of `l` and the old largest (both are `l` when `s` was empty).
pub proof fn lemma_record_min_max(s: Seq<u64>, l: u64)
    ensures
        ({
            let t = sorted_samples(s.push(l));
            let n = t.len() as int;
            &&& n == s.len() + 1
            &&& s.len() == 0 ==> t[0] == l && t[n - 1] == l
            &&& s.len() > 0 ==> {
                let u = sorted_samples(s);
                let k = u.len() as int;
                &&& t[0] == if l < u[0] { l } else { u[0] }
                &&& t[n - 1] == if l > u[k - 1] { l } else { u[k - 1] }
            }
        }),
{
    let s2 = s.push(l);
    lemma_sorted_bounds(s2);
    let t = sorted_samples(s2);
    assert(s2[s.len() as int] == l);
    if s.len() > 0 {
        lemma_sorted_bounds(s);
        let u = sorted_samples(s);
        assert(s2.contains(t[0]));
        let a = choose|a: int| 0 <= a < s2.len() && s2[a] == t[0];
        if a < s.len() {
            assert(s2[a] == s[a]);
        }
        assert(s2.contains(t.last()));
        let b = choose|b: int| 0 <= b < s2.len() && s2[b] == t.last();
        if b < s.len() {
            assert(s2[b] == s[b]);
        }
        let i0 = choose|i: int| 0 <= i < s.len() && s[i] == u[0];
        assert(s2[i0] == s[i0]);
        let i1 = choose|i: int| 0 <= i < s.len() && s[i] == u.last();
        assert(s2[i1] == s[i1]);
    } else {
        assert(s2.len() == 1);
    }
}

/// The samples in non-decreasing order (insertion sort).
fn sort_samples(v: &Vec<u64>) -> (r: Vec<u64>)
    ensures
        r@ == sorted_samples(v@),
{
    let mut out: Vec<u64> = Vec::new();
    let mut i: usize = 0;
    assert(v@.subrange(0, 0) =~= out@);
    while i < v.len()
        invariant
            i <= v@.len(),
            out@.to_multiset() == v@.subrange(0, i as int).to_multiset(),
            forall|a: int, b: int| 0 <= a < b < out@.len() ==> out@[a] <= out@[b],
        decreases v@.len() - i,
    {
        let x = v[i];
        let mut p: usize = 0;
        while p < out.len() && out[p] <= x
            invariant
                p <= out@.len(),
                forall|j: int| 0 <= j < p ==> out@[j] <= x,
            decreases out@.len() - p,
        {
            p = p + 1;
        }
        let ghost before = out@;
        out.insert(p, x);
        proof {
            broadcast use vstd::seq_lib::group_to_multiset_ensures;
            assert(v@.subrange(0, i as int + 1) =~= v@.subrange(0, i as int).push(x));
            assert(out@ == before.insert(p as int, x));
            assert forall|a: int, b: int| 0 <= a < b < out@.len() implies out@[a] <= out@[b] by {
                if b < p {
                    assert(before[a] <= before[b]);
                } else if b == p {
                    assert(before[a] <= x);
                } else if a < p {
                    assert(before[a] <= x);
                    assert(!(before[p as int] <= x));
                    if p < b - 1 {
                        assert(before[p as int] <= before[b - 1]);
                    }
                } else if a == p {
                    assert(!(before[p as int] <= x));
                    if p < b - 1 {
                        assert(before[p as int] <= before[b - 1]);
                    }
                } else {
                    assert(before[a - 1] <= before[b - 1]);
                }
            }
        }
        i = i + 1;
    }
    proof {
        assert(v@.subrange(0, i as int) =~= v@);
        lemma_sample_le_total();
        v@.lemma_sort_by_ensures(|a: u64, b: u64| sample_le(a, b));
        let leq = |a: u64, b: u64| sample_le(a, b);
        assert(sorted_by(out@, leq)) by {
            assert forall|a: int, b: int| 0 <= a < b < out@.len() implies #[trigger] leq(out@[a], out@[b]) by {
                assert(out@[a] <= out@[b]);
            }
        }
        vstd::seq_lib::lemma_sorted_unique(out@, sorted_samples(v@), |a: u64, b: u64| sample_le(a, b));
    }
    out
}

#[derive(Clone, Debug)]
pub struct LatencyMetrics {
    pub operation_name: String,
    pub samples: usize,
    pub min_ns: u64,
    pub max_ns: u64,
    pub avg_ns: u64,
    pub p50_ns: u64,
    pub p95_ns: u64,
    pub p99_ns: u64,
}

/// Index of the `pct`-th percentile among `n` sorted samples (`n > 0`).
pub open spec fn percentile_index(n: int, pct: int) -> int {
    if n * pct / 100 < n - 1 { n * pct / 100 } else { n - 1 }
}

/// Percentile positions among `n > 0` sorted samples lie within the samples
/// and move up with the percentile: the median comes no later than the 95th
/// percentile, which comes no later than the 99th.
pub proof fn lemma_percentile_order(n: int)
    requires
        n > 0,
    ensures
        0 <= n / 2 <= percentile_index(n, 95) <= percentile_index(n, 99) < n,
        percentile_index(n, 99) == n - 1 || percentile_index(n, 99) == n * 99 / 100,
{
    assert(n * 95 / 100 <= n * 99 / 100) by (nonlinear_arith)
        requires
            n > 0;
    assert(n / 2 <= n * 95 / 100 || n / 2 <= n - 1) by (nonlinear_arith)
        requires
            n > 0;
    assert(n / 2 <= n * 95 / 100 || n * 95 / 100 >= n - 1) by (nonlinear_arith)
        requires
            n > 0;
    assert(n * 95 / 100 >= 0) by (nonlinear_arith)
        requires
            n > 0;
}

/// `n * pct / 100` computed without forming `n * pct`.
fn scaled_index(n: usize, pct: usize) -> (r: usize)
    requires
        pct <= 100,
    ensures
        r == n * pct / 100,
{
    let q = n / 100;
    let m = n % 100;
    proof {
        vstd::arithmetic::div_mod::lemma_fundamental_div_mod(n as int, 100);
        vstd::arithmetic::div_mod::lemma_fundamental_div_mod(m * pct, 100);
        assert(q * pct <= n) by (nonlinear_arith)
            requires
                q * 100 <= n,
                pct <= 100,
                q >= 0;
        assert(m * pct <= 9900) by (nonlinear_arith)
            requires
                0 <= m < 100,
                pct <= 100;
        assert(n * pct == (q * pct) * 100 + m * pct) by (nonlinear_arith)
            requires
                n == 100 * q + m;
        assert(n * pct == 100 * (q * pct + (m * pct) / 100) + (m * pct) % 100);
        vstd::arithmetic::div_mod::lemma_div_multiples_vanish_fancy(
            q * pct + (m * pct) / 100, (m * pct) % 100, 100);
        assert(n * pct / 100 <= n) by (nonlinear_arith)
            requires
                pct <= 100,
                n >= 0;
    }
    q * pct + m * pct / 100
}

pub struct Profiler {
    measurements: VecMap<String, Vec<u64>>,
    operations_completed: VecMap<String, u64>,
    total_time_ms: VecMap<String, u64>,
    active_timers: VecMap<String, Instant>,
}

impl Default for Profiler {
    fn default() -> (p: Profiler)
        ensures
            p.wf(),
            p.samples() == Map::<Seq<char>, Vec<u64>>::empty(),
            p.completed() == Map::<Seq<char>, u64>::empty(),
            p.running_timers() == Set::<Seq<char>>::empty(),
    {
        Profiler::new()
    }
}

impl Profiler {
    pub closed spec fn wf(&self) -> bool {
        &&& self.measurements.wf()
        &&& self.operations_completed.wf()
        &&& self.total_time_ms.wf()
        &&& self.total_time_ms@ == Map::<Seq<char>, u64>::empty()
        &&& self.active_timers.wf()
    }

    /// Latency samples (nanoseconds) by operation, in recording order.
    pub closed spec fn samples(&self) -> Map<Seq<char>, Vec<u64>> {
        self.measurements@
    }

    /// Recorded operations by name.
    pub closed spec fn completed(&self) -> Map<Seq<char>, u64> {
        self.operations_completed@
    }

    /// Operations with a running timer.
    pub closed spec fn running_timers(&self) -> Set<Seq<char>> {
        self.active_timers@.dom()
    }

    /// Names of the operations with samples, in first-sampled order.
    pub closed spec fn sampled_order(&self) -> Seq<Seq<char>> {
        keys_of(self.measurements.entries@)
    }

    /// Names of the recorded operations, in first-recorded order.
    pub closed spec fn operation_order(&self) -> Seq<Seq<char>> {
        crate::keyed::keys_of(self.operations_completed.entries@)
    }

    /// The samples of `op` (empty when none were taken).
    pub open spec fn samples_of(&self, op: Seq<char>) -> Seq<u64> {
        if self.samples().contains_key(op) { self.samples()[op]@ } else { Seq::empty() }
    }

    pub fn new() -> (p: Profiler)
        ensures
            p.wf(),
            p.samples() == Map::<Seq<char>, Vec<u64>>::empty(),
            p.completed() == Map::<Seq<char>, u64>::empty(),
            p.running_timers() == Set::<Seq<char>>::empty(),
    {
        let p = Profiler {
            measurements: VecMap::new(),
            operations_completed: VecMap::new(),
            total_time_ms: VecMap::new(),
            active_timers: VecMap::new(),
        };
        assert(p.active_timers@.dom() =~= Set::<Seq<char>>::empty());
        p
    }

    /// Number of operations with samples.
    pub fn measured_operations(&self) -> (n: usize)
        requires
            self.wf(),
        ensures
            n == self.samples().len(),
    {
        self.measurements.len()
    }

    /// Append `sample` to the samples of `op`.
    fn push_sample(&mut self, op: &str, sample: u64)
        requires
            old(self).wf(),
        ensures
            final(self).wf(),
            final(self).samples_of(op@) == old(self).samples_of(op@).push(sample),
            final(self).samples().dom() == old(self).samples().dom().insert(op@),
            final(self).samples().remove(op@) == old(self).samples().remove(op@),
            final(self).completed() == old(self).completed(),
            final(self).running_timers() == old(self).running_timers(),
    {
        let key = owned(op);
        let mut list = match self.measurements.remove(&key) {
            Some(l) => l,
            None => Vec::new(),
        };
        list.push(sample);
        let ghost lv = list;
        self.measurements.insert(key, list);
        assert(self.measurements@ == old(self).measurements@.insert(op@, lv));
        assert(self.measurements@.dom() =~= old(self).measurements@.dom().insert(op@));
        assert(self.measurements@.remove(op@) =~= old(self).measurements@.remove(op@));
    }

    /// Start (or restart) the timer of `operation`.
    pub fn start_timer(&mut self, operation: &str)
        requires
            old(self).wf(),
        ensures
            final(self).wf(),
            final(self).running_timers() == old(self).running_timers().insert(operation@),
            final(self).samples() == old(self).samples(),
            final(self).completed() == old(self).completed(),
    {
        let now = instant_now();
        self.active_timers.insert(owned(operation), now);
        assert(self.active_timers@.dom() =~= old(self).active_timers@.dom().insert(operation@));
    }

    /// Stop the timer of `operation` and record the elapsed nanoseconds as
    /// a sample; nothing happens when no timer runs for it.
    pub fn end_timer(&mut self, operation: &str)
        requires
            old(self).wf(),
        ensures
            final(self).wf(),
            final(self).running_timers() == old(self).running_timers().remove(operation@),
            final(self).completed() == old(self).completed(),
            !old(self).running_timers().contains(operation@) ==> final(self).samples() == old(self).samples(),
            old(self).running_timers().contains(operation@) ==> {
                &&& final(self).samples_of(operation@).len() == old(self).samples_of(operation@).len() + 1
                &&& final(self).samples_of(operation@).drop_last() == old(self).samples_of(operation@)
                &&& final(self).samples().remove(operation@) == old(self).samples().remove(operation@)
            },
    {
        match self.active_timers.remove(&owned(operation)) {
            Some(start) => {
                let elapsed = nanos_since(&start);
                self.push_sample(operation, elapsed);
                assert(self.samples_of(operation@).drop_last() =~= old(self).samples_of(operation@));
            },
            None => {},
        }
        assert(self.active_timers@.dom() =~= old(self).active_timers@.dom().remove(operation@));
    }

    /// Record one completed `operation` that took `latency_ns`.
    pub fn record_operation(&mut self, operation: &str, latency_ns: u64)
        requires
            old(self).wf(),
            old(self).completed().contains_key(operation@) ==> old(self).completed()[operation@] < u64::MAX,
        ensures
            final(self).wf(),
            final(self).samples_of(operation@) == old(self).samples_of(operation@).push(latency_ns),
            final(self).samples().dom() == old(self).samples().dom().insert(operation@),
            final(self).samples().remove(operation@) == old(self).samples().remove(operation@),
            final(self).completed() == old(self).completed().insert(operation@,
                if old(self).completed().contains_key(operation@) { (old(self).completed()[operation@] + 1) as u64 } else { 1u64 }),
            final(self).running_timers() == old(self).running_timers(),
    {
        self.push_sample(operation, latency_ns);
        let key = owned(operation);
        let n: u64 = match self.operations_completed.get(&key) {
            Some(c) => *c + 1,
            None => 1,
        };
        self.operations_completed.insert(key, n);
    }

    /// Summary of the samples of `operation`: `None` when there are none;
    /// otherwise count, smallest, largest, truncated mean and the 50th,
    /// 95th and 99th percentiles of the sorted samples.
    pub fn get_latency_metrics(&self, operation: &str) -> (r: Option<LatencyMetrics>)
        requires
            self.wf(),
            sample_sum(self.samples_of(operation@)) <= u64::MAX,
        ensures
            self.samples_of(operation@).len() == 0 ==> r.is_none(),
            self.samples_of(operation@).len() > 0 ==> (r matches Some(m) && {
                let s = sorted_samples(self.samples_of(operation@));
                let n = s.len() as int;
                &&& m.operation_name@ == operation@
                &&& m.samples == n
                &&& m.min_ns == s[0]
                &&& m.max_ns == s[n - 1]
                &&& m.avg_ns == sample_sum(s) / (n as nat)
                &&& m.p50_ns == s[n / 2]
                &&& m.p95_ns == s[percentile_index(n, 95)]
                &&& m.p99_ns == s[percentile_index(n, 99)]
            }),
    {
        let samples = match self.measurements.get(&owned(operation)) {
            Some(l) => l,
            None => {
                return None;
            },
        };
        if samples.len() == 0 {
            return None;
        }
        let sorted = sort_samples(samples);
        proof {
            lemma_sample_le_total();
            samples@.lemma_sort_by_ensures(|a: u64, b: u64| sample_le(a, b));
            lemma_sum_permutation(samples@, sorted@);
            broadcast use vstd::seq_lib::group_to_multiset_ensures;
            assert(sorted@.len() == sorted@.to_multiset().len());
            assert(samples@.len() == samples@.to_multiset().len());
        }
        let n = sorted.len();
        let mut total: u64 = 0;
        let mut i: usize = 0;
        while i < n
            invariant
                n == sorted@.len(),
                i <= n,
                sample_sum(sorted@) <= u64::MAX,
                total == sample_sum(sorted@.subrange(0, i as int)),
            decreases n - i,
        {
            proof {
                assert(sorted@.subrange(0, i as int + 1).drop_last() =~= sorted@.subrange(0, i as int));
                lemma_sum_prefix(sorted@, i as int + 1);
            }
            total = total + sorted[i];
            i = i + 1;
        }
        assert(sorted@.subrange(0, n as int) =~= sorted@);
        let i95 = scaled_index(n, 95);
        let i99 = scaled_index(n, 99);
        let p95 = if i95 < n - 1 { i95 } else { n - 1 };
        let p99 = if i99 < n - 1 { i99 } else { n - 1 };
        Some(LatencyMetrics {
            operation_name: owned(operation),
            samples: n,
            min_ns: sorted[0],
            max_ns: sorted[n - 1],
            avg_ns: total / n as u64,
            p50_ns: sorted[n / 2],
            p95_ns: sorted[p95],
            p99_ns: sorted[p99],
        })
    }

    /// Forget every sample, count and timer.
    pub fn reset(&mut self)
        ensures
            final(self).wf(),
            final(self).samples() == Map::<Seq<char>, Vec<u64>>::empty(),
            final(self).completed() == Map::<Seq<char>, u64>::empty(),
            final(self).running_timers() == Set::<Seq<char>>::empty(),
    {
        self.measurements.clear();
        self.operations_completed.clear();
        self.total_time_ms.clear();
        self.active_timers.clear();
        assert(self.active_timers@.dom() =~= Set::<Seq<char>>::empty());
    }

    /// Forget the samples and count of `operation` (a running timer stays).
    pub fn clear_operation(&mut self, operation: &str)
        requires
            old(self).wf(),
        ensures
            final(self).wf(),
            final(self).samples() == old(self).samples().remove(operation@),
            final(self).completed() == old(self).completed().remove(operation@),
            final(self).running_timers() == old(self).running_timers(),
    {
        let key = owned(operation);
        let _ = self.measurements.remove(&key);
        let _ = self.operations_completed.remove(&key);
        let _ = self.total_time_ms.remove(&key);
        assert(self.total_time_ms@ =~= Map::<Seq<char>, u64>::empty());
    }

    /// The number of recorded operations named `operation`, if any.
    pub fn completed_operations(&self, operation: &str) -> (r: Option<u64>)
        requires
            self.wf(),
        ensures
            match r {
                Some(n) => self.completed().contains_key(operation@) && n == self.completed()[operation@],
                None => !self.completed().contains_key(operation@),
            },
    {
        match self.operations_completed.get(&owned(operation)) {
            Some(n) => Some(*n),
            None => None,
        }
    }

    /// The recorded total time of `operation` in milliseconds, if any (no
    /// total time is ever recorded: timings are kept as samples).
    pub fn total_time_of(&self, operation: &str) -> (r: Option<u64>)
        requires
            self.wf(),
        ensures
            r is None,
    {
        match self.total_time_ms.get(&owned(operation)) {
            Some(n) => Some(*n),
            None => None,
        }
    }

    /// Names of the recorded operations, in first-recorded order.
    pub fn operation_names(&self) -> (r: Vec<String>)
        ensures
            r@.len() == self.operation_order().len(),
            forall|i: int| 0 <= i < r@.len() ==> (#[trigger] r@[i])@ == self.operation_order()[i],
    {
        let mut out: Vec<String> = Vec::new();
        let mut i: usize = 0;
        while i < self.operations_completed.entries.len()
            invariant
                i <= self.operations_completed.entries@.len(),
                out@.len() == i,
                forall|j: int| 0 <= j < i ==> (#[trigger] out@[j])@ == self.operations_completed.entries@[j].0@,
            decreases self.operations_completed.entries@.len() - i,
        {
            out.push(self.operations_completed.entries[i].0.clone());
            i = i + 1;
        }
        out
    }

    /// Names of the operations with samples, in first-sampled order.
    pub fn measured_operation_names(&self) -> (r: Vec<String>)
        ensures
            r@.len() == self.sampled_order().len(),
            forall|i: int| 0 <= i < r@.len() ==> (#[trigger] r@[i])@ == self.sampled_order()[i],
    {
        let mut out: Vec<String> = Vec::new();
        let mut i: usize = 0;
        while i < self.measurements.entries.len()
            invariant
                i <= self.measurements.entries@.len(),
                out@.len() == i,
                forall|j: int| 0 <= j < i ==> (#[trigger] out@[j])@ == self.measurements.entries@[j].0@,
            decreases self.measurements.entries@.len() - i,
        {
            out.push(self.measurements.entries[i].0.clone());
            i = i + 1;
        }
        out
    }

    /// The bottleneck threshold of `operation` at position `rank` of its
    /// sorted samples (the last position when `rank` is past it): that
    /// sample, when some sample lies above it; `None` when there are no
    /// samples or none lies above.
    pub fn bottleneck_threshold(&self, operation: &str, rank: usize) -> (r: Option<u64>)
        requires
            self.wf(),
        ensures
            ({
                let s = sorted_samples(self.samples_of(operation@));
                &&& s.len() == 0 ==> r is None
                &&& s.len() > 0 ==> {
                    let t = s[if rank < s.len() { rank as int } else { s.len() - 1 }];
                    r == (if exists|i: int| 0 <= i < s.len() && s[i] > t { Some(t) } else { None::<u64> })
                }
            }),
    {
        let samples = self.samples_for(operation);
        let sorted = sort_samples(&samples);
        proof {
            lemma_sample_le_total();
            samples@.lemma_sort_by_ensures(|a: u64, b: u64| sample_le(a, b));
            broadcast use vstd::seq_lib::group_to_multiset_ensures;
            assert(sorted@.len() == sorted@.to_multiset().len());
            assert(samples@.len() == samples@.to_multiset().len());
        }
        let n = sorted.len();
        if n == 0 {
            return None;
        }
        let idx = if rank < n { rank } else { n - 1 };
        let t = sorted[idx];
        let ghost s = sorted@;
        proof {
            let leq = |a: u64, b: u64| sample_le(a, b);
            assert(sorted_by(s, leq));
            assert forall|i: int| 0 <= i < s.len() implies #[trigger] s[i] <= s[n - 1] by {
                if i < n - 1 {
                    assert(leq(s[i], s[n - 1]));
                }
            }
        }
        if sorted[n - 1] > t {
            Some(t)
        } else {
            None
        }
    }

    /// The samples of `operation` in recording order (empty when none).
    pub fn samples_for(&self, operation: &str) -> (r: Vec<u64>)
        requires
            self.wf(),
        ensures
            r@ == self.samples_of(operation@),
    {
        match self.measurements.get(&owned(operation)) {
            Some(l) => {
                let mut out: Vec<u64> = Vec::new();
                let mut i: usize = 0;
                while i < l.len()
                    invariant
                        i <= l@.len(),
                        out@ == l@.subrange(0, i as int),
                    decreases l@.len() - i,
                {
                    out.push(l[i]);
                    assert(l@.subrange(0, i as int + 1) =~= l@.subrange(0, i as int).push(l@[i as int]));
                    i = i + 1;
                }
                assert(l@.subrange(0, i as int) =~= l@);
                out
            },
            None => Vec::new(),
        }
    }
}

/// The latencies of `s` do not increase along it.
pub open spec fn latency_desc(s: Seq<(String, u64)>) -> bool {
    forall|a: int, b: int| 0 <= a < b < s.len() ==> s[a].1 >= s[b].1
}

/// The bottlenecks `v` from the slowest to the fastest.
pub fn sort_bottlenecks(v: Vec<(String, u64)>) -> (r: Vec<(String, u64)>)
    ensures
        r@.to_multiset() == v@.to_multiset(),
        latency_desc(r@),
{
    let ghost orig = v@;
    let mut rest = v;
    let mut out: Vec<(String, u64)> = Vec::new();
    proof {
        broadcast use vstd::seq_lib::group_to_multiset_ensures;
        assert(out@.to_multiset() =~= vstd::multiset::Multiset::empty());
    }
    while rest.len() > 0
        invariant
            out@.to_multiset().add(rest@.to_multiset()) == orig.to_multiset(),
            latency_desc(out@),
        decreases rest@.len(),
    {
        let ghost rest0 = rest@;
        let x = rest.pop().unwrap();
        let mut p: usize = 0;
        while p < out.len() && out[p].1 > x.1
            invariant
                p <= out@.len(),
                forall|j: int| 0 <= j < p ==> out@[j].1 > x.1,
            decreases out@.len() - p,
        {
            p = p + 1;
        }
        let ghost before = out@;
        out.insert(p, x);
        proof {
            broadcast use vstd::seq_lib::group_to_multiset_ensures;
            assert(rest0 =~= rest@.push(x));
            assert(out@ == before.insert(p as int, x));
            assert(out@.to_multiset().add(rest@.to_multiset()) =~= before.to_multiset().add(rest0.to_multiset()));
            assert forall|a: int, b: int| 0 <= a < b < out@.len() implies out@[a].1 >= out@[b].1 by {
                if b < p {
                    assert(before[a].1 >= before[b].1);
                } else if b == p {
                    assert(before[a].1 > x.1);
                } else if a < p {
                    assert(before[a].1 > x.1);
                    assert(!(before[p as int].1 > x.1));
                    if p < b - 1 {
                        assert(before[p as int].1 >= before[b - 1].1);
                    }
                } else if a == p {
                    assert(!(before[p as int].1 > x.1));
                    if p < b - 1 {
                        assert(before[p as int].1 >= before[b - 1].1);
                    }
                } else {
                    assert(before[a - 1].1 >= before[b - 1].1);
                }
            }
        }
    }
    proof {
        broadcast use vstd::seq_lib::group_to_multiset_ensures;
        assert(rest@.to_multiset() =~= vstd::multiset::Multiset::empty());
        assert(out@.to_multiset().add(rest@.to_multiset()) =~= out@.to_multiset());
    }
    out
}

} // verus!
