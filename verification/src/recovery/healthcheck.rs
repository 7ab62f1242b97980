//! Boot-test health checks run against a freshly staged partition before
//! the boot pointer is switched to it.
use vstd::prelude::*;
use crate::common::owned;
use crate::recovery::partition::ImmutablePartition;
use crate::text::{decimal, u64_to_decimal};

verus! {

#[derive(Debug, Clone, PartialEq)]
pub struct ProbeResult {
    pub name: String,
    pub passed: bool,
    pub detail: String,
}

#[derive(Debug, Clone)]
pub struct HealthCheckReport {
    pub results: Vec<ProbeResult>,
}

impl Default for HealthCheckReport {
    fn default() -> (r: HealthCheckReport)
        ensures
            r.results@.len() == 0,
    {
        HealthCheckReport { results: Vec::new() }
    }
}

impl HealthCheckReport {
    /// At least one probe ran and every probe passed.
    pub fn all_passed(&self) -> (b: bool)
        ensures
            b == (self.results@.len() > 0 && forall|i: int| 0 <= i < self.results@.len() ==> (#[trigger] self.results@[i]).passed),
    {
        if self.results.len() == 0 {
            return false;
        }
        let mut i: usize = 0;
        while i < self.results.len()
            invariant
                i <= self.results@.len(),
                forall|j: int| 0 <= j < i ==> (#[trigger] self.results@[j]).passed,
            decreases self.results@.len() - i,
        {
            if !self.results[i].passed {
                return false;
            }
            i = i + 1;
        }
        true
    }

    /// The failed probes, in order.
    pub fn failures(&self) -> (r: Vec<&ProbeResult>)
        ensures
            r@.map_values(|p: &ProbeResult| *p) == self.results@.filter(|p: ProbeResult| !p.passed),
    {
        let ghost pred = |p: ProbeResult| !p.passed;
        let ghost l = self.results@;
        let mut out: Vec<&ProbeResult> = Vec::new();
        let mut i: usize = 0;
        while i < self.results.len()
            invariant
                l == self.results@,
                i <= l.len(),
                pred == (|p: ProbeResult| !p.passed),
                out@.map_values(|p: &ProbeResult| *p) == l.subrange(0, i as int).filter(pred),
            decreases l.len() - i,
        {
            proof {
                assert(l.subrange(0, i as int + 1) =~= l.subrange(0, i as int).push(l[i as int]));
                l.subrange(0, i as int).lemma_filter_push(l[i as int], pred);
            }
            if !self.results[i].passed {
                out.push(&self.results[i]);
                assert(out@.map_values(|p: &ProbeResult| *p) =~= l.subrange(0, i as int).filter(pred).push(l[i as int]));
            }
            i = i + 1;
        }
        assert(l.subrange(0, l.len() as int) =~= l);
        out
    }
}

/// The probes shipped with the recovery system.
#[derive(Debug, Clone, Copy, PartialEq, Eq, Structural)]
pub enum BuiltinProbe {
    /// The image matches its recorded checksum.
    Integrity,
    /// Some bytes are staged.
    NotEmpty,
}

/// The default probe set, in the order it runs.
pub open spec fn default_probes() -> Seq<BuiltinProbe> {
    seq![BuiltinProbe::Integrity, BuiltinProbe::NotEmpty]
}

/// The probe's name.
pub open spec fn probe_name(p: BuiltinProbe) -> Seq<char> {
    match p {
        BuiltinProbe::Integrity => "integrity"@,
        BuiltinProbe::NotEmpty => "not_empty"@,
    }
}

/// Whether probe `p` passes on `partition`.
pub open spec fn probe_passes(p: BuiltinProbe, partition: ImmutablePartition) -> bool {
    match p {
        BuiltinProbe::Integrity => partition.verifies(),
        BuiltinProbe::NotEmpty => partition.image_view().len() > 0,
    }
}

/// The detail line probe `p` reports on `partition`.
pub open spec fn probe_detail(p: BuiltinProbe, partition: ImmutablePartition) -> Seq<char> {
    match p {
        BuiltinProbe::Integrity => if partition.verifies() {
            "checksum matches"@
        } else {
            "checksum mismatch or unwritten image"@
        },
        BuiltinProbe::NotEmpty => if partition.image_view().len() > 0 {
            decimal(partition.image_view().len()) + " bytes staged"@
        } else {
            "no image staged"@
        },
    }
}

/// Run probe `p` on `partition`.
pub fn run_probe(p: BuiltinProbe, partition: &ImmutablePartition) -> (r: ProbeResult)
    ensures
        r.name@ == probe_name(p),
        r.passed == probe_passes(p, *partition),
        r.detail@ == probe_detail(p, *partition),
{
    match p {
        BuiltinProbe::Integrity => {
            if partition.verify() {
                ProbeResult { name: owned("integrity"), passed: true, detail: owned("checksum matches") }
            } else {
                ProbeResult { name: owned("integrity"), passed: false, detail: owned("checksum mismatch or unwritten image") }
            }
        },
        BuiltinProbe::NotEmpty => {
            let n = partition.image_len();
            if n > 0 {
                let detail = u64_to_decimal(n as u64).concat(" bytes staged");
                ProbeResult { name: owned("not_empty"), passed: true, detail }
            } else {
                ProbeResult { name: owned("not_empty"), passed: false, detail: owned("no image staged") }
            }
        },
    }
}

/// Run every probe of `probes` on `partition`, in order.
pub fn check(partition: &ImmutablePartition, probes: &[BuiltinProbe]) -> (report: HealthCheckReport)
    ensures
        report.results@.len() == probes@.len(),
        forall|i: int| 0 <= i < probes@.len() ==> {
            let r = #[trigger] report.results@[i];
            &&& r.name@ == probe_name(probes@[i])
            &&& r.passed == probe_passes(probes@[i], *partition)
            &&& r.detail@ == probe_detail(probes@[i], *partition)
        },
{
    let mut results: Vec<ProbeResult> = Vec::new();
    let mut i: usize = 0;
    while i < probes.len()
        invariant
            i <= probes@.len(),
            results@.len() == i,
            forall|j: int| 0 <= j < i ==> {
                let r = #[trigger] results@[j];
                &&& r.name@ == probe_name(probes@[j])
                &&& r.passed == probe_passes(probes@[j], *partition)
                &&& r.detail@ == probe_detail(probes@[j], *partition)
            },
        decreases probes@.len() - i,
    {
        results.push(run_probe(probes[i], partition));
        i = i + 1;
    }
    HealthCheckReport { results }
}

/// Run the default probes: integrity, then not-empty.
pub fn check_default(partition: &ImmutablePartition) -> (report: HealthCheckReport)
    ensures
        report.results@.len() == 2,
        report.results@[0].name@ == "integrity"@,
        report.results@[0].passed == partition.verifies(),
        report.results@[1].name@ == "not_empty"@,
        report.results@[1].passed == (partition.image_view().len() > 0),
        report.results@[0].detail@ == probe_detail(BuiltinProbe::Integrity, *partition),
        report.results@[1].detail@ == probe_detail(BuiltinProbe::NotEmpty, *partition),
{
    let probes = [BuiltinProbe::Integrity, BuiltinProbe::NotEmpty];
    check(partition, &probes)
}

/// A freshly written, non-empty image passes the default health check.
pub proof fn lemma_staged_partition_passes(partition: ImmutablePartition, report: HealthCheckReport)
    requires
        partition.verifies(),
        partition.image_view().len() > 0,
        report.results@.len() == 2,
        report.results@[0].passed == partition.verifies(),
        report.results@[1].passed == (partition.image_view().len() > 0),
    ensures
        report.results@.len() > 0 && forall|i: int| 0 <= i < report.results@.len() ==> (#[trigger] report.results@[i]).passed,
{
    assert forall|i: int| 0 <= i < report.results@.len() implies (#[trigger] report.results@[i]).passed by {
        if i == 0 {
        } else {
            assert(i == 1);
        }
    }
}

} // verus!
