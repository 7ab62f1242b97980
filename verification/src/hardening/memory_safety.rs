//! Memory-safety auditing: bounds, use-after-free and double-free checks
//! over registered allocations.
use vstd::prelude::*;
use crate::bits::{is_pow2, usize_is_power_of_two};
use crate::common::{owned, Error, ObjectId, Result};
use crate::keyed::VecMap;
use crate::text::decimal;

verus! {

#[derive(Clone, Copy, Debug)]
pub struct MemorySafetyAudit {
    pub allocation_id: ObjectId,
    pub size: usize,
    pub alignment: usize,
    pub freed: bool,
    pub use_count: usize,
}

#[derive(Clone, Debug)]
pub struct AuditResult {
    pub passed: bool,
    pub total_checks: usize,
    pub failed_checks: usize,
    pub issues: Vec<String>,
}

/// A usable alignment: a positive power of two.
pub open spec fn valid_alignment(a: usize) -> bool {
    a > 0 && is_pow2(a as nat)
}

/// The issues the audit reports for one allocation, in order.
pub open spec fn issues_of(id: ObjectId, a: MemorySafetyAudit) -> Seq<Seq<char>> {
    let uaf = if a.freed && a.use_count > 0 { seq!["Potential use-after-free: "@ + decimal(id.value as nat)] } else { seq![] };
    let align = if !valid_alignment(a.alignment) { seq!["Invalid alignment for "@ + decimal(id.value as nat)] } else { seq![] };
    let zero = if a.size == 0 { seq!["Zero-size allocation: "@ + decimal(id.value as nat)] } else { seq![] };
    uaf + align + zero
}

/// An allocation is reported for nothing exactly when it is sound: not used
/// after being freed, aligned to a power of two, and not empty; each
/// problem found adds one line.
pub proof fn lemma_issues_of(id: ObjectId, a: MemorySafetyAudit)
    ensures
        issues_of(id, a).len() == 0 <==> (!(a.freed && a.use_count > 0) && a.alignment > 0
            && is_pow2(a.alignment as nat) && a.size != 0),
        issues_of(id, a).len() <= 3,
        a.freed && a.use_count > 0 ==> issues_of(id, a).len() >= 1,
        a.size == 0 ==> issues_of(id, a).len() >= 1,
{
}

/// The issues of every allocation in `s`, in table order.
pub open spec fn all_issues(s: Seq<(ObjectId, MemorySafetyAudit)>) -> Seq<Seq<char>>
    decreases s.len(),
{
    if s.len() == 0 { seq![] } else { all_issues(s.drop_last()) + issues_of(s.last().0, s.last().1) }
}

pub struct MemorySafetyValidator {
    allocations: VecMap<ObjectId, MemorySafetyAudit>,
    freed_pointers: VecMap<ObjectId, ()>,
    use_after_free_attempts: usize,
    double_free_attempts: usize,
}

impl MemorySafetyValidator {
    pub closed spec fn wf(&self) -> bool {
        self.allocations.wf() && self.freed_pointers.wf()
    }

    /// Registered allocations by identity.
    pub closed spec fn allocations_view(&self) -> Map<ObjectId, MemorySafetyAudit> {
        self.allocations@
    }

    /// Allocations in registration order.
    pub closed spec fn allocation_entries(&self) -> Seq<(ObjectId, MemorySafetyAudit)> {
        self.allocations.entries@
    }

    /// Identities that have been freed.
    pub closed spec fn freed(&self) -> Set<ObjectId> {
        self.freed_pointers@.dom()
    }

    pub closed spec fn uaf_count(&self) -> usize {
        self.use_after_free_attempts
    }

    pub closed spec fn double_free_count(&self) -> usize {
        self.double_free_attempts
    }

    pub fn new() -> (v: MemorySafetyValidator)
        ensures
            v.wf(),
            v.allocations_view() == Map::<ObjectId, MemorySafetyAudit>::empty(),
            v.freed() == Set::<ObjectId>::empty(),
            v.uaf_count() == 0 && v.double_free_count() == 0,
    {
        let v = MemorySafetyValidator {
            allocations: VecMap::new(),
            freed_pointers: VecMap::new(),
            use_after_free_attempts: 0,
            double_free_attempts: 0,
        };
        assert(v.freed_pointers@.dom() =~= Set::<ObjectId>::empty());
        v
    }

    /// Register an allocation of `size` bytes aligned to `alignment`
    /// (replacing any earlier record for `id`). Refused with `Error::Memory`
    /// for size 0 or an alignment that is not a positive power of two.
    pub fn register_allocation(&mut self, id: ObjectId, size: usize, alignment: usize) -> (r: Result<()>)
        requires
            old(self).wf(),
        ensures
            final(self).wf(),
            final(self).freed() == old(self).freed(),
            final(self).uaf_count() == old(self).uaf_count(),
            final(self).double_free_count() == old(self).double_free_count(),
            size == 0 ==> (r matches Err(Error::Memory(m)) && m@ == "Zero-size allocation not allowed"@)
                && final(self).allocations_view() == old(self).allocations_view(),
            size != 0 && !valid_alignment(alignment) ==> (r matches Err(Error::Memory(m)) && m@ == "Invalid alignment"@)
                && final(self).allocations_view() == old(self).allocations_view(),
            size != 0 && valid_alignment(alignment) ==> r.is_ok() && final(self).allocations_view()
                == old(self).allocations_view().insert(id, MemorySafetyAudit {
                    allocation_id: id, size, alignment, freed: false, use_count: 0 }),
    {
        if size == 0 {
            return Err(Error::Memory(owned("Zero-size allocation not allowed")));
        }
        if !(alignment > 0 && usize_is_power_of_two(alignment)) {
            return Err(Error::Memory(owned("Invalid alignment")));
        }
        self.allocations.insert(id, MemorySafetyAudit { allocation_id: id, size, alignment, freed: false, use_count: 0 });
        Ok(())
    }

    /// Record a use of `id`: refused (and counted as a use-after-free
    /// attempt) once `id` is freed; refused for an unknown allocation.
    pub fn record_use(&mut self, id: &ObjectId) -> (r: Result<()>)
        requires
            old(self).wf(),
            old(self).uaf_count() < usize::MAX,
            old(self).allocations_view().contains_key(*id) ==> old(self).allocations_view()[*id].use_count < usize::MAX,
        ensures
            final(self).wf(),
            final(self).freed() == old(self).freed(),
            final(self).double_free_count() == old(self).double_free_count(),
            ({
                let known = old(self).allocations_view().contains_key(*id);
                let freed = old(self).freed().contains(*id) || (known && old(self).allocations_view()[*id].freed);
                &&& freed ==> (r matches Err(Error::Memory(m)) && m@ == "Use-after-free detected"@)
                    && final(self).uaf_count() == old(self).uaf_count() + 1
                    && final(self).allocations_view() == old(self).allocations_view()
                &&& !freed && !known ==> (r matches Err(Error::Memory(m)) && m@ == "Unknown allocation"@)
                    && final(self).uaf_count() == old(self).uaf_count()
                    && final(self).allocations_view() == old(self).allocations_view()
                &&& !freed && known ==> r.is_ok()
                    && final(self).uaf_count() == old(self).uaf_count()
                    && final(self).allocations_view() == old(self).allocations_view().insert(*id, MemorySafetyAudit {
                        use_count: (old(self).allocations_view()[*id].use_count + 1) as usize,
                        ..old(self).allocations_view()[*id] })
            }),
    {
        if self.freed_pointers.contains_key(id) {
            self.use_after_free_attempts = self.use_after_free_attempts + 1;
            return Err(Error::Memory(owned("Use-after-free detected")));
        }
        match self.allocations.index_of(id) {
            Some(pos) => {
                let mut a = self.allocations.entries[pos].1;
                if a.freed {
                    self.use_after_free_attempts = self.use_after_free_attempts + 1;
                    return Err(Error::Memory(owned("Use-after-free detected")));
                }
                a.use_count = a.use_count + 1;
                self.allocations.set_value(pos, a);
                Ok(())
            },
            None => Err(Error::Memory(owned("Unknown allocation"))),
        }
    }

    /// Record that `id` is freed: refused (and counted as a double-free
    /// attempt) when it already was; refused for an unknown allocation.
    pub fn record_free(&mut self, id: &ObjectId) -> (r: Result<()>)
        requires
            old(self).wf(),
            old(self).double_free_count() < usize::MAX,
        ensures
            final(self).wf(),
            final(self).uaf_count() == old(self).uaf_count(),
            ({
                let known = old(self).allocations_view().contains_key(*id);
                let freed = old(self).freed().contains(*id) || (known && old(self).allocations_view()[*id].freed);
                &&& freed ==> (r matches Err(Error::Memory(m)) && m@ == "Double-free detected"@)
                    && final(self).double_free_count() == old(self).double_free_count() + 1
                    && final(self).allocations_view() == old(self).allocations_view()
                    && final(self).freed() == old(self).freed()
                &&& !freed && !known ==> (r matches Err(Error::Memory(m)) && m@ == "Unknown allocation"@)
                    && final(self).double_free_count() == old(self).double_free_count()
                    && final(self).allocations_view() == old(self).allocations_view()
                    && final(self).freed() == old(self).freed()
                &&& !freed && known ==> r.is_ok()
                    && final(self).double_free_count() == old(self).double_free_count()
                    && final(self).allocations_view() == old(self).allocations_view().insert(*id, MemorySafetyAudit {
                        freed: true, ..old(self).allocations_view()[*id] })
                    && final(self).freed() == old(self).freed().insert(*id)
            }),
    {
        if self.freed_pointers.contains_key(id) {
            self.double_free_attempts = self.double_free_attempts + 1;
            return Err(Error::Memory(owned("Double-free detected")));
        }
        match self.allocations.index_of(id) {
            Some(pos) => {
                let mut a = self.allocations.entries[pos].1;
                if a.freed {
                    self.double_free_attempts = self.double_free_attempts + 1;
                    return Err(Error::Memory(owned("Double-free detected")));
                }
                a.freed = true;
                self.allocations.set_value(pos, a);
                self.freed_pointers.insert(*id, ());
                assert(self.freed_pointers@.dom() =~= old(self).freed_pointers@.dom().insert(*id));
                Ok(())
            },
            None => Err(Error::Memory(owned("Unknown allocation"))),
        }
    }

    /// Whether `offset..offset + size` lies inside allocation `id`:
    /// `Error::Memory` for an overflow or an unknown allocation.
    pub fn check_bounds(&self, id: &ObjectId, offset: usize, size: usize) -> (r: Result<()>)
        requires
            self.wf(),
            self.allocations_view().contains_key(*id) ==> offset + size <= usize::MAX,
        ensures
            !self.allocations_view().contains_key(*id) ==> (r matches Err(Error::Memory(m)) && m@ == "Unknown allocation"@),
            self.allocations_view().contains_key(*id) && offset + size > self.allocations_view()[*id].size
                ==> (r matches Err(Error::Memory(m)) && m@ == "Buffer overflow detected"@),
            self.allocations_view().contains_key(*id) && offset + size <= self.allocations_view()[*id].size ==> r.is_ok(),
    {
        match self.allocations.get(id) {
            Some(a) => {
                if offset + size > a.size {
                    return Err(Error::Memory(owned("Buffer overflow detected")));
                }
                Ok(())
            },
            None => Err(Error::Memory(owned("Unknown allocation"))),
        }
    }

    /// Check every allocation for use after free, a bad alignment and zero
    /// size. Three checks per allocation plus every refused use or free
    /// count toward the total.
    pub fn audit(&self) -> (r: AuditResult)
        requires
            self.wf(),
            self.allocation_entries().len() * 3 + self.uaf_count() + self.double_free_count() <= usize::MAX,
        ensures
            r.issues@.map_values(|s: String| s@) == all_issues(self.allocation_entries()),
            r.failed_checks == all_issues(self.allocation_entries()).len(),
            r.passed == (r.failed_checks == 0),
            r.total_checks == self.allocation_entries().len() * 3 + self.uaf_count() + self.double_free_count(),
    {
        let ghost s = self.allocations.entries@;
        let mut issues: Vec<String> = Vec::new();
        let mut failed: usize = 0;
        let mut i: usize = 0;
        while i < self.allocations.entries.len()
            invariant
                s == self.allocations.entries@,
                i <= s.len(),
                s.len() * 3 <= usize::MAX,
                issues@.map_values(|t: String| t@) == all_issues(s.subrange(0, i as int)),
                failed == issues@.len(),
                failed <= 3 * i,
            decreases s.len() - i,
        {
            let id = self.allocations.entries[i].0;
            let a = self.allocations.entries[i].1;
            let ghost before = issues@.map_values(|t: String| t@);
            if a.freed && a.use_count > 0 {
                issues.push(owned("Potential use-after-free: ").concat(id.to_text().as_str()));
                failed = failed + 1;
            }
            if !(a.alignment > 0 && usize_is_power_of_two(a.alignment)) {
                issues.push(owned("Invalid alignment for ").concat(id.to_text().as_str()));
                failed = failed + 1;
            }
            if a.size == 0 {
                issues.push(owned("Zero-size allocation: ").concat(id.to_text().as_str()));
                failed = failed + 1;
            }
            proof {
                assert(s.subrange(0, i as int + 1).drop_last() =~= s.subrange(0, i as int));
                assert(issues@.map_values(|t: String| t@) =~= before + issues_of(id, a));
            }
            i = i + 1;
        }
        assert(s.subrange(0, i as int) =~= s);
        let total = self.allocations.entries.len() * 3 + self.use_after_free_attempts + self.double_free_attempts;
        AuditResult { passed: failed == 0, total_checks: total, failed_checks: failed, issues }
    }

    /// (identity, size) of every allocation not yet freed, in table order.
    pub fn get_leaked_allocations(&self) -> (r: Vec<(ObjectId, usize)>)
        ensures
            r@ == self.allocation_entries().filter(|e: (ObjectId, MemorySafetyAudit)| !e.1.freed).map_values(
                |e: (ObjectId, MemorySafetyAudit)| (e.0, e.1.size)),
    {
        let ghost pred = |e: (ObjectId, MemorySafetyAudit)| !e.1.freed;
        let ghost f = |e: (ObjectId, MemorySafetyAudit)| (e.0, e.1.size);
        let ghost l = self.allocations.entries@;
        let mut out: Vec<(ObjectId, usize)> = Vec::new();
        let mut i: usize = 0;
        while i < self.allocations.entries.len()
            invariant
                l == self.allocations.entries@,
                i <= l.len(),
                pred == (|e: (ObjectId, MemorySafetyAudit)| !e.1.freed),
                f == (|e: (ObjectId, MemorySafetyAudit)| (e.0, e.1.size)),
                out@ == l.subrange(0, i as int).filter(pred).map_values(f),
            decreases l.len() - i,
        {
            proof {
                assert(l.subrange(0, i as int + 1) =~= l.subrange(0, i as int).push(l[i as int]));
                l.subrange(0, i as int).lemma_filter_push(l[i as int], pred);
            }
            let e = self.allocations.entries[i];
            if !e.1.freed {
                out.push((e.0, e.1.size));
                assert(out@ =~= l.subrange(0, i as int).filter(pred).push(l[i as int]).map_values(f));
            }
            i = i + 1;
        }
        assert(l.subrange(0, l.len() as int) =~= l);
        out
    }

    pub fn get_use_after_free_count(&self) -> (n: usize)
        ensures
            n == self.uaf_count(),
    {
        self.use_after_free_attempts
    }

    pub fn get_double_free_count(&self) -> (n: usize)
        ensures
            n == self.double_free_count(),
    {
        self.double_free_attempts
    }

    /// Forget every allocation, free and attempt.
    pub fn reset(&mut self)
        ensures
            final(self).wf(),
            final(self).allocations_view() == Map::<ObjectId, MemorySafetyAudit>::empty(),
            final(self).allocation_entries().len() == 0,
            final(self).freed() == Set::<ObjectId>::empty(),
            final(self).uaf_count() == 0 && final(self).double_free_count() == 0,
    {
        self.allocations.clear();
        self.freed_pointers.clear();
        self.use_after_free_attempts = 0;
        self.double_free_attempts = 0;
        assert(self.freed_pointers@.dom() =~= Set::<ObjectId>::empty());
        assert(self.allocations.entries@.len() == 0);
    }
}

} // verus!
