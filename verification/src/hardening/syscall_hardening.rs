//! System-call filtering: a whitelist, parameter and return-value checks,
//! a per-driver rate limit and per-driver call accounting.
use vstd::prelude::*;
use crate::common::{owned, unix_time_millis, Error, ObjectId, Result};
use crate::keyed::{lemma_map_of_index, lemma_map_of_update, KeyEq, VecMap};

verus! {

#[derive(Clone, Copy, Debug, PartialEq, Eq, Hash, Structural)]
pub enum SyscallType {
    Read,
    Write,
    Open,
    Close,
    Stat,
    Mmap,
    Mprotect,
    Brk,
    Exit,
    Fork,
    Execve,
    Unknown(usize),
}

impl View for SyscallType {
    type V = SyscallType;

    open spec fn view(&self) -> SyscallType {
        *self
    }
}

impl KeyEq for SyscallType {
    fn key_eq(&self, other: &Self) -> (r: bool) {
        *self == *other
    }

    fn key_clone(&self) -> (r: Self) {
        *self
    }
}

/// The whitelist, as a list without repeats.
#[derive(Clone, Debug)]
pub struct SyscallPolicy {
    pub allowed_syscalls: Vec<SyscallType>,
    pub max_calls_per_second: usize,
    pub validate_parameters: bool,
    pub validate_return_values: bool,
}

/// The system calls a default policy allows.
pub open spec fn default_allowed() -> Set<SyscallType> {
    set![SyscallType::Read, SyscallType::Write, SyscallType::Close, SyscallType::Exit]
}

impl SyscallPolicy {
    pub open spec fn wf(&self) -> bool {
        self.allowed_syscalls@.no_duplicates()
    }

    /// The whitelist as a set.
    pub open spec fn allowed(&self) -> Set<SyscallType> {
        self.allowed_syscalls@.to_set()
    }

    /// Whether `s` is whitelisted.
    pub fn allows(&self, s: SyscallType) -> (b: bool)
        ensures
            b == self.allowed().contains(s),
    {
        let mut i: usize = 0;
        while i < self.allowed_syscalls.len()
            invariant
                i <= self.allowed_syscalls@.len(),
                forall|j: int| 0 <= j < i ==> self.allowed_syscalls@[j] != s,
            decreases self.allowed_syscalls@.len() - i,
        {
            if self.allowed_syscalls[i] == s {
                assert(self.allowed_syscalls@.contains(s));
                return true;
            }
            i = i + 1;
        }
        false
    }
}

impl Default for SyscallPolicy {
    /// Read, write, close and exit; 10000 calls per second; both checks on.
    fn default() -> (p: SyscallPolicy)
        ensures
            p.wf(),
            p.allowed() == default_allowed(),
            p.max_calls_per_second == 10000,
            p.validate_parameters,
            p.validate_return_values,
    {
        let mut allowed: Vec<SyscallType> = Vec::new();
        allowed.push(SyscallType::Read);
        allowed.push(SyscallType::Write);
        allowed.push(SyscallType::Close);
        allowed.push(SyscallType::Exit);
        let p = SyscallPolicy {
            allowed_syscalls: allowed,
            max_calls_per_second: 10000,
            validate_parameters: true,
            validate_return_values: true,
        };
        assert(p.allowed_syscalls@ =~= seq![SyscallType::Read, SyscallType::Write, SyscallType::Close, SyscallType::Exit]);
        assert(p.allowed() =~= default_allowed()) by {
            assert(p.allowed_syscalls@[0] == SyscallType::Read);
            assert(p.allowed_syscalls@[1] == SyscallType::Write);
            assert(p.allowed_syscalls@[2] == SyscallType::Close);
            assert(p.allowed_syscalls@[3] == SyscallType::Exit);
        }
        p
    }
}

#[derive(Clone, Copy, Debug)]
pub struct SyscallAudit {
    pub syscall: SyscallType,
    pub count: u64,
    pub blocked: u64,
    pub parameter_violations: u64,
    pub return_value_violations: u64,
}

/// The record a driver's first call of a system call starts from.
pub open spec fn fresh_audit() -> SyscallAudit {
    SyscallAudit { syscall: SyscallType::Unknown(0), count: 0, blocked: 0, parameter_violations: 0, return_value_violations: 0 }
}

/// The audit of `s` in `m`, or a fresh one.
pub open spec fn audit_or_fresh(m: Map<SyscallType, SyscallAudit>, s: SyscallType) -> SyscallAudit {
    if m.contains_key(s) { m[s] } else { fresh_audit() }
}

/// `after` is hardener `before` once it validated `syscall` from `driver`
/// at `now_ms` and answered `r` (see `validate_syscall_at`).
pub open spec fn syscall_checked(before: SyscallHardener, after: SyscallHardener, driver: ObjectId,
    syscall: SyscallType, now_ms: u64, r: Result<()>) -> bool {
    &&& after.wf()
    &&& after.policy_view() == before.policy_view()
    &&& forall|d: ObjectId| d != driver ==> #[trigger] after.audits_of(d) == before.audits_of(d)
    &&& forall|d: ObjectId| d != driver ==> #[trigger] after.recent_calls(d) == before.recent_calls(d)
    &&& {
        let a = audit_or_fresh(before.audits_of(driver), syscall);
        let window = before.recent_calls(driver).filter(|t: u64| t + 1000 > now_ms);
        &&& !before.policy_view().allowed().contains(syscall) ==> {
            &&& r matches Err(Error::Security(m)) && m@ == "Syscall not whitelisted"@
            &&& after.audits_of(driver) == before.audits_of(driver).insert(syscall,
                SyscallAudit { blocked: (a.blocked + 1) as u64, ..a })
            &&& after.recent_calls(driver) == before.recent_calls(driver)
        }
        &&& before.policy_view().allowed().contains(syscall) && window.len() >= before.policy_view().max_calls_per_second ==> {
            &&& r matches Err(Error::Security(m)) && m@ == "Syscall rate limit exceeded"@
            &&& after.audits_of(driver) == before.audits_of(driver)
            &&& after.recent_calls(driver) == window
        }
        &&& before.policy_view().allowed().contains(syscall) && window.len() < before.policy_view().max_calls_per_second ==> {
            &&& r.is_ok()
            &&& after.audits_of(driver) == before.audits_of(driver).insert(syscall,
                SyscallAudit { count: (a.count + 1) as u64, ..a })
            &&& after.recent_calls(driver) == window.push(now_ms)
        }
    }
}

pub struct SyscallHardener {
    policy: SyscallPolicy,
    audits: VecMap<ObjectId, VecMap<SyscallType, SyscallAudit>>,
    call_times: VecMap<ObjectId, Vec<u64>>,
}

impl SyscallHardener {
    pub closed spec fn wf(&self) -> bool {
        &&& self.policy.wf()
        &&& self.audits.wf()
        &&& self.call_times.wf()
        &&& forall|d: ObjectId| #[trigger] self.audits@.contains_key(d) ==> self.audits@[d].wf()
    }

    pub closed spec fn policy_view(&self) -> SyscallPolicy {
        self.policy
    }

    /// Audit records of `driver`, by system call (empty when none).
    pub closed spec fn audits_of(&self, driver: ObjectId) -> Map<SyscallType, SyscallAudit> {
        if self.audits@.contains_key(driver) { self.audits@[driver]@ } else { Map::empty() }
    }

    /// Times (milliseconds) of `driver`'s recent accepted calls.
    pub closed spec fn recent_calls(&self, driver: ObjectId) -> Seq<u64> {
        if self.call_times@.contains_key(driver) { self.call_times@[driver]@ } else { Seq::empty() }
    }

    pub fn new(policy: SyscallPolicy) -> (h: SyscallHardener)
        requires
            policy.wf(),
        ensures
            h.wf(),
            h.policy_view() == policy,
            forall|d: ObjectId| h.audits_of(d) == Map::<SyscallType, SyscallAudit>::empty(),
            forall|d: ObjectId| h.recent_calls(d) == Seq::<u64>::empty(),
    {
        SyscallHardener { policy, audits: VecMap::new(), call_times: VecMap::new() }
    }

    /// Add one to the `blocked` (when `blocked`) or `count` field of
    /// `driver`'s audit of `s`.
    fn bump(&mut self, driver: ObjectId, s: SyscallType, blocked: bool)
        requires
            old(self).wf(),
            ({
                let a = audit_or_fresh(old(self).audits_of(driver), s);
                if blocked { a.blocked < u64::MAX } else { a.count < u64::MAX }
            }),
        ensures
            final(self).wf(),
            final(self).policy_view() == old(self).policy_view(),
            forall|d: ObjectId| #[trigger] final(self).recent_calls(d) == old(self).recent_calls(d),
            forall|d: ObjectId| d != driver ==> #[trigger] final(self).audits_of(d) == old(self).audits_of(d),
            ({
                let a = audit_or_fresh(old(self).audits_of(driver), s);
                final(self).audits_of(driver) == old(self).audits_of(driver).insert(s,
                    if blocked { SyscallAudit { blocked: (a.blocked + 1) as u64, ..a } }
                    else { SyscallAudit { count: (a.count + 1) as u64, ..a } })
            }),
    {
        let mut per: VecMap<SyscallType, SyscallAudit> = match self.audits.remove(&driver) {
            Some(m) => m,
            None => VecMap::new(),
        };
        let mut a = match per.get(&s) {
            Some(a) => *a,
            None => SyscallAudit { syscall: SyscallType::Unknown(0), count: 0, blocked: 0, parameter_violations: 0, return_value_violations: 0 },
        };
        if blocked {
            a.blocked = a.blocked + 1;
        } else {
            a.count = a.count + 1;
        }
        per.insert(s, a);
        let ghost pv = per;
        self.audits.insert(driver, per);
        proof {
            assert forall|d: ObjectId| #[trigger] self.audits@.contains_key(d) implies self.audits@[d].wf() by {
                if d != driver {
                    assert(old(self).audits@.contains_key(d));
                }
            }
            assert forall|d: ObjectId| d != driver implies #[trigger] self.audits_of(d) == old(self).audits_of(d) by {
                assert(self.audits@.contains_key(d) == old(self).audits@.contains_key(d));
            }
        }
    }

    /// Accept `syscall` from `driver_id` at `now_ms`: refused with
    /// `Error::Security` when it is not whitelisted (counted as blocked) or
    /// when the driver already made the policy's maximum of calls in the
    /// last second; otherwise counted and its time kept.
    pub fn validate_syscall_at(&mut self, driver_id: &ObjectId, syscall: SyscallType, now_ms: u64) -> (r: Result<()>)
        requires
            old(self).wf(),
            audit_or_fresh(old(self).audits_of(*driver_id), syscall).blocked < u64::MAX,
            audit_or_fresh(old(self).audits_of(*driver_id), syscall).count < u64::MAX,
        ensures
            final(self).wf(),
            final(self).policy_view() == old(self).policy_view(),
            forall|d: ObjectId| d != *driver_id ==> #[trigger] final(self).audits_of(d) == old(self).audits_of(d),
            forall|d: ObjectId| d != *driver_id ==> #[trigger] final(self).recent_calls(d) == old(self).recent_calls(d),
            syscall_checked(*old(self), *final(self), *driver_id, syscall, now_ms, r),
    {
        if !self.policy.allows(syscall) {
            self.bump(*driver_id, syscall, true);
            return Err(Error::Security(owned("Syscall not whitelisted")));
        }
        let ok = self.check_rate_limit(driver_id, now_ms);
        if !ok {
            return Err(Error::Security(owned("Syscall rate limit exceeded")));
        }
        self.bump(*driver_id, syscall, false);
        Ok(())
    }

    /// `validate_syscall_at` with the current time in milliseconds.
    pub fn validate_syscall(&mut self, driver_id: &ObjectId, syscall: SyscallType) -> (r: Result<()>)
        requires
            old(self).wf(),
            audit_or_fresh(old(self).audits_of(*driver_id), syscall).blocked < u64::MAX,
            audit_or_fresh(old(self).audits_of(*driver_id), syscall).count < u64::MAX,
        ensures
            final(self).wf(),
            final(self).policy_view() == old(self).policy_view(),
            !old(self).policy_view().allowed().contains(syscall) ==> r matches Err(Error::Security(_)),
            forall|d: ObjectId| d != *driver_id ==> #[trigger] final(self).audits_of(d) == old(self).audits_of(d),
            exists|now: u64| syscall_checked(*old(self), *final(self), *driver_id, syscall, now, r),
    {
        let now = unix_time_millis();
        let r = self.validate_syscall_at(driver_id, syscall, now);
        assert(syscall_checked(*old(self), *self, *driver_id, syscall, now, r));
        r
    }

    /// Drop calls older than one second before `now`; if fewer than the
    /// limit remain, keep `now` too and answer true.
    fn check_rate_limit(&mut self, driver_id: &ObjectId, now: u64) -> (ok: bool)
        requires
            old(self).wf(),
        ensures
            final(self).wf(),
            final(self).policy_view() == old(self).policy_view(),
            forall|d: ObjectId| #[trigger] final(self).audits_of(d) == old(self).audits_of(d),
            forall|d: ObjectId| d != *driver_id ==> #[trigger] final(self).recent_calls(d) == old(self).recent_calls(d),
            ({
                let window = old(self).recent_calls(*driver_id).filter(|t: u64| t + 1000 > now);
                &&& ok == (window.len() < old(self).policy_view().max_calls_per_second)
                &&& ok ==> final(self).recent_calls(*driver_id) == window.push(now)
                &&& !ok ==> final(self).recent_calls(*driver_id) == window
            }),
    {
        let times: Vec<u64> = match self.call_times.remove(driver_id) {
            Some(t) => t,
            None => Vec::new(),
        };
        let ghost pred = |t: u64| t + 1000 > now;
        let ghost l = times@;
        let mut kept: Vec<u64> = Vec::new();
        let mut i: usize = 0;
        while i < times.len()
            invariant
                l == times@,
                i <= l.len(),
                pred == (|t: u64| t + 1000 > now),
                kept@ == l.subrange(0, i as int).filter(pred),
            decreases l.len() - i,
        {
            proof {
                assert(l.subrange(0, i as int + 1) =~= l.subrange(0, i as int).push(l[i as int]));
                l.subrange(0, i as int).lemma_filter_push(l[i as int], pred);
            }
            if times[i] as u128 + 1000 > now as u128 {
                kept.push(times[i]);
            }
            i = i + 1;
        }
        assert(l.subrange(0, l.len() as int) =~= l);
        let ok = kept.len() < self.policy.max_calls_per_second;
        if ok {
            kept.push(now);
        }
        self.call_times.insert(*driver_id, kept);
        proof {
            assert forall|d: ObjectId| d != *driver_id implies #[trigger] self.recent_calls(d) == old(self).recent_calls(d) by {
                assert(self.call_times@.contains_key(d) == old(self).call_times@.contains_key(d));
            }
        }
        ok
    }

    /// With parameter checking on, every parameter must be non-zero (no
    /// null pointers).
    pub fn validate_parameters(&self, _syscall: &SyscallType, params: &[u64]) -> (r: Result<()>)
        ensures
            (!self.policy_view().validate_parameters || forall|i: int| 0 <= i < params@.len() ==> params@[i] != 0)
                ==> r.is_ok(),
            (self.policy_view().validate_parameters && exists|i: int| 0 <= i < params@.len() && params@[i] == 0)
                ==> (r matches Err(Error::Security(m)) && m@ == "Null pointer parameter"@),
    {
        if !self.policy.validate_parameters {
            return Ok(());
        }
        let mut i: usize = 0;
        while i < params.len()
            invariant
                i <= params@.len(),
                self.policy.validate_parameters,
                forall|j: int| 0 <= j < i ==> params@[j] != 0,
            decreases params@.len() - i,
        {
            if params[i] == 0 {
                return Err(Error::Security(owned("Null pointer parameter")));
            }
            i = i + 1;
        }
        Ok(())
    }

    /// With return-value checking on, values below -130 are refused.
    pub fn validate_return_value(&self, _syscall: &SyscallType, return_value: i64) -> (r: Result<()>)
        ensures
            (self.policy_view().validate_return_values && return_value < -130)
                ==> (r matches Err(Error::Security(m)) && m@ == "Invalid return value (out of range)"@),
            !(self.policy_view().validate_return_values && return_value < -130) ==> r.is_ok(),
    {
        if !self.policy.validate_return_values {
            return Ok(());
        }
        if return_value < -130 {
            return Err(Error::Security(owned("Invalid return value (out of range)")));
        }
        Ok(())
    }

    /// Whitelist `syscall` (no effect when it already is).
    pub fn add_allowed_syscall(&mut self, syscall: SyscallType)
        requires
            old(self).wf(),
        ensures
            final(self).wf(),
            final(self).policy_view().allowed() == old(self).policy_view().allowed().insert(syscall),
            final(self).policy_view().max_calls_per_second == old(self).policy_view().max_calls_per_second,
            final(self).policy_view().validate_parameters == old(self).policy_view().validate_parameters,
            final(self).policy_view().validate_return_values == old(self).policy_view().validate_return_values,
            forall|d: ObjectId| #[trigger] final(self).audits_of(d) == old(self).audits_of(d),
            forall|d: ObjectId| #[trigger] final(self).recent_calls(d) == old(self).recent_calls(d),
    {
        if !self.policy.allows(syscall) {
            self.policy.allowed_syscalls.push(syscall);
            proof {
                let s = old(self).policy.allowed_syscalls@;
                assert(self.policy.allowed_syscalls@ == s.push(syscall));
                assert(self.policy.allowed_syscalls@.no_duplicates()) by {
                    assert forall|i: int, j: int| 0 <= i < j < s.len() + 1 implies
                        self.policy.allowed_syscalls@[i] != self.policy.allowed_syscalls@[j] by {
                        if j == s.len() {
                            assert(s.contains(s[i]));
                        }
                    }
                }
                assert(self.policy.allowed_syscalls@.to_set() =~= s.to_set().insert(syscall)) by {
                    assert forall|x: SyscallType| self.policy.allowed_syscalls@.contains(x) <==> s.contains(x) || x == syscall by {
                        if self.policy.allowed_syscalls@.contains(x) && x != syscall {
                            let k = choose|k: int| 0 <= k < s.len() + 1 && self.policy.allowed_syscalls@[k] == x;
                            assert(s[k] == x);
                        }
                        if s.contains(x) {
                            let k = choose|k: int| 0 <= k < s.len() && s[k] == x;
                            assert(self.policy.allowed_syscalls@[k] == x);
                        }
                        if x == syscall {
                            assert(self.policy.allowed_syscalls@[s.len() as int] == x);
                        }
                    }
                }
            }
        } else {
            assert(old(self).policy.allowed_syscalls@.to_set().insert(syscall) =~= old(self).policy.allowed_syscalls@.to_set());
        }
    }

    /// Take `syscall` off the whitelist.
    pub fn remove_allowed_syscall(&mut self, syscall: SyscallType)
        requires
            old(self).wf(),
        ensures
            final(self).wf(),
            final(self).policy_view().allowed() == old(self).policy_view().allowed().remove(syscall),
            final(self).policy_view().max_calls_per_second == old(self).policy_view().max_calls_per_second,
            final(self).policy_view().validate_parameters == old(self).policy_view().validate_parameters,
            final(self).policy_view().validate_return_values == old(self).policy_view().validate_return_values,
            forall|d: ObjectId| #[trigger] final(self).audits_of(d) == old(self).audits_of(d),
            forall|d: ObjectId| #[trigger] final(self).recent_calls(d) == old(self).recent_calls(d),
    {
        let ghost pred = |x: SyscallType| x != syscall;
        let ghost l = self.policy.allowed_syscalls@;
        let mut kept: Vec<SyscallType> = Vec::new();
        let mut i: usize = 0;
        while i < self.policy.allowed_syscalls.len()
            invariant
                l == self.policy.allowed_syscalls@,
                i <= l.len(),
                pred == (|x: SyscallType| x != syscall),
                kept@ == l.subrange(0, i as int).filter(pred),
            decreases l.len() - i,
        {
            proof {
                assert(l.subrange(0, i as int + 1) =~= l.subrange(0, i as int).push(l[i as int]));
                l.subrange(0, i as int).lemma_filter_push(l[i as int], pred);
            }
            if self.policy.allowed_syscalls[i] != syscall {
                kept.push(self.policy.allowed_syscalls[i]);
            }
            i = i + 1;
        }
        assert(l.subrange(0, l.len() as int) =~= l);
        self.policy.allowed_syscalls = kept;
        proof {
            broadcast use vstd::seq_lib::group_filter_ensures;
            l.filter_lemma(pred);
            assert(self.policy.allowed_syscalls@.to_set() =~= l.to_set().remove(syscall)) by {
                assert forall|x: SyscallType| self.policy.allowed_syscalls@.contains(x) <==> l.contains(x) && x != syscall by {
                    if l.contains(x) && x != syscall {
                        let k = choose|k: int| 0 <= k < l.len() && l[k] == x;
                        l.lemma_filter_contains(pred, k);
                    }
                    if self.policy.allowed_syscalls@.contains(x) {
                        l.lemma_filter_contains_rev(pred, x);
                        let k = choose|k: int| 0 <= k < l.filter(pred).len() && l.filter(pred)[k] == x;
                        assert(pred(l.filter(pred)[k]));
                    }
                }
            }
            lemma_filter_no_dup(l, pred);
        }
    }

    /// The audit of `syscall` for `driver_id`, if it was ever called or blocked.
    pub fn get_audit(&self, driver_id: &ObjectId, syscall: &SyscallType) -> (r: Option<SyscallAudit>)
        requires
            self.wf(),
        ensures
            match r {
                Some(a) => self.audits_of(*driver_id).contains_key(*syscall) && a == self.audits_of(*driver_id)[*syscall],
                None => !self.audits_of(*driver_id).contains_key(*syscall),
            },
    {
        match self.audits.get(driver_id) {
            Some(per) => match per.get(syscall) {
                Some(a) => Some(*a),
                None => None,
            },
            None => None,
        }
    }

    /// A copy of every audit of `driver_id` (empty when there are none).
    pub fn get_driver_audit(&self, driver_id: &ObjectId) -> (r: VecMap<SyscallType, SyscallAudit>)
        requires
            self.wf(),
        ensures
            r.wf(),
            r@ == self.audits_of(*driver_id),
    {
        match self.audits.get(driver_id) {
            Some(per) => {
                let mut out: Vec<(SyscallType, SyscallAudit)> = Vec::new();
                let mut i: usize = 0;
                while i < per.entries.len()
                    invariant
                        i <= per.entries@.len(),
                        out@ == per.entries@.subrange(0, i as int),
                    decreases per.entries@.len() - i,
                {
                    out.push(per.entries[i]);
                    assert(per.entries@.subrange(0, i as int + 1) =~= per.entries@.subrange(0, i as int).push(per.entries@[i as int]));
                    i = i + 1;
                }
                assert(per.entries@.subrange(0, i as int) =~= per.entries@);
                VecMap { entries: out }
            },
            None => VecMap::new(),
        }
    }

    /// Forget `driver_id`'s audits and call times.
    pub fn reset(&mut self, driver_id: &ObjectId)
        requires
            old(self).wf(),
        ensures
            final(self).wf(),
            final(self).policy_view() == old(self).policy_view(),
            final(self).audits_of(*driver_id) == Map::<SyscallType, SyscallAudit>::empty(),
            final(self).recent_calls(*driver_id) == Seq::<u64>::empty(),
            forall|d: ObjectId| d != *driver_id ==> #[trigger] final(self).audits_of(d) == old(self).audits_of(d),
            forall|d: ObjectId| d != *driver_id ==> #[trigger] final(self).recent_calls(d) == old(self).recent_calls(d),
    {
        let _ = self.audits.remove(driver_id);
        let _ = self.call_times.remove(driver_id);
    }
}

/// Filtering keeps a sequence free of repeats.
proof fn lemma_filter_no_dup<A>(s: Seq<A>, p: spec_fn(A) -> bool)
    requires
        s.no_duplicates(),
    ensures
        s.filter(p).no_duplicates(),
    decreases s.len(),
{
    if s.len() > 0 {
        let t = s.drop_last();
        let x = s.last();
        assert(s =~= t.push(x));
        assert(t.no_duplicates()) by {
            assert forall|i: int, j: int| 0 <= i < t.len() && 0 <= j < t.len() && i != j implies t[i] != t[j] by {
                assert(t[i] == s[i] && t[j] == s[j]);
            }
        }
        lemma_filter_no_dup(t, p);
        t.lemma_filter_push(x, p);
        if p(x) {
            let f = t.filter(p);
            if f.contains(x) {
                t.lemma_filter_contains_rev(p, x);
                let k = choose|k: int| 0 <= k < t.len() && t[k] == x;
                assert(s[k] == s[s.len() - 1]);
            }
            assert forall|i: int, j: int| 0 <= i < f.len() + 1 && 0 <= j < f.len() + 1 && i != j
                implies f.push(x)[i] != f.push(x)[j] by {
                if i == f.len() {
                    assert(f.contains(f[j]));
                } else if j == f.len() {
                    assert(f.contains(f[i]));
                }
            }
        }
    }
}

/// The rate limit holds: a syscall is let through only when it is
/// whitelisted, and once it is, the calls the driver has made within the
/// last second (the ones kept) number at most the policy's per-second limit
/// and all lie within that second, the new call last. A refused call adds
/// no call to those kept.
pub proof fn lemma_rate_limit_holds(
    before: SyscallHardener,
    after: SyscallHardener,
    driver: ObjectId,
    syscall: SyscallType,
    now_ms: u64,
    r: Result<()>,
)
    requires
        syscall_checked(before, after, driver, syscall, now_ms, r),
    ensures
        r.is_ok() ==> before.policy_view().allowed().contains(syscall),
        r.is_ok() ==> after.recent_calls(driver).len() <= before.policy_view().max_calls_per_second,
        r.is_ok() ==> forall|i: int| 0 <= i < after.recent_calls(driver).len() ==>
            #[trigger] after.recent_calls(driver)[i] + 1000 > now_ms,
        r.is_ok() ==> after.recent_calls(driver).last() == now_ms,
        r.is_err() ==> after.recent_calls(driver).len() <= before.recent_calls(driver).len(),
{
    let window = before.recent_calls(driver).filter(|t: u64| t + 1000 > now_ms);
    before.recent_calls(driver).filter_lemma(|t: u64| t + 1000 > now_ms);
    if r.is_ok() {
        let w2 = window.push(now_ms);
        assert forall|i: int| 0 <= i < w2.len() implies #[trigger] w2[i] + 1000 > now_ms by {
            if i < window.len() {
                assert(window.contains(window[i]));
            }
        }
    }
}

} // verus!
