//! Per-driver security contexts, the enforcer that routes checks to them,
//! and a caching permission checker in front of the enforcer.
use vstd::prelude::*;
use crate::common::{owned, Error, ObjectId, Result};
use crate::keyed::{lemma_map_of_index, lemma_map_of_update, VecMap};
use crate::lki::security::{
    first_valid, grant_expired, has_valid, Capability, CapabilityGrant, CapabilityManager,
    SecurityLevel, SecurityPolicy,
};

verus! {

/// The capability manager `after` is `before` with the expired grants of
/// `driver` dropped, everything else (counters included) unchanged.
#[verifier::opaque]
pub open spec fn pruned_for(after: CapabilityManager, before: CapabilityManager, driver: ObjectId, now: u64) -> bool {
    &&& after.wf()
    &&& after.grants@.contains_key(driver) == before.grants@.contains_key(driver)
    &&& after.grants_of(driver) == before.grants_of(driver).filter(|g: CapabilityGrant| !grant_expired(g, now))
    &&& after.others_unchanged(&before, driver)
    &&& after.total_grants == before.total_grants
    &&& after.expired_grants == before.expired_grants
    &&& after.revoked_grants == before.revoked_grants
}

/// Whether an operation needing `cap` at `now` is approved in context `c`:
/// always under an unrestricted policy, otherwise exactly when the driver
/// holds a valid grant of `cap`.
pub open spec fn approves(c: SecurityContext, cap: Capability, now: u64) -> bool {
    c.policy.security_level == SecurityLevel::Unrestricted
        || has_valid(c.capability_manager.grants_of(c.driver_id), cap, now)
}

/// Who is let through: an unrestricted context approves every operation;
/// any other context approves exactly the capabilities its driver holds a
/// grant for that has not expired (so a driver with no grants, or only
/// expired or other grants, is denied).
pub proof fn lemma_approval(c: SecurityContext, cap: Capability, now: u64)
    ensures
        c.policy.security_level == SecurityLevel::Unrestricted ==> approves(c, cap, now),
        c.policy.security_level != SecurityLevel::Unrestricted ==> (approves(c, cap, now) <==>
            exists|i: int| 0 <= i < c.capability_manager.grants_of(c.driver_id).len()
                && (#[trigger] c.capability_manager.grants_of(c.driver_id)[i]).capability == cap
                && now < c.capability_manager.grants_of(c.driver_id)[i].expires_at_ms),
        c.policy.security_level != SecurityLevel::Unrestricted
            && c.capability_manager.grants_of(c.driver_id).len() == 0 ==> !approves(c, cap, now),
{
}

/// `c1` is `c0` after one operation check for `cap` at `now`.
pub open spec fn operation_checked(c0: SecurityContext, c1: SecurityContext, cap: Capability, now: u64) -> bool {
    &&& c1.context_id == c0.context_id
    &&& c1.driver_id == c0.driver_id
    &&& c1.policy == c0.policy
    &&& c1.operation_count == c0.operation_count + 1
    &&& approves(c0, cap, now) ==> c1.approved_operations == c0.approved_operations + 1
        && c1.denied_operations == c0.denied_operations
    &&& !approves(c0, cap, now) ==> c1.denied_operations == c0.denied_operations + 1
        && c1.approved_operations == c0.approved_operations
    &&& c0.policy.security_level == SecurityLevel::Unrestricted ==> c1.capability_manager == c0.capability_manager
    &&& c0.policy.security_level != SecurityLevel::Unrestricted ==> pruned_for(
        c1.capability_manager, c0.capability_manager, c0.driver_id, now)
        && c1.capability_manager.reauth_requests == c0.capability_manager.reauth_requests
}

/// `c1` is `c0` after one reauthentication-aware check for `cap` at `now`,
/// which answered `r`.
#[verifier::opaque]
pub open spec fn reauth_checked(c0: SecurityContext, c1: SecurityContext, cap: Capability, now: u64, r: Result<bool>) -> bool {
    let l = c1.capability_manager.grants_of(c0.driver_id);
    &&& c1.context_id == c0.context_id
    &&& c1.driver_id == c0.driver_id
    &&& c1.policy == c0.policy
    &&& c1.operation_count == c0.operation_count + 1
    &&& pruned_for(c1.capability_manager, c0.capability_manager, c0.driver_id, now)
    &&& has_valid(l, cap, now) ==> {
        let g = l[first_valid(l, cap, now)];
        &&& r == Ok::<bool, Error>(g.reauth_required)
        &&& c1.approved_operations == c0.approved_operations + 1
        &&& c1.denied_operations == c0.denied_operations
        &&& c1.capability_manager.reauth_requests == c0.capability_manager.reauth_requests
            + if g.reauth_required { 1u64 } else { 0u64 }
    }
    &&& !has_valid(l, cap, now) ==> {
        &&& r matches Err(Error::Driver(_))
        &&& c1.denied_operations == c0.denied_operations + 1
        &&& c1.approved_operations == c0.approved_operations
        &&& c1.capability_manager.reauth_requests == c0.capability_manager.reauth_requests
    }
}

proof fn lemma_reauth_checked(c0: SecurityContext, c1: SecurityContext, cap: Capability, now: u64, r: Result<bool>)
    requires
        c1.context_id == c0.context_id,
        c1.driver_id == c0.driver_id,
        c1.policy == c0.policy,
        c1.operation_count == c0.operation_count + 1,
        pruned_for(c1.capability_manager, c0.capability_manager, c0.driver_id, now),
        ({
            let l = c1.capability_manager.grants_of(c0.driver_id);
            has_valid(l, cap, now) ==> {
                let g = l[first_valid(l, cap, now)];
                &&& r == Ok::<bool, Error>(g.reauth_required)
                &&& c1.approved_operations == c0.approved_operations + 1
                &&& c1.denied_operations == c0.denied_operations
                &&& c1.capability_manager.reauth_requests == c0.capability_manager.reauth_requests
                    + if g.reauth_required { 1u64 } else { 0u64 }
            }
        }),
        ({
            let l = c1.capability_manager.grants_of(c0.driver_id);
            !has_valid(l, cap, now) ==> {
                &&& r matches Err(Error::Driver(_))
                &&& c1.denied_operations == c0.denied_operations + 1
                &&& c1.approved_operations == c0.approved_operations
                &&& c1.capability_manager.reauth_requests == c0.capability_manager.reauth_requests
            }
        }),
    ensures
        reauth_checked(c0, c1, cap, now, r),
{
    reveal(reauth_checked);
}

#[derive(Debug, Clone)]
pub struct SecurityContext {
    pub context_id: ObjectId,
    pub driver_id: ObjectId,
    pub policy: SecurityPolicy,
    pub capability_manager: CapabilityManager,
    pub operation_count: u64,
    pub denied_operations: u64,
    pub approved_operations: u64,
}

impl SecurityContext {
    pub open spec fn wf(&self) -> bool {
        self.capability_manager.wf()
    }

    /// No counter of this context can overflow on one more check.
    pub open spec fn can_count(&self) -> bool {
        &&& self.operation_count < u64::MAX
        &&& self.denied_operations < u64::MAX
        &&& self.approved_operations < u64::MAX
        &&& self.capability_manager.reauth_requests < u64::MAX
    }

    /// The counters one check of `capability` at `now` bumps have room: the
    /// operation count, and the approved or the denied count, whichever the
    /// check's outcome bumps.
    pub open spec fn can_check(&self, capability: Capability, now: u64) -> bool {
        &&& self.operation_count < u64::MAX
        &&& approves(*self, capability, now) ==> self.approved_operations < u64::MAX
        &&& !approves(*self, capability, now) ==> self.denied_operations < u64::MAX
    }

    /// A fresh context for `driver_id` under `policy`, with no grants and
    /// zero counters.
    pub fn new(driver_id: ObjectId, policy: SecurityPolicy) -> (c: SecurityContext)
        ensures
            c.wf(),
            c.context_id.value != 0,
            c.driver_id == driver_id,
            c.policy == policy,
            c.capability_manager.grants@ == Map::<ObjectId, Vec<CapabilityGrant>>::empty(),
            c.capability_manager.total_grants == 0,
            c.capability_manager.expired_grants == 0,
            c.capability_manager.revoked_grants == 0,
            c.capability_manager.reauth_requests == 0,
            c.operation_count == 0 && c.denied_operations == 0 && c.approved_operations == 0,
    {
        SecurityContext {
            context_id: ObjectId::new(),
            driver_id,
            policy,
            capability_manager: CapabilityManager::new(),
            operation_count: 0,
            denied_operations: 0,
            approved_operations: 0,
        }
    }

    /// Count the operation and approve it (`Ok(true)`) or deny it
    /// (`Error::Driver`); see `approves`.
    pub fn check_operation(&mut self, capability: Capability, current_time_ms: u64) -> (r: Result<bool>)
        requires
            old(self).wf(),
            old(self).can_check(capability, current_time_ms),
        ensures
            final(self).wf(),
            operation_checked(*old(self), *final(self), capability, current_time_ms),
            approves(*old(self), capability, current_time_ms) ==> r == Ok::<bool, Error>(true),
            !approves(*old(self), capability, current_time_ms) ==> (r matches Err(Error::Driver(m))
                && m@ == "Capability not granted"@),
    {
        self.operation_count = self.operation_count + 1;
        match self.policy.security_level {
            SecurityLevel::Unrestricted => {
                self.approved_operations = self.approved_operations + 1;
                Ok(true)
            },
            _ => {
                let driver = self.driver_id;
                let granted = self.capability_manager.has_capability(driver, capability, current_time_ms);
                assert(pruned_for(self.capability_manager, old(self).capability_manager, driver, current_time_ms)) by {
                    reveal(pruned_for);
                }
                if granted {
                    self.approved_operations = self.approved_operations + 1;
                    Ok(true)
                } else {
                    self.denied_operations = self.denied_operations + 1;
                    Err(Error::Driver(owned("Capability not granted")))
                }
            },
        }
    }

    /// Count the operation and ask the capability manager whether the first
    /// valid grant of `capability` needs reauthentication.
    pub fn check_with_reauthentication(&mut self, capability: Capability, current_time_ms: u64) -> (r: Result<bool>)
        requires
            old(self).wf(),
            old(self).can_count(),
        ensures
            final(self).wf(),
            final(self).policy == old(self).policy,
            reauth_checked(*old(self), *final(self), capability, current_time_ms, r),
    {
        self.operation_count = self.operation_count + 1;
        let driver = self.driver_id;
        let res = self.capability_manager.check_with_reauth(driver, capability, current_time_ms);
        assert(pruned_for(self.capability_manager, old(self).capability_manager, driver, current_time_ms)) by {
            reveal(pruned_for);
        }
        let r = match res {
            Ok(needs_reauth) => {
                self.approved_operations = self.approved_operations + 1;
                Ok(needs_reauth)
            },
            Err(_) => {
                self.denied_operations = self.denied_operations + 1;
                Err(Error::Driver(owned("Capability not granted")))
            },
        };
        proof {
            lemma_reauth_checked(*old(self), *self, capability, current_time_ms, r);
        }
        r
    }
}

/// Why `enforce` in context `cid` of `e` refuses: the context is unknown, or
/// it does not grant the capability.
pub open spec fn enforce_denial(e: SecurityEnforcer, cid: ObjectId) -> Seq<char> {
    if e.contexts@.contains_key(cid) {
        "Capability not granted"@
    } else {
        "Context not found"@
    }
}

/// `e1` is `e0` after one `enforce` of `cap` in context `cid` at `now`,
/// which succeeded exactly when `ok`: an unknown context is refused; a known
/// one decides by `approves` and is updated by `operation_checked`.
pub open spec fn enforced(e0: SecurityEnforcer, e1: SecurityEnforcer, cid: ObjectId, cap: Capability, now: u64, ok: bool) -> bool {
    &&& e1.total_checks == e0.total_checks + 1
    &&& !e0.contexts@.contains_key(cid) ==> {
        &&& !ok
        &&& e1.contexts@ == e0.contexts@
        &&& e1.total_denials == e0.total_denials + 1
        &&& e1.critical_denials == e0.critical_denials
    }
    &&& e0.contexts@.contains_key(cid) ==> {
        let c0 = e0.contexts@[cid];
        let c1 = e1.contexts@[cid];
        &&& e1.contexts@.contains_key(cid)
        &&& e1.contexts@ == e0.contexts@.insert(cid, c1)
        &&& operation_checked(c0, c1, cap, now)
        &&& ok == approves(c0, cap, now)
        &&& e1.total_denials == e0.total_denials + if ok { 0u64 } else { 1u64 }
        &&& e1.critical_denials == e0.critical_denials
            + if !ok && c0.policy.security_level == SecurityLevel::Critical { 1u64 } else { 0u64 }
    }
}

/// Routes capability checks to per-driver security contexts, keyed by
/// context identity.
#[derive(Debug, Clone)]
pub struct SecurityEnforcer {
    pub contexts: VecMap<ObjectId, SecurityContext>,
    pub total_checks: u64,
    pub total_denials: u64,
    pub critical_denials: u64,
}

impl Default for SecurityEnforcer {
    fn default() -> (e: SecurityEnforcer)
        ensures
            e.wf(),
            e.contexts@ == Map::<ObjectId, SecurityContext>::empty(),
            e.total_checks == 0 && e.total_denials == 0 && e.critical_denials == 0,
    {
        SecurityEnforcer::new()
    }
}

impl SecurityEnforcer {
    pub open spec fn wf(&self) -> bool {
        &&& self.contexts.wf()
        &&& contexts_wf(self.contexts@)
    }

    /// One more check of `context_id` cannot overflow a counter.
    pub open spec fn can_enforce(&self, context_id: ObjectId) -> bool {
        &&& self.total_checks < u64::MAX
        &&& self.total_denials < u64::MAX
        &&& self.critical_denials < u64::MAX
        &&& self.contexts@.contains_key(context_id) ==> self.contexts@[context_id].can_count()
    }

    pub fn new() -> (e: SecurityEnforcer)
        ensures
            e.wf(),
            e.contexts@ == Map::<ObjectId, SecurityContext>::empty(),
            e.total_checks == 0 && e.total_denials == 0 && e.critical_denials == 0,
    {
        SecurityEnforcer { contexts: VecMap::new(), total_checks: 0, total_denials: 0, critical_denials: 0 }
    }

    /// Create a fresh context for `driver_id` under `policy` and return its
    /// identity.
    pub fn register_driver(&mut self, driver_id: ObjectId, policy: SecurityPolicy) -> (r: Result<ObjectId>)
        requires
            old(self).wf(),
        ensures
            final(self).wf(),
            r matches Ok(id) && {
                &&& id.value != 0
                &&& final(self).contexts@.contains_key(id)
                &&& final(self).contexts@ == old(self).contexts@.insert(id, final(self).contexts@[id])
                &&& final(self).contexts@[id].context_id == id
                &&& final(self).contexts@[id].driver_id == driver_id
                &&& final(self).contexts@[id].policy == policy
                &&& final(self).contexts@[id].capability_manager.grants@.len() == 0
                &&& final(self).contexts@[id].operation_count == 0
                &&& final(self).contexts@[id].denied_operations == 0
                &&& final(self).contexts@[id].approved_operations == 0
            },
            final(self).total_checks == old(self).total_checks,
            final(self).total_denials == old(self).total_denials,
            final(self).critical_denials == old(self).critical_denials,
    {
        let context = SecurityContext::new(driver_id, policy);
        let context_id = context.context_id;
        self.contexts.insert(context_id, context);
        Ok(context_id)
    }

    /// Drop the context `context_id`; refused with `Error::Driver` when
    /// there is none.
    pub fn unregister_driver(&mut self, context_id: ObjectId) -> (r: Result<()>)
        requires
            old(self).wf(),
        ensures
            final(self).wf(),
            final(self).contexts@ == old(self).contexts@.remove(context_id),
            old(self).contexts@.contains_key(context_id) ==> r.is_ok(),
            !old(self).contexts@.contains_key(context_id) ==> r matches Err(Error::Driver(_)),
            final(self).total_checks == old(self).total_checks,
            final(self).total_denials == old(self).total_denials,
            final(self).critical_denials == old(self).critical_denials,
    {
        match self.contexts.remove(&context_id) {
            Some(_) => Ok(()),
            None => Err(Error::Driver(owned("Context not found"))),
        }
    }

    /// Check `capability` in context `context_id`. Every call counts a
    /// check; a denial (or an unknown context) counts a denial, and a denial
    /// under a critical policy also counts a critical denial.
    pub fn enforce(&mut self, context_id: ObjectId, capability: Capability, current_time_ms: u64) -> (r: Result<()>)
        requires
            old(self).wf(),
            old(self).can_enforce(context_id),
        ensures
            final(self).wf(),
            enforced(*old(self), *final(self), context_id, capability, current_time_ms, r.is_ok()),
            r.is_err() ==> (r matches Err(Error::Driver(m)) && m@ == enforce_denial(*old(self), context_id)),
    {
        self.total_checks = self.total_checks + 1;
        match self.contexts.index_of(&context_id) {
            Some(pos) => {
                let ghost s0 = self.contexts.entries@;
                proof {
                    lemma_map_of_index(s0, pos as int);
                }
                let r = self.contexts.entries[pos].1.check_operation(capability, current_time_ms);
                let ghost e = self.contexts.entries@[pos as int];
                proof {
                    assert(self.contexts.entries@ == s0.update(pos as int, e));
                    lemma_map_of_update(s0, pos as int, e);
                }
                match r {
                    Ok(_) => Ok(()),
                    Err(err) => {
                        self.total_denials = self.total_denials + 1;
                        if self.contexts.entries[pos].1.policy.security_level == SecurityLevel::Critical {
                            self.critical_denials = self.critical_denials + 1;
                        }
                        Err(err)
                    },
                }
            },
            None => {
                self.total_denials = self.total_denials + 1;
                Err(Error::Driver(owned("Context not found")))
            },
        }
    }

    /// Like `enforce`, through the context's reauthentication-aware check:
    /// `Ok(b)` tells whether reauthentication is required.
    pub fn enforce_with_reauth(&mut self, context_id: ObjectId, capability: Capability, current_time_ms: u64) -> (r: Result<bool>)
        requires
            old(self).wf(),
            old(self).can_enforce(context_id),
        ensures
            final(self).wf(),
            final(self).total_checks == old(self).total_checks + 1,
            !old(self).contexts@.contains_key(context_id) ==> {
                &&& r matches Err(Error::Driver(m)) && m@ == "Context not found"@
                &&& final(self).contexts@ == old(self).contexts@
                &&& final(self).total_denials == old(self).total_denials + 1
                &&& final(self).critical_denials == old(self).critical_denials
            },
            old(self).contexts@.contains_key(context_id) ==> {
                let c0 = old(self).contexts@[context_id];
                let c1 = final(self).contexts@[context_id];
                &&& final(self).contexts@.contains_key(context_id)
                &&& final(self).contexts@ == old(self).contexts@.insert(context_id, c1)
                &&& reauth_checked(c0, c1, capability, current_time_ms, r)
                &&& final(self).total_denials == old(self).total_denials + if r.is_ok() { 0u64 } else { 1u64 }
                &&& final(self).critical_denials == old(self).critical_denials
                    + if r.is_err() && c0.policy.security_level == SecurityLevel::Critical { 1u64 } else { 0u64 }
            },
    {
        self.total_checks = self.total_checks + 1;
        match self.contexts.index_of(&context_id) {
            Some(pos) => {
                let ghost s0 = self.contexts.entries@;
                proof {
                    lemma_map_of_index(s0, pos as int);
                }
                let r = self.contexts.entries[pos].1.check_with_reauthentication(capability, current_time_ms);
                let ghost e = self.contexts.entries@[pos as int];
                proof {
                    assert(self.contexts.entries@ == s0.update(pos as int, e));
                    lemma_map_of_update(s0, pos as int, e);
                }
                match r {
                    Ok(needs_reauth) => Ok(needs_reauth),
                    Err(err) => {
                        self.total_denials = self.total_denials + 1;
                        if self.contexts.entries[pos].1.policy.security_level == SecurityLevel::Critical {
                            self.critical_denials = self.critical_denials + 1;
                        }
                        Err(err)
                    },
                }
            },
            None => {
                self.total_denials = self.total_denials + 1;
                Err(Error::Driver(owned("Context not found")))
            },
        }
    }

    /// The context `context_id`, if registered.
    pub fn get_context(&self, context_id: ObjectId) -> (r: Option<&SecurityContext>)
        requires
            self.wf(),
        ensures
            match r {
                Some(c) => self.contexts@.contains_key(context_id) && *c == self.contexts@[context_id],
                None => !self.contexts@.contains_key(context_id),
            },
    {
        self.contexts.get(&context_id)
    }

    /// The context `context_id`, if registered, to be changed in place (for
    /// policy updates). The enforcer stays well formed exactly when the
    /// changed context does.
    pub fn get_context_mut(&mut self, context_id: ObjectId) -> (r: Option<&mut SecurityContext>)
        requires
            old(self).wf(),
        ensures
            match r {
                Some(c) => {
                    &&& old(self).contexts@.contains_key(context_id)
                    &&& *c == old(self).contexts@[context_id]
                    &&& final(self).contexts@ == old(self).contexts@.insert(context_id, *final(c))
                    &&& final(self).total_checks == old(self).total_checks
                    &&& final(self).total_denials == old(self).total_denials
                    &&& final(self).critical_denials == old(self).critical_denials
                    &&& (final(self).wf() <==> (*final(c)).wf())
                },
                None => !old(self).contexts@.contains_key(context_id) && *final(self) == *old(self),
            },
    {
        proof {
            lemma_contexts_wf_after_insert(self.contexts@, context_id);
        }
        self.contexts.get_mut(&context_id)
    }
}

/// Every context of `m` is well formed.
pub open spec fn contexts_wf(m: Map<ObjectId, SecurityContext>) -> bool {
    forall|j: ObjectId| #[trigger] m.contains_key(j) ==> m[j].wf()
}

/// Putting a context into a table of well-formed contexts leaves every
/// context well formed exactly when the new one is.
proof fn lemma_contexts_wf_after_insert(m: Map<ObjectId, SecurityContext>, k: ObjectId)
    requires
        contexts_wf(m),
    ensures
        forall|v: SecurityContext| #[trigger] contexts_wf(m.insert(k, v)) <==> v.wf(),
{
    assert forall|v: SecurityContext| #[trigger] contexts_wf(m.insert(k, v)) <==> v.wf() by {
        if v.wf() {
            assert forall|j: ObjectId| #[trigger] m.insert(k, v).contains_key(j) implies m.insert(k, v)[j].wf() by {
                if j != k {
                    assert(m.contains_key(j));
                }
            }
        } else {
            assert(m.insert(k, v).contains_key(k));
        }
    }
}

/// Answers permission checks through an enforcer, remembering each
/// (context, capability) outcome.
#[derive(Debug, Clone)]
pub struct PermissionChecker {
    pub checks_performed: u64,
    pub checks_passed: u64,
    pub checks_failed: u64,
    pub capability_cache: VecMap<(ObjectId, Capability), bool>,
}

impl Default for PermissionChecker {
    fn default() -> (p: PermissionChecker)
        ensures
            p.wf(),
            p.capability_cache@ == Map::<(ObjectId, Capability), bool>::empty(),
            p.checks_performed == 0 && p.checks_passed == 0 && p.checks_failed == 0,
    {
        PermissionChecker::new()
    }
}

impl PermissionChecker {
    pub open spec fn wf(&self) -> bool {
        self.capability_cache.wf()
    }

    pub fn new() -> (p: PermissionChecker)
        ensures
            p.wf(),
            p.capability_cache@ == Map::<(ObjectId, Capability), bool>::empty(),
            p.checks_performed == 0 && p.checks_passed == 0 && p.checks_failed == 0,
    {
        PermissionChecker { checks_performed: 0, checks_passed: 0, checks_failed: 0, capability_cache: VecMap::new() }
    }

    /// Answer from the cache when the pair was seen before (leaving the
    /// enforcer alone); otherwise ask `enforcer.enforce` and cache its
    /// outcome. Passed and failed checks are counted.
    pub fn check(
        &mut self,
        enforcer: &mut SecurityEnforcer,
        context_id: ObjectId,
        capability: Capability,
        current_time_ms: u64,
    ) -> (r: Result<()>)
        requires
            old(self).wf(),
            old(enforcer).wf(),
            old(self).checks_performed < u64::MAX,
            old(self).checks_passed < u64::MAX,
            old(self).checks_failed < u64::MAX,
            !old(self).capability_cache@.contains_key((context_id, capability)) ==> old(enforcer).can_enforce(context_id),
        ensures
            final(self).wf(),
            final(enforcer).wf(),
            final(self).checks_performed == old(self).checks_performed + 1,
            final(self).checks_passed == old(self).checks_passed + if r.is_ok() { 1u64 } else { 0u64 },
            final(self).checks_failed == old(self).checks_failed + if r.is_ok() { 0u64 } else { 1u64 },
            r.is_err() ==> (r matches Err(Error::Driver(m)) && m@ == (
                if old(self).capability_cache@.contains_key((context_id, capability)) {
                    "Permission denied (cached)"@
                } else {
                    enforce_denial(*old(enforcer), context_id)
                })),
            old(self).capability_cache@.contains_key((context_id, capability)) ==> {
                &&& r.is_ok() == old(self).capability_cache@[(context_id, capability)]
                &&& final(self).capability_cache@ == old(self).capability_cache@
                &&& *final(enforcer) == *old(enforcer)
            },
            !old(self).capability_cache@.contains_key((context_id, capability)) ==> {
                &&& enforced(*old(enforcer), *final(enforcer), context_id, capability, current_time_ms, r.is_ok())
                &&& final(self).capability_cache@ == old(self).capability_cache@.insert((context_id, capability), r.is_ok())
            },
    {
        self.checks_performed = self.checks_performed + 1;
        match self.capability_cache.get(&(context_id, capability)) {
            Some(cached) => {
                if *cached {
                    self.checks_passed = self.checks_passed + 1;
                    Ok(())
                } else {
                    self.checks_failed = self.checks_failed + 1;
                    Err(Error::Driver(owned("Permission denied (cached)")))
                }
            },
            None => {
                match enforcer.enforce(context_id, capability, current_time_ms) {
                    Ok(_) => {
                        self.capability_cache.insert((context_id, capability), true);
                        self.checks_passed = self.checks_passed + 1;
                        Ok(())
                    },
                    Err(e) => {
                        self.capability_cache.insert((context_id, capability), false);
                        self.checks_failed = self.checks_failed + 1;
                        Err(e)
                    },
                }
            },
        }
    }

    /// Forget every cached outcome for `context_id`.
    pub fn clear_cache(&mut self, context_id: ObjectId)
        requires
            old(self).wf(),
        ensures
            final(self).wf(),
            forall|k: (ObjectId, Capability)| #[trigger] final(self).capability_cache@.contains_key(k)
                <==> old(self).capability_cache@.contains_key(k) && k.0 != context_id,
            forall|k: (ObjectId, Capability)| #[trigger] final(self).capability_cache@.contains_key(k)
                ==> final(self).capability_cache@[k] == old(self).capability_cache@[k],
            final(self).checks_performed == old(self).checks_performed,
            final(self).checks_passed == old(self).checks_passed,
            final(self).checks_failed == old(self).checks_failed,
    {
        let n = self.capability_cache.entries.len();
        let mut doomed: Vec<(ObjectId, Capability)> = Vec::new();
        let mut i: usize = 0;
        while i < n
            invariant
                self.wf(),
                *self == *old(self),
                n == self.capability_cache.entries@.len(),
                i <= n,
                forall|j: int| 0 <= j < doomed@.len() ==> (#[trigger] doomed@[j]).0 == context_id
                    && self.capability_cache@.contains_key(doomed@[j]),
                forall|j: int| 0 <= j < i && self.capability_cache.entries@[j].0.0 == context_id
                    ==> doomed@.contains(#[trigger] self.capability_cache.entries@[j].0),
            decreases n - i,
        {
            let key = self.capability_cache.entries[i].0;
            proof {
                lemma_map_of_index(self.capability_cache.entries@, i as int);
            }
            let ghost before = doomed@;
            if key.0 == context_id {
                doomed.push(key);
                proof {
                    assert(doomed@[doomed@.len() - 1] == key);
                }
            }
            proof {
                assert forall|x: (ObjectId, Capability)| before.contains(x) implies doomed@.contains(x) by {
                    lemma_push_contains(before, key, x);
                }
            }
            i = i + 1;
        }
        let ghost m0 = self.capability_cache@;
        proof {
            assert forall|k: (ObjectId, Capability)| m0.contains_key(k) && k.0 == context_id implies doomed@.contains(k) by {
                crate::keyed::lemma_map_of_contains(self.capability_cache.entries@, k);
                let j = choose|j: int| 0 <= j < self.capability_cache.entries@.len() && self.capability_cache.entries@[j].0@ == k;
                assert(self.capability_cache.entries@[j].0 == k);
            }
        }
        let mut d: usize = 0;
        while d < doomed.len()
            invariant
                self.wf(),
                d <= doomed@.len(),
                forall|j: int| 0 <= j < doomed@.len() ==> (#[trigger] doomed@[j]).0 == context_id,
                forall|k: (ObjectId, Capability)| m0.contains_key(k) && k.0 == context_id ==> doomed@.contains(k),
                forall|k: (ObjectId, Capability)| #[trigger] self.capability_cache@.contains_key(k)
                    <==> m0.contains_key(k) && !doomed@.subrange(0, d as int).contains(k),
                forall|k: (ObjectId, Capability)| #[trigger] self.capability_cache@.contains_key(k)
                    ==> self.capability_cache@[k] == m0[k],
                self.checks_performed == old(self).checks_performed,
                self.checks_passed == old(self).checks_passed,
                self.checks_failed == old(self).checks_failed,
            decreases doomed@.len() - d,
        {
            let key = doomed[d];
            let _ = self.capability_cache.remove(&key);
            proof {
                assert(doomed@.subrange(0, d as int + 1) =~= doomed@.subrange(0, d as int).push(key));
                assert forall|x: (ObjectId, Capability)| doomed@.subrange(0, d as int + 1).contains(x)
                    <==> doomed@.subrange(0, d as int).contains(x) || x == key by {
                    lemma_push_contains(doomed@.subrange(0, d as int), key, x);
                }
            }
            d = d + 1;
        }
        proof {
            assert(doomed@.subrange(0, doomed@.len() as int) =~= doomed@);
        }
    }

    /// Forget every cached outcome.
    pub fn clear_all(&mut self)
        ensures
            final(self).wf(),
            final(self).capability_cache@ == Map::<(ObjectId, Capability), bool>::empty(),
            final(self).checks_performed == old(self).checks_performed,
            final(self).checks_passed == old(self).checks_passed,
            final(self).checks_failed == old(self).checks_failed,
    {
        self.capability_cache.clear();
    }
}

proof fn lemma_push_contains<A>(s: Seq<A>, x: A, y: A)
    ensures
        s.push(x).contains(y) <==> s.contains(y) || y == x,
{
    if s.contains(y) {
        let k = choose|k: int| 0 <= k < s.len() && s[k] == y;
        assert(s.push(x)[k] == y);
    }
    if y == x {
        assert(s.push(x)[s.len() as int] == y);
    }
    if s.push(x).contains(y) {
        let k = choose|k: int| 0 <= k < s.push(x).len() && s.push(x)[k] == y;
        if k < s.len() {
            assert(s[k] == y);
        }
    }
}

} // verus!
