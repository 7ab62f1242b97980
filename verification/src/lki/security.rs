//! Time-bounded capability grants with zero-trust enforcement.
use vstd::prelude::*;
use crate::common::{owned, Error, ObjectId, Result};
use crate::keyed::{lemma_map_of_index, lemma_map_of_update, KeyEq, VecMap};

verus! {

#[derive(Debug, Clone, Copy, PartialEq, Eq, Hash, Structural)]
pub enum Capability {
    AllocateMemory,
    DeallocateMemory,
    ReadMemory,
    WriteMemory,
    DmaAccess,
    RegisterInterrupt,
    UnregisterInterrupt,
    EnableInterrupt,
    DisableInterrupt,
    RegisterDevice,
    UnregisterDevice,
    EnableDevice,
    DisableDevice,
    ProbeDevices,
    NetworkAccess,
    BindSocket,
    ListenSocket,
    SendPacket,
    ReceivePacket,
    BlockRead,
    BlockWrite,
    DirectDma,
    ModifyPolicy,
    AccessAuditLog,
    TerminateDriver,
    EmergencyShutdown,
}

impl View for Capability {
    type V = Capability;

    open spec fn view(&self) -> Capability {
        *self
    }
}

impl KeyEq for (ObjectId, Capability) {
    fn key_eq(&self, other: &Self) -> (r: bool) {
        self.0 == other.0 && self.1 == other.1
    }

    fn key_clone(&self) -> (r: Self) {
        (self.0, self.1)
    }
}

/// How sensitive a grant is; sets how long it may live.
#[derive(Debug, Clone, Copy, PartialEq, Eq, Structural)]
pub enum PermissionTier {
    Low,
    Medium,
    High,
    Critical,
}

pub open spec fn max_duration(t: PermissionTier) -> u64 {
    match t {
        PermissionTier::Low => 3_600_000,
        PermissionTier::Medium => 86_400_000,
        PermissionTier::High => 7_200_000,
        PermissionTier::Critical => 1_800_000,
    }
}

pub open spec fn recommended_duration(t: PermissionTier) -> u64 {
    match t {
        PermissionTier::Low => 3_600_000,
        PermissionTier::Medium => 3_600_000,
        PermissionTier::High => 1_800_000,
        PermissionTier::Critical => 900_000,
    }
}

/// Declaration order of the tiers (Low = 0 ... Critical = 3).
pub open spec fn tier_rank(t: PermissionTier) -> u32 {
    match t {
        PermissionTier::Low => 0,
        PermissionTier::Medium => 1,
        PermissionTier::High => 2,
        PermissionTier::Critical => 3,
    }
}

impl PermissionTier {
    /// Longest lifetime a grant of this tier may have, in milliseconds.
    pub fn max_duration_ms(&self) -> (d: u64)
        ensures
            d == max_duration(*self),
    {
        match self {
            PermissionTier::Low => 3_600_000,
            PermissionTier::Medium => 86_400_000,
            PermissionTier::High => 7_200_000,
            PermissionTier::Critical => 1_800_000,
        }
    }

    /// Lifetime a new grant of this tier gets, in milliseconds.
    pub fn recommended_duration_ms(&self) -> (d: u64)
        ensures
            d == recommended_duration(*self),
    {
        match self {
            PermissionTier::Low => 3_600_000,
            PermissionTier::Medium => 3_600_000,
            PermissionTier::High => 1_800_000,
            PermissionTier::Critical => 900_000,
        }
    }

    pub fn rank(&self) -> (r: u32)
        ensures
            r == tier_rank(*self),
    {
        match self {
            PermissionTier::Low => 0,
            PermissionTier::Medium => 1,
            PermissionTier::High => 2,
            PermissionTier::Critical => 3,
        }
    }
}

/// The recommended lifetime of every tier is within its limit.
pub proof fn lemma_recommended_within_max(t: PermissionTier)
    ensures
        recommended_duration(t) <= max_duration(t),
{
}

#[derive(Debug, Clone, Copy, PartialEq, Eq, Structural)]
pub enum ReauthMethod {
    NotRequired,
    Click,
    Pin(u32),
    Password,
    Biometric,
    SecurityKey,
}

#[derive(Debug, Clone)]
pub struct CapabilityGrant {
    pub grant_id: ObjectId,
    pub driver_id: ObjectId,
    pub capability: Capability,
    pub tier: PermissionTier,
    pub granted_at_ms: u64,
    pub expires_at_ms: u64,
    pub granted_by: String,
    pub reason: String,
    pub reauth_required: bool,
    pub reauth_method: ReauthMethod,
}

pub open spec fn grant_valid(g: CapabilityGrant, now: u64) -> bool {
    now < g.expires_at_ms
}

pub open spec fn grant_expired(g: CapabilityGrant, now: u64) -> bool {
    now >= g.expires_at_ms
}

impl CapabilityGrant {
    /// A grant issued at time 0 by "system" for the tier's recommended
    /// lifetime; High and Critical grants require reauthentication.
    pub fn new(driver_id: ObjectId, capability: Capability, tier: PermissionTier) -> (g: CapabilityGrant)
        ensures
            g.driver_id == driver_id,
            g.capability == capability,
            g.tier == tier,
            g.granted_at_ms == 0,
            g.expires_at_ms == recommended_duration(tier),
            g.granted_by@ == "system"@,
            g.reason@ == "Initial grant"@,
            g.reauth_required == (tier == PermissionTier::High || tier == PermissionTier::Critical),
            g.reauth_method == ReauthMethod::NotRequired,
            g.grant_id.value != 0,
    {
        let duration = tier.recommended_duration_ms();
        CapabilityGrant {
            grant_id: ObjectId::new(),
            driver_id,
            capability,
            tier,
            granted_at_ms: 0,
            expires_at_ms: duration,
            granted_by: owned("system"),
            reason: owned("Initial grant"),
            reauth_required: match tier {
                PermissionTier::High | PermissionTier::Critical => true,
                _ => false,
            },
            reauth_method: ReauthMethod::NotRequired,
        }
    }

    pub fn duplicate(&self) -> (g: CapabilityGrant)
        ensures
            g == *self,
    {
        CapabilityGrant {
            grant_id: self.grant_id,
            driver_id: self.driver_id,
            capability: self.capability,
            tier: self.tier,
            granted_at_ms: self.granted_at_ms,
            expires_at_ms: self.expires_at_ms,
            granted_by: self.granted_by.clone(),
            reason: self.reason.clone(),
            reauth_required: self.reauth_required,
            reauth_method: self.reauth_method,
        }
    }

    /// Set the lifetime to `duration_ms` from the grant time; refused (with
    /// `Error::Driver`) when it exceeds the tier's limit.
    pub fn with_duration(self, duration_ms: u64) -> (r: Result<CapabilityGrant>)
        requires
            duration_ms <= max_duration(self.tier) ==> self.granted_at_ms + duration_ms <= u64::MAX,
        ensures
            duration_ms > max_duration(self.tier) ==> r matches Err(Error::Driver(_)),
            duration_ms <= max_duration(self.tier) ==> r == Ok::<CapabilityGrant, Error>(
                CapabilityGrant { expires_at_ms: (self.granted_at_ms + duration_ms) as u64, ..self }),
    {
        let max = self.tier.max_duration_ms();
        if duration_ms > max {
            let msg = owned("Duration exceeds tier limit of ").concat(max.to_string().as_str()).concat("ms");
            return Err(Error::Driver(msg));
        }
        let mut g = self;
        g.expires_at_ms = g.granted_at_ms + duration_ms;
        Ok(g)
    }

    pub fn with_reason(self, reason: &str) -> (g: CapabilityGrant)
        ensures
            g.reason@ == reason@,
            g == (CapabilityGrant { reason: g.reason, ..self }),
    {
        let mut g = self;
        g.reason = owned(reason);
        g
    }

    pub fn with_reauth(self, method: ReauthMethod) -> (g: CapabilityGrant)
        ensures
            g == (CapabilityGrant { reauth_required: true, reauth_method: method, ..self }),
    {
        let mut g = self;
        g.reauth_required = true;
        g.reauth_method = method;
        g
    }

    pub fn is_valid(&self, current_time_ms: u64) -> (b: bool)
        ensures
            b == grant_valid(*self, current_time_ms),
    {
        current_time_ms < self.expires_at_ms
    }

    pub fn is_expired(&self, current_time_ms: u64) -> (b: bool)
        ensures
            b == grant_expired(*self, current_time_ms),
    {
        current_time_ms >= self.expires_at_ms
    }

    pub fn time_remaining_ms(&self, current_time_ms: u64) -> (d: u64)
        ensures
            d == (if self.expires_at_ms >= current_time_ms { (self.expires_at_ms - current_time_ms) as u64 } else { 0 }),
    {
        self.expires_at_ms.saturating_sub(current_time_ms)
    }

    pub fn lifetime_ms(&self) -> (d: u64)
        requires
            self.granted_at_ms <= self.expires_at_ms,
        ensures
            d == self.expires_at_ms - self.granted_at_ms,
    {
        self.expires_at_ms - self.granted_at_ms
    }
}

/// A grant is valid exactly when it is not expired.
pub proof fn lemma_valid_iff_not_expired(g: CapabilityGrant, now: u64)
    ensures
        grant_valid(g, now) <==> !grant_expired(g, now),
{
}

/// All grants of all drivers, drivers in order and each driver's grants in order.
pub open spec fn all_grants(s: Seq<(ObjectId, Vec<CapabilityGrant>)>) -> Seq<CapabilityGrant>
    decreases s.len(),
{
    if s.len() == 0 {
        Seq::empty()
    } else {
        all_grants(s.drop_last()) + s.last().1@
    }
}

#[derive(Debug, Clone, Copy)]
pub struct SecurityStats {
    pub total_grants: u64,
    pub active_grants: u64,
    pub expired_grants: u64,
    pub revoked_grants: u64,
    pub reauth_requests: u64,
    pub drivers_with_caps: u64,
}

#[derive(Debug, Clone)]
pub struct CapabilityManager {
    pub grants: VecMap<ObjectId, Vec<CapabilityGrant>>,
    pub total_grants: u64,
    pub expired_grants: u64,
    pub revoked_grants: u64,
    pub reauth_requests: u64,
}

impl Default for CapabilityManager {
    fn default() -> (m: CapabilityManager)
        ensures
            m.wf(),
            m.grants@ == Map::<ObjectId, Vec<CapabilityGrant>>::empty(),
            m.total_grants == 0 && m.expired_grants == 0 && m.revoked_grants == 0 && m.reauth_requests == 0,
    {
        CapabilityManager::new()
    }
}

impl CapabilityManager {
    /// The map is well formed, and no more grants are held than were ever
    /// granted.
    pub open spec fn wf(&self) -> bool {
        &&& self.grants.wf()
        &&& all_grants(self.grants.entries@).len() <= self.total_grants
    }

    /// Grants held for `driver`, in grant order (empty when unknown).
    pub open spec fn grants_of(&self, driver: ObjectId) -> Seq<CapabilityGrant> {
        if self.grants@.contains_key(driver) { self.grants@[driver]@ } else { Seq::empty() }
    }

    /// Drivers other than `driver` keep their grants, and whether they are known.
    pub open spec fn others_unchanged(&self, other: &CapabilityManager, driver: ObjectId) -> bool {
        forall|d: ObjectId| d != driver ==> #[trigger] self.grants@.contains_key(d) == other.grants@.contains_key(d)
            && self.grants_of(d) == other.grants_of(d)
    }

    pub fn new() -> (m: CapabilityManager)
        ensures
            m.wf(),
            m.grants@ == Map::<ObjectId, Vec<CapabilityGrant>>::empty(),
            m.total_grants == 0 && m.expired_grants == 0 && m.revoked_grants == 0 && m.reauth_requests == 0,
    {
        CapabilityManager {
            grants: VecMap::new(),
            total_grants: 0,
            expired_grants: 0,
            revoked_grants: 0,
            reauth_requests: 0,
        }
    }

    /// Record `grant` for its driver (after the grants it already holds) and return
    /// its identity; refused (with `Error::Driver`, nothing changed) when its
    /// lifetime exceeds its tier's limit.
    pub fn grant(&mut self, grant: CapabilityGrant) -> (r: Result<ObjectId>)
        requires
            old(self).wf(),
            grant.granted_at_ms <= grant.expires_at_ms,
            old(self).total_grants < u64::MAX,
        ensures
            final(self).wf(),
            grant.expires_at_ms - grant.granted_at_ms > max_duration(grant.tier) ==>
                (r matches Err(Error::Driver(_))) && *final(self) == *old(self),
            grant.expires_at_ms - grant.granted_at_ms <= max_duration(grant.tier) ==> {
                &&& r == Ok::<ObjectId, Error>(grant.grant_id)
                &&& final(self).grants@.contains_key(grant.driver_id)
                &&& final(self).grants_of(grant.driver_id) == old(self).grants_of(grant.driver_id).push(grant)
                &&& final(self).others_unchanged(&*old(self), grant.driver_id)
                &&& final(self).total_grants == old(self).total_grants + 1
                &&& final(self).expired_grants == old(self).expired_grants
                &&& final(self).revoked_grants == old(self).revoked_grants
                &&& final(self).reauth_requests == old(self).reauth_requests
            },
    {
        let max = grant.tier.max_duration_ms();
        if grant.lifetime_ms() > max {
            return Err(Error::Driver(owned("Capability lifetime exceeds tier limit")));
        }
        let grant_id = grant.grant_id;
        let driver = grant.driver_id;
        match self.grants.index_of(&driver) {
            Some(pos) => {
                let ghost s0 = self.grants.entries@;
                proof {
                    lemma_map_of_index(s0, pos as int);
                }
                let mut list: Vec<CapabilityGrant> = Vec::new();
                std::mem::swap(&mut list, &mut self.grants.entries[pos].1);
                list.push(grant);
                let ghost lv = list;
                self.grants.entries.set(pos, (driver, list));
                proof {
                    assert(self.grants.entries@ == s0.update(pos as int, (driver, lv)));
                    lemma_map_of_update(s0, pos as int, (driver, lv));
                    lemma_all_grants_update_len(s0, pos as int, (driver, lv));
                }
            },
            None => {
                let ghost s0 = self.grants.entries@;
                let mut list: Vec<CapabilityGrant> = Vec::new();
                list.push(grant);
                self.grants.insert(driver, list);
                proof {
                    assert(self.grants.entries@.drop_last() =~= s0);
                }
            },
        }
        self.total_grants = self.total_grants + 1;
        Ok(grant_id)
    }

    /// Drop every grant of `capability` held by `driver_id`; refused with
    /// `Error::Driver` when the driver has never been granted anything.
    pub fn revoke(&mut self, driver_id: ObjectId, capability: Capability) -> (r: Result<()>)
        requires
            old(self).wf(),
            old(self).revoked_grants < u64::MAX,
        ensures
            final(self).wf(),
            !old(self).grants@.contains_key(driver_id) ==> (r matches Err(Error::Driver(_)))
                && *final(self) == *old(self),
            old(self).grants@.contains_key(driver_id) ==> {
                &&& r.is_ok()
                &&& final(self).grants@.contains_key(driver_id)
                &&& final(self).grants_of(driver_id) == old(self).grants_of(driver_id).filter(
                    |g: CapabilityGrant| g.capability != capability)
                &&& final(self).others_unchanged(&*old(self), driver_id)
                &&& final(self).revoked_grants == old(self).revoked_grants + 1
                &&& final(self).total_grants == old(self).total_grants
                &&& final(self).expired_grants == old(self).expired_grants
                &&& final(self).reauth_requests == old(self).reauth_requests
            },
    {
        let pos = match self.grants.index_of(&driver_id) {
            Some(p) => p,
            None => return Err(Error::Driver(owned("Driver not found"))),
        };
        let ghost s0 = self.grants.entries@;
        proof {
            lemma_map_of_index(s0, pos as int);
        }
        let mut list: Vec<CapabilityGrant> = Vec::new();
        std::mem::swap(&mut list, &mut self.grants.entries[pos].1);
        let kept = keep_other_capabilities(list, capability);
        let ghost kv = kept;
        self.grants.entries.set(pos, (driver_id, kept));
        proof {
            assert(self.grants.entries@ == s0.update(pos as int, (driver_id, kv)));
            lemma_map_of_update(s0, pos as int, (driver_id, kv));
            s0[pos as int].1@.lemma_filter_len(|g: CapabilityGrant| g.capability != capability);
            lemma_all_grants_update_len(s0, pos as int, (driver_id, kv));
        }
        self.revoked_grants = self.revoked_grants + 1;
        Ok(())
    }

    /// Remove the expired grants of the driver at entry `pos`; returns how
    /// many were removed.
    fn prune_at(&mut self, pos: usize, now: u64) -> (removed: usize)
        requires
            old(self).wf(),
            pos < old(self).grants.entries@.len(),
        ensures
            final(self).wf(),
            final(self).total_grants == old(self).total_grants,
            final(self).expired_grants == old(self).expired_grants,
            final(self).revoked_grants == old(self).revoked_grants,
            final(self).reauth_requests == old(self).reauth_requests,
            final(self).grants.entries@.len() == old(self).grants.entries@.len(),
            final(self).grants.entries@[pos as int].0 == old(self).grants.entries@[pos as int].0,
            final(self).grants.entries@[pos as int].1@ == old(self).grants.entries@[pos as int].1@.filter(
                |g: CapabilityGrant| !grant_expired(g, now)),
            removed == old(self).grants.entries@[pos as int].1@.len()
                - final(self).grants.entries@[pos as int].1@.len(),
            forall|j: int| 0 <= j < old(self).grants.entries@.len() && j != pos ==>
                #[trigger] final(self).grants.entries@[j] == old(self).grants.entries@[j],
            final(self).grants@ == old(self).grants@.insert(
                old(self).grants.entries@[pos as int].0, final(self).grants.entries@[pos as int].1),
    {
        let ghost s0 = self.grants.entries@;
        let key = self.grants.entries[pos].0;
        let mut list: Vec<CapabilityGrant> = Vec::new();
        std::mem::swap(&mut list, &mut self.grants.entries[pos].1);
        let before = list.len();
        let kept = keep_unexpired(list, now);
        let ghost kv = kept;
        proof {
            s0[pos as int].1@.lemma_filter_len(|g: CapabilityGrant| !grant_expired(g, now));
        }
        let removed = before - kept.len();
        self.grants.entries.set(pos, (key, kept));
        proof {
            assert(self.grants.entries@ == s0.update(pos as int, (key, kv)));
            lemma_map_of_update(s0, pos as int, (key, kv));
            lemma_all_grants_update_len(s0, pos as int, (key, kv));
        }
        removed
    }

    /// Whether `driver_id` holds an unexpired grant of `capability` at
    /// `current_time_ms`. Expired grants of that driver are dropped first.
    pub fn has_capability(&mut self, driver_id: ObjectId, capability: Capability, current_time_ms: u64) -> (b: bool)
        requires
            old(self).wf(),
        ensures
            final(self).wf(),
            b == exists|i: int| 0 <= i < old(self).grants_of(driver_id).len()
                && (#[trigger] old(self).grants_of(driver_id)[i]).capability == capability
                && grant_valid(old(self).grants_of(driver_id)[i], current_time_ms),
            final(self).grants@.contains_key(driver_id) == old(self).grants@.contains_key(driver_id),
            final(self).grants_of(driver_id) == old(self).grants_of(driver_id).filter(
                |g: CapabilityGrant| !grant_expired(g, current_time_ms)),
            final(self).others_unchanged(&*old(self), driver_id),
            final(self).total_grants == old(self).total_grants,
            final(self).expired_grants == old(self).expired_grants,
            final(self).revoked_grants == old(self).revoked_grants,
            final(self).reauth_requests == old(self).reauth_requests,
    {
        let pos = match self.grants.index_of(&driver_id) {
            Some(p) => p,
            None => {
                assert(old(self).grants_of(driver_id).filter(|g: CapabilityGrant| !grant_expired(g, current_time_ms))
                    =~= Seq::<CapabilityGrant>::empty());
                return false;
            },
        };
        let ghost s0 = self.grants.entries@;
        proof {
            lemma_map_of_index(s0, pos as int);
        }
        let _ = self.prune_at(pos, current_time_ms);
        proof {
            lemma_map_of_index(self.grants.entries@, pos as int);
        }
        let r = find_grant(&self.grants.entries[pos].1, capability, current_time_ms);
        proof {
            let l0 = old(self).grants_of(driver_id);
            let pred = |g: CapabilityGrant| !grant_expired(g, current_time_ms);
            let l1 = l0.filter(pred);
            if r.is_some() {
                let k = r.unwrap() as int;
                l0.lemma_filter_contains_rev(pred, l1[k]);
                assert(l1.contains(l1[k]));
            } else {
                assert forall|i: int| 0 <= i < l0.len() && (#[trigger] l0[i]).capability == capability
                    implies !grant_valid(l0[i], current_time_ms) by {
                    if grant_valid(l0[i], current_time_ms) {
                        l0.lemma_filter_contains(pred, i);
                    }
                }
            }
        }
        r.is_some()
    }

    /// Like `has_capability`, then: `Ok(true)` when the first valid grant of
    /// `capability` requires reauthentication (counting a reauthentication
    /// request), `Ok(false)` when it does not, and `Error::Driver` when there
    /// is none.
    pub fn check_with_reauth(&mut self, driver_id: ObjectId, capability: Capability, current_time_ms: u64) -> (r: Result<bool>)
        requires
            old(self).wf(),
            old(self).reauth_requests < u64::MAX,
        ensures
            final(self).wf(),
            final(self).grants_of(driver_id) == old(self).grants_of(driver_id).filter(
                |g: CapabilityGrant| !grant_expired(g, current_time_ms)),
            final(self).grants@.contains_key(driver_id) == old(self).grants@.contains_key(driver_id),
            final(self).others_unchanged(&*old(self), driver_id),
            final(self).total_grants == old(self).total_grants,
            final(self).expired_grants == old(self).expired_grants,
            final(self).revoked_grants == old(self).revoked_grants,
            !has_valid(final(self).grants_of(driver_id), capability, current_time_ms) ==>
                (r matches Err(Error::Driver(_))) && final(self).reauth_requests == old(self).reauth_requests,
            has_valid(final(self).grants_of(driver_id), capability, current_time_ms) ==> {
                let g = final(self).grants_of(driver_id)[first_valid(final(self).grants_of(driver_id), capability, current_time_ms)];
                &&& r == Ok::<bool, Error>(g.reauth_required)
                &&& final(self).reauth_requests == old(self).reauth_requests + if g.reauth_required { 1u64 } else { 0u64 }
            },
    {
        let pos = match self.grants.index_of(&driver_id) {
            Some(p) => p,
            None => {
                assert(old(self).grants_of(driver_id).filter(|g: CapabilityGrant| !grant_expired(g, current_time_ms))
                    =~= Seq::<CapabilityGrant>::empty());
                return Err(Error::Driver(owned("Capability not granted")));
            },
        };
        let ghost s0 = self.grants.entries@;
        proof {
            lemma_map_of_index(s0, pos as int);
        }
        let _ = self.prune_at(pos, current_time_ms);
        proof {
            lemma_map_of_index(self.grants.entries@, pos as int);
        }
        match find_grant(&self.grants.entries[pos].1, capability, current_time_ms) {
            Some(k) => {
                let needs = self.grants.entries[pos].1[k].reauth_required;
                proof {
                    lemma_first_valid_is(self.grants.entries@[pos as int].1@, capability, current_time_ms, k as int);
                }
                if needs {
                    self.reauth_requests = self.reauth_requests + 1;
                    return Ok(true);
                }
                Ok(false)
            },
            None => Err(Error::Driver(owned("Capability not granted"))),
        }
    }

    /// Drop every expired grant of every driver, counting them as expired.
    pub fn cleanup_expired(&mut self, current_time_ms: u64)
        requires
            old(self).wf(),
            old(self).expired_grants + all_grants(old(self).grants.entries@).len() <= u64::MAX,
        ensures
            final(self).wf(),
            final(self).grants@.dom() == old(self).grants@.dom(),
            forall|d: ObjectId| #[trigger] final(self).grants_of(d) == old(self).grants_of(d).filter(
                |g: CapabilityGrant| !grant_expired(g, current_time_ms)),
            final(self).total_grants == old(self).total_grants,
            final(self).revoked_grants == old(self).revoked_grants,
            final(self).reauth_requests == old(self).reauth_requests,
    {
        let n = self.grants.entries.len();
        let ghost s0 = self.grants.entries@;
        let mut i: usize = 0;
        while i < n
            invariant
                self.wf(),
                n == self.grants.entries@.len(),
                n == s0.len(),
                s0 == old(self).grants.entries@,
                i <= n,
                self.total_grants == old(self).total_grants,
                self.revoked_grants == old(self).revoked_grants,
                self.reauth_requests == old(self).reauth_requests,
                forall|j: int| 0 <= j < n ==> (#[trigger] self.grants.entries@[j]).0 == s0[j].0,
                forall|j: int| 0 <= j < i ==> (#[trigger] self.grants.entries@[j]).1@
                    == s0[j].1@.filter(|g: CapabilityGrant| !grant_expired(g, current_time_ms)),
                forall|j: int| i <= j < n ==> #[trigger] self.grants.entries@[j] == s0[j],
                self.expired_grants + all_grants(self.grants.entries@).len() <= u64::MAX,
            decreases n - i,
        {
            let ghost before = self.grants.entries@;
            let removed = self.prune_at(i, current_time_ms);
            proof {
                lemma_all_grants_update_len(before, i as int, self.grants.entries@[i as int]);
                assert(self.grants.entries@ =~= before.update(i as int, self.grants.entries@[i as int]));
            }
            self.expired_grants = self.expired_grants + removed as u64;
            i = i + 1;
        }
        proof {
            assert forall|d: ObjectId| #[trigger] final(self).grants_of(d) == old(self).grants_of(d).filter(
                |g: CapabilityGrant| !grant_expired(g, current_time_ms)) by {
                crate::keyed::lemma_map_of_contains(s0, d);
                crate::keyed::lemma_map_of_contains(self.grants.entries@, d);
                if old(self).grants@.contains_key(d) {
                    let j = choose|j: int| 0 <= j < s0.len() && s0[j].0@ == d;
                    lemma_map_of_index(s0, j);
                    lemma_map_of_index(self.grants.entries@, j);
                } else {
                    assert(Seq::<CapabilityGrant>::empty().filter(|g: CapabilityGrant| !grant_expired(g, current_time_ms))
                        =~= Seq::<CapabilityGrant>::empty());
                }
            }
            assert(final(self).grants@.dom() =~= old(self).grants@.dom()) by {
                assert forall|d: ObjectId| final(self).grants@.dom().contains(d) <==> old(self).grants@.dom().contains(d) by {
                    crate::keyed::lemma_map_of_contains(s0, d);
                    crate::keyed::lemma_map_of_contains(self.grants.entries@, d);
                    if old(self).grants@.dom().contains(d) {
                        let j = choose|j: int| 0 <= j < s0.len() && s0[j].0@ == d;
                        assert(self.grants.entries@[j].0 == s0[j].0);
                    }
                    if final(self).grants@.dom().contains(d) {
                        let j = choose|j: int| 0 <= j < self.grants.entries@.len() && self.grants.entries@[j].0@ == d;
                        assert(self.grants.entries@[j].0 == s0[j].0);
                    }
                }
            }
        }
    }

    /// Unexpired grants of `driver_id` at `current_time_ms`, in order.
    pub fn get_active_grants(&self, driver_id: ObjectId, current_time_ms: u64) -> (r: Vec<&CapabilityGrant>)
        requires
            self.wf(),
        ensures
            r@.map_values(|g: &CapabilityGrant| *g) == self.grants_of(driver_id).filter(
                |g: CapabilityGrant| grant_valid(g, current_time_ms)),
    {
        let mut out: Vec<&CapabilityGrant> = Vec::new();
        match self.grants.get(&driver_id) {
            Some(list) => {
                let ghost pred = |g: CapabilityGrant| grant_valid(g, current_time_ms);
                let ghost l = list@;
                let mut i: usize = 0;
                while i < list.len()
                    invariant
                        l == list@,
                        i <= l.len(),
                        pred == (|g: CapabilityGrant| grant_valid(g, current_time_ms)),
                        out@.map_values(|g: &CapabilityGrant| *g) == l.subrange(0, i as int).filter(pred),
                    decreases l.len() - i,
                {
                    proof {
                        assert(l.subrange(0, i as int + 1) =~= l.subrange(0, i as int).push(l[i as int]));
                        l.subrange(0, i as int).lemma_filter_push(l[i as int], pred);
                    }
                    if list[i].is_valid(current_time_ms) {
                        out.push(&list[i]);
                        proof {
                            assert(out@.map_values(|g: &CapabilityGrant| *g) =~= l.subrange(0, i as int).filter(pred).push(l[i as int]));
                        }
                    }
                    i = i + 1;
                }
                assert(l.subrange(0, l.len() as int) =~= l);
            },
            None => {
                assert(out@.map_values(|g: &CapabilityGrant| *g) =~= Seq::<CapabilityGrant>::empty());
            },
        }
        out
    }

    /// The first grant (drivers in order, then grants in order) with
    /// identity `grant_id`.
    pub fn get_grant(&self, grant_id: ObjectId) -> (r: Option<&CapabilityGrant>)
        requires
            self.wf(),
        ensures
            match r {
                Some(g) => exists|k: int| {
                    &&& 0 <= k < all_grants(self.grants.entries@).len()
                    &&& #[trigger] all_grants(self.grants.entries@)[k] == *g
                    &&& g.grant_id == grant_id
                    &&& forall|j: int| 0 <= j < k ==> all_grants(self.grants.entries@)[j].grant_id != grant_id
                },
                None => forall|j: int| 0 <= j < all_grants(self.grants.entries@).len() ==>
                    (#[trigger] all_grants(self.grants.entries@)[j]).grant_id != grant_id,
            },
    {
        let n = self.grants.entries.len();
        let mut i: usize = 0;
        while i < n
            invariant
                n == self.grants.entries@.len(),
                i <= n,
                forall|j: int| 0 <= j < all_grants(self.grants.entries@.subrange(0, i as int)).len() ==>
                    (#[trigger] all_grants(self.grants.entries@.subrange(0, i as int))[j]).grant_id != grant_id,
            decreases n - i,
        {
            let list = &self.grants.entries[i].1;
            let ghost prefix = all_grants(self.grants.entries@.subrange(0, i as int));
            proof {
                lemma_all_grants_push(self.grants.entries@, i as int);
            }
            let mut k: usize = 0;
            while k < list.len()
                invariant
                    i < n,
                    n == self.grants.entries@.len(),
                    *list == self.grants.entries@[i as int].1,
                    prefix == all_grants(self.grants.entries@.subrange(0, i as int)),
                    all_grants(self.grants.entries@.subrange(0, i as int + 1)) == prefix + list@,
                    forall|j: int| 0 <= j < prefix.len() ==> (#[trigger] prefix[j]).grant_id != grant_id,
                    k <= list@.len(),
                    forall|j: int| 0 <= j < k ==> list@[j].grant_id != grant_id,
                decreases list@.len() - k,
            {
                if list[k].grant_id == grant_id {
                    proof {
                        lemma_all_grants_prefix(self.grants.entries@, i as int + 1);
                        let all = all_grants(self.grants.entries@);
                        let kk = prefix.len() + k;
                        assert(all[kk] == list@[k as int]);
                        assert forall|j: int| 0 <= j < kk implies all[j].grant_id != grant_id by {
                            if j < prefix.len() {
                                assert(all[j] == prefix[j]);
                            } else {
                                assert(all[j] == list@[j - prefix.len()]);
                            }
                        }
                    }
                    return Some(&list[k]);
                }
                k = k + 1;
            }
            i = i + 1;
        }
        assert(self.grants.entries@.subrange(0, n as int) =~= self.grants.entries@);
        None
    }

    /// Every grant (drivers in order, then grants in order) whose remaining
    /// time at `current_time_ms` is positive and below `threshold_ms`.
    pub fn get_expiring_grants(&self, current_time_ms: u64, threshold_ms: u64) -> (r: Vec<&CapabilityGrant>)
        requires
            self.wf(),
        ensures
            r@.map_values(|g: &CapabilityGrant| *g) == all_grants(self.grants.entries@).filter(
                |g: CapabilityGrant| expiring_soon(g, current_time_ms, threshold_ms)),
    {
        let ghost pred = |g: CapabilityGrant| expiring_soon(g, current_time_ms, threshold_ms);
        let mut out: Vec<&CapabilityGrant> = Vec::new();
        let n = self.grants.entries.len();
        let mut i: usize = 0;
        while i < n
            invariant
                n == self.grants.entries@.len(),
                i <= n,
                pred == (|g: CapabilityGrant| expiring_soon(g, current_time_ms, threshold_ms)),
                out@.map_values(|g: &CapabilityGrant| *g) == all_grants(self.grants.entries@.subrange(0, i as int)).filter(pred),
            decreases n - i,
        {
            let list = &self.grants.entries[i].1;
            let ghost prefix = all_grants(self.grants.entries@.subrange(0, i as int));
            proof {
                lemma_all_grants_push(self.grants.entries@, i as int);
            }
            let mut k: usize = 0;
            while k < list.len()
                invariant
                    i < n,
                    n == self.grants.entries@.len(),
                    *list == self.grants.entries@[i as int].1,
                    prefix == all_grants(self.grants.entries@.subrange(0, i as int)),
                    all_grants(self.grants.entries@.subrange(0, i as int + 1)) == prefix + list@,
                    pred == (|g: CapabilityGrant| expiring_soon(g, current_time_ms, threshold_ms)),
                    k <= list@.len(),
                    out@.map_values(|g: &CapabilityGrant| *g) == (prefix + list@.subrange(0, k as int)).filter(pred),
                decreases list@.len() - k,
            {
                proof {
                    assert(prefix + list@.subrange(0, k as int + 1) =~= (prefix + list@.subrange(0, k as int)).push(list@[k as int]));
                    (prefix + list@.subrange(0, k as int)).lemma_filter_push(list@[k as int], pred);
                }
                let remaining = list[k].time_remaining_ms(current_time_ms);
                if remaining > 0 && remaining < threshold_ms {
                    out.push(&list[k]);
                    proof {
                        assert(out@.map_values(|g: &CapabilityGrant| *g) =~=
                            (prefix + list@.subrange(0, k as int)).filter(pred).push(list@[k as int]));
                    }
                }
                k = k + 1;
            }
            proof {
                assert(list@.subrange(0, list@.len() as int) =~= list@);
            }
            i = i + 1;
        }
        assert(self.grants.entries@.subrange(0, n as int) =~= self.grants.entries@);
        out
    }

    /// Counters, plus how many grants are valid at `current_time_ms` and how
    /// many drivers have a grant list.
    pub fn get_stats(&self, current_time_ms: u64) -> (s: SecurityStats)
        requires
            self.wf(),
        ensures
            s.total_grants == self.total_grants,
            s.active_grants == all_grants(self.grants.entries@).filter(
                |g: CapabilityGrant| grant_valid(g, current_time_ms)).len(),
            s.expired_grants == self.expired_grants,
            s.revoked_grants == self.revoked_grants,
            s.reauth_requests == self.reauth_requests,
            s.drivers_with_caps == self.grants@.len(),
    {
        let ghost pred = |g: CapabilityGrant| grant_valid(g, current_time_ms);
        let mut active: u64 = 0;
        let n = self.grants.entries.len();
        let mut i: usize = 0;
        while i < n
            invariant
                self.wf(),
                n == self.grants.entries@.len(),
                i <= n,
                pred == (|g: CapabilityGrant| grant_valid(g, current_time_ms)),
                active == all_grants(self.grants.entries@.subrange(0, i as int)).filter(pred).len(),
                active <= all_grants(self.grants.entries@.subrange(0, i as int)).len(),
                all_grants(self.grants.entries@.subrange(0, i as int)).len() <= all_grants(self.grants.entries@).len(),
            decreases n - i,
        {
            let list = &self.grants.entries[i].1;
            let ghost prefix = all_grants(self.grants.entries@.subrange(0, i as int));
            proof {
                lemma_all_grants_push(self.grants.entries@, i as int);
                lemma_all_grants_prefix(self.grants.entries@, i as int + 1);
            }
            let mut k: usize = 0;
            while k < list.len()
                invariant
                    i < n,
                    n == self.grants.entries@.len(),
                    *list == self.grants.entries@[i as int].1,
                    prefix == all_grants(self.grants.entries@.subrange(0, i as int)),
                    all_grants(self.grants.entries@.subrange(0, i as int + 1)) == prefix + list@,
                    (prefix + list@).len() <= all_grants(self.grants.entries@).len(),
                    all_grants(self.grants.entries@).len() <= u64::MAX,
                    pred == (|g: CapabilityGrant| grant_valid(g, current_time_ms)),
                    k <= list@.len(),
                    active == (prefix + list@.subrange(0, k as int)).filter(pred).len(),
                    active <= (prefix + list@.subrange(0, k as int)).len(),
                decreases list@.len() - k,
            {
                proof {
                    assert(prefix + list@.subrange(0, k as int + 1) =~= (prefix + list@.subrange(0, k as int)).push(list@[k as int]));
                    (prefix + list@.subrange(0, k as int)).lemma_filter_push(list@[k as int], pred);
                }
                if list[k].is_valid(current_time_ms) {
                    active = active + 1;
                }
                k = k + 1;
            }
            proof {
                assert(list@.subrange(0, list@.len() as int) =~= list@);
            }
            i = i + 1;
        }
        assert(self.grants.entries@.subrange(0, n as int) =~= self.grants.entries@);
        let drivers = self.grants.len() as u64;
        SecurityStats {
            total_grants: self.total_grants,
            active_grants: active,
            expired_grants: self.expired_grants,
            revoked_grants: self.revoked_grants,
            reauth_requests: self.reauth_requests,
            drivers_with_caps: drivers,
        }
    }
}

/// Remaining lifetime at `now` is positive and below `threshold`.
pub open spec fn expiring_soon(g: CapabilityGrant, now: u64, threshold: u64) -> bool {
    let remaining = if g.expires_at_ms >= now { g.expires_at_ms - now } else { 0 };
    remaining > 0 && remaining < threshold
}

/// Some grant of `l` for `c` is valid at `now`.
pub open spec fn has_valid(l: Seq<CapabilityGrant>, c: Capability, now: u64) -> bool {
    exists|i: int| 0 <= i < l.len() && (#[trigger] l[i]).capability == c && grant_valid(l[i], now)
}

/// Position of the first grant of `l` for `c` valid at `now`.
pub open spec fn first_valid(l: Seq<CapabilityGrant>, c: Capability, now: u64) -> int {
    choose|i: int| 0 <= i < l.len() && l[i].capability == c && grant_valid(l[i], now)
        && forall|j: int| 0 <= j < i ==> !(l[j].capability == c && grant_valid(l[j], now))
}

proof fn lemma_first_valid_is(l: Seq<CapabilityGrant>, c: Capability, now: u64, k: int)
    requires
        0 <= k < l.len(),
        l[k].capability == c && grant_valid(l[k], now),
        forall|j: int| 0 <= j < k ==> !(l[j].capability == c && grant_valid(l[j], now)),
    ensures
        has_valid(l, c, now),
        first_valid(l, c, now) == k,
{
    let f = first_valid(l, c, now);
    assert(0 <= f < l.len() && l[f].capability == c && grant_valid(l[f], now)
        && forall|j: int| 0 <= j < f ==> !(l[j].capability == c && grant_valid(l[j], now)));
    if f < k {
    } else if f > k {
    }
}

/// Position of the first grant in `list` for `c` that is valid at `now`.
fn find_grant(list: &Vec<CapabilityGrant>, c: Capability, now: u64) -> (r: Option<usize>)
    ensures
        match r {
            Some(k) => k < list@.len() && list@[k as int].capability == c && grant_valid(list@[k as int], now)
                && forall|j: int| 0 <= j < k ==> !(list@[j].capability == c && grant_valid(list@[j], now)),
            None => !has_valid(list@, c, now),
        },
{
    let mut k: usize = 0;
    while k < list.len()
        invariant
            k <= list@.len(),
            forall|j: int| 0 <= j < k ==> !(list@[j].capability == c && grant_valid(list@[j], now)),
        decreases list@.len() - k,
    {
        if list[k].capability == c && list[k].is_valid(now) {
            return Some(k);
        }
        k = k + 1;
    }
    None
}

/// The grants of `list` that are not expired at `now`, in order.
fn keep_unexpired(list: Vec<CapabilityGrant>, now: u64) -> (r: Vec<CapabilityGrant>)
    ensures
        r@ == list@.filter(|g: CapabilityGrant| !grant_expired(g, now)),
{
    let ghost pred = |g: CapabilityGrant| !grant_expired(g, now);
    let ghost l = list@;
    let mut out: Vec<CapabilityGrant> = Vec::new();
    let mut i: usize = 0;
    while i < list.len()
        invariant
            l == list@,
            i <= l.len(),
            pred == (|g: CapabilityGrant| !grant_expired(g, now)),
            out@ == l.subrange(0, i as int).filter(pred),
        decreases l.len() - i,
    {
        proof {
            assert(l.subrange(0, i as int + 1) =~= l.subrange(0, i as int).push(l[i as int]));
            l.subrange(0, i as int).lemma_filter_push(l[i as int], pred);
        }
        if !list[i].is_expired(now) {
            out.push(list[i].duplicate());
        }
        i = i + 1;
    }
    assert(l.subrange(0, l.len() as int) =~= l);
    out
}

/// The grants of `list` for capabilities other than `c`, in order.
fn keep_other_capabilities(list: Vec<CapabilityGrant>, c: Capability) -> (r: Vec<CapabilityGrant>)
    ensures
        r@ == list@.filter(|g: CapabilityGrant| g.capability != c),
{
    let ghost pred = |g: CapabilityGrant| g.capability != c;
    let ghost l = list@;
    let mut out: Vec<CapabilityGrant> = Vec::new();
    let mut i: usize = 0;
    while i < list.len()
        invariant
            l == list@,
            i <= l.len(),
            pred == (|g: CapabilityGrant| g.capability != c),
            out@ == l.subrange(0, i as int).filter(pred),
        decreases l.len() - i,
    {
        proof {
            assert(l.subrange(0, i as int + 1) =~= l.subrange(0, i as int).push(l[i as int]));
            l.subrange(0, i as int).lemma_filter_push(l[i as int], pred);
        }
        if list[i].capability != c {
            out.push(list[i].duplicate());
        }
        i = i + 1;
    }
    assert(l.subrange(0, l.len() as int) =~= l);
    out
}

proof fn lemma_all_grants_push(s: Seq<(ObjectId, Vec<CapabilityGrant>)>, i: int)
    requires
        0 <= i < s.len(),
    ensures
        all_grants(s.subrange(0, i + 1)) == all_grants(s.subrange(0, i)) + s[i].1@,
{
    assert(s.subrange(0, i + 1).drop_last() =~= s.subrange(0, i));
}

/// Grants of a prefix of the drivers are a prefix of all grants.
proof fn lemma_all_grants_prefix(s: Seq<(ObjectId, Vec<CapabilityGrant>)>, i: int)
    requires
        0 <= i <= s.len(),
    ensures
        all_grants(s.subrange(0, i)).len() <= all_grants(s).len(),
        forall|j: int| 0 <= j < all_grants(s.subrange(0, i)).len() ==>
            #[trigger] all_grants(s)[j] == all_grants(s.subrange(0, i))[j],
    decreases s.len() - i,
{
    if i < s.len() {
        lemma_all_grants_prefix(s, i + 1);
        lemma_all_grants_push(s, i);
    } else {
        assert(s.subrange(0, i) =~= s);
    }
}

/// Replacing one driver's list changes the total by the change in that list.
proof fn lemma_all_grants_update_len(s: Seq<(ObjectId, Vec<CapabilityGrant>)>, i: int, e: (ObjectId, Vec<CapabilityGrant>))
    requires
        0 <= i < s.len(),
    ensures
        all_grants(s.update(i, e)).len() == all_grants(s).len() - s[i].1@.len() + e.1@.len(),
    decreases s.len(),
{
    if i == s.len() - 1 {
        assert(s.update(i, e).drop_last() =~= s.drop_last());
    } else {
        lemma_all_grants_update_len(s.drop_last(), i, e);
        assert(s.update(i, e).drop_last() =~= s.drop_last().update(i, e));
    }
}

#[derive(Debug, Clone, Copy, PartialEq, Eq, Structural)]
pub enum SecurityLevel {
    Unrestricted,
    Permissive,
    Balanced,
    Strict,
    Critical,
}

/// The highest tier a policy of each level allows.
pub open spec fn level_max_tier(l: SecurityLevel) -> PermissionTier {
    match l {
        SecurityLevel::Unrestricted => PermissionTier::Critical,
        SecurityLevel::Permissive => PermissionTier::Critical,
        SecurityLevel::Balanced => PermissionTier::High,
        SecurityLevel::Strict => PermissionTier::Medium,
        SecurityLevel::Critical => PermissionTier::Low,
    }
}

#[derive(Debug, Clone, Copy)]
pub struct SecurityPolicy {
    pub policy_id: ObjectId,
    pub driver_id: ObjectId,
    pub security_level: SecurityLevel,
    pub max_capability_tier: PermissionTier,
    pub require_reauth_for_critical: bool,
    pub auto_revoke_on_error: bool,
    pub audit_all_operations: bool,
}

impl SecurityPolicy {
    pub fn new(driver_id: ObjectId, level: SecurityLevel) -> (p: SecurityPolicy)
        ensures
            p.driver_id == driver_id,
            p.security_level == level,
            p.max_capability_tier == level_max_tier(level),
            p.require_reauth_for_critical == (level == SecurityLevel::Strict || level == SecurityLevel::Critical),
            p.auto_revoke_on_error == (level == SecurityLevel::Critical),
            p.audit_all_operations == (level == SecurityLevel::Strict || level == SecurityLevel::Critical),
            p.policy_id.value != 0,
    {
        let max_capability_tier = match level {
            SecurityLevel::Unrestricted => PermissionTier::Critical,
            SecurityLevel::Permissive => PermissionTier::Critical,
            SecurityLevel::Balanced => PermissionTier::High,
            SecurityLevel::Strict => PermissionTier::Medium,
            SecurityLevel::Critical => PermissionTier::Low,
        };
        let strictish = match level {
            SecurityLevel::Strict | SecurityLevel::Critical => true,
            _ => false,
        };
        let critical = match level {
            SecurityLevel::Critical => true,
            _ => false,
        };
        SecurityPolicy {
            policy_id: ObjectId::new(),
            driver_id,
            security_level: level,
            max_capability_tier,
            require_reauth_for_critical: strictish,
            auto_revoke_on_error: critical,
            audit_all_operations: strictish,
        }
    }

    /// Whether `tier` is at most the policy's highest allowed tier.
    pub fn allows_tier(&self, tier: PermissionTier) -> (b: bool)
        ensures
            b == (tier_rank(tier) <= tier_rank(self.max_capability_tier)),
    {
        tier.rank() <= self.max_capability_tier.rank()
    }
}

/// Stricter levels allow no higher tiers.
pub proof fn lemma_stricter_levels_allow_less(t: PermissionTier)
    ensures
        tier_rank(t) <= tier_rank(level_max_tier(SecurityLevel::Critical))
            ==> tier_rank(t) <= tier_rank(level_max_tier(SecurityLevel::Strict)),
        tier_rank(t) <= tier_rank(level_max_tier(SecurityLevel::Strict))
            ==> tier_rank(t) <= tier_rank(level_max_tier(SecurityLevel::Balanced)),
        tier_rank(t) <= tier_rank(level_max_tier(SecurityLevel::Balanced))
            ==> tier_rank(t) <= tier_rank(level_max_tier(SecurityLevel::Permissive)),
{
}

/// Tier limits on grant lifetimes: the more privileged tiers Low, High and
/// Critical allow ever shorter grants (Critical half of Low, Low half of
/// High), Medium allows the longest, a day; the recommended lifetime never
/// exceeds the limit; and tiers rank by privilege, Low lowest and Critical
/// highest.
pub proof fn lemma_tier_limits(t: PermissionTier)
    ensures
        recommended_duration(t) <= max_duration(t),
        max_duration(PermissionTier::Critical) <= max_duration(t) <= max_duration(PermissionTier::Medium),
        2 * max_duration(PermissionTier::Critical) == max_duration(PermissionTier::Low),
        2 * max_duration(PermissionTier::Low) == max_duration(PermissionTier::High),
        max_duration(PermissionTier::Medium) == 24 * max_duration(PermissionTier::Low),
        max_duration(PermissionTier::Low) == 3_600_000,
        recommended_duration(PermissionTier::Critical) <= recommended_duration(t),
        tier_rank(PermissionTier::Low) < tier_rank(PermissionTier::Medium),
        tier_rank(PermissionTier::Medium) < tier_rank(PermissionTier::High),
        tier_rank(PermissionTier::High) < tier_rank(PermissionTier::Critical),
        tier_rank(PermissionTier::Low) == 0,
        tier_rank(t) <= 3,
{
}

/// A grant is valid exactly until it expires: valid and expired are
/// opposites at every time, a grant expires once and stays expired, and a
/// grant with room between its start and its expiry is valid when made.
pub proof fn lemma_grant_validity(g: CapabilityGrant, t1: u64, t2: u64)
    ensures
        grant_valid(g, t1) != grant_expired(g, t1),
        t1 <= t2 && grant_expired(g, t1) ==> grant_expired(g, t2),
        t1 <= t2 && grant_valid(g, t2) ==> grant_valid(g, t1),
        g.granted_at_ms < g.expires_at_ms ==> grant_valid(g, g.granted_at_ms),
        grant_expired(g, g.expires_at_ms),
{
}

/// Stricter policy levels allow strictly fewer tiers: a Critical policy
/// allows only Low grants, each level from Critical through Strict and
/// Balanced to Permissive allows one more tier than the level before, and
/// Unrestricted allows as much as Permissive, every tier.
pub proof fn lemma_levels_allow_tiers(t: PermissionTier)
    ensures
        tier_rank(level_max_tier(SecurityLevel::Critical)) == tier_rank(PermissionTier::Low),
        tier_rank(level_max_tier(SecurityLevel::Critical)) < tier_rank(level_max_tier(SecurityLevel::Strict)),
        tier_rank(level_max_tier(SecurityLevel::Strict)) < tier_rank(level_max_tier(SecurityLevel::Balanced)),
        tier_rank(level_max_tier(SecurityLevel::Balanced)) < tier_rank(level_max_tier(SecurityLevel::Permissive)),
        tier_rank(t) <= tier_rank(level_max_tier(SecurityLevel::Permissive)),
        level_max_tier(SecurityLevel::Unrestricted) == level_max_tier(SecurityLevel::Permissive),
{
}

/// A grant expiring soon is still valid, an expired grant is not expiring
/// soon, and a grant expiring soon under a threshold is expiring soon under
/// any larger one.
pub proof fn lemma_expiring_soon(g: CapabilityGrant, now: u64, t1: u64, t2: u64)
    ensures
        expiring_soon(g, now, t1) ==> grant_valid(g, now),
        grant_expired(g, now) ==> !expiring_soon(g, now, t1),
        expiring_soon(g, now, t1) && t1 <= t2 ==> expiring_soon(g, now, t2),
        expiring_soon(g, now, t1) ==> g.expires_at_ms - now < t1,
        grant_valid(g, now) && g.expires_at_ms - now < t1 ==> expiring_soon(g, now, t1),
{
}

} // verus!
