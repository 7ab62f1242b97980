//! Time-bounded capability grants held by a kernel object.
use vstd::prelude::*;
use crate::common::{unix_time_secs, Capability, PermissionTier};

verus! {

/// How long a grant of each tier lives, in seconds.
pub open spec fn tier_lifetime_secs(t: PermissionTier) -> u64 {
    match t {
        PermissionTier::Low => 3600,
        PermissionTier::Medium => 86400,
        PermissionTier::High => 7200,
        PermissionTier::Critical => 1800,
    }
}

/// Grant lifetimes by tier: every grant lives between half an hour and a
/// day; Critical grants live shortest, half an hour, Low grants twice as
/// long and High grants twice as long again, while Medium grants live
/// longest, a full day.
pub proof fn lemma_tier_lifetimes(t: PermissionTier)
    ensures
        1800 <= tier_lifetime_secs(t) <= 86400,
        tier_lifetime_secs(PermissionTier::Critical) <= tier_lifetime_secs(t),
        tier_lifetime_secs(PermissionTier::Critical) <= 1800,
        tier_lifetime_secs(t) <= tier_lifetime_secs(PermissionTier::Medium),
        tier_lifetime_secs(PermissionTier::Medium) >= 86400,
        tier_lifetime_secs(PermissionTier::Critical) < tier_lifetime_secs(PermissionTier::Low),
        tier_lifetime_secs(PermissionTier::Low) < tier_lifetime_secs(PermissionTier::High),
        tier_lifetime_secs(PermissionTier::High) < tier_lifetime_secs(PermissionTier::Medium),
        tier_lifetime_secs(PermissionTier::Low) == 2 * tier_lifetime_secs(PermissionTier::Critical),
        tier_lifetime_secs(PermissionTier::High) == 2 * tier_lifetime_secs(PermissionTier::Low),
{
}

#[derive(Debug, Clone, Copy)]
pub struct CapabilityGrant {
    pub capability: Capability,
    pub tier: PermissionTier,
    pub granted_at: u64,
    pub expires_at: Option<u64>,
}

/// A grant is valid at `now` when it has no expiry or expires later.
pub open spec fn valid_at(g: CapabilityGrant, now: u64) -> bool {
    match g.expires_at {
        Some(expiry) => now < expiry,
        None => true,
    }
}

impl CapabilityGrant {
    /// A grant made at `now`, expiring after its tier's lifetime (the
    /// expiry saturates at the largest time).
    pub fn new_at(capability: Capability, tier: PermissionTier, now: u64) -> (g: CapabilityGrant)
        ensures
            g.capability == capability,
            g.tier == tier,
            g.granted_at == now,
            g.expires_at == Some(if now + tier_lifetime_secs(tier) <= u64::MAX {
                (now + tier_lifetime_secs(tier)) as u64
            } else {
                u64::MAX
            }),
    {
        let lifetime: u64 = match tier {
            PermissionTier::Low => 3600,
            PermissionTier::Medium => 86400,
            PermissionTier::High => 7200,
            PermissionTier::Critical => 1800,
        };
        CapabilityGrant { capability, tier, granted_at: now, expires_at: Some(now.saturating_add(lifetime)) }
    }

    /// A grant made now (by the clock); see `new_at`.
    pub fn new(capability: Capability, tier: PermissionTier) -> (g: CapabilityGrant)
        ensures
            g.capability == capability,
            g.tier == tier,
            g.expires_at == Some(if g.granted_at + tier_lifetime_secs(tier) <= u64::MAX {
                (g.granted_at + tier_lifetime_secs(tier)) as u64
            } else {
                u64::MAX
            }),
    {
        CapabilityGrant::new_at(capability, tier, unix_time_secs())
    }

    pub fn is_valid_at(&self, now: u64) -> (b: bool)
        ensures
            b == valid_at(*self, now),
    {
        match self.expires_at {
            Some(expiry) => now < expiry,
            None => true,
        }
    }

    /// Whether the grant is valid now, by the clock.
    pub fn is_valid(&self) -> (b: bool)
        ensures
            self.expires_at.is_none() ==> b,
            exists|now: u64| b == #[trigger] valid_at(*self, now),
    {
        let now = unix_time_secs();
        let b = self.is_valid_at(now);
        assert(b == valid_at(*self, now));
        b
    }
}

#[derive(Debug, Clone)]
pub struct CapabilitySet {
    pub grants: Vec<CapabilityGrant>,
}

impl Default for CapabilitySet {
    fn default() -> (s: CapabilitySet)
        ensures
            s.grants@.len() == 0,
    {
        CapabilitySet { grants: Vec::new() }
    }
}

/// The grants of `s` valid at `now`, in order.
pub open spec fn unexpired_at(s: Seq<CapabilityGrant>, now: u64) -> Seq<CapabilityGrant> {
    s.filter(|g: CapabilityGrant| valid_at(g, now))
}

/// Some grant of `s` for `c` is valid at `now`.
pub open spec fn holds_at(s: Seq<CapabilityGrant>, c: Capability, now: u64) -> bool {
    exists|i: int| 0 <= i < s.len() && (#[trigger] s[i]).capability == c && valid_at(s[i], now)
}

impl CapabilitySet {
    /// Add a grant of `capability` at `tier`, made now.
    pub fn grant(&mut self, capability: Capability, tier: PermissionTier)
        ensures
            final(self).grants@.len() == old(self).grants@.len() + 1,
            final(self).grants@.drop_last() == old(self).grants@,
            final(self).grants@.last().capability == capability,
            final(self).grants@.last().tier == tier,
    {
        let g = CapabilityGrant::new(capability, tier);
        self.grants.push(g);
        assert(self.grants@.drop_last() =~= old(self).grants@);
    }

    /// Whether some grant of `capability` is valid at `now`.
    pub fn has_capability_at(&self, capability: Capability, now: u64) -> (b: bool)
        ensures
            b == holds_at(self.grants@, capability, now),
    {
        let mut i: usize = 0;
        while i < self.grants.len()
            invariant
                i <= self.grants@.len(),
                forall|j: int| 0 <= j < i ==> !((#[trigger] self.grants@[j]).capability == capability && valid_at(self.grants@[j], now)),
            decreases self.grants@.len() - i,
        {
            if self.grants[i].capability == capability && self.grants[i].is_valid_at(now) {
                assert(self.grants@[i as int].capability == capability);
                return true;
            }
            i = i + 1;
        }
        false
    }

    /// Whether some grant of `capability` is valid now, by the clock.
    pub fn has_capability(&self, capability: Capability) -> (b: bool)
        ensures
            b ==> exists|i: int| 0 <= i < self.grants@.len() && (#[trigger] self.grants@[i]).capability == capability,
            (exists|i: int| 0 <= i < self.grants@.len() && (#[trigger] self.grants@[i]).capability == capability
                && self.grants@[i].expires_at.is_none()) ==> b,
            exists|now: u64| b == #[trigger] holds_at(self.grants@, capability, now),
    {
        let now = unix_time_secs();
        let b = self.has_capability_at(capability, now);
        assert(b == holds_at(self.grants@, capability, now));
        b
    }

    /// Drop every grant of `capability`.
    pub fn revoke(&mut self, capability: Capability)
        ensures
            final(self).grants@ == old(self).grants@.filter(|g: CapabilityGrant| g.capability != capability),
    {
        let ghost pred = |g: CapabilityGrant| g.capability != capability;
        let ghost l = self.grants@;
        let mut kept: Vec<CapabilityGrant> = Vec::new();
        let mut i: usize = 0;
        while i < self.grants.len()
            invariant
                l == self.grants@,
                i <= l.len(),
                pred == (|g: CapabilityGrant| g.capability != capability),
                kept@ == l.subrange(0, i as int).filter(pred),
            decreases l.len() - i,
        {
            proof {
                assert(l.subrange(0, i as int + 1) =~= l.subrange(0, i as int).push(l[i as int]));
                l.subrange(0, i as int).lemma_filter_push(l[i as int], pred);
            }
            if self.grants[i].capability != capability {
                kept.push(self.grants[i]);
            }
            i = i + 1;
        }
        assert(l.subrange(0, l.len() as int) =~= l);
        self.grants = kept;
    }

    /// Keep only the grants valid at `now`.
    pub fn cleanup_expired_at(&mut self, now: u64)
        ensures
            final(self).grants@ == old(self).grants@.filter(|g: CapabilityGrant| valid_at(g, now)),
    {
        let ghost pred = |g: CapabilityGrant| valid_at(g, now);
        let ghost l = self.grants@;
        let mut kept: Vec<CapabilityGrant> = Vec::new();
        let mut i: usize = 0;
        while i < self.grants.len()
            invariant
                l == self.grants@,
                i <= l.len(),
                pred == (|g: CapabilityGrant| valid_at(g, now)),
                kept@ == l.subrange(0, i as int).filter(pred),
            decreases l.len() - i,
        {
            proof {
                assert(l.subrange(0, i as int + 1) =~= l.subrange(0, i as int).push(l[i as int]));
                l.subrange(0, i as int).lemma_filter_push(l[i as int], pred);
            }
            if self.grants[i].is_valid_at(now) {
                kept.push(self.grants[i]);
            }
            i = i + 1;
        }
        assert(l.subrange(0, l.len() as int) =~= l);
        self.grants = kept;
    }

    /// Keep only the grants valid now, by the clock.
    pub fn cleanup_expired(&mut self)
        ensures
            exists|now: u64| #[trigger] unexpired_at(old(self).grants@, now) == final(self).grants@,
            final(self).grants@.len() <= old(self).grants@.len(),
            forall|i: int| 0 <= i < old(self).grants@.len() && (#[trigger] old(self).grants@[i]).expires_at.is_none()
                ==> final(self).grants@.contains(old(self).grants@[i]),
    {
        let now = unix_time_secs();
        self.cleanup_expired_at(now);
        proof {
            assert(unexpired_at(old(self).grants@, now) == self.grants@);
            let pred = |g: CapabilityGrant| valid_at(g, now);
            old(self).grants@.lemma_filter_len(pred);
            assert forall|i: int| 0 <= i < old(self).grants@.len() && (#[trigger] old(self).grants@[i]).expires_at.is_none()
                implies self.grants@.contains(old(self).grants@[i]) by {
                old(self).grants@.lemma_filter_contains(pred, i);
            }
        }
    }
}

/// Once a capability is revoked no grant of it is left, so it is not held
/// at any time.
pub proof fn lemma_revoked_capability_not_held(grants: Seq<CapabilityGrant>, c: Capability, now: u64)
    ensures
        !holds_at(grants.filter(|g: CapabilityGrant| g.capability != c), c, now),
{
    let pred = |g: CapabilityGrant| g.capability != c;
    let kept = grants.filter(pred);
    assert forall|i: int| 0 <= i < kept.len() implies (#[trigger] kept[i]).capability != c by {
        grants.lemma_filter_pred(pred, i);
    }
}

/// Dropping the grants expired at `now` changes nothing that is held at
/// `now`.
pub proof fn lemma_cleanup_keeps_what_is_held(grants: Seq<CapabilityGrant>, c: Capability, now: u64)
    ensures
        holds_at(grants.filter(|g: CapabilityGrant| valid_at(g, now)), c, now) == holds_at(grants, c, now),
{
    let pred = |g: CapabilityGrant| valid_at(g, now);
    let kept = grants.filter(pred);
    if holds_at(grants, c, now) {
        let i = choose|i: int| 0 <= i < grants.len() && (#[trigger] grants[i]).capability == c && valid_at(grants[i], now);
        grants.lemma_filter_contains(pred, i);
        let j = choose|j: int| 0 <= j < kept.len() && kept[j] == grants[i];
        assert(kept[j].capability == c);
    }
    if holds_at(kept, c, now) {
        let j = choose|j: int| 0 <= j < kept.len() && (#[trigger] kept[j]).capability == c && valid_at(kept[j], now);
        assert(kept.contains(kept[j]));
        grants.lemma_filter_contains_rev(pred, kept[j]);
        let i = choose|i: int| 0 <= i < grants.len() && grants[i] == kept[j];
        assert(grants[i].capability == c);
    }
}

} // verus!
