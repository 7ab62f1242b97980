//! Named capabilities held by an owning object.
use vstd::prelude::*;
use crate::common::{owned, ObjectId};
use crate::keyed::str_eq;

verus! {

#[derive(Debug, Clone)]
pub struct SecurityContext {
    pub owner: ObjectId,
    pub capabilities: Vec<String>,
    pub audit_enabled: bool,
}

/// Whether `name` is among `caps`.
pub open spec fn names_hold(caps: Seq<String>, name: Seq<char>) -> bool {
    exists|i: int| 0 <= i < caps.len() && (#[trigger] caps[i])@ == name
}

/// Position of `name` in `caps`, if present.
fn find_name(caps: &Vec<String>, name: &str) -> (r: Option<usize>)
    ensures
        match r {
            Some(i) => i < caps@.len() && caps@[i as int]@ == name@,
            None => !names_hold(caps@, name@),
        },
{
    let mut i: usize = 0;
    while i < caps.len()
        invariant
            i <= caps@.len(),
            forall|j: int| 0 <= j < i ==> (#[trigger] caps@[j])@ != name@,
        decreases caps@.len() - i,
    {
        if str_eq(caps[i].as_str(), name) {
            return Some(i);
        }
        i = i + 1;
    }
    None
}

impl SecurityContext {
    /// No capabilities; auditing on.
    pub fn new(owner: ObjectId) -> (c: SecurityContext)
        ensures
            c.owner == owner,
            c.capabilities@.len() == 0,
            c.audit_enabled,
    {
        SecurityContext { owner, capabilities: Vec::new(), audit_enabled: true }
    }

    /// Add `capability` unless it is already held.
    pub fn grant(&mut self, capability: &str)
        ensures
            final(self).owner == old(self).owner,
            final(self).audit_enabled == old(self).audit_enabled,
            names_hold(old(self).capabilities@, capability@) ==> final(self).capabilities@ == old(self).capabilities@,
            !names_hold(old(self).capabilities@, capability@) ==> final(self).capabilities@.len() == old(self).capabilities@.len() + 1
                && final(self).capabilities@.drop_last() == old(self).capabilities@
                && final(self).capabilities@.last()@ == capability@,
    {
        match find_name(&self.capabilities, capability) {
            Some(_) => {},
            None => {
                self.capabilities.push(owned(capability));
                assert(self.capabilities@.drop_last() =~= old(self).capabilities@);
            },
        }
    }

    /// Drop every copy of `capability`.
    pub fn revoke(&mut self, capability: &str)
        ensures
            final(self).owner == old(self).owner,
            final(self).audit_enabled == old(self).audit_enabled,
            final(self).capabilities@ == old(self).capabilities@.filter(|c: String| c@ != capability@),
    {
        let ghost pred = |c: String| c@ != capability@;
        let ghost l = self.capabilities@;
        let mut kept: Vec<String> = Vec::new();
        let mut i: usize = 0;
        while i < self.capabilities.len()
            invariant
                l == self.capabilities@,
                i <= l.len(),
                pred == (|c: String| c@ != capability@),
                kept@ == l.subrange(0, i as int).filter(pred),
            decreases l.len() - i,
        {
            proof {
                assert(l.subrange(0, i as int + 1) =~= l.subrange(0, i as int).push(l[i as int]));
                l.subrange(0, i as int).lemma_filter_push(l[i as int], pred);
            }
            if !str_eq(self.capabilities[i].as_str(), capability) {
                kept.push(self.capabilities[i].clone());
            }
            i = i + 1;
        }
        assert(l.subrange(0, l.len() as int) =~= l);
        self.capabilities = kept;
    }

    pub fn has_capability(&self, capability: &str) -> (b: bool)
        ensures
            b == names_hold(self.capabilities@, capability@),
    {
        find_name(&self.capabilities, capability).is_some()
    }
}

/// Revoking a capability takes every copy of it away: nothing named
/// `name` is held afterwards.
pub proof fn lemma_revoked_not_held(caps: Seq<String>, name: Seq<char>)
    ensures
        !names_hold(caps.filter(|c: String| c@ != name), name),
{
    let pred = |c: String| c@ != name;
    let kept = caps.filter(pred);
    assert forall|i: int| 0 <= i < kept.len() implies (#[trigger] kept[i])@ != name by {
        caps.lemma_filter_pred(pred, i);
    }
}

/// Revoking one capability keeps every other capability that was held.
pub proof fn lemma_revoke_keeps_others(caps: Seq<String>, name: Seq<char>, other: Seq<char>)
    requires
        other != name,
        names_hold(caps, other),
    ensures
        names_hold(caps.filter(|c: String| c@ != name), other),
{
    let pred = |c: String| c@ != name;
    let i = choose|i: int| 0 <= i < caps.len() && (#[trigger] caps[i])@ == other;
    caps.lemma_filter_contains(pred, i);
    let kept = caps.filter(pred);
    let j = choose|j: int| 0 <= j < kept.len() && kept[j] == caps[i];
    assert(kept[j]@ == other);
}

/// After a grant the capability is held, and everything held before still
/// is: `after` is the list a grant of `name` leaves behind.
pub proof fn lemma_granted_held(caps: Seq<String>, after: Seq<String>, name: Seq<char>, other: Seq<char>)
    requires
        names_hold(caps, name) ==> after == caps,
        !names_hold(caps, name) ==> after.len() == caps.len() + 1 && after.drop_last() == caps && after.last()@ == name,
    ensures
        names_hold(after, name),
        names_hold(caps, other) ==> names_hold(after, other),
{
    if !names_hold(caps, name) {
        assert(after[after.len() - 1]@ == name);
        if names_hold(caps, other) {
            let i = choose|i: int| 0 <= i < caps.len() && (#[trigger] caps[i])@ == other;
            assert(after[i] == after.drop_last()[i]);
        }
    }
}

} // verus!
