//! The boot pointer: which slot boots next, with an audit trail of every
//! switch. Switching is the whole rollback: no data is copied, so the
//! previous system stays bootable.
use vstd::prelude::*;
use crate::common::owned;
use crate::recovery::partition::{other_slot, PartitionSlot};

verus! {

#[derive(Debug, Clone)]
pub struct BootSwitch {
    pub from: PartitionSlot,
    pub to: PartitionSlot,
    pub reason: String,
}

#[derive(Debug, Clone)]
pub struct BootPointer {
    active: PartitionSlot,
    history: Vec<BootSwitch>,
}

impl Default for BootPointer {
    fn default() -> (p: BootPointer)
        ensures
            p.active_view() == PartitionSlot::A,
            p.history_view().len() == 0,
    {
        BootPointer::new(PartitionSlot::A)
    }
}

impl BootPointer {
    pub closed spec fn active_view(&self) -> PartitionSlot {
        self.active
    }

    pub closed spec fn history_view(&self) -> Seq<BootSwitch> {
        self.history@
    }

    pub fn new(initial: PartitionSlot) -> (p: BootPointer)
        ensures
            p.active_view() == initial,
            p.history_view().len() == 0,
    {
        BootPointer { active: initial, history: Vec::new() }
    }

    pub fn active(&self) -> (s: PartitionSlot)
        ensures
            s == self.active_view(),
    {
        self.active
    }

    /// Make `target` active and record the switch with `reason` (recorded
    /// even when `target` was already active).
    pub fn switch_to(&mut self, target: PartitionSlot, reason: &str)
        ensures
            final(self).active_view() == target,
            final(self).history_view().len() == old(self).history_view().len() + 1,
            final(self).history_view().drop_last() == old(self).history_view(),
            final(self).history_view().last().from == old(self).active_view(),
            final(self).history_view().last().to == target,
            final(self).history_view().last().reason@ == reason@,
    {
        let from = self.active;
        self.history.push(BootSwitch { from, to: target, reason: owned(reason) });
        self.active = target;
        assert(self.history@.drop_last() =~= old(self).history@);
    }

    /// Instant rollback: switch to the other slot.
    pub fn rollback(&mut self, reason: &str)
        ensures
            final(self).active_view() == other_slot(old(self).active_view()),
            final(self).history_view().len() == old(self).history_view().len() + 1,
            final(self).history_view().drop_last() == old(self).history_view(),
            final(self).history_view().last().from == old(self).active_view(),
            final(self).history_view().last().to == other_slot(old(self).active_view()),
            final(self).history_view().last().reason@ == reason@,
    {
        let target = self.active.other();
        self.switch_to(target, reason);
    }

    pub fn history(&self) -> (h: &[BootSwitch])
        ensures
            h@ == self.history_view(),
    {
        self.history.as_slice()
    }
}

/// Two rollbacks in a row bring back the slot that was active before.
pub proof fn lemma_rollback_twice(s: PartitionSlot)
    ensures
        other_slot(other_slot(s)) == s,
        other_slot(s) != s,
{
}

} // verus!
