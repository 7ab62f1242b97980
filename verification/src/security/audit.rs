//! The security audit log.
use vstd::prelude::*;
use crate::common::{owned, unix_time_secs, ObjectId};

verus! {

#[derive(Debug, Clone)]
pub struct AuditEvent {
    pub id: ObjectId,
    pub actor: ObjectId,
    pub action: String,
    pub timestamp: u64,
    pub details: String,
    pub result: bool,
}

#[derive(Debug, Clone)]
pub struct AuditLog {
    pub events: Vec<AuditEvent>,
}

impl Default for AuditLog {
    fn default() -> (l: AuditLog)
        ensures
            l.events@.len() == 0,
    {
        AuditLog { events: Vec::new() }
    }
}

impl AuditLog {
    /// Append an event for `actor` doing `action` with outcome `result`,
    /// stamped with the clock (seconds) and a fresh identity.
    pub fn log(&mut self, actor: ObjectId, action: &str, result: bool)
        ensures
            final(self).events@.len() == old(self).events@.len() + 1,
            final(self).events@.drop_last() == old(self).events@,
            ({
                let e = final(self).events@.last();
                &&& e.id.value != 0
                &&& e.actor == actor
                &&& e.action@ == action@
                &&& e.details@.len() == 0
                &&& e.result == result
            }),
    {
        let timestamp = unix_time_secs();
        self.events.push(AuditEvent {
            id: ObjectId::new(),
            actor,
            action: owned(action),
            timestamp,
            details: String::new(),
            result,
        });
        assert(self.events@.drop_last() =~= old(self).events@);
    }

    /// Events whose operation failed, in order.
    pub fn failed_events(&self) -> (r: Vec<&AuditEvent>)
        ensures
            r@.map_values(|e: &AuditEvent| *e) == self.events@.filter(|e: AuditEvent| !e.result),
    {
        let ghost pred = |e: AuditEvent| !e.result;
        let ghost l = self.events@;
        let mut out: Vec<&AuditEvent> = Vec::new();
        let mut i: usize = 0;
        while i < self.events.len()
            invariant
                l == self.events@,
                i <= l.len(),
                pred == (|e: AuditEvent| !e.result),
                out@.map_values(|e: &AuditEvent| *e) == l.subrange(0, i as int).filter(pred),
            decreases l.len() - i,
        {
            proof {
                assert(l.subrange(0, i as int + 1) =~= l.subrange(0, i as int).push(l[i as int]));
                l.subrange(0, i as int).lemma_filter_push(l[i as int], pred);
            }
            if !self.events[i].result {
                out.push(&self.events[i]);
                assert(out@.map_values(|e: &AuditEvent| *e) =~= l.subrange(0, i as int).filter(pred).push(l[i as int]));
            }
            i = i + 1;
        }
        assert(l.subrange(0, l.len() as int) =~= l);
        out
    }

    /// Events of `actor`, in order.
    pub fn events_by_actor(&self, actor: ObjectId) -> (r: Vec<&AuditEvent>)
        ensures
            r@.map_values(|e: &AuditEvent| *e) == self.events@.filter(|e: AuditEvent| e.actor == actor),
    {
        let ghost pred = |e: AuditEvent| e.actor == actor;
        let ghost l = self.events@;
        let mut out: Vec<&AuditEvent> = Vec::new();
        let mut i: usize = 0;
        while i < self.events.len()
            invariant
                l == self.events@,
                i <= l.len(),
                pred == (|e: AuditEvent| e.actor == actor),
                out@.map_values(|e: &AuditEvent| *e) == l.subrange(0, i as int).filter(pred),
            decreases l.len() - i,
        {
            proof {
                assert(l.subrange(0, i as int + 1) =~= l.subrange(0, i as int).push(l[i as int]));
                l.subrange(0, i as int).lemma_filter_push(l[i as int], pred);
            }
            if self.events[i].actor == actor {
                out.push(&self.events[i]);
                assert(out@.map_values(|e: &AuditEvent| *e) =~= l.subrange(0, i as int).filter(pred).push(l[i as int]));
            }
            i = i + 1;
        }
        assert(l.subrange(0, l.len() as int) =~= l);
        out
    }
}

} // verus!
