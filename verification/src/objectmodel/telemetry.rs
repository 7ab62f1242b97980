//! Event and error counts of a managed kernel object.
use vstd::prelude::*;

verus! {

#[derive(Debug, Clone, Copy)]
pub struct EventCounts {
    pub events_processed: u64,
    pub errors_encountered: u64,
    /// When the last event was processed (seconds since the epoch).
    pub last_activity: Option<u64>,
}

impl EventCounts {
    /// No event and no error yet.
    pub fn new() -> (c: EventCounts)
        ensures
            c.events_processed == 0,
            c.errors_encountered == 0,
            c.last_activity.is_none(),
    {
        EventCounts { events_processed: 0, errors_encountered: 0, last_activity: None }
    }

    /// Count one event processed at `now`.
    pub fn record_event(&mut self, now: u64)
        requires
            old(self).events_processed < u64::MAX,
        ensures
            final(self).events_processed == old(self).events_processed + 1,
            final(self).errors_encountered == old(self).errors_encountered,
            final(self).last_activity == Some(now),
    {
        self.events_processed = self.events_processed + 1;
        self.last_activity = Some(now);
    }

    /// Count one error.
    pub fn record_error(&mut self)
        requires
            old(self).errors_encountered < u64::MAX,
        ensures
            final(self).errors_encountered == old(self).errors_encountered + 1,
            final(self).events_processed == old(self).events_processed,
            final(self).last_activity == old(self).last_activity,
    {
        self.errors_encountered = self.errors_encountered + 1;
    }
}

} // verus!
