//! Lifecycle of a managed kernel object.
use vstd::prelude::*;
use crate::common::{owned, unix_time_secs};

verus! {

#[derive(Debug, Clone, Copy, PartialEq, Eq, Structural)]
pub enum State {
    Initializing,
    Ready,
    Running,
    Paused,
    Stopping,
    Stopped,
    Failed,
    Recovering,
}

#[derive(Debug, Clone)]
pub struct Lifecycle {
    pub state: State,
    pub created_at: u64,
    pub started_at: Option<u64>,
    pub stopped_at: Option<u64>,
    pub restart_count: u32,
    pub last_error: Option<String>,
}

impl Default for Lifecycle {
    /// Initializing, created now (seconds since the epoch), never started.
    fn default() -> (l: Lifecycle)
        ensures
            l.state == State::Initializing,
            l.started_at.is_none(),
            l.stopped_at.is_none(),
            l.restart_count == 0,
            l.last_error.is_none(),
    {
        let now = unix_time_secs();
        Lifecycle {
            state: State::Initializing,
            created_at: now,
            started_at: None,
            stopped_at: None,
            restart_count: 0,
            last_error: None,
        }
    }
}

impl Lifecycle {
    /// Enter `Running`, stamping the start time with the clock.
    pub fn start(&mut self)
        ensures
            final(self).state == State::Running,
            final(self).started_at.is_some(),
            final(self).created_at == old(self).created_at,
            final(self).stopped_at == old(self).stopped_at,
            final(self).restart_count == old(self).restart_count,
            final(self).last_error == old(self).last_error,
    {
        let now = unix_time_secs();
        self.state = State::Running;
        self.started_at = Some(now);
    }

    /// Enter `Stopped`, stamping the stop time with the clock.
    pub fn stop(&mut self)
        ensures
            final(self).state == State::Stopped,
            final(self).stopped_at.is_some(),
            final(self).created_at == old(self).created_at,
            final(self).started_at == old(self).started_at,
            final(self).restart_count == old(self).restart_count,
            final(self).last_error == old(self).last_error,
    {
        let now = unix_time_secs();
        self.state = State::Stopped;
        self.stopped_at = Some(now);
    }

    /// Enter `Failed`, keeping `error` as the last error.
    pub fn mark_failed(&mut self, error: &str)
        ensures
            final(self).state == State::Failed,
            final(self).last_error matches Some(e) && e@ == error@,
            final(self).created_at == old(self).created_at,
            final(self).started_at == old(self).started_at,
            final(self).stopped_at == old(self).stopped_at,
            final(self).restart_count == old(self).restart_count,
    {
        self.state = State::Failed;
        self.last_error = Some(owned(error));
    }

    pub fn is_running(&self) -> (b: bool)
        ensures
            b == (self.state == State::Running),
    {
        self.state == State::Running
    }
}

} // verus!
