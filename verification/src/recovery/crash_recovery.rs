//! Driver crash accounting, quarantine and the overall recovery state.
use vstd::prelude::*;
use crate::common::{unix_time_millis, ObjectId, Result};
use crate::keyed::VecMap;

verus! {

#[derive(Clone, Copy, Debug, PartialEq, Eq, Structural)]
pub enum RecoveryState {
    Healthy,
    Degraded,
    Recovering,
    Failed,
}

#[derive(Clone, Copy, Debug)]
pub struct CrashMetrics {
    pub crash_count: usize,
    pub last_crash_time: u64,
    pub recovery_attempts: usize,
    pub successful_recoveries: usize,
    pub failed_recoveries: usize,
    pub total_downtime_ms: u64,
}

/// The metrics a driver starts from.
pub open spec fn fresh_metrics() -> CrashMetrics {
    CrashMetrics {
        crash_count: 0,
        last_crash_time: 0,
        recovery_attempts: 0,
        successful_recoveries: 0,
        failed_recoveries: 0,
        total_downtime_ms: 0,
    }
}

impl Default for CrashMetrics {
    fn default() -> (m: CrashMetrics)
        ensures
            m == fresh_metrics(),
    {
        CrashMetrics {
            crash_count: 0,
            last_crash_time: 0,
            recovery_attempts: 0,
            successful_recoveries: 0,
            failed_recoveries: 0,
            total_downtime_ms: 0,
        }
    }
}

/// The limits of crash recovery. (The growth factor of the restart backoff
/// is a floating-point value and lives with the backoff computation, which
/// is not part of this library.)
#[derive(Clone, Copy, Debug)]
pub struct RecoveryPolicy {
    pub max_restart_attempts: usize,
    pub initial_backoff_ms: u64,
    pub max_backoff_ms: u64,
    pub quarantine_threshold_crashes: usize,
    pub quarantine_duration_ms: u64,
}

impl Default for RecoveryPolicy {
    /// Five restarts, 100 ms initial and 30 s maximum backoff, quarantine
    /// for a minute after three crashes.
    fn default() -> (p: RecoveryPolicy)
        ensures
            p.max_restart_attempts == 5,
            p.initial_backoff_ms == 100,
            p.max_backoff_ms == 30000,
            p.quarantine_threshold_crashes == 3,
            p.quarantine_duration_ms == 60000,
    {
        RecoveryPolicy {
            max_restart_attempts: 5,
            initial_backoff_ms: 100,
            max_backoff_ms: 30000,
            quarantine_threshold_crashes: 3,
            quarantine_duration_ms: 60000,
        }
    }
}

/// Number of drivers in `s` that never crashed.
pub open spec fn count_healthy(s: Seq<(ObjectId, CrashMetrics)>) -> nat
    decreases s.len(),
{
    if s.len() == 0 { 0 } else { count_healthy(s.drop_last()) + if s.last().1.crash_count == 0 { 1nat } else { 0nat } }
}

/// The state a health check derives from the metrics `s`.
pub open spec fn derived_state(s: Seq<(ObjectId, CrashMetrics)>) -> RecoveryState {
    let healthy = count_healthy(s);
    let total = s.len();
    if healthy == total {
        RecoveryState::Healthy
    } else if healthy > total / 2 {
        RecoveryState::Degraded
    } else if exists|i: int| 0 <= i < s.len() && (#[trigger] s[i]).1.recovery_attempts < 2 {
        RecoveryState::Recovering
    } else {
        RecoveryState::Failed
    }
}

/// Counting never-crashed drivers one by one agrees with filtering them
/// out, and all of them are counted exactly when none crashed.
proof fn lemma_count_healthy(s: Seq<(ObjectId, CrashMetrics)>)
    ensures
        count_healthy(s) == s.filter(|e: (ObjectId, CrashMetrics)| e.1.crash_count == 0).len(),
        count_healthy(s) <= s.len(),
        (count_healthy(s) == s.len()) <==> forall|i: int| 0 <= i < s.len() ==> (#[trigger] s[i]).1.crash_count == 0,
    decreases s.len(),
{
    let pred = |e: (ObjectId, CrashMetrics)| e.1.crash_count == 0;
    if s.len() > 0 {
        let t = s.drop_last();
        lemma_count_healthy(t);
        assert(t.push(s.last()) =~= s);
        t.lemma_filter_push(s.last(), pred);
        if count_healthy(s) == s.len() {
            assert forall|i: int| 0 <= i < s.len() implies (#[trigger] s[i]).1.crash_count == 0 by {
                if i < t.len() {
                    assert(s[i] == t[i]);
                }
            }
        }
        if forall|i: int| 0 <= i < s.len() ==> (#[trigger] s[i]).1.crash_count == 0 {
            assert forall|i: int| 0 <= i < t.len() implies (#[trigger] t[i]).1.crash_count == 0 by {
                assert(s[i] == t[i]);
            }
            assert(s[s.len() - 1].1.crash_count == 0);
        }
    }
}

/// What a health check concludes from the metrics `s`, by how many drivers
/// never crashed (`healthy` of `n`): healthy when no driver crashed;
/// degraded when some crashed but more than half never did; otherwise
/// recovering while some driver has had fewer than two recovery attempts,
/// and failed once every driver has had at least two.
pub proof fn lemma_health_check_state(s: Seq<(ObjectId, CrashMetrics)>)
    ensures
        ({
            let healthy = s.filter(|e: (ObjectId, CrashMetrics)| e.1.crash_count == 0).len();
            let n = s.len();
            &&& (forall|i: int| 0 <= i < n ==> (#[trigger] s[i]).1.crash_count == 0)
                ==> derived_state(s) == RecoveryState::Healthy
            &&& (exists|i: int| 0 <= i < n && (#[trigger] s[i]).1.crash_count > 0) && 2 * healthy > n
                ==> derived_state(s) == RecoveryState::Degraded
            &&& 2 * healthy <= n && (exists|i: int| 0 <= i < n && (#[trigger] s[i]).1.recovery_attempts < 2)
                ==> derived_state(s) == RecoveryState::Recovering
            &&& 0 < n && 2 * healthy <= n && (forall|i: int| 0 <= i < n ==> (#[trigger] s[i]).1.recovery_attempts >= 2)
                ==> derived_state(s) == RecoveryState::Failed
        }),
{
    lemma_count_healthy(s);
}

/// Who may be restarted: a quarantined driver never, a driver with no
/// record that is not quarantined always, and a driver that has used up
/// its restart attempts never.
pub proof fn lemma_recoverable(m: CrashRecoveryManager, d: ObjectId, now: u64)
    ensures
        m.quarantined_at(d, now) ==> !m.recoverable_at(d, now),
        !m.quarantined_at(d, now) && !m.metrics_view().contains_key(d) ==> m.recoverable_at(d, now),
        m.metrics_view().contains_key(d) && m.metrics_of(d).recovery_attempts >= m.policy_view().max_restart_attempts
            ==> !m.recoverable_at(d, now),
        !m.quarantine_view().contains_key(d) ==> !m.quarantined_at(d, now),
{
}

/// `m` with one more crash at `now`.
pub open spec fn crashed(m: CrashMetrics, now: u64) -> CrashMetrics {
    CrashMetrics { crash_count: (m.crash_count + 1) as usize, last_crash_time: now, ..m }
}

/// `after` is manager `before` once a crash of `driver_id` at `now` was
/// recorded: the crash is counted; once the count reaches the quarantine
/// threshold the driver is quarantined from `now` and the state becomes
/// degraded, and below it quarantine and state stay as they were.
pub open spec fn crash_recorded(
    before: CrashRecoveryManager,
    after: CrashRecoveryManager,
    driver_id: ObjectId,
    now: u64,
) -> bool {
    &&& after.policy_view() == before.policy_view()
    &&& after.metrics_view() == before.metrics_view().insert(driver_id, crashed(before.metrics_of(driver_id), now))
    &&& before.metrics_of(driver_id).crash_count + 1 >= before.policy_view().quarantine_threshold_crashes ==> {
        &&& after.quarantine_view() == before.quarantine_view().insert(driver_id, now)
        &&& after.state_view() == RecoveryState::Degraded
    }
    &&& before.metrics_of(driver_id).crash_count + 1 < before.policy_view().quarantine_threshold_crashes ==> {
        &&& after.quarantine_view() == before.quarantine_view()
        &&& after.state_view() == before.state_view()
    }
}

pub struct CrashRecoveryManager {
    metrics: VecMap<ObjectId, CrashMetrics>,
    policy: RecoveryPolicy,
    quarantined: VecMap<ObjectId, u64>,
    recovery_state: RecoveryState,
}

impl CrashRecoveryManager {
    pub closed spec fn wf(&self) -> bool {
        self.metrics.wf() && self.quarantined.wf()
    }

    /// Metrics by driver.
    pub closed spec fn metrics_view(&self) -> Map<ObjectId, CrashMetrics> {
        self.metrics@
    }

    /// Metrics in the order drivers were first seen.
    pub closed spec fn metrics_entries(&self) -> Seq<(ObjectId, CrashMetrics)> {
        self.metrics.entries@
    }

    /// When each quarantined driver was quarantined (milliseconds).
    pub closed spec fn quarantine_view(&self) -> Map<ObjectId, u64> {
        self.quarantined@
    }

    pub closed spec fn policy_view(&self) -> RecoveryPolicy {
        self.policy
    }

    pub closed spec fn state_view(&self) -> RecoveryState {
        self.recovery_state
    }

    /// The metrics of `d`, or fresh ones.
    pub open spec fn metrics_of(&self, d: ObjectId) -> CrashMetrics {
        if self.metrics_view().contains_key(d) { self.metrics_view()[d] } else { fresh_metrics() }
    }

    /// `d` may be restarted at `now`: not quarantined, and fewer recovery
    /// attempts than the policy allows (or none recorded).
    pub open spec fn recoverable_at(&self, d: ObjectId, now: u64) -> bool {
        !self.quarantined_at(d, now)
            && self.metrics_of(d).recovery_attempts < self.policy_view().max_restart_attempts
            || !self.quarantined_at(d, now) && !self.metrics_view().contains_key(d)
    }

    /// `d` is quarantined and its quarantine has not run out at `now`.
    pub open spec fn quarantined_at(&self, d: ObjectId, now: u64) -> bool {
        self.quarantine_view().contains_key(d) && (if now >= self.quarantine_view()[d] {
            now - self.quarantine_view()[d]
        } else {
            0
        }) < self.policy_view().quarantine_duration_ms
    }

    pub fn new(policy: RecoveryPolicy) -> (m: CrashRecoveryManager)
        ensures
            m.wf(),
            m.metrics_view() == Map::<ObjectId, CrashMetrics>::empty(),
            m.quarantine_view() == Map::<ObjectId, u64>::empty(),
            m.policy_view() == policy,
            m.state_view() == RecoveryState::Healthy,
    {
        CrashRecoveryManager {
            metrics: VecMap::new(),
            policy,
            quarantined: VecMap::new(),
            recovery_state: RecoveryState::Healthy,
        }
    }

    /// The metrics of `d`, or fresh ones when it has none.
    fn metrics_entry(&self, d: ObjectId) -> (m: CrashMetrics)
        requires
            self.wf(),
        ensures
            m == self.metrics_of(d),
    {
        match self.metrics.get(&d) {
            Some(m) => *m,
            None => CrashMetrics::default(),
        }
    }

    /// Record a crash of `driver_id` at `now`; once its crash count reaches
    /// the quarantine threshold it is quarantined (from `now`) and the state
    /// becomes degraded.
    pub fn record_crash_at(&mut self, driver_id: ObjectId, now: u64) -> (r: Result<()>)
        requires
            old(self).wf(),
            old(self).metrics_of(driver_id).crash_count < usize::MAX,
        ensures
            final(self).wf(),
            r.is_ok(),
            crash_recorded(*old(self), *final(self), driver_id, now),
    {
        let mut m = self.metrics_entry(driver_id);
        m.crash_count = m.crash_count + 1;
        m.last_crash_time = now;
        self.metrics.insert(driver_id, m);
        if m.crash_count >= self.policy.quarantine_threshold_crashes {
            self.quarantined.insert(driver_id, now);
            self.recovery_state = RecoveryState::Degraded;
        }
        Ok(())
    }

    /// `record_crash_at` with the current time in milliseconds.
    pub fn record_crash(&mut self, driver_id: ObjectId) -> (r: Result<()>)
        requires
            old(self).wf(),
            old(self).metrics_of(driver_id).crash_count < usize::MAX,
        ensures
            final(self).wf(),
            r.is_ok(),
            final(self).metrics_view().dom() == old(self).metrics_view().dom().insert(driver_id),
            final(self).metrics_of(driver_id).crash_count == old(self).metrics_of(driver_id).crash_count + 1,
            old(self).metrics_of(driver_id).crash_count + 1 >= old(self).policy_view().quarantine_threshold_crashes
                ==> final(self).state_view() == RecoveryState::Degraded,
            final(self).policy_view() == old(self).policy_view(),
            exists|now: u64| #[trigger] crash_recorded(*old(self), *final(self), driver_id, now),
    {
        let now = unix_time_millis();
        let r = self.record_crash_at(driver_id, now);
        assert(self.metrics_view().dom() =~= old(self).metrics_view().dom().insert(driver_id));
        r
    }

    /// Whether `driver_id` may be restarted at `now`: not quarantined, and
    /// fewer recovery attempts than the policy allows.
    pub fn should_recover_at(&self, driver_id: &ObjectId, now: u64) -> (b: bool)
        requires
            self.wf(),
        ensures
            b == (!self.quarantined_at(*driver_id, now)
                && self.metrics_of(*driver_id).recovery_attempts < self.policy_view().max_restart_attempts
                || !self.quarantined_at(*driver_id, now) && !self.metrics_view().contains_key(*driver_id)),
    {
        if self.is_quarantined_at(driver_id, now) {
            return false;
        }
        match self.metrics.get(driver_id) {
            Some(m) => m.recovery_attempts < self.policy.max_restart_attempts,
            None => true,
        }
    }

    /// `should_recover_at` with the current time.
    pub fn should_recover(&self, driver_id: &ObjectId) -> (b: bool)
        requires
            self.wf(),
        ensures
            self.metrics_view().contains_key(*driver_id)
                && self.metrics_of(*driver_id).recovery_attempts >= self.policy_view().max_restart_attempts ==> !b,
            exists|now: u64| b == #[trigger] self.recoverable_at(*driver_id, now),
    {
        let now = unix_time_millis();
        let b = self.should_recover_at(driver_id, now);
        assert(b == self.recoverable_at(*driver_id, now));
        b
    }

    /// Count one recovery attempt of `driver_id`.
    pub fn record_recovery_attempt(&mut self, driver_id: ObjectId) -> (r: Result<()>)
        requires
            old(self).wf(),
            old(self).metrics_of(driver_id).recovery_attempts < usize::MAX,
        ensures
            final(self).wf(),
            r.is_ok(),
            final(self).metrics_view() == old(self).metrics_view().insert(driver_id, CrashMetrics {
                recovery_attempts: (old(self).metrics_of(driver_id).recovery_attempts + 1) as usize,
                ..old(self).metrics_of(driver_id) }),
            final(self).quarantine_view() == old(self).quarantine_view(),
            final(self).policy_view() == old(self).policy_view(),
            final(self).state_view() == old(self).state_view(),
    {
        let mut m = self.metrics_entry(driver_id);
        m.recovery_attempts = m.recovery_attempts + 1;
        self.metrics.insert(driver_id, m);
        Ok(())
    }

    /// Count one successful recovery of `driver_id` after `downtime_ms`.
    pub fn record_successful_recovery(&mut self, driver_id: ObjectId, downtime_ms: u64) -> (r: Result<()>)
        requires
            old(self).wf(),
            old(self).metrics_of(driver_id).successful_recoveries < usize::MAX,
            old(self).metrics_of(driver_id).total_downtime_ms + downtime_ms <= u64::MAX,
        ensures
            final(self).wf(),
            r.is_ok(),
            final(self).metrics_view() == old(self).metrics_view().insert(driver_id, CrashMetrics {
                successful_recoveries: (old(self).metrics_of(driver_id).successful_recoveries + 1) as usize,
                total_downtime_ms: (old(self).metrics_of(driver_id).total_downtime_ms + downtime_ms) as u64,
                ..old(self).metrics_of(driver_id) }),
            final(self).quarantine_view() == old(self).quarantine_view(),
            final(self).policy_view() == old(self).policy_view(),
            final(self).state_view() == old(self).state_view(),
    {
        let mut m = self.metrics_entry(driver_id);
        m.successful_recoveries = m.successful_recoveries + 1;
        m.total_downtime_ms = m.total_downtime_ms + downtime_ms;
        self.metrics.insert(driver_id, m);
        Ok(())
    }

    /// Count one failed recovery of `driver_id`.
    pub fn record_failed_recovery(&mut self, driver_id: ObjectId) -> (r: Result<()>)
        requires
            old(self).wf(),
            old(self).metrics_of(driver_id).failed_recoveries < usize::MAX,
        ensures
            final(self).wf(),
            r.is_ok(),
            final(self).metrics_view() == old(self).metrics_view().insert(driver_id, CrashMetrics {
                failed_recoveries: (old(self).metrics_of(driver_id).failed_recoveries + 1) as usize,
                ..old(self).metrics_of(driver_id) }),
            final(self).quarantine_view() == old(self).quarantine_view(),
            final(self).policy_view() == old(self).policy_view(),
            final(self).state_view() == old(self).state_view(),
    {
        let mut m = self.metrics_entry(driver_id);
        m.failed_recoveries = m.failed_recoveries + 1;
        self.metrics.insert(driver_id, m);
        Ok(())
    }

    /// Quarantine `driver_id` from `now`.
    pub fn quarantine_driver_at(&mut self, driver_id: ObjectId, now: u64) -> (r: Result<()>)
        requires
            old(self).wf(),
        ensures
            final(self).wf(),
            r.is_ok(),
            final(self).quarantine_view() == old(self).quarantine_view().insert(driver_id, now),
            final(self).metrics_view() == old(self).metrics_view(),
            final(self).policy_view() == old(self).policy_view(),
            final(self).state_view() == old(self).state_view(),
    {
        self.quarantined.insert(driver_id, now);
        Ok(())
    }

    /// Quarantine `driver_id` from the current time.
    pub fn quarantine_driver(&mut self, driver_id: ObjectId) -> (r: Result<()>)
        requires
            old(self).wf(),
        ensures
            final(self).wf(),
            r.is_ok(),
            final(self).quarantine_view().dom() == old(self).quarantine_view().dom().insert(driver_id),
            final(self).metrics_view() == old(self).metrics_view(),
            final(self).policy_view() == old(self).policy_view(),
            final(self).state_view() == old(self).state_view(),
            exists|now: u64| final(self).quarantine_view() == #[trigger] old(self).quarantine_view().insert(driver_id, now),
    {
        let now = unix_time_millis();
        let r = self.quarantine_driver_at(driver_id, now);
        assert(self.quarantine_view().dom() =~= old(self).quarantine_view().dom().insert(driver_id));
        r
    }

    /// Whether `driver_id`'s quarantine is still running at `now` (a clock
    /// reading before the quarantine start counts as no time elapsed).
    pub fn is_quarantined_at(&self, driver_id: &ObjectId, now: u64) -> (b: bool)
        requires
            self.wf(),
        ensures
            b == self.quarantined_at(*driver_id, now),
    {
        match self.quarantined.get(driver_id) {
            Some(t) => now.saturating_sub(*t) < self.policy.quarantine_duration_ms,
            None => false,
        }
    }

    /// `is_quarantined_at` with the current time.
    pub fn is_quarantined(&self, driver_id: &ObjectId) -> (b: bool)
        requires
            self.wf(),
        ensures
            !self.quarantine_view().contains_key(*driver_id) ==> !b,
            exists|now: u64| b == #[trigger] self.quarantined_at(*driver_id, now),
    {
        let now = unix_time_millis();
        let b = self.is_quarantined_at(driver_id, now);
        assert(b == self.quarantined_at(*driver_id, now));
        b
    }

    /// End `driver_id`'s quarantine.
    pub fn release_quarantine(&mut self, driver_id: &ObjectId) -> (r: Result<()>)
        requires
            old(self).wf(),
        ensures
            final(self).wf(),
            r.is_ok(),
            final(self).quarantine_view() == old(self).quarantine_view().remove(*driver_id),
            final(self).metrics_view() == old(self).metrics_view(),
            final(self).state_view() == old(self).state_view(),
    {
        let _ = self.quarantined.remove(driver_id);
        Ok(())
    }

    pub fn get_metrics(&self, driver_id: &ObjectId) -> (r: Option<CrashMetrics>)
        requires
            self.wf(),
        ensures
            match r {
                Some(m) => self.metrics_view().contains_key(*driver_id) && m == self.metrics_view()[*driver_id],
                None => !self.metrics_view().contains_key(*driver_id),
            },
    {
        match self.metrics.get(driver_id) {
            Some(m) => Some(*m),
            None => None,
        }
    }

    pub fn get_recovery_state(&self) -> (s: RecoveryState)
        ensures
            s == self.state_view(),
    {
        self.recovery_state
    }

    /// Recompute the overall state: healthy when no driver crashed,
    /// degraded while more than half never crashed, recovering while some
    /// driver has had fewer than two recovery attempts, failed otherwise.
    pub fn health_check(&mut self) -> (s: RecoveryState)
        ensures
            s == derived_state(old(self).metrics_entries()),
            final(self).state_view() == s,
            final(self).metrics_view() == old(self).metrics_view(),
            final(self).metrics_entries() == old(self).metrics_entries(),
            final(self).quarantine_view() == old(self).quarantine_view(),
            final(self).policy_view() == old(self).policy_view(),
            final(self).wf() == old(self).wf(),
    {
        let ghost s = self.metrics.entries@;
        let n = self.metrics.entries.len();
        let mut healthy: usize = 0;
        let mut few_attempts = false;
        let mut i: usize = 0;
        while i < n
            invariant
                s == self.metrics.entries@,
                n == s.len(),
                i <= n,
                healthy <= i,
                healthy == count_healthy(s.subrange(0, i as int)),
                few_attempts == exists|j: int| 0 <= j < i && (#[trigger] s[j]).1.recovery_attempts < 2,
            decreases n - i,
        {
            assert(s.subrange(0, i as int + 1).drop_last() =~= s.subrange(0, i as int));
            if self.metrics.entries[i].1.crash_count == 0 {
                healthy = healthy + 1;
            }
            if self.metrics.entries[i].1.recovery_attempts < 2 {
                few_attempts = true;
            }
            i = i + 1;
        }
        assert(s.subrange(0, n as int) =~= s);
        let state = if healthy == n {
            RecoveryState::Healthy
        } else if healthy > n / 2 {
            RecoveryState::Degraded
        } else if few_attempts {
            RecoveryState::Recovering
        } else {
            RecoveryState::Failed
        };
        self.recovery_state = state;
        state
    }

    /// Forget `driver_id`'s metrics.
    pub fn reset_metrics(&mut self, driver_id: &ObjectId) -> (r: Result<()>)
        requires
            old(self).wf(),
        ensures
            final(self).wf(),
            r.is_ok(),
            final(self).metrics_view() == old(self).metrics_view().remove(*driver_id),
            final(self).quarantine_view() == old(self).quarantine_view(),
            final(self).state_view() == old(self).state_view(),
    {
        let _ = self.metrics.remove(driver_id);
        Ok(())
    }

    pub fn policy(&self) -> (p: RecoveryPolicy)
        ensures
            p == self.policy_view(),
    {
        self.policy
    }
}

/// A quarantine runs out: from its start plus the policy's duration on, the
/// driver is no longer quarantined.
pub proof fn lemma_quarantine_expires(m: CrashRecoveryManager, d: ObjectId, now: u64)
    requires
        m.quarantine_view().contains_key(d),
        now >= m.quarantine_view()[d] + m.policy_view().quarantine_duration_ms,
    ensures
        !m.quarantined_at(d, now),
{
}

} // verus!
