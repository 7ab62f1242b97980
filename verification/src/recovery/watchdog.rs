//! Heartbeat watchdog: missed heartbeats degrade a driver's health status
//! and, past a limit, call for alerts.
use vstd::prelude::*;
use crate::common::{unix_time_millis, ObjectId, Result};
use crate::keyed::{keys_of, lemma_map_of_index, VecMap};

verus! {

#[derive(Clone, Copy, Debug, PartialEq, Eq, Structural)]
pub enum HealthStatus {
    Healthy,
    Degraded,
    CriticalAlert,
    Unresponsive,
}

#[derive(Clone, Copy, Debug)]
pub struct HeartbeatRecord {
    pub last_heartbeat: u64,
    pub consecutive_misses: u32,
    pub healthy_streak: u32,
    pub status: HealthStatus,
}

/// The status after `misses` consecutive missed heartbeats (`misses > 0`).
pub open spec fn status_for_misses(misses: u32) -> HealthStatus {
    if misses <= 2 {
        HealthStatus::Degraded
    } else if misses == 3 {
        HealthStatus::CriticalAlert
    } else {
        HealthStatus::Unresponsive
    }
}

/// The record of a driver after a health check at `now`: past the timeout
/// since its last heartbeat, one more miss is counted and the status
/// follows the miss count.
pub open spec fn checked_record(rec: HeartbeatRecord, now: u64, timeout: u64) -> HeartbeatRecord {
    if now - rec.last_heartbeat > timeout {
        let misses = (rec.consecutive_misses + 1) as u32;
        HeartbeatRecord { consecutive_misses: misses, status: status_for_misses(misses), ..rec }
    } else {
        rec
    }
}

/// What a health check at `now` reports: the new status, and whether a miss
/// was counted that reaches the alert limit.
pub open spec fn check_outcome(rec: HeartbeatRecord, now: u64, timeout: u64, limit: u32) -> (HealthStatus, bool) {
    let c = checked_record(rec, now, timeout);
    (c.status, now - rec.last_heartbeat > timeout && c.consecutive_misses >= limit)
}

/// A record that a check at `now` can be applied to.
pub open spec fn checkable(rec: HeartbeatRecord, now: u64) -> bool {
    now >= rec.last_heartbeat && rec.consecutive_misses < u32::MAX
}

/// Record `rec` after a heartbeat at `now`: misses reset, streak grown
/// (saturating), status healthy.
pub open spec fn beat(rec: HeartbeatRecord, now: u64) -> HeartbeatRecord {
    HeartbeatRecord {
        last_heartbeat: now,
        consecutive_misses: 0,
        healthy_streak: if rec.healthy_streak < u32::MAX { (rec.healthy_streak + 1) as u32 } else { u32::MAX },
        status: HealthStatus::Healthy,
    }
}

/// Counts of monitored drivers by status.
#[derive(Clone, Copy, Debug)]
pub struct StatusCounts {
    pub total_monitored: usize,
    pub healthy_count: usize,
    pub degraded_count: usize,
    pub critical_count: usize,
    pub unresponsive_count: usize,
}

/// Number of records in `s` with status `st`.
pub open spec fn count_status(s: Seq<(ObjectId, HeartbeatRecord)>, st: HealthStatus) -> nat
    decreases s.len(),
{
    if s.len() == 0 { 0 } else { count_status(s.drop_last(), st) + if s.last().1.status == st { 1nat } else { 0nat } }
}

/// Every watched driver has exactly one status: the counts of the four
/// statuses add up to the number of drivers.
pub proof fn lemma_status_counts_add_up(s: Seq<(ObjectId, HeartbeatRecord)>)
    ensures
        count_status(s, HealthStatus::Healthy) + count_status(s, HealthStatus::Degraded)
            + count_status(s, HealthStatus::CriticalAlert) + count_status(s, HealthStatus::Unresponsive) == s.len(),
    decreases s.len(),
{
    if s.len() > 0 {
        lemma_status_counts_add_up(s.drop_last());
    }
}

pub struct Watchdog {
    heartbeats: VecMap<ObjectId, HeartbeatRecord>,
    heartbeat_timeout_ms: u64,
    max_consecutive_misses: u32,
}

impl Watchdog {
    pub closed spec fn wf(&self) -> bool {
        self.heartbeats.wf()
    }

    /// Heartbeat records by driver.
    pub closed spec fn records(&self) -> Map<ObjectId, HeartbeatRecord> {
        self.heartbeats@
    }

    /// Records in the order drivers were registered.
    pub closed spec fn record_entries(&self) -> Seq<(ObjectId, HeartbeatRecord)> {
        self.heartbeats.entries@
    }

    pub closed spec fn timeout(&self) -> u64 {
        self.heartbeat_timeout_ms
    }

    pub closed spec fn miss_limit(&self) -> u32 {
        self.max_consecutive_misses
    }

    /// A watchdog with no drivers, alerting after three misses.
    pub fn new(heartbeat_timeout_ms: u64) -> (w: Watchdog)
        ensures
            w.wf(),
            w.records() == Map::<ObjectId, HeartbeatRecord>::empty(),
            w.timeout() == heartbeat_timeout_ms,
            w.miss_limit() == 3,
    {
        Watchdog { heartbeats: VecMap::new(), heartbeat_timeout_ms, max_consecutive_misses: 3 }
    }

    /// Start monitoring `driver_id` (afresh) as healthy, last seen at `now`.
    pub fn register_heartbeat_at(&mut self, driver_id: ObjectId, now: u64) -> (r: Result<()>)
        requires
            old(self).wf(),
        ensures
            final(self).wf(),
            r.is_ok(),
            final(self).records() == old(self).records().insert(driver_id, HeartbeatRecord {
                last_heartbeat: now, consecutive_misses: 0, healthy_streak: 0, status: HealthStatus::Healthy }),
            final(self).timeout() == old(self).timeout(),
            final(self).miss_limit() == old(self).miss_limit(),
    {
        self.heartbeats.insert(driver_id, HeartbeatRecord {
            last_heartbeat: now,
            consecutive_misses: 0,
            healthy_streak: 0,
            status: HealthStatus::Healthy,
        });
        Ok(())
    }

    /// `register_heartbeat_at` with the current time in milliseconds.
    pub fn register_heartbeat(&mut self, driver_id: ObjectId) -> (r: Result<()>)
        requires
            old(self).wf(),
        ensures
            final(self).wf(),
            r.is_ok(),
            final(self).records().dom() == old(self).records().dom().insert(driver_id),
            final(self).records()[driver_id].status == HealthStatus::Healthy,
            final(self).records()[driver_id].consecutive_misses == 0,
            final(self).timeout() == old(self).timeout(),
            final(self).miss_limit() == old(self).miss_limit(),
            exists|now: u64| final(self).records() == #[trigger] old(self).records().insert(driver_id, HeartbeatRecord {
                last_heartbeat: now, consecutive_misses: 0, healthy_streak: 0, status: HealthStatus::Healthy }),
    {
        let now = unix_time_millis();
        let r = self.register_heartbeat_at(driver_id, now);
        assert(self.records().dom() =~= old(self).records().dom().insert(driver_id));
        r
    }

    /// A heartbeat from `driver_id` at `now`: misses reset, streak grows
    /// (saturating), status healthy. Unknown drivers are ignored.
    pub fn record_heartbeat_at(&mut self, driver_id: &ObjectId, now: u64) -> (r: Result<()>)
        requires
            old(self).wf(),
        ensures
            final(self).wf(),
            r.is_ok(),
            final(self).timeout() == old(self).timeout(),
            final(self).miss_limit() == old(self).miss_limit(),
            !old(self).records().contains_key(*driver_id) ==> final(self).records() == old(self).records(),
            old(self).records().contains_key(*driver_id) ==> final(self).records() == old(self).records().insert(*driver_id,
                HeartbeatRecord {
                    last_heartbeat: now,
                    consecutive_misses: 0,
                    healthy_streak: if old(self).records()[*driver_id].healthy_streak < u32::MAX {
                        (old(self).records()[*driver_id].healthy_streak + 1) as u32
                    } else {
                        u32::MAX
                    },
                    status: HealthStatus::Healthy,
                }),
    {
        match self.heartbeats.index_of(driver_id) {
            Some(pos) => {
                let mut rec = self.heartbeats.entries[pos].1;
                rec.last_heartbeat = now;
                rec.consecutive_misses = 0;
                rec.healthy_streak = rec.healthy_streak.saturating_add(1);
                rec.status = HealthStatus::Healthy;
                self.heartbeats.set_value(pos, rec);
            },
            None => {},
        }
        Ok(())
    }

    /// `record_heartbeat_at` with the current time.
    pub fn record_heartbeat(&mut self, driver_id: &ObjectId) -> (r: Result<()>)
        requires
            old(self).wf(),
        ensures
            final(self).wf(),
            r.is_ok(),
            final(self).records().dom() == old(self).records().dom(),
            old(self).records().contains_key(*driver_id) ==> final(self).records()[*driver_id].status == HealthStatus::Healthy,
            final(self).timeout() == old(self).timeout(),
            final(self).miss_limit() == old(self).miss_limit(),
            !old(self).records().contains_key(*driver_id) ==> final(self).records() == old(self).records(),
            old(self).records().contains_key(*driver_id) ==> exists|now: u64| final(self).records()
                == old(self).records().insert(*driver_id, #[trigger] beat(old(self).records()[*driver_id], now)),
    {
        let now = unix_time_millis();
        let r = self.record_heartbeat_at(driver_id, now);
        assert(old(self).records().contains_key(*driver_id) ==> self.records()
            == old(self).records().insert(*driver_id, beat(old(self).records()[*driver_id], now)));
        assert(self.records().dom() =~= old(self).records().dom());
        r
    }

    /// Check `driver_id` at `now`. When more than the timeout has passed
    /// since its last heartbeat, one more miss is counted and the status
    /// follows the miss count; the second result says whether the miss
    /// limit is reached, so that alerts are due. Unknown drivers are
    /// unresponsive (and call for no alert).
    pub fn check_health_at(&mut self, driver_id: &ObjectId, now: u64) -> (r: (HealthStatus, bool))
        requires
            old(self).wf(),
            old(self).records().contains_key(*driver_id) ==> {
                let rec = old(self).records()[*driver_id];
                &&& now >= rec.last_heartbeat
                &&& rec.consecutive_misses < u32::MAX
            },
        ensures
            final(self).wf(),
            final(self).timeout() == old(self).timeout(),
            final(self).miss_limit() == old(self).miss_limit(),
            !old(self).records().contains_key(*driver_id) ==> r == (HealthStatus::Unresponsive, false)
                && final(self).records() == old(self).records(),
            old(self).records().contains_key(*driver_id) ==> {
                let rec = old(self).records()[*driver_id];
                if now - rec.last_heartbeat > old(self).timeout() {
                    let misses = (rec.consecutive_misses + 1) as u32;
                    let st = status_for_misses(misses);
                    &&& final(self).records() == old(self).records().insert(*driver_id,
                        HeartbeatRecord { consecutive_misses: misses, status: st, ..rec })
                    &&& r == (st, misses >= old(self).miss_limit())
                } else {
                    &&& final(self).records() == old(self).records()
                    &&& r == (rec.status, false)
                }
            },
    {
        match self.heartbeats.index_of(driver_id) {
            Some(pos) => {
                let mut rec = self.heartbeats.entries[pos].1;
                let elapsed = now - rec.last_heartbeat;
                if elapsed > self.heartbeat_timeout_ms {
                    rec.consecutive_misses = rec.consecutive_misses + 1;
                    rec.status = if rec.consecutive_misses <= 2 {
                        HealthStatus::Degraded
                    } else if rec.consecutive_misses == 3 {
                        HealthStatus::CriticalAlert
                    } else {
                        HealthStatus::Unresponsive
                    };
                    self.heartbeats.set_value(pos, rec);
                    (rec.status, rec.consecutive_misses >= self.max_consecutive_misses)
                } else {
                    (rec.status, false)
                }
            },
            None => (HealthStatus::Unresponsive, false),
        }
    }

    /// `check_health_at` with the current time. A clock that reads earlier
    /// than the last heartbeat counts as no time passed.
    pub fn check_health(&mut self, driver_id: &ObjectId) -> (r: (HealthStatus, bool))
        requires
            old(self).wf(),
            old(self).records().contains_key(*driver_id) ==> old(self).records()[*driver_id].consecutive_misses < u32::MAX,
        ensures
            final(self).wf(),
            final(self).timeout() == old(self).timeout(),
            final(self).miss_limit() == old(self).miss_limit(),
            final(self).records().dom() == old(self).records().dom(),
            forall|k: ObjectId| k != *driver_id && #[trigger] old(self).records().contains_key(k)
                ==> final(self).records()[k] == old(self).records()[k],
            !old(self).records().contains_key(*driver_id) ==> r == (HealthStatus::Unresponsive, false),
            old(self).records().contains_key(*driver_id) ==> r.0 == final(self).records()[*driver_id].status,
            old(self).records().contains_key(*driver_id) ==> {
                let rec = old(self).records()[*driver_id];
                exists|now: u64| #![trigger check_outcome(rec, now, old(self).timeout(), old(self).miss_limit())]
                    now >= rec.last_heartbeat
                    && r == check_outcome(rec, now, old(self).timeout(), old(self).miss_limit())
                    && final(self).records()[*driver_id] == checked_record(rec, now, old(self).timeout())
            },
    {
        let mut now = unix_time_millis();
        match self.heartbeats.get(driver_id) {
            Some(rec) => {
                if now < rec.last_heartbeat {
                    now = rec.last_heartbeat;
                }
            },
            None => {},
        }
        let r = self.check_health_at(driver_id, now);
        proof {
            if old(self).records().contains_key(*driver_id) {
                let rec = old(self).records()[*driver_id];
                assert(r == check_outcome(rec, now, old(self).timeout(), old(self).miss_limit()));
            } else {
                assert(self.records() == old(self).records());
            }
        }
        r
    }

    /// Check every monitored driver at `now`, in registration order; the
    /// result holds each driver's outcome (as `check_health_at` reports it).
    pub fn check_all_health_at(&mut self, now: u64) -> (r: VecMap<ObjectId, (HealthStatus, bool)>)
        requires
            old(self).wf(),
            forall|j: int| 0 <= j < old(self).record_entries().len() ==> checkable(#[trigger] old(self).record_entries()[j].1, now),
        ensures
            final(self).wf(),
            r.wf(),
            final(self).timeout() == old(self).timeout(),
            final(self).miss_limit() == old(self).miss_limit(),
            final(self).record_entries().len() == old(self).record_entries().len(),
            r.entries@.len() == old(self).record_entries().len(),
            forall|j: int| 0 <= j < old(self).record_entries().len() ==> {
                let (id, rec) = #[trigger] old(self).record_entries()[j];
                &&& final(self).record_entries()[j] == (id, checked_record(rec, now, old(self).timeout()))
                &&& r.entries@[j] == (id, check_outcome(rec, now, old(self).timeout(), old(self).miss_limit()))
            },
    {
        let ghost s0 = self.heartbeats.entries@;
        let n = self.heartbeats.entries.len();
        let mut out: Vec<(ObjectId, (HealthStatus, bool))> = Vec::new();
        let mut i: usize = 0;
        while i < n
            invariant
                self.wf(),
                n == s0.len(),
                i <= n,
                self.heartbeats.entries@.len() == n,
                self.heartbeat_timeout_ms == old(self).heartbeat_timeout_ms,
                self.max_consecutive_misses == old(self).max_consecutive_misses,
                s0 == old(self).heartbeats.entries@,
                forall|j: int| 0 <= j < n ==> checkable(#[trigger] s0[j].1, now),
                forall|j: int| 0 <= j < i ==> #[trigger] self.heartbeats.entries@[j]
                    == (s0[j].0, checked_record(s0[j].1, now, self.heartbeat_timeout_ms)),
                forall|j: int| i <= j < n ==> #[trigger] self.heartbeats.entries@[j] == s0[j],
                out@.len() == i,
                forall|j: int| 0 <= j < i ==> #[trigger] out@[j]
                    == (s0[j].0, check_outcome(s0[j].1, now, self.heartbeat_timeout_ms, self.max_consecutive_misses)),
            decreases n - i,
        {
            let id = self.heartbeats.entries[i].0;
            let mut rec = self.heartbeats.entries[i].1;
            let missed = now - rec.last_heartbeat > self.heartbeat_timeout_ms;
            if missed {
                rec.consecutive_misses = rec.consecutive_misses + 1;
                rec.status = if rec.consecutive_misses <= 2 {
                    HealthStatus::Degraded
                } else if rec.consecutive_misses == 3 {
                    HealthStatus::CriticalAlert
                } else {
                    HealthStatus::Unresponsive
                };
            }
            let alert = missed && rec.consecutive_misses >= self.max_consecutive_misses;
            self.heartbeats.set_value(i, rec);
            out.push((id, (rec.status, alert)));
            i = i + 1;
        }
        let r = VecMap { entries: out };
        assert(keys_of(r.entries@) =~= keys_of(s0));
        r
    }

    /// `check_health` for every monitored driver, in registration order; the
    /// result holds each driver's outcome.
    pub fn check_all_health(&mut self) -> (r: VecMap<ObjectId, (HealthStatus, bool)>)
        requires
            old(self).wf(),
            forall|k: ObjectId| #[trigger] old(self).records().contains_key(k)
                ==> old(self).records()[k].consecutive_misses < u32::MAX,
        ensures
            final(self).wf(),
            r.wf(),
            final(self).timeout() == old(self).timeout(),
            final(self).miss_limit() == old(self).miss_limit(),
            final(self).records().dom() == old(self).records().dom(),
            r.entries@.len() == old(self).record_entries().len(),
            forall|j: int| 0 <= j < r.entries@.len() ==> {
                &&& (#[trigger] r.entries@[j]).0 == old(self).record_entries()[j].0
                &&& r.entries@[j].1.0 == final(self).records()[r.entries@[j].0].status
            },
    {
        let ids = self.monitored_drivers();
        let ghost s0 = self.heartbeats.entries@;
        let ghost m0 = self.records();
        proof {
            assert forall|j: int| 0 <= j < ids@.len() implies m0.contains_key(#[trigger] ids@[j]) by {
                lemma_map_of_index(s0, j);
            }
            assert forall|a: int, b: int| 0 <= a < b < ids@.len() implies ids@[a] != ids@[b] by {
                assert(keys_of(s0)[a] == ids@[a]);
                assert(keys_of(s0)[b] == ids@[b]);
            }
        }
        let mut out: Vec<(ObjectId, (HealthStatus, bool))> = Vec::new();
        let mut i: usize = 0;
        while i < ids.len()
            invariant
                self.wf(),
                i <= ids@.len(),
                ids@.len() == s0.len(),
                forall|j: int| 0 <= j < ids@.len() ==> #[trigger] ids@[j] == s0[j].0,
                forall|j: int| 0 <= j < ids@.len() ==> m0.contains_key(#[trigger] ids@[j]),
                forall|a: int, b: int| 0 <= a < b < ids@.len() ==> ids@[a] != ids@[b],
                forall|k: ObjectId| #[trigger] m0.contains_key(k) ==> m0[k].consecutive_misses < u32::MAX,
                self.records().dom() == m0.dom(),
                forall|j: int| i <= j < ids@.len() ==> self.records()[#[trigger] ids@[j]] == m0[ids@[j]],
                self.heartbeat_timeout_ms == old(self).heartbeat_timeout_ms,
                self.max_consecutive_misses == old(self).max_consecutive_misses,
                out@.len() == i,
                forall|j: int| 0 <= j < i ==> (#[trigger] out@[j]).0 == ids@[j]
                    && out@[j].1.0 == self.records()[ids@[j]].status,
            decreases ids@.len() - i,
        {
            let id = ids[i];
            let ghost before = self.records();
            let st = self.check_health(&id);
            proof {
                assert forall|j: int| i < j < ids@.len() implies self.records()[#[trigger] ids@[j]] == m0[ids@[j]] by {
                    assert(ids@[j] != ids@[i as int]);
                    assert(before.contains_key(ids@[j]));
                }
                assert forall|j: int| 0 <= j < i implies self.records()[#[trigger] ids@[j]] == before[ids@[j]] by {
                    assert(ids@[j] != ids@[i as int]);
                    assert(before.contains_key(ids@[j]));
                }
            }
            out.push((id, st));
            i = i + 1;
        }
        let r = VecMap { entries: out };
        assert(keys_of(r.entries@) =~= keys_of(s0));
        r
    }

    /// The status of `driver_id`, if monitored.
    pub fn get_status(&self, driver_id: &ObjectId) -> (r: Option<HealthStatus>)
        requires
            self.wf(),
        ensures
            match r {
                Some(s) => self.records().contains_key(*driver_id) && s == self.records()[*driver_id].status,
                None => !self.records().contains_key(*driver_id),
            },
    {
        match self.heartbeats.get(driver_id) {
            Some(rec) => Some(rec.status),
            None => None,
        }
    }

    /// The heartbeat record of `driver_id`, if monitored.
    pub fn get_record(&self, driver_id: &ObjectId) -> (r: Option<HeartbeatRecord>)
        requires
            self.wf(),
        ensures
            match r {
                Some(rec) => self.records().contains_key(*driver_id) && rec == self.records()[*driver_id],
                None => !self.records().contains_key(*driver_id),
            },
    {
        match self.heartbeats.get(driver_id) {
            Some(rec) => Some(*rec),
            None => None,
        }
    }

    /// The monitored drivers, in registration order.
    pub fn monitored_drivers(&self) -> (r: Vec<ObjectId>)
        ensures
            r@.len() == self.record_entries().len(),
            forall|i: int| 0 <= i < r@.len() ==> #[trigger] r@[i] == self.record_entries()[i].0,
    {
        let mut out: Vec<ObjectId> = Vec::new();
        let mut i: usize = 0;
        while i < self.heartbeats.entries.len()
            invariant
                i <= self.heartbeats.entries@.len(),
                out@.len() == i,
                forall|j: int| 0 <= j < i ==> #[trigger] out@[j] == self.heartbeats.entries@[j].0,
            decreases self.heartbeats.entries@.len() - i,
        {
            out.push(self.heartbeats.entries[i].0);
            i = i + 1;
        }
        out
    }

    /// Stop monitoring `driver_id`.
    pub fn unregister_driver(&mut self, driver_id: &ObjectId) -> (r: Result<()>)
        requires
            old(self).wf(),
        ensures
            final(self).wf(),
            r.is_ok(),
            final(self).records() == old(self).records().remove(*driver_id),
            final(self).timeout() == old(self).timeout(),
            final(self).miss_limit() == old(self).miss_limit(),
    {
        let _ = self.heartbeats.remove(driver_id);
        Ok(())
    }

    /// How many drivers are monitored, and how many are in each status.
    pub fn status_counts(&self) -> (c: StatusCounts)
        requires
            self.wf(),
        ensures
            c.total_monitored == self.records().len(),
            c.healthy_count == count_status(self.record_entries(), HealthStatus::Healthy),
            c.degraded_count == count_status(self.record_entries(), HealthStatus::Degraded),
            c.critical_count == count_status(self.record_entries(), HealthStatus::CriticalAlert),
            c.unresponsive_count == count_status(self.record_entries(), HealthStatus::Unresponsive),
    {
        let ghost s = self.heartbeats.entries@;
        let n = self.heartbeats.entries.len();
        let mut healthy: usize = 0;
        let mut degraded: usize = 0;
        let mut critical: usize = 0;
        let mut unresponsive: usize = 0;
        let mut i: usize = 0;
        while i < n
            invariant
                s == self.heartbeats.entries@,
                n == s.len(),
                i <= n,
                healthy <= i && degraded <= i && critical <= i && unresponsive <= i,
                healthy == count_status(s.subrange(0, i as int), HealthStatus::Healthy),
                degraded == count_status(s.subrange(0, i as int), HealthStatus::Degraded),
                critical == count_status(s.subrange(0, i as int), HealthStatus::CriticalAlert),
                unresponsive == count_status(s.subrange(0, i as int), HealthStatus::Unresponsive),
            decreases n - i,
        {
            assert(s.subrange(0, i as int + 1).drop_last() =~= s.subrange(0, i as int));
            match self.heartbeats.entries[i].1.status {
                HealthStatus::Healthy => { healthy = healthy + 1; },
                HealthStatus::Degraded => { degraded = degraded + 1; },
                HealthStatus::CriticalAlert => { critical = critical + 1; },
                HealthStatus::Unresponsive => { unresponsive = unresponsive + 1; },
            }
            i = i + 1;
        }
        assert(s.subrange(0, n as int) =~= s);
        StatusCounts {
            total_monitored: self.heartbeats.len(),
            healthy_count: healthy,
            degraded_count: degraded,
            critical_count: critical,
            unresponsive_count: unresponsive,
        }
    }
}

/// A heartbeat keeps a driver healthy for the timeout: checked at any time
/// up to the timeout after its last heartbeat, a healthy record stays as it
/// is and calls for no alert.
pub proof fn lemma_heartbeat_keeps_healthy(rec: HeartbeatRecord, now: u64, timeout: u64, limit: u32)
    requires
        rec.status == HealthStatus::Healthy,
        rec.last_heartbeat <= now <= rec.last_heartbeat + timeout,
    ensures
        checked_record(rec, now, timeout) == rec,
        check_outcome(rec, now, timeout, limit) == (HealthStatus::Healthy, false),
{
}

/// Severity of a health status, from healthy (0) to unresponsive (3).
pub open spec fn severity(s: HealthStatus) -> int {
    match s {
        HealthStatus::Healthy => 0,
        HealthStatus::Degraded => 1,
        HealthStatus::CriticalAlert => 2,
        HealthStatus::Unresponsive => 3,
    }
}

/// How missed heartbeats grade a driver: a missed beat never leaves it
/// healthy, more misses never grade it better, the first two misses only
/// degrade it, and more than three make it unresponsive.
pub proof fn lemma_status_for_misses(m1: u32, m2: u32)
    ensures
        m1 >= 1 ==> status_for_misses(m1) != HealthStatus::Healthy,
        m1 <= m2 ==> severity(status_for_misses(m1)) <= severity(status_for_misses(m2)),
        1 <= m1 <= 2 ==> status_for_misses(m1) == HealthStatus::Degraded,
        m1 > 3 ==> status_for_misses(m1) == HealthStatus::Unresponsive,
        severity(status_for_misses(3)) == 2,
{
}

/// A check within the timeout changes nothing; a check past it counts one
/// more miss and grades the driver by its misses; a heartbeat clears the
/// misses and makes it healthy.
pub proof fn lemma_heartbeat_checks(rec: HeartbeatRecord, now: u64, timeout: u64)
    requires
        checkable(rec, now),
    ensures
        now - rec.last_heartbeat <= timeout ==> checked_record(rec, now, timeout) == rec,
        now - rec.last_heartbeat > timeout ==> {
            &&& checked_record(rec, now, timeout).consecutive_misses == rec.consecutive_misses + 1
            &&& checked_record(rec, now, timeout).status != HealthStatus::Healthy
            &&& severity(checked_record(rec, now, timeout).status) >= severity(status_for_misses(rec.consecutive_misses))
        },
        beat(rec, now).consecutive_misses == 0,
        beat(rec, now).status == HealthStatus::Healthy,
        beat(rec, now).last_heartbeat == now,
{
    lemma_status_for_misses(rec.consecutive_misses, (rec.consecutive_misses + 1) as u32);
}

} // verus!
