use sher::common::ObjectId;
use sher::recovery::crash_recovery::{CrashRecoveryManager, RecoveryPolicy, RecoveryState};
use sher::recovery::watchdog::{HealthStatus, Watchdog};

#[test]
fn test_crash_detection() {
    let policy = RecoveryPolicy::default();
    let mut manager = CrashRecoveryManager::new(policy);
    let driver = ObjectId::new();

    let _ = manager.record_crash(driver.clone());
    assert_eq!(manager.get_metrics(&driver).unwrap().crash_count, 1);
}

#[test]
fn test_quarantine_threshold() {
    let mut policy = RecoveryPolicy::default();
    policy.quarantine_threshold_crashes = 2;

    let mut manager = CrashRecoveryManager::new(policy);
    let driver = ObjectId::new();

    let _ = manager.record_crash(driver.clone());
    assert!(!manager.is_quarantined(&driver));

    let _ = manager.record_crash(driver.clone());
    assert_eq!(manager.get_recovery_state(), RecoveryState::Degraded);
}

#[test]
fn test_recovery_limits() {
    let policy = RecoveryPolicy::default();
    let mut manager = CrashRecoveryManager::new(policy);
    let driver = ObjectId::new();

    for _ in 0..5 {
        let _ = manager.record_recovery_attempt(driver.clone());
    }

    assert!(!manager.should_recover(&driver));
}

#[test]
fn test_health_check() {
    let policy = RecoveryPolicy::default();
    let mut manager = CrashRecoveryManager::new(policy);
    let driver1 = ObjectId::new();

    let _ = manager.record_crash(driver1);
    let health = manager.health_check();

    assert_ne!(health, RecoveryState::Healthy);
}

#[test]
fn test_reset_metrics() {
    let policy = RecoveryPolicy::default();
    let mut manager = CrashRecoveryManager::new(policy);
    let driver = ObjectId::new();

    let _ = manager.record_crash(driver.clone());
    assert!(manager.get_metrics(&driver).is_some());

    let _ = manager.reset_metrics(&driver);
    assert!(manager.get_metrics(&driver).is_none());
}

#[test]
fn quarantine_lasts_for_its_duration() {
    let mut policy = RecoveryPolicy::default();
    policy.quarantine_threshold_crashes = 1;
    policy.quarantine_duration_ms = 1000;
    let mut manager = CrashRecoveryManager::new(policy);
    let driver = ObjectId::new();
    manager.record_crash_at(driver, 5000).unwrap();
    assert!(manager.is_quarantined_at(&driver, 5999));
    assert!(!manager.should_recover_at(&driver, 5999));
    assert!(!manager.is_quarantined_at(&driver, 6000));
    assert!(manager.should_recover_at(&driver, 6000));
    manager.release_quarantine(&driver).unwrap();
    assert!(!manager.is_quarantined_at(&driver, 5500));
}

#[test]
fn health_check_states_follow_the_share_of_healthy_drivers() {
    let mut manager = CrashRecoveryManager::new(RecoveryPolicy::default());
    assert_eq!(manager.health_check(), RecoveryState::Healthy);
    let a = ObjectId::new();
    let b = ObjectId::new();
    let c = ObjectId::new();
    manager.record_recovery_attempt(a).unwrap();
    manager.record_recovery_attempt(b).unwrap();
    manager.record_recovery_attempt(c).unwrap();
    assert_eq!(manager.health_check(), RecoveryState::Healthy);
    manager.record_crash_at(a, 1).unwrap();
    // two of three never crashed: more than half
    assert_eq!(manager.health_check(), RecoveryState::Degraded);
    manager.record_crash_at(b, 2).unwrap();
    // one of three healthy, and each has had fewer than two attempts
    assert_eq!(manager.health_check(), RecoveryState::Recovering);
    for d in [a, b, c] {
        manager.record_recovery_attempt(d).unwrap();
    }
    assert_eq!(manager.health_check(), RecoveryState::Failed);
}

#[test]
fn recovery_outcomes_are_counted() {
    let mut manager = CrashRecoveryManager::new(RecoveryPolicy::default());
    let d = ObjectId::new();
    manager.record_successful_recovery(d, 250).unwrap();
    manager.record_successful_recovery(d, 50).unwrap();
    manager.record_failed_recovery(d).unwrap();
    let m = manager.get_metrics(&d).unwrap();
    assert_eq!(m.successful_recoveries, 2);
    assert_eq!(m.failed_recoveries, 1);
    assert_eq!(m.total_downtime_ms, 300);
}

#[test]
fn test_heartbeat_registration() {
    let mut watchdog = Watchdog::new(1000);
    let driver = ObjectId::new();

    let _ = watchdog.register_heartbeat(driver.clone());
    assert!(watchdog.get_status(&driver).is_some());
}

#[test]
fn test_heartbeat_recording() {
    let mut watchdog = Watchdog::new(1000);
    let driver = ObjectId::new();

    let _ = watchdog.register_heartbeat(driver.clone());
    let _ = watchdog.record_heartbeat(&driver);

    let status = watchdog.check_health(&driver).0;
    assert_eq!(status, HealthStatus::Healthy);
}

#[test]
fn test_degraded_status() {
    let mut watchdog = Watchdog::new(100);
    let driver = ObjectId::new();

    let _ = watchdog.register_heartbeat_at(driver.clone(), 1_000);
    // 150 ms later
    let status = watchdog.check_health_at(&driver, 1_150).0;
    assert_eq!(status, HealthStatus::Degraded);
}

#[test]
fn test_multiple_drivers() {
    let mut watchdog = Watchdog::new(1000);
    let driver1 = ObjectId::new();
    let _driver2 = ObjectId::new();

    let _ = watchdog.register_heartbeat(driver1.clone());
    let _ = watchdog.register_heartbeat(_driver2.clone());

    let _ = watchdog.record_heartbeat(&driver1);

    let stats = watchdog.status_counts();
    assert_eq!(stats.total_monitored, 2);
}

#[test]
fn test_unregister_driver() {
    let mut watchdog = Watchdog::new(1000);
    let driver = ObjectId::new();

    let _ = watchdog.register_heartbeat(driver.clone());
    let _ = watchdog.unregister_driver(&driver);

    assert!(watchdog.get_status(&driver).is_none());
}

#[test]
fn misses_escalate_to_alerts() {
    let mut watchdog = Watchdog::new(100);
    let d = ObjectId::new();
    watchdog.register_heartbeat_at(d, 0).unwrap();
    assert_eq!(watchdog.check_health_at(&d, 100), (HealthStatus::Healthy, false));
    assert_eq!(watchdog.check_health_at(&d, 101), (HealthStatus::Degraded, false));
    assert_eq!(watchdog.check_health_at(&d, 200), (HealthStatus::Degraded, false));
    assert_eq!(watchdog.check_health_at(&d, 300), (HealthStatus::CriticalAlert, true));
    assert_eq!(watchdog.check_health_at(&d, 400), (HealthStatus::Unresponsive, true));
    let counts = watchdog.status_counts();
    assert_eq!(counts.unresponsive_count, 1);
    assert_eq!(counts.healthy_count, 0);
    watchdog.record_heartbeat_at(&d, 450).unwrap();
    assert_eq!(watchdog.get_status(&d), Some(HealthStatus::Healthy));
    assert_eq!(watchdog.check_health_at(&d, 500), (HealthStatus::Healthy, false));
}

#[test]
fn unknown_driver_is_unresponsive() {
    let mut watchdog = Watchdog::new(100);
    assert_eq!(watchdog.check_health_at(&ObjectId::new(), 10), (HealthStatus::Unresponsive, false));
}

#[test]
fn check_all_reports_every_driver_in_order() {
    let mut watchdog = Watchdog::new(100);
    let a = ObjectId::new();
    let b = ObjectId::new();
    watchdog.register_heartbeat_at(a, 0).unwrap();
    watchdog.register_heartbeat_at(b, 150).unwrap();
    let r = watchdog.check_all_health_at(200);
    assert_eq!(r.entries.len(), 2);
    assert_eq!(r.entries[0], (a, (HealthStatus::Degraded, false)));
    assert_eq!(r.entries[1], (b, (HealthStatus::Healthy, false)));
    assert_eq!(watchdog.monitored_drivers(), vec![a, b]);
    let all = watchdog.check_all_health();
    assert_eq!(all.entries.len(), 2);
}

#[test]
fn record_of_a_driver_shows_its_misses() {
    let mut watchdog = Watchdog::new(10);
    let d = ObjectId::new();
    watchdog.register_heartbeat_at(d, 0).unwrap();
    watchdog.check_health_at(&d, 11);
    watchdog.check_health_at(&d, 30);
    let rec = watchdog.get_record(&d).unwrap();
    assert_eq!(rec.consecutive_misses, 2);
    assert_eq!(rec.last_heartbeat, 0);
    assert!(watchdog.get_record(&ObjectId::new()).is_none());
}
