use sher::common::{Capability, PermissionTier};
use sher::objectmodel::capabilities::{CapabilityGrant, CapabilitySet};
use sher::objectmodel::dependencies::add_dependency;
use sher::objectmodel::telemetry::EventCounts;
use sher::objectmodel::lifecycle::{Lifecycle, State};
use sher::performance::{Batch, Cache, ObjectPool};
use sher::profiling::profiler::Profiler;

#[test]
fn default_state_is_initializing() {
    let lc = Lifecycle::default();
    assert_eq!(lc.state, State::Initializing);
    assert!(lc.started_at.is_none());
    assert!(!lc.is_running());
}

#[test]
fn start_transitions_to_running_and_stamps_time() {
    let mut lc = Lifecycle::default();
    lc.start();
    assert!(lc.is_running());
    assert!(lc.started_at.is_some());
}

#[test]
fn stop_transitions_to_stopped_and_stamps_time() {
    let mut lc = Lifecycle::default();
    lc.start();
    lc.stop();
    assert_eq!(lc.state, State::Stopped);
    assert!(lc.stopped_at.is_some());
    assert!(!lc.is_running());
}

#[test]
fn mark_failed_records_error_message() {
    let mut lc = Lifecycle::default();
    lc.mark_failed("driver panicked");
    assert_eq!(lc.state, State::Failed);
    assert_eq!(lc.last_error.as_deref(), Some("driver panicked"));
}

#[test]
fn new_grant_is_valid_and_has_future_expiry() {
    let grant = CapabilityGrant::new(Capability::Read, PermissionTier::Low);
    assert!(grant.is_valid());
    assert!(grant.expires_at.unwrap() > grant.granted_at);
}

#[test]
fn expired_grant_is_invalid() {
    let mut grant = CapabilityGrant::new(Capability::Write, PermissionTier::Critical);
    grant.expires_at = Some(0);
    assert!(!grant.is_valid());
}

#[test]
fn tier_durations_are_time_bounded_not_permanent() {
    for tier in [PermissionTier::Low, PermissionTier::Medium, PermissionTier::High, PermissionTier::Critical] {
        let grant = CapabilityGrant::new(Capability::Admin, tier);
        assert!(grant.expires_at.is_some(), "capability grants must always expire, tier {:?} did not", tier);
    }
}

#[test]
fn capability_set_grant_and_revoke() {
    let mut set = CapabilitySet::default();
    assert!(!set.has_capability(Capability::NetworkAccess));

    set.grant(Capability::NetworkAccess, PermissionTier::Medium);
    assert!(set.has_capability(Capability::NetworkAccess));
    assert!(!set.has_capability(Capability::Admin));

    set.revoke(Capability::NetworkAccess);
    assert!(!set.has_capability(Capability::NetworkAccess));
}

#[test]
fn cleanup_expired_removes_only_expired_grants() {
    let mut set = CapabilitySet::default();
    set.grant(Capability::Read, PermissionTier::Low);
    set.grants.push(CapabilityGrant { capability: Capability::Write, tier: PermissionTier::Low, granted_at: 0, expires_at: Some(1) });

    assert_eq!(set.grants.len(), 2);
    set.cleanup_expired();
    assert_eq!(set.grants.len(), 1);
    assert!(set.has_capability(Capability::Read));
    assert!(!set.has_capability(Capability::Write));
}

#[test]
fn grant_lifetimes_follow_the_tier() {
    let g = CapabilityGrant::new_at(Capability::Read, PermissionTier::Medium, 1000);
    assert_eq!(g.expires_at, Some(1000 + 86400));
    assert!(g.is_valid_at(87399));
    assert!(!g.is_valid_at(87400));
    let far = CapabilityGrant::new_at(Capability::Read, PermissionTier::Low, u64::MAX - 5);
    assert_eq!(far.expires_at, Some(u64::MAX));
}

#[test]
fn test_object_pool_creation() {
    let pool: ObjectPool<u32> = ObjectPool::new(10);
    assert_eq!(pool.available_count(), 10);
    assert_eq!(pool.in_use_count(), 0);
}

#[test]
fn test_object_pool_acquire_and_release() {
    let mut pool: ObjectPool<u32> = ObjectPool::new(5);

    let id1 = pool.acquire(42);
    assert!(id1.is_some());
    assert_eq!(pool.in_use_count(), 1);
    assert_eq!(pool.available_count(), 4);

    let released = pool.release(&id1.unwrap());
    assert!(released);
    assert_eq!(pool.in_use_count(), 0);
    assert_eq!(pool.available_count(), 5);
}

#[test]
fn test_pool_multiple_acquire_and_release() {
    let mut pool: ObjectPool<u32> = ObjectPool::new(3);

    let id1 = pool.acquire(1).unwrap();
    let id2 = pool.acquire(2).unwrap();
    let id3 = pool.acquire(3).unwrap();

    assert_eq!(pool.in_use_count(), 3);
    assert_eq!(pool.available_count(), 0);

    pool.release(&id2);
    assert_eq!(pool.in_use_count(), 2);
    assert_eq!(pool.available_count(), 1);

    pool.release(&id1);
    pool.release(&id3);
    assert_eq!(pool.in_use_count(), 0);
    assert_eq!(pool.available_count(), 3);
    assert!(pool.acquire(9).is_some());
    assert!(!pool.release(&sher::common::ObjectId::nil()));
}

#[test]
fn test_cache_eviction() {
    let mut cache: Cache<i32, String> = Cache::new(3);

    cache.put(1, "one".to_string(), 0);
    cache.put(2, "two".to_string(), 1);
    cache.put(3, "three".to_string(), 2);
    cache.put(4, "four".to_string(), 3);

    assert_eq!(cache.size(), 3);
}

#[test]
fn cache_hits_and_misses_are_counted() {
    let mut cache: Cache<String, u32> = Cache::new(10);
    cache.put("key1".to_string(), 100, 0);
    let hit = cache.get(&"key1".to_string(), 1);
    assert_eq!(hit, Some(100));
    assert!(cache.get(&"key2".to_string(), 2).is_none());
    assert_eq!((cache.hits(), cache.misses()), (1, 1));
    cache.clear();
    assert_eq!(cache.size(), 0);
    assert_eq!((cache.hits(), cache.misses()), (0, 0));
}

#[test]
fn test_cache_with_multiple_keys() {
    let mut cache: Cache<u32, String> = Cache::new(10);

    for i in 0..5 {
        cache.put(i, format!("value_{}", i), i as u64);
    }

    for i in 0..5 {
        let value = cache.get(&i, 10);
        assert!(value.is_some());
        assert_eq!(value.unwrap(), format!("value_{}", i));
    }
    assert_eq!(cache.hits(), 5);
}

#[test]
fn evicted_key_misses() {
    let mut cache: Cache<i32, String> = Cache::new(2);
    cache.put(1, "one".to_string(), 0);
    cache.put(2, "two".to_string(), 1);
    cache.put(3, "three".to_string(), 2);
    assert!(cache.get(&1, 3).is_none());
    assert_eq!(cache.get(&3, 4).as_deref(), Some("three"));
}

#[test]
fn test_batch_add_and_flush() {
    let mut batch: Batch<u32> = Batch::new(5);

    assert!(batch.add(1));
    assert!(batch.add(2));
    assert!(batch.add(3));

    assert_eq!(batch.current_size(), 3);
    assert!(!batch.is_full());

    let flushed = batch.flush();
    assert_eq!(flushed.len(), 3);
    assert!(batch.is_empty());
}

#[test]
fn test_batch_full_detection() {
    let mut batch: Batch<u32> = Batch::new(3);

    batch.add(1);
    batch.add(2);
    batch.add(3);

    assert!(batch.is_full());
    assert!(!batch.add(4));
}

#[test]
fn test_batch_flush_on_full() {
    let mut batch: Batch<u32> = Batch::new(2);

    batch.add(10);
    batch.add(20);
    assert!(batch.is_full());

    let flushed = batch.flush();
    assert_eq!(flushed, vec![10, 20]);
    assert!(batch.is_empty());
}

#[test]
fn test_batch_processing_workflow() {
    let mut batch: Batch<u32> = Batch::new(5);

    let mut processed_batches = 0;

    for i in 0..12 {
        if batch.add(i) {
            if batch.is_full() {
                let _flushed = batch.flush();
                processed_batches += 1;
            }
        } else {
            let _flushed = batch.flush();
            processed_batches += 1;
            batch.add(i);
        }
    }

    if !batch.is_empty() {
        batch.flush();
        processed_batches += 1;
    }

    assert!(processed_batches >= 2);
}

#[test]
fn test_profiler_creation() {
    let profiler = Profiler::new();
    assert_eq!(profiler.measured_operations(), 0);
}

#[test]
fn test_latency_percentiles() {
    let mut profiler = Profiler::new();

    for i in 1..=100 {
        profiler.record_operation("test_op", i * 1000);
    }

    let metrics = profiler.get_latency_metrics("test_op").unwrap();
    assert_eq!(metrics.min_ns, 1000);
    assert_eq!(metrics.max_ns, 100000);
    assert!(metrics.p50_ns > 40000 && metrics.p50_ns < 60000);
    assert!(metrics.p95_ns > 90000);
}

#[test]
fn profiler_test_reset() {
    let mut profiler = Profiler::new();
    profiler.record_operation("test_op", 1000);
    assert!(profiler.measured_operations() != 0);

    profiler.reset();
    assert!(profiler.measured_operations() == 0);
}

#[test]
fn percentiles_of_unsorted_samples() {
    let mut profiler = Profiler::new();
    for s in [50u64, 10, 40, 20, 30] {
        profiler.record_operation("op", s);
    }
    let m = profiler.get_latency_metrics("op").unwrap();
    assert_eq!((m.samples, m.min_ns, m.max_ns, m.avg_ns, m.p50_ns, m.p95_ns, m.p99_ns), (5, 10, 50, 30, 30, 50, 50));
    assert_eq!(profiler.completed_operations("op"), Some(5));
    assert!(profiler.get_latency_metrics("other").is_none());
    profiler.start_timer("t");
    profiler.end_timer("t");
    assert_eq!(profiler.samples_for("t").len(), 1);
    profiler.clear_operation("op");
    assert!(profiler.get_latency_metrics("op").is_none());
}

fn hit_rate<K: Clone + sher::keyed::KeyEq, V: Clone>(cache: &Cache<K, V>) -> f64 {
    let total = cache.hits() + cache.misses();
    if total == 0 {
        0.0
    } else {
        cache.hits() as f64 / total as f64
    }
}

#[test]
fn test_cache_hit_and_miss() {
    let mut cache: Cache<String, u32> = Cache::new(10);

    cache.put("key1".to_string(), 100, 0);

    let hit = cache.get(&"key1".to_string(), 1);
    assert!(hit.is_some());
    assert_eq!(hit.unwrap(), 100);

    let miss = cache.get(&"key2".to_string(), 2);
    assert!(miss.is_none());

    assert!(hit_rate(&cache) > 0.4);
}

#[test]
fn test_cache_clear() {
    let mut cache: Cache<String, u32> = Cache::new(10);

    cache.put("key1".to_string(), 100, 0);
    cache.put("key2".to_string(), 200, 1);

    cache.clear();
    assert_eq!(cache.size(), 0);
    assert_eq!(hit_rate(&cache), 0.0);
}

#[test]
fn test_object_pool_utilization() {
    let mut pool: ObjectPool<u32> = ObjectPool::new(10);

    pool.acquire(1);
    pool.acquire(2);
    pool.acquire(3);

    let in_use = pool.in_use_count();
    let util = in_use as f64 / (in_use + pool.available_count()) as f64;
    assert!(util > 0.25 && util < 0.35);
}

#[test]
fn cache_of_one_keeps_only_the_latest_entry() {
    let mut cache: Cache<i32, String> = Cache::new(1);
    for k in 0..4 {
        cache.put(k, format!("v{}", k), k as u64);
        assert_eq!(cache.size(), 1);
    }
    assert!(cache.get(&2, 9).is_none());
    assert_eq!(cache.get(&3, 9).as_deref(), Some("v3"));
}

#[test]
fn recording_moves_min_and_max_to_take_in_the_sample() {
    let mut profiler = Profiler::new();
    profiler.record_operation("op", 40);
    profiler.record_operation("op", 20);
    let m = profiler.get_latency_metrics("op").unwrap();
    assert_eq!((m.min_ns, m.max_ns), (20, 40));
    profiler.record_operation("op", 70);
    let m = profiler.get_latency_metrics("op").unwrap();
    assert_eq!((m.samples, m.min_ns, m.max_ns), (3, 20, 70));
    profiler.record_operation("op", 30);
    let m = profiler.get_latency_metrics("op").unwrap();
    assert_eq!((m.samples, m.min_ns, m.max_ns), (4, 20, 70));
}

#[test]
fn dependency_is_listed_once() {
    let a = sher::common::ObjectId { value: 7 };
    let b = sher::common::ObjectId { value: 9 };
    let mut deps = Vec::new();
    add_dependency(&mut deps, a);
    add_dependency(&mut deps, b);
    add_dependency(&mut deps, a);
    assert_eq!(deps, vec![a, b]);
}

#[test]
fn event_counts_track_events_and_errors() {
    let mut counts = EventCounts::new();
    counts.record_event(100);
    counts.record_event(105);
    counts.record_error();
    assert_eq!((counts.events_processed, counts.errors_encountered, counts.last_activity), (2, 1, Some(105)));
}

#[test]
fn fresh_ids_are_version_four_uuids() {
    for _ in 0..8 {
        let id = sher::common::ObjectId::new();
        assert_eq!(id.value & 0xF000_C000_0000_0000_0000u128, 0x4000_8000_0000_0000_0000u128);
    }
}
