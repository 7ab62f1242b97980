use sher::memory::stress_tests::{StressTestConfig as AllocatorStressConfig, StressTestResult};
use sher::performance_benchmarks::{average_latency_us, latency_measurement, memory_measurement, LatencyMeasurement};
use sher::profiling::profiler::{sort_bottlenecks, Profiler};
use sher::profiling::stress_test::{StressTest, StressTestConfig, FAILURE_CASCADE_THRESHOLD};

#[test]
fn test_stress_test_creation() {
    let config = StressTestConfig::default();
    let test = StressTest::new(config);
    assert_eq!(test.operations_completed(), 0);
}

#[test]
fn stress_test_test_reset() {
    let config = StressTestConfig::default();
    let mut test = StressTest::new(config);
    for _ in 0..100 {
        test.record_success();
    }
    assert_eq!(test.operations_completed(), 100);
    test.reset();
    assert_eq!(test.operations_completed(), 0);
}

#[test]
fn memory_stress_step_keeps_between_half_and_the_limit() {
    let config = StressTestConfig { max_concurrent_allocations: 4, allocation_size_bytes: 16, ..StressTestConfig::default() };
    let mut test = StressTest::new(config);
    let mut live: Vec<Vec<u8>> = Vec::new();
    test.memory_stress_step(&mut live);
    assert_eq!(live.len(), 1);
    assert_eq!(live[0], vec![0u8; 16]);
    test.memory_stress_step(&mut live);
    assert_eq!(live.len(), 2);
    // a third block goes over half the limit, so the newest is dropped again
    test.memory_stress_step(&mut live);
    assert_eq!(live.len(), 2);
    assert_eq!(test.operations_completed(), 3);
    assert_eq!(test.operations_failed(), 0);
}

#[test]
fn cascade_counts_runs_of_failures() {
    let mut test = StressTest::new(StressTestConfig::default());
    let mut run = 0;
    for _ in 0..FAILURE_CASCADE_THRESHOLD {
        assert!(StressTest::cascade_continues(run));
        run = test.cascade_step(false, run);
    }
    assert_eq!(run, 10);
    assert!(!StressTest::cascade_continues(run));
    assert_eq!(test.cascade_step(true, run), 0);
    assert_eq!(test.operation_totals(), (1, 10, 11));
}

#[test]
fn allocator_stress_defaults_and_verdict() {
    let c = AllocatorStressConfig::default();
    assert_eq!((c.cycle_count, c.max_size, c.min_size, c.thread_count), (1000, 65536, 8, 4));
    assert!(!c.random_dealloc && c.track_allocations);
    let mut r = StressTestResult::empty();
    r.conclude();
    assert!(r.passed);
    r.allocation_failures = 1;
    r.conclude();
    assert!(!r.passed);
}

#[test]
fn latency_per_iteration_is_rounded_down() {
    let m = latency_measurement("increment", 1005, 10);
    assert_eq!(m.operation, "increment");
    assert_eq!(m.duration_us, 100);
    assert_eq!(m.iterations, 10);
    let mem = memory_measurement("test_resource", 1024 * 1024, 2 * 1024 * 1024);
    assert_eq!(mem.bytes_allocated, 1024 * 1024);
    assert_eq!(mem.peak_bytes, 2 * 1024 * 1024);
}

#[test]
fn average_latency_over_matching_measurements() {
    let l = vec![
        LatencyMeasurement { operation: "op".to_string(), duration_us: 100, iterations: 10 },
        LatencyMeasurement { operation: "other".to_string(), duration_us: 7, iterations: 1 },
        LatencyMeasurement { operation: "op".to_string(), duration_us: 201, iterations: 10 },
    ];
    assert_eq!(average_latency_us(&l, "op"), Some(150));
    assert_eq!(average_latency_us(&l, "other"), Some(7));
    assert_eq!(average_latency_us(&l, "missing"), None);
}

#[test]
fn bottleneck_threshold_at_a_rank() {
    let mut profiler = Profiler::new();
    for _ in 1..=99 {
        profiler.record_operation("test_op", 1000);
    }
    profiler.record_operation("test_op", 100000);
    // 95th percentile of 100 samples: rank 95
    assert_eq!(profiler.bottleneck_threshold("test_op", 95), Some(1000));
    // the largest sample has nothing above it
    assert_eq!(profiler.bottleneck_threshold("test_op", 99), None);
    assert_eq!(profiler.bottleneck_threshold("test_op", 500), None);
    assert_eq!(profiler.bottleneck_threshold("missing", 0), None);
    assert_eq!(profiler.measured_operation_names(), vec!["test_op".to_string()]);
}

#[test]
fn bottlenecks_slowest_first() {
    let v = vec![("a".to_string(), 5), ("b".to_string(), 9), ("c".to_string(), 5), ("d".to_string(), 1)];
    let r = sort_bottlenecks(v);
    let vals: Vec<u64> = r.iter().map(|x| x.1).collect();
    assert_eq!(vals, vec![9, 5, 5, 1]);
    assert_eq!(r[0].0, "b");
    assert_eq!(r.len(), 4);
}

#[test]
fn test_memory_measurement() {
    let mem = memory_measurement("test_resource", 1024 * 1024, 2 * 1024 * 1024);
    assert_eq!(mem.bytes_allocated, 1024 * 1024);
    assert_eq!(mem.peak_bytes, 2 * 1024 * 1024);
}

#[test]
fn test_average_latency_calculation() {
    let latencies = vec![
        LatencyMeasurement { operation: "op".to_string(), duration_us: 100, iterations: 10 },
        LatencyMeasurement { operation: "op".to_string(), duration_us: 200, iterations: 10 },
    ];
    let avg = average_latency_us(&latencies, "op").unwrap();
    assert_eq!(avg, 150);
}

#[test]
fn test_bottleneck_identification() {
    let mut profiler = Profiler::new();
    for _ in 1..=99 {
        profiler.record_operation("test_op", 1000);
    }
    profiler.record_operation("test_op", 100000);
    // 95th percentile of the 100 samples
    let rank = ((100 as f64) * (95.0 / 100.0)) as usize;
    let found = profiler.bottleneck_threshold("test_op", rank);
    assert!(found.is_some());
}

#[test]
fn test_timer_measurement() {
    let mut profiler = Profiler::new();
    profiler.start_timer("test_op");
    let start = std::time::Instant::now();
    while start.elapsed() < std::time::Duration::from_micros(100) {}
    profiler.end_timer("test_op");

    let metrics = profiler.get_latency_metrics("test_op");
    assert!(metrics.is_some());
    assert!(metrics.unwrap().avg_ns > 50000);
}
