use shipwright::benchmarks::{BenchmarkResult, BenchmarkResults};
use shipwright::performance_monitor::{MemoryProfiler, PerformanceMonitor};
use std::time::Duration;

#[test]
fn test_timing_measurements() {
    let mut monitor = PerformanceMonitor::new();

    // Record some timings
    monitor.record_timing("test_op", Duration::from_millis(10));
    monitor.record_timing("test_op", Duration::from_millis(20));
    monitor.record_timing("test_op", Duration::from_millis(15));

    let stats = monitor.timing_stats("test_op").unwrap();
    assert_eq!(stats.count, 3);
    assert_eq!(stats.average, Duration::from_millis(15));
    assert_eq!(stats.min, Duration::from_millis(10));
    assert_eq!(stats.max, Duration::from_millis(20));
}

#[test]
fn test_counters() {
    let mut monitor = PerformanceMonitor::new();

    monitor.increment_counter("test_counter");
    monitor.increment_counter("test_counter");
    monitor.add_to_counter("test_counter", 5);

    assert_eq!(monitor.get_counter("test_counter"), 7);
    assert_eq!(monitor.get_counter("non_existent"), 0);
}

#[test]
fn test_memory_tracking() {
    let mut monitor = PerformanceMonitor::new();

    monitor.record_memory(1_000_000, Some("initial".to_string()));
    monitor.record_memory(2_000_000, Some("peak".to_string()));
    monitor.record_memory(1_500_000, Some("current".to_string()));

    assert_eq!(monitor.current_memory(), 1_500_000);
    assert_eq!(monitor.peak_memory(), 2_000_000);
}

#[test]
fn test_timing_guard() {
    let mut monitor = PerformanceMonitor::new();
    {
        let guard = monitor.start_timing("guarded_op");
        monitor.end_timing(guard);
    }
    let stats = monitor.timing_stats("guarded_op");
    assert!(stats.is_some());
    assert!(stats.unwrap().count == 1);
}

#[test]
fn percentiles_come_from_sorted_samples() {
    let mut monitor = PerformanceMonitor::new();
    for ms in [50u64, 10, 40, 20, 30] {
        monitor.record_timing("op", Duration::from_millis(ms));
    }
    let stats = monitor.timing_stats("op").unwrap();
    assert_eq!(stats.count, 5);
    assert_eq!(stats.total, Duration::from_millis(150));
    assert_eq!(stats.average, Duration::from_millis(30));
    assert_eq!(stats.min, Duration::from_millis(10));
    assert_eq!(stats.max, Duration::from_millis(50));
    assert_eq!(stats.median, Duration::from_millis(30));
    // 5 * 0.95 = 4.75 -> index 4; 5 * 0.99 -> index 4
    assert_eq!(stats.p95, Duration::from_millis(50));
    assert_eq!(stats.p99, Duration::from_millis(50));
    assert!(monitor.timing_stats("other").is_none());
}

#[test]
fn average_truncates_to_whole_nanoseconds() {
    let mut monitor = PerformanceMonitor::new();
    monitor.record_timing("op", Duration::from_nanos(1));
    monitor.record_timing("op", Duration::from_nanos(1));
    monitor.record_timing("op", Duration::from_nanos(2));
    assert_eq!(monitor.timing_stats("op").unwrap().average, Duration::from_nanos(1));
}

#[test]
fn report_lists_every_operation_and_counter() {
    let mut monitor = PerformanceMonitor::new();
    monitor.record_timing("b", Duration::from_millis(1));
    monitor.record_timing("a", Duration::from_millis(2));
    monitor.increment_counter("events");
    monitor.record_memory(4096, None);
    let report = monitor.generate_report();
    assert_eq!(report.timings.len(), 2);
    assert_eq!(report.timings[0].0, "b");
    assert_eq!(report.timings[1].0, "a");
    assert_eq!(report.timings[1].1.total, Duration::from_millis(2));
    assert_eq!(report.counters, vec![("events".to_string(), 1)]);
    assert_eq!(report.peak_memory_bytes, 4096);
    assert_eq!(report.current_memory_bytes, 4096);
}

#[test]
fn reset_clears_memory_figures() {
    let mut monitor = PerformanceMonitor::new();
    monitor.record_timing("op", Duration::from_millis(1));
    monitor.increment_counter("c");
    monitor.record_memory(10, None);
    monitor.reset();
    assert!(monitor.timing_stats("op").is_none());
    assert_eq!(monitor.get_counter("c"), 0);
    assert_eq!(monitor.current_memory(), 0);
    assert_eq!(monitor.peak_memory(), 0);
}

#[test]
fn overflowing_total_is_refused() {
    let mut monitor = PerformanceMonitor::new();
    assert!(monitor.try_record_timing("op", Duration::MAX));
    assert!(!monitor.try_record_timing("op", Duration::from_nanos(1)));
    assert_eq!(monitor.timing_stats("op").unwrap().count, 1);
}

#[test]
fn profiler_never_reports_leaks() {
    let mut profiler = MemoryProfiler::new();
    let a = profiler.snapshot("a");
    profiler.snapshot("b");
    profiler.snapshot("c");
    assert_eq!(a.usage_bytes, 0);
    assert_eq!(a.delta_bytes, 0);
    assert_eq!(a.label, "a");
    assert!(profiler.check_for_leaks(0).is_empty());
}

#[test]
fn scoped_timer_records_on_end() {
    let mut monitor = PerformanceMonitor::new();
    let timer = monitor.scoped_timer("scoped");
    let _ = timer.elapsed();
    assert!(monitor.end_scoped(timer));
    assert_eq!(monitor.timing_stats("scoped").unwrap().count, 1);
}

#[test]
fn benchmark_result_averages_over_iterations() {
    let r = BenchmarkResult::new("Store Operations".to_string(), 4, std::time::Duration::from_millis(10), 400);
    assert_eq!(r.avg_time, std::time::Duration::from_micros(2500));
    assert_eq!(r.iterations, 4);
    assert_eq!(r.throughput, 400);
    let all = BenchmarkResults::default();
    assert_eq!(all.concurrency.iterations, 0);
    assert_eq!(all.store_performance.name, "");
}

#[test]
fn fits_timing_guards_the_total() {
    let mut monitor = PerformanceMonitor::new();
    assert!(monitor.fits_timing("op", &Duration::MAX));
    monitor.record_timing("op", Duration::from_millis(1));
    assert!(!monitor.fits_timing("op", &Duration::MAX));
    assert!(!monitor.try_record_timing("op", Duration::MAX));
    assert!(monitor.try_record_timing("op", Duration::from_millis(3)));
    let stats = monitor.timing_stats("op").unwrap();
    assert_eq!(stats.count, 2);
    assert_eq!(stats.total, Duration::from_millis(4));
}

#[test]
fn timing_statistics_are_ordered_samples() {
    let mut monitor = PerformanceMonitor::new();
    for ms in [7u64, 3, 9, 1, 5] {
        monitor.record_timing("op", Duration::from_millis(ms));
    }
    let s = monitor.timing_stats("op").unwrap();
    assert_eq!(s.count, 5);
    assert_eq!(s.total, Duration::from_millis(25));
    assert_eq!(s.average, Duration::from_millis(5));
    assert_eq!(s.min, Duration::from_millis(1));
    assert_eq!(s.max, Duration::from_millis(9));
    assert_eq!(s.median, Duration::from_millis(5));
    assert!(s.min <= s.median && s.median <= s.p95 && s.p95 <= s.p99 && s.p99 <= s.max);
}
