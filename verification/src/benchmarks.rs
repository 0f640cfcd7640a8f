//! Results of the cache benchmarks. The benchmarks themselves time real
//! work with the clock and threads, and run outside the library.

use vstd::prelude::*;
use std::time::Duration;

use crate::performance_monitor::{duration_as_nanos, duration_from_nanos, duration_nanos};

verus! {

/// Result of a single benchmark
pub struct BenchmarkResult {
    pub name: String,
    pub iterations: usize,
    pub total_time: Duration,
    pub avg_time: Duration,
    /// operations per second
    pub throughput: u64,
}

/// Complete benchmark results
pub struct BenchmarkResults {
    pub store_performance: BenchmarkResult,
    pub get_performance: BenchmarkResult,
    pub dependency_tracking: BenchmarkResult,
    pub cache_invalidation: BenchmarkResult,
    pub memory_usage: BenchmarkResult,
    pub concurrency: BenchmarkResult,
}

/// The time per iteration: the total divided by the iteration count taken
/// as a `u32`, in whole nanoseconds.
pub open spec fn per_iteration(total: nat, iterations: nat) -> nat {
    total / (iterations % 4294967296)
}

impl BenchmarkResult {
    /// The result of a benchmark named `name` that ran `iterations` times in
    /// `total_time` and reached `throughput` operations per second; the
    /// average divides the total by the count taken as a `u32`.
    pub fn new(name: String, iterations: usize, total_time: Duration, throughput: u64) -> (r: Self)
        requires
            iterations as nat % 4294967296 != 0,
        ensures
            r.name == name,
            r.iterations == iterations,
            r.total_time == total_time,
            duration_nanos(r.avg_time) == per_iteration(duration_nanos(total_time), iterations as nat),
            r.throughput == throughput,
    {
        let total = duration_as_nanos(&total_time);
        let divisor: u128 = ((iterations as u64) % 4294967296) as u128;
        let avg: u128 = total / divisor;
        assert(avg <= total) by (nonlinear_arith)
            requires
                avg == total / divisor,
                divisor > 0,
        ;
        BenchmarkResult { name, iterations, total_time, avg_time: duration_from_nanos(avg), throughput }
    }
}

impl Default for BenchmarkResult {
    fn default() -> (r: Self)
        ensures
            r.name@ == Seq::<char>::empty(),
            r.iterations == 0,
            duration_nanos(r.total_time) == 0,
            duration_nanos(r.avg_time) == 0,
            r.throughput == 0,
    {
        BenchmarkResult {
            name: String::new(),
            iterations: 0,
            total_time: duration_from_nanos(0),
            avg_time: duration_from_nanos(0),
            throughput: 0,
        }
    }
}

impl Default for BenchmarkResults {
    fn default() -> (r: Self)
        ensures
            r.store_performance.iterations == 0,
            r.get_performance.iterations == 0,
            r.dependency_tracking.iterations == 0,
            r.cache_invalidation.iterations == 0,
            r.memory_usage.iterations == 0,
            r.concurrency.iterations == 0,
    {
        BenchmarkResults {
            store_performance: BenchmarkResult::default(),
            get_performance: BenchmarkResult::default(),
            dependency_tracking: BenchmarkResult::default(),
            cache_invalidation: BenchmarkResult::default(),
            memory_usage: BenchmarkResult::default(),
            concurrency: BenchmarkResult::default(),
        }
    }
}

} // verus!
