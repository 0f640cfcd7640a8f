//! Performance monitoring for the hot reload system: timings per operation
//! with their statistics, named counters, memory figures, and a memory
//! profiler that looks for continuous growth.
//!
//! Durations are kept as whole nanoseconds, which is exactly what a
//! `Duration` holds; they become `Duration` values again where they leave the
//! monitor.

use vstd::prelude::*;
use vstd::relations::{sorted_by, total_ordering};
use vstd::multiset::Multiset;
use std::time::{Duration, Instant};

use crate::keyed::{
    drop_key, has_key, key_pos, keys_of, lemma_drop_key, lemma_key_pos, lemma_put, put,
    unique_keys, value_of,
};
use crate::clock::{instant_elapsed, instant_now};
use crate::protocol::opt_text;

verus! {

// ----------------------------------------------------------------------------
// Time values from std
// ----------------------------------------------------------------------------

/// The whole nanoseconds that a `Duration` holds, as `Duration::as_nanos`
/// reports them.
pub uninterp spec fn duration_nanos(d: Duration) -> nat;

/// `recorded` tells whether `n` more nanoseconds keep a total of `total`
/// within what a `Duration` can hold.
pub open spec fn within_total(total: nat, n: nat, recorded: bool) -> bool {
    recorded == (total + n < duration_limit())
}

/// `after` is `before` with a sample of `n` nanoseconds (a span a
/// `Duration` can hold) recorded for `op` where its total stays within what
/// a `Duration` can hold, and with the timings unchanged otherwise.
pub open spec fn sampled(before: PerformanceMonitor, after: PerformanceMonitor, op: Seq<char>, n: nat) -> bool {
    &&& n < duration_limit()
    &&& if before.total_of(op) + n < duration_limit() {
        after.timings() == put(before.timings(), op, before.samples_or_empty(op).push(n as u128))
    } else {
        after.timings() == before.timings()
    }
}

/// One more than the largest number of nanoseconds a `Duration` can hold:
/// `u64::MAX` seconds and 999,999,999 nanoseconds.
pub open spec fn duration_limit() -> nat {
    18446744073709551616nat * 1000000000nat
}

/// Calls `Duration::as_nanos`, which std documents as the total number of
/// whole nanoseconds in the duration; a duration never holds more than
/// `u64::MAX` seconds plus a fraction of one.
#[verifier::external_body]
pub(crate) fn duration_as_nanos(d: &Duration) -> (n: u128)
    ensures
        n == duration_nanos(*d),
        n < duration_limit(),
{
    d.as_nanos()
}

/// Calls `Duration::new` with a nanosecond part below one second, which std
/// documents as the duration of `secs` seconds and `nanos` nanoseconds.
#[verifier::external_body]
fn duration_new(secs: u64, nanos: u32) -> (d: Duration)
    requires
        nanos < 1_000_000_000,
    ensures
        duration_nanos(d) == secs * 1_000_000_000 + nanos,
{
    Duration::new(secs, nanos)
}

/// The duration of `n` nanoseconds.
pub fn duration_from_nanos(n: u128) -> (d: Duration)
    requires
        n < duration_limit(),
    ensures
        duration_nanos(d) == n,
{
    let secs_wide: u128 = n / 1_000_000_000;
    let sub_wide: u128 = n % 1_000_000_000;
    assert(secs_wide < 18446744073709551616) by (nonlinear_arith)
        requires
            secs_wide == n / 1_000_000_000,
            n < 18446744073709551616nat * 1000000000nat,
    ;
    let d = duration_new(secs_wide as u64, sub_wide as u32);
    d
}

/// Whether `a` is shorter than `b`.
pub fn duration_less(a: &Duration, b: &Duration) -> (r: bool)
    ensures
        r == (duration_nanos(*a) < duration_nanos(*b)),
{
    duration_as_nanos(a) < duration_as_nanos(b)
}

// ----------------------------------------------------------------------------
// Samples and their statistics
// ----------------------------------------------------------------------------

/// The order in which samples are sorted.
pub open spec fn le_nanos() -> spec_fn(u128, u128) -> bool {
    |a: u128, b: u128| a <= b
}

/// The samples in ascending order.
pub open spec fn sorted_nanos(s: Seq<u128>) -> Seq<u128> {
    s.sort_by(le_nanos())
}

/// The sum of the samples.
pub open spec fn sum_nanos(s: Seq<u128>) -> nat
    decreases s.len(),
{
    if s.len() == 0 {
        0
    } else {
        sum_nanos(s.drop_last()) + (s.last() as nat)
    }
}

/// The position in the sorted samples of the `pct`-th percentile of `n`
/// samples.
pub open spec fn percentile_index(n: nat, pct: nat) -> int {
    (n * pct / 100) as int
}

/// What the statistics of a timed operation say, in nanoseconds.
pub struct StatsModel {
    pub count: nat,
    pub total: nat,
    pub average: nat,
    pub min: nat,
    pub max: nat,
    pub median: nat,
    pub p95: nat,
    pub p99: nat,
}

/// The statistics of non-empty samples whose count is not a multiple of
/// 2^32: the average divides the total by the count taken as a `u32`.
pub open spec fn stats_model(s: Seq<u128>) -> StatsModel {
    let n = s.len();
    let sorted = sorted_nanos(s);
    StatsModel {
        count: n,
        total: sum_nanos(s),
        average: sum_nanos(s) / (n % 4294967296),
        min: sorted[0] as nat,
        max: sorted[n - 1] as nat,
        median: sorted[(n / 2) as int] as nat,
        p95: sorted[percentile_index(n, 95)] as nat,
        p99: sorted[percentile_index(n, 99)] as nat,
    }
}

/// The statistics of non-empty samples count them and sum them; their
/// minimum and maximum bound every sample; median, 95th and 99th
/// percentiles lie in that order between them; and each of these figures is
/// one of the samples.
pub proof fn lemma_stats_of_samples(s: Seq<u128>)
    requires
        s.len() > 0,
    ensures
        stats_model(s).count == s.len(),
        stats_model(s).total == sum_nanos(s),
        stats_model(s).min <= stats_model(s).median,
        stats_model(s).median <= stats_model(s).p95,
        stats_model(s).p95 <= stats_model(s).p99,
        stats_model(s).p99 <= stats_model(s).max,
        forall|i: int| 0 <= i < s.len() ==> stats_model(s).min <= #[trigger] s[i] <= stats_model(s).max,
        s.contains(stats_model(s).min as u128),
        s.contains(stats_model(s).max as u128),
        s.contains(stats_model(s).median as u128),
        s.contains(stats_model(s).p95 as u128),
        s.contains(stats_model(s).p99 as u128),
{
    broadcast use vstd::seq_lib::group_to_multiset_ensures;
    lemma_le_nanos_total();
    s.lemma_sort_by_ensures(le_nanos());
    let t = sorted_nanos(s);
    let n = s.len();
    assert(t.len() == n) by {
        assert(t.to_multiset().len() == s.to_multiset().len());
    }
    let m = (n / 2) as int;
    let a = percentile_index(n, 95);
    let b = percentile_index(n, 99);
    assert(0 <= m <= a <= b < n) by (nonlinear_arith)
        requires
            n >= 1,
            m == n / 2,
            a == n * 95 / 100,
            b == n * 99 / 100,
    ;
    assert forall|i: int, j: int| 0 <= i <= j < n implies t[i] <= t[j] by {
        if i < j {
            assert(le_nanos()(t[i], t[j]));
        }
    }
    assert forall|k: int| 0 <= k < n implies s.contains(#[trigger] t[k]) by {
        assert(t.contains(t[k]));
    }
    assert forall|i: int| 0 <= i < n implies t[0] <= #[trigger] s[i] <= t[n - 1] by {
        assert(s.to_multiset().count(s[i]) > 0);
        assert(t.contains(s[i]));
        let j = choose|j: int| 0 <= j < n && t[j] == s[i];
        assert(t[0] <= t[j] && t[j] <= t[n - 1]);
    }
    assert(s.contains(t[0]) && s.contains(t[n - 1]) && s.contains(t[m]) && s.contains(t[a])
        && s.contains(t[b]));
}

proof fn lemma_le_nanos_total()
    ensures
        total_ordering(le_nanos()),
{
}

/// Sorts `v` in ascending order, in place.
fn sort_nanos(v: &mut Vec<u128>)
    ensures
        final(v)@ == sorted_nanos(old(v)@),
{
    let ghost orig = v@;
    let n = v.len();
    if n > 1 {
        let mut i: usize = 1;
        while i < n
            invariant
                1 <= i <= n,
                v.len() == n,
                v@.to_multiset() == orig.to_multiset(),
                forall|a: int, b: int| 0 <= a < b < i ==> v@[a] <= v@[b],
            decreases n - i,
        {
            let mut j: usize = i;
            while j > 0 && v[j - 1] > v[j]
                invariant
                    0 <= j <= i < n,
                    v.len() == n,
                    v@.to_multiset() == orig.to_multiset(),
                    forall|a: int, b: int|
                        0 <= a < b <= i && a != j && b != j ==> v@[a] <= v@[b],
                    forall|b: int| j < b <= i ==> v@[j as int] <= v@[b],
                decreases j,
            {
                let x = v[j - 1];
                let y = v[j];
                let ghost before = v@;
                v.set(j - 1, y);
                v.set(j, x);
                proof {
                    broadcast use vstd::seq_lib::group_to_multiset_ensures;
                    assert(v@ == before.update(j - 1, y).update(j as int, x));
                    assert(before.update(j - 1, y).to_multiset() == before.to_multiset().remove(
                        x,
                    ).insert(y));
                    assert(v@.to_multiset() == before.update(j - 1, y).to_multiset().remove(
                        y,
                    ).insert(x));
                    assert(v@.to_multiset() =~= before.to_multiset());
                }
                j = j - 1;
            }
            i = i + 1;
        }
    }
    proof {
        lemma_le_nanos_total();
        assert(sorted_by(v@, le_nanos()));
        orig.lemma_sort_by_ensures(le_nanos());
        vstd::seq_lib::lemma_sorted_unique(v@, sorted_nanos(orig), le_nanos());
    }
}

/// Statistics for a timed operation.
#[derive(Debug, Clone, Copy)]
pub struct TimingStats {
    pub count: usize,
    pub total: Duration,
    pub average: Duration,
    pub min: Duration,
    pub max: Duration,
    pub median: Duration,
    pub p95: Duration,
    pub p99: Duration,
}

impl TimingStats {
    /// The statistics in nanoseconds.
    pub open spec fn model(&self) -> StatsModel {
        StatsModel {
            count: self.count as nat,
            total: duration_nanos(self.total),
            average: duration_nanos(self.average),
            min: duration_nanos(self.min),
            max: duration_nanos(self.max),
            median: duration_nanos(self.median),
            p95: duration_nanos(self.p95),
            p99: duration_nanos(self.p99),
        }
    }
}

/// Statistics of the samples `samples`, whose sum is `total`.
pub fn compute_stats(samples: &Vec<u128>, total: u128) -> (r: TimingStats)
    requires
        samples.len() > 0,
        samples.len() as int % 4294967296 != 0,
        total == sum_nanos(samples@),
        total < duration_limit(),
    ensures
        r.model() == stats_model(samples@),
{
    let ghost s = samples@;
    let count = samples.len();
    let mut sorted: Vec<u128> = Vec::new();
    let mut k: usize = 0;
    while k < count
        invariant
            k <= count,
            count == samples.len(),
            sorted@ == samples@.subrange(0, k as int),
        decreases count - k,
    {
        sorted.push(samples[k]);
        k = k + 1;
    }
    assert(sorted@ == s);
    sort_nanos(&mut sorted);
    proof {
        s.lemma_sort_by_ensures(le_nanos());
        lemma_le_nanos_total();
        vstd::seq_lib::to_multiset_len(s);
        vstd::seq_lib::to_multiset_len(sorted@);
        assert(sorted@.len() == s.len());
    }
    let divisor: u32 = ((count as u64) % 4294967296) as u32;
    let avg: u128 = total / (divisor as u128);
    let median_idx: usize = count / 2;
    let p95_idx: usize = ((count as u128) * 95 / 100) as usize;
    let p99_idx: usize = ((count as u128) * 99 / 100) as usize;
    assert(p95_idx < count) by (nonlinear_arith)
        requires
            p95_idx as int == count as int * 95 / 100,
            count > 0,
    ;
    assert(p99_idx < count) by (nonlinear_arith)
        requires
            p99_idx as int == count as int * 99 / 100,
            count > 0,
    ;
    assert(avg <= total) by (nonlinear_arith)
        requires
            avg == total / (divisor as u128),
            divisor > 0,
    ;
    let min = sorted[0];
    let max = sorted[count - 1];
    let median = sorted[median_idx];
    let p95 = sorted[p95_idx];
    let p99 = sorted[p99_idx];
    proof {
        lemma_sorted_le_sum(s);
    }
    TimingStats {
        count,
        total: duration_from_nanos(total),
        average: duration_from_nanos(avg),
        min: duration_from_nanos(min),
        max: duration_from_nanos(max),
        median: duration_from_nanos(median),
        p95: duration_from_nanos(p95),
        p99: duration_from_nanos(p99),
    }
}

/// Every sorted sample is at most the sum of the samples.
proof fn lemma_sorted_le_sum(s: Seq<u128>)
    ensures
        forall|k: int|
            0 <= k < sorted_nanos(s).len() ==> #[trigger] sorted_nanos(s)[k] <= sum_nanos(s),
{
    lemma_le_nanos_total();
    s.lemma_sort_by_ensures(le_nanos());
    assert forall|k: int| 0 <= k < sorted_nanos(s).len() implies #[trigger] sorted_nanos(s)[k]
        <= sum_nanos(s) by {
        let x = sorted_nanos(s)[k];
        assert(sorted_nanos(s).contains(x));
        assert(s.contains(x));
        let i = choose|i: int| 0 <= i < s.len() && s[i] == x;
        lemma_sample_le_sum(s, i);
    }
}

/// Every sample is at most the sum of the samples.
proof fn lemma_sample_le_sum(s: Seq<u128>, i: int)
    requires
        0 <= i < s.len(),
    ensures
        s[i] <= sum_nanos(s),
    decreases s.len(),
{
    if i < s.len() - 1 {
        lemma_sample_le_sum(s.drop_last(), i);
    }
}

// ----------------------------------------------------------------------------
// The monitor
// ----------------------------------------------------------------------------

/// The samples and their running total for one operation.
struct TimingEntry {
    name: String,
    samples: Vec<u128>,
    total: u128,
}

/// One memory reading.
struct MemorySample {
    timestamp: Instant,
    usage_bytes: usize,
    label: Option<String>,
}

/// The memory figures.
struct MemoryTracker {
    peak_usage: usize,
    current_usage: usize,
    samples: Vec<MemorySample>,
}

/// The most memory readings a monitor keeps; older ones are dropped first.
pub const MAX_MEMORY_SAMPLES: usize = 1000;

/// Performance monitor for tracking hot reload metrics.
pub struct PerformanceMonitor {
    timings: Vec<TimingEntry>,
    memory: MemoryTracker,
    counters: Vec<(String, u64)>,
    active_spans: Vec<(String, Instant)>,
}

/// The samples of each timed operation, by name, in the order the operations
/// were first timed.
spec fn entries_view(es: Seq<TimingEntry>) -> Seq<(Seq<char>, Seq<u128>)> {
    es.map_values(|e: TimingEntry| (e.name@, e.samples@))
}

/// The memory readings: bytes and label.
spec fn readings_view(ms: Seq<MemorySample>) -> Seq<(usize, Option<Seq<char>>)> {
    ms.map_values(|m: MemorySample| (m.usage_bytes, opt_text(m.label)))
}

/// Named values with their names as text.
pub open spec fn named_view<V>(s: Seq<(String, V)>) -> Seq<(Seq<char>, V)> {
    s.map_values(|e: (String, V)| (e.0@, e.1))
}

/// The readings after `r` is added: the last `MAX_MEMORY_SAMPLES` are kept.
pub open spec fn add_reading(
    rs: Seq<(usize, Option<Seq<char>>)>,
    r: (usize, Option<Seq<char>>),
) -> Seq<(usize, Option<Seq<char>>)> {
    if rs.len() + 1 > MAX_MEMORY_SAMPLES {
        rs.push(r).drop_first()
    } else {
        rs.push(r)
    }
}

impl PerformanceMonitor {
    /// The samples of each timed operation.
    pub closed spec fn timings(&self) -> Seq<(Seq<char>, Seq<u128>)> {
        entries_view(self.timings@)
    }

    /// The counters.
    pub closed spec fn counters(&self) -> Seq<(Seq<char>, u64)> {
        named_view(self.counters@)
    }

    /// The operations being timed, with their start.
    pub closed spec fn spans(&self) -> Seq<(Seq<char>, Instant)> {
        named_view(self.active_spans@)
    }

    /// The last recorded memory usage.
    pub closed spec fn memory_current(&self) -> nat {
        self.memory.current_usage as nat
    }

    /// The largest recorded memory usage.
    pub closed spec fn memory_peak(&self) -> nat {
        self.memory.peak_usage as nat
    }

    /// The kept memory readings, oldest first.
    pub closed spec fn readings(&self) -> Seq<(usize, Option<Seq<char>>)> {
        readings_view(self.memory.samples@)
    }

    /// The samples of `op`, if it was timed.
    pub open spec fn samples_of(&self, op: Seq<char>) -> Option<Seq<u128>> {
        value_of(self.timings(), op)
    }

    /// The samples of `op`, empty if it was never timed.
    pub open spec fn samples_or_empty(&self, op: Seq<char>) -> Seq<u128> {
        match self.samples_of(op) {
            Some(s) => s,
            None => Seq::empty(),
        }
    }

    /// The value of counter `name`; zero if it was never touched.
    pub open spec fn counter_value(&self, name: Seq<char>) -> u64 {
        match value_of(self.counters(), name) {
            Some(v) => v,
            None => 0,
        }
    }

    /// Names are unique in each table, every timed operation has a sample,
    /// its total is the sum of its samples and fits a `Duration`, at most
    /// `MAX_MEMORY_SAMPLES` readings are kept, and the peak is never below
    /// the current usage.
    pub closed spec fn wf(&self) -> bool {
        &&& unique_keys(self.timings())
        &&& unique_keys(self.counters())
        &&& unique_keys(self.spans())
        &&& forall|i: int|
            0 <= i < self.timings@.len() ==> {
                &&& #[trigger] self.timings@[i].samples@.len() > 0
                &&& self.timings@[i].total == sum_nanos(self.timings@[i].samples@)
                &&& self.timings@[i].total < duration_limit()
            }
        &&& self.memory.samples@.len() <= MAX_MEMORY_SAMPLES
        &&& self.memory.current_usage <= self.memory.peak_usage
    }

    /// Names are unique in each table.
    pub proof fn lemma_names_unique(&self)
        requires
            self.wf(),
        ensures
            unique_keys(self.timings()),
            unique_keys(self.counters()),
            unique_keys(self.spans()),
    {
    }

    /// The peak is never below the current usage.
    pub proof fn lemma_peak_bounds_current(&self)
        requires
            self.wf(),
        ensures
            self.memory_current() <= self.memory_peak(),
    {
    }

    /// Create a new performance monitor.
    pub fn new() -> (r: Self)
        ensures
            r.wf(),
            r.timings() == Seq::<(Seq<char>, Seq<u128>)>::empty(),
            r.counters() == Seq::<(Seq<char>, u64)>::empty(),
            r.spans() == Seq::<(Seq<char>, Instant)>::empty(),
            r.readings() == Seq::<(usize, Option<Seq<char>>)>::empty(),
            r.memory_current() == 0,
            r.memory_peak() == 0,
    {
        let r = PerformanceMonitor {
            timings: Vec::new(),
            memory: MemoryTracker { peak_usage: 0, current_usage: 0, samples: Vec::new() },
            counters: Vec::new(),
            active_spans: Vec::new(),
        };
        assert(r.timings() =~= Seq::<(Seq<char>, Seq<u128>)>::empty());
        assert(r.counters() =~= Seq::<(Seq<char>, u64)>::empty());
        assert(r.spans() =~= Seq::<(Seq<char>, Instant)>::empty());
        assert(r.readings() =~= Seq::<(usize, Option<Seq<char>>)>::empty());
        r
    }

    /// The position of the entry timed under `op`.
    fn find_timing(&self, op: &String) -> (r: Option<usize>)
        requires
            self.wf(),
        ensures
            match r {
                Some(i) => i < self.timings@.len() && self.timings@[i as int].name@ == op@
                    && key_pos(self.timings(), op@) == i,
                None => !has_key(self.timings(), op@),
            },
    {
        let mut i: usize = 0;
        while i < self.timings.len()
            invariant
                self.wf(),
                i <= self.timings@.len(),
                forall|j: int| 0 <= j < i ==> self.timings@[j].name@ != op@,
            decreases self.timings@.len() - i,
        {
            if self.timings[i].name == *op {
                proof {
                    assert(self.timings()[i as int].0 == op@);
                    lemma_key_pos(self.timings(), i as int);
                }
                return Some(i);
            }
            i = i + 1;
        }
        proof {
            if has_key(self.timings(), op@) {
                let k = key_pos(self.timings(), op@);
                assert(self.timings@[k].name@ == op@);
            }
        }
        None
    }

    /// The total recorded for `op` so far, zero if it was never timed.
    pub open spec fn total_of(&self, op: Seq<char>) -> nat {
        sum_nanos(self.samples_or_empty(op))
    }

    /// Record a timing measurement whose addition keeps the operation's
    /// total within what a `Duration` can hold.
    pub fn record_timing(&mut self, operation: &str, duration: Duration)
        requires
            old(self).wf(),
            old(self).total_of(operation@) + duration_nanos(duration) < duration_limit(),
        ensures
            final(self).wf(),
            final(self).timings() == put(
                old(self).timings(),
                operation@,
                old(self).samples_or_empty(operation@).push(duration_nanos(duration) as u128),
            ),
            final(self).counters() == old(self).counters(),
            final(self).spans() == old(self).spans(),
            final(self).readings() == old(self).readings(),
            final(self).memory_current() == old(self).memory_current(),
            final(self).memory_peak() == old(self).memory_peak(),
    {
        let nanos = duration_as_nanos(&duration);
        self.record_nanos(operation, nanos);
    }

    /// Record `duration` for `operation` if the operation's total stays
    /// within what a `Duration` can hold; tells whether it was recorded.
    pub fn try_record_timing(&mut self, operation: &str, duration: Duration) -> (recorded: bool)
        requires
            old(self).wf(),
        ensures
            final(self).wf(),
            recorded == (old(self).total_of(operation@) + duration_nanos(duration)
                < duration_limit()),
            duration_nanos(duration) < duration_limit(),
            recorded ==> final(self).timings() == put(
                old(self).timings(),
                operation@,
                old(self).samples_or_empty(operation@).push(duration_nanos(duration) as u128),
            ),
            !recorded ==> final(self).timings() == old(self).timings(),
            final(self).counters() == old(self).counters(),
            final(self).spans() == old(self).spans(),
            final(self).readings() == old(self).readings(),
            final(self).memory_current() == old(self).memory_current(),
            final(self).memory_peak() == old(self).memory_peak(),
    {
        if self.fits_timing(operation, &duration) {
            self.record_timing(operation, duration);
            true
        } else {
            false
        }
    }

    /// Whether a sample of `duration` for `operation` keeps the operation's
    /// total within what a `Duration` can hold.
    pub fn fits_timing(&self, operation: &str, duration: &Duration) -> (r: bool)
        requires
            self.wf(),
        ensures
            r == (self.total_of(operation@) + duration_nanos(*duration) < duration_limit()),
            duration_nanos(*duration) < duration_limit(),
    {
        let nanos = duration_as_nanos(duration);
        let key = operation.to_owned();
        let current: u128 = match self.find_timing(&key) {
            Some(i) => {
                proof {
                    lemma_key_pos(self.timings(), i as int);
                    assert(self.timings@[i as int].samples@.len() > 0);
                }
                self.timings[i].total
            },
            None => 0,
        };
        assert(current < duration_limit());
        nanos < 18446744073709551616u128 * 1000000000u128 - current
    }

    /// Record a sample of `nanos` nanoseconds for `operation`.
    fn record_nanos(&mut self, operation: &str, nanos: u128)
        requires
            old(self).wf(),
            old(self).total_of(operation@) + nanos < duration_limit(),
        ensures
            final(self).wf(),
            final(self).timings() == put(
                old(self).timings(),
                operation@,
                old(self).samples_or_empty(operation@).push(nanos),
            ),
            final(self).counters() == old(self).counters(),
            final(self).spans() == old(self).spans(),
            final(self).readings() == old(self).readings(),
            final(self).memory_current() == old(self).memory_current(),
            final(self).memory_peak() == old(self).memory_peak(),
    {
        let key = operation.to_owned();
        let ghost old_entries = self.timings@;
        proof {
            lemma_put(
                self.timings(),
                operation@,
                self.samples_or_empty(operation@).push(nanos),
            );
        }
        match self.find_timing(&key) {
            Some(i) => {
                proof {
                    lemma_key_pos(self.timings(), i as int);
                }
                let mut entry = self.timings.remove(i);
                let ghost old_samples = entry.samples@;
                entry.samples.push(nanos);
                entry.total = entry.total + nanos;
                assert(entry.samples@.drop_last() == old_samples);
                self.timings.insert(i, entry);
                proof {
                    assert(self.timings@ == old_entries.update(i as int, self.timings@[i as int]));
                    assert(self.timings() =~= put(
                        entries_view(old_entries),
                        operation@,
                        value_of(entries_view(old_entries), operation@).unwrap().push(nanos),
                    ));
                }
            },
            None => {
                let mut samples: Vec<u128> = Vec::new();
                samples.push(nanos);
                let entry = TimingEntry { name: key, samples, total: nanos };
                assert(entry.samples@.drop_last() =~= Seq::<u128>::empty());
                self.timings.push(entry);
                proof {
                    assert(self.timings() =~= put(
                        entries_view(old_entries),
                        operation@,
                        Seq::<u128>::empty().push(nanos),
                    ));
                }
            },
        }
        proof {
            assert forall|j: int| 0 <= j < self.timings@.len() implies {
                &&& #[trigger] self.timings@[j].samples@.len() > 0
                &&& self.timings@[j].total == sum_nanos(self.timings@[j].samples@)
                &&& self.timings@[j].total < duration_limit()
            } by {
                if j < old_entries.len() && self.timings@[j] == old_entries[j] {
                } else {
                }
            }
        }
    }
}

impl PerformanceMonitor {
    /// The position of counter `name`.
    fn find_counter(&self, name: &String) -> (r: Option<usize>)
        requires
            self.wf(),
        ensures
            match r {
                Some(i) => i < self.counters@.len() && self.counters@[i as int].0@ == name@
                    && key_pos(self.counters(), name@) == i,
                None => !has_key(self.counters(), name@),
            },
    {
        let mut i: usize = 0;
        while i < self.counters.len()
            invariant
                self.wf(),
                i <= self.counters@.len(),
                forall|j: int| 0 <= j < i ==> self.counters@[j].0@ != name@,
            decreases self.counters@.len() - i,
        {
            if self.counters[i].0 == *name {
                proof {
                    assert(self.counters()[i as int].0 == name@);
                    lemma_key_pos(self.counters(), i as int);
                }
                return Some(i);
            }
            i = i + 1;
        }
        proof {
            if has_key(self.counters(), name@) {
                let k = key_pos(self.counters(), name@);
                assert(self.counters@[k].0@ == name@);
            }
        }
        None
    }

    /// Increment a counter.
    pub fn increment_counter(&mut self, name: &str)
        requires
            old(self).wf(),
            old(self).counter_value(name@) < u64::MAX,
        ensures
            final(self).wf(),
            final(self).counters() == put(
                old(self).counters(),
                name@,
                (old(self).counter_value(name@) + 1) as u64,
            ),
            final(self).timings() == old(self).timings(),
            final(self).spans() == old(self).spans(),
            final(self).readings() == old(self).readings(),
            final(self).memory_current() == old(self).memory_current(),
            final(self).memory_peak() == old(self).memory_peak(),
    {
        self.add_to_counter(name, 1);
    }

    /// Add to a counter; the sum must fit a `u64`.
    pub fn add_to_counter(&mut self, name: &str, value: u64)
        requires
            old(self).wf(),
            old(self).counter_value(name@) + value <= u64::MAX,
        ensures
            final(self).wf(),
            final(self).counters() == put(
                old(self).counters(),
                name@,
                (old(self).counter_value(name@) + value) as u64,
            ),
            final(self).timings() == old(self).timings(),
            final(self).spans() == old(self).spans(),
            final(self).readings() == old(self).readings(),
            final(self).memory_current() == old(self).memory_current(),
            final(self).memory_peak() == old(self).memory_peak(),
    {
        let key = name.to_owned();
        let ghost old_counters = self.counters@;
        let ghost new_value = (self.counter_value(name@) + value) as u64;
        proof {
            lemma_put(self.counters(), name@, new_value);
        }
        match self.find_counter(&key) {
            Some(i) => {
                proof {
                    lemma_key_pos(self.counters(), i as int);
                }
                let current = self.counters[i].1;
                self.counters.set(i, (key, current + value));
                proof {
                    assert(self.counters() =~= put(named_view(old_counters), name@, new_value));
                }
            },
            None => {
                self.counters.push((key, value));
                proof {
                    assert(self.counters() =~= put(named_view(old_counters), name@, new_value));
                }
            },
        }
    }

    /// Get counter value; zero for a counter never touched.
    pub fn get_counter(&self, name: &str) -> (r: u64)
        requires
            self.wf(),
        ensures
            r == self.counter_value(name@),
    {
        let key = name.to_owned();
        match self.find_counter(&key) {
            Some(i) => {
                proof {
                    lemma_key_pos(self.counters(), i as int);
                }
                self.counters[i].1
            },
            None => 0,
        }
    }

    /// Record current memory usage: it becomes the current figure, raises the
    /// peak if higher, and is kept as a reading with its label (the oldest
    /// readings go beyond `MAX_MEMORY_SAMPLES`).
    pub fn record_memory(&mut self, usage_bytes: usize, label: Option<String>)
        requires
            old(self).wf(),
        ensures
            final(self).wf(),
            final(self).memory_current() == usage_bytes,
            final(self).memory_peak() == if usage_bytes > old(self).memory_peak() {
                usage_bytes as nat
            } else {
                old(self).memory_peak()
            },
            final(self).readings() == add_reading(
                old(self).readings(),
                (usage_bytes, opt_text(label)),
            ),
            final(self).timings() == old(self).timings(),
            final(self).counters() == old(self).counters(),
            final(self).spans() == old(self).spans(),
    {
        let ghost old_samples = self.memory.samples@;
        self.memory.current_usage = usage_bytes;
        if usage_bytes > self.memory.peak_usage {
            self.memory.peak_usage = usage_bytes;
        }
        let timestamp = instant_now();
        self.memory.samples.push(MemorySample { timestamp, usage_bytes, label });
        let ghost pushed = self.memory.samples@;
        if self.memory.samples.len() > MAX_MEMORY_SAMPLES {
            self.memory.samples.remove(0);
            proof {
                assert(self.memory.samples@ =~= pushed.drop_first());
            }
        }
        proof {
            assert(readings_view(pushed) =~= readings_view(old_samples).push(
                (usage_bytes, opt_text(label)),
            ));
            assert(readings_view(pushed.drop_first()) =~= readings_view(pushed).drop_first());
        }
    }

    /// Get current memory usage.
    pub fn current_memory(&self) -> (r: usize)
        ensures
            r == self.memory_current(),
    {
        self.memory.current_usage
    }

    /// Get peak memory usage.
    pub fn peak_memory(&self) -> (r: usize)
        ensures
            r == self.memory_peak(),
    {
        self.memory.peak_usage
    }
}

/// No timed operation has a number of samples that is a multiple of 2^32,
/// which the average would divide by zero.
pub open spec fn counts_usable(timings: Seq<(Seq<char>, Seq<u128>)>) -> bool {
    forall|i: int| 0 <= i < timings.len() ==> #[trigger] timings[i].1.len() % 4294967296 != 0
}

/// Guard returned when timing starts; hand it back to `end_timing`.
pub struct TimingGuard {
    operation: String,
    start: Instant,
}

impl TimingGuard {
    /// The operation being timed.
    pub closed spec fn operation(&self) -> Seq<char> {
        self.operation@
    }

    /// When timing started.
    pub closed spec fn started(&self) -> Instant {
        self.start
    }
}

/// Scoped timer for measuring operation duration; hand it back to
/// `end_scoped` to record it.
pub struct ScopedTimer {
    operation: String,
    start: Instant,
}

impl ScopedTimer {
    /// The operation being timed.
    pub closed spec fn operation(&self) -> Seq<char> {
        self.operation@
    }

    /// Start timing `operation` now.
    fn new(operation: &str) -> (r: Self)
        ensures
            r.operation() == operation@,
    {
        ScopedTimer { operation: operation.to_owned(), start: instant_now() }
    }

    /// Get elapsed time without ending the timer; it depends on the clock.
    pub fn elapsed(&self) -> Duration {
        instant_elapsed(&self.start)
    }
}

/// Complete performance report.
pub struct PerformanceReport {
    pub timings: Vec<(String, TimingStats)>,
    pub counters: Vec<(String, u64)>,
    pub peak_memory_bytes: usize,
    pub current_memory_bytes: usize,
    pub timestamp: Instant,
}

/// The statistics listed in `r` are those of `timings`, operation by
/// operation, in the same order.
pub open spec fn stats_listed(
    r: Seq<(String, TimingStats)>,
    timings: Seq<(Seq<char>, Seq<u128>)>,
) -> bool {
    &&& r.len() == timings.len()
    &&& forall|i: int|
        0 <= i < r.len() ==> #[trigger] r[i].0@ == timings[i].0 && r[i].1.model() == stats_model(
            timings[i].1,
        )
}

impl PerformanceMonitor {
    /// Get timing statistics for an operation: none if it was never timed.
    pub fn timing_stats(&self, operation: &str) -> (r: Option<TimingStats>)
        requires
            self.wf(),
            counts_usable(self.timings()),
        ensures
            match self.samples_of(operation@) {
                None => r is None,
                Some(s) => r is Some && r.unwrap().model() == stats_model(s),
            },
    {
        let key = operation.to_owned();
        match self.find_timing(&key) {
            Some(i) => {
                proof {
                    lemma_key_pos(self.timings(), i as int);
                    assert(self.timings()[i as int].1.len() % 4294967296 != 0);
                }
                Some(self.stats_at(i))
            },
            None => None,
        }
    }

    /// The statistics of the operation at position `i`.
    fn stats_at(&self, i: usize) -> (r: TimingStats)
        requires
            self.wf(),
            i < self.timings@.len(),
            self.timings()[i as int].1.len() % 4294967296 != 0,
        ensures
            r.model() == stats_model(self.timings()[i as int].1),
    {
        let entry = &self.timings[i];
        assert(entry.samples@ == self.timings()[i as int].1);
        compute_stats(&entry.samples, entry.total)
    }

    /// Get all timing statistics, one entry per timed operation, in the order
    /// the operations were first timed.
    pub fn all_timing_stats(&self) -> (r: Vec<(String, TimingStats)>)
        requires
            self.wf(),
            counts_usable(self.timings()),
        ensures
            stats_listed(r@, self.timings()),
    {
        let mut r: Vec<(String, TimingStats)> = Vec::new();
        let mut i: usize = 0;
        while i < self.timings.len()
            invariant
                self.wf(),
                counts_usable(self.timings()),
                i <= self.timings@.len(),
                stats_listed(r@, self.timings().subrange(0, i as int)),
            decreases self.timings@.len() - i,
        {
            assert(self.timings()[i as int].1.len() % 4294967296 != 0);
            let stats = self.stats_at(i);
            let name = self.timings[i].name.clone();
            r.push((name, stats));
            i = i + 1;
        }
        assert(self.timings().subrange(0, i as int) =~= self.timings());
        r
    }

    /// Generate a performance report.
    pub fn generate_report(&self) -> (r: PerformanceReport)
        requires
            self.wf(),
            counts_usable(self.timings()),
        ensures
            stats_listed(r.timings@, self.timings()),
            named_view(r.counters@) == self.counters(),
            r.peak_memory_bytes == self.memory_peak(),
            r.current_memory_bytes == self.memory_current(),
    {
        let timings = self.all_timing_stats();
        let mut counters: Vec<(String, u64)> = Vec::new();
        let mut i: usize = 0;
        while i < self.counters.len()
            invariant
                i <= self.counters@.len(),
                counters@.len() == i,
                forall|j: int|
                    0 <= j < i ==> #[trigger] counters@[j].0@ == self.counters@[j].0@
                        && counters@[j].1 == self.counters@[j].1,
            decreases self.counters@.len() - i,
        {
            let name = self.counters[i].0.clone();
            counters.push((name, self.counters[i].1));
            i = i + 1;
        }
        assert(named_view(counters@) =~= named_view(self.counters@));
        PerformanceReport {
            timings,
            counters,
            peak_memory_bytes: self.memory.peak_usage,
            current_memory_bytes: self.memory.current_usage,
            timestamp: instant_now(),
        }
    }

    /// Reset all metrics: timings, counters, open spans, memory readings and
    /// the current and peak memory figures.
    pub fn reset(&mut self)
        requires
            old(self).wf(),
        ensures
            final(self).wf(),
            final(self).timings() == Seq::<(Seq<char>, Seq<u128>)>::empty(),
            final(self).counters() == Seq::<(Seq<char>, u64)>::empty(),
            final(self).spans() == Seq::<(Seq<char>, Instant)>::empty(),
            final(self).readings() == Seq::<(usize, Option<Seq<char>>)>::empty(),
            final(self).memory_current() == 0,
            final(self).memory_peak() == 0,
    {
        self.timings.clear();
        self.memory.samples.clear();
        self.memory.current_usage = 0;
        self.memory.peak_usage = 0;
        self.counters.clear();
        self.active_spans.clear();
        assert(self.timings() =~= Seq::<(Seq<char>, Seq<u128>)>::empty());
        assert(self.counters() =~= Seq::<(Seq<char>, u64)>::empty());
        assert(self.spans() =~= Seq::<(Seq<char>, Instant)>::empty());
        assert(self.readings() =~= Seq::<(usize, Option<Seq<char>>)>::empty());
    }

    /// The position of the open span named `name`.
    fn find_span(&self, name: &String) -> (r: Option<usize>)
        requires
            self.wf(),
        ensures
            match r {
                Some(i) => i < self.active_spans@.len() && self.active_spans@[i as int].0@
                    == name@ && key_pos(self.spans(), name@) == i,
                None => !has_key(self.spans(), name@),
            },
    {
        let mut i: usize = 0;
        while i < self.active_spans.len()
            invariant
                self.wf(),
                i <= self.active_spans@.len(),
                forall|j: int| 0 <= j < i ==> self.active_spans@[j].0@ != name@,
            decreases self.active_spans@.len() - i,
        {
            if self.active_spans[i].0 == *name {
                proof {
                    assert(self.spans()[i as int].0 == name@);
                    lemma_key_pos(self.spans(), i as int);
                }
                return Some(i);
            }
            i = i + 1;
        }
        proof {
            if has_key(self.spans(), name@) {
                let k = key_pos(self.spans(), name@);
                assert(self.active_spans@[k].0@ == name@);
            }
        }
        None
    }

    /// Start timing an operation: it is recorded as an open span, replacing
    /// an open span of the same name.
    pub fn start_timing(&mut self, operation: &str) -> (guard: TimingGuard)
        requires
            old(self).wf(),
        ensures
            final(self).wf(),
            guard.operation() == operation@,
            final(self).spans() == put(old(self).spans(), operation@, guard.started()),
            final(self).timings() == old(self).timings(),
            final(self).counters() == old(self).counters(),
            final(self).readings() == old(self).readings(),
            final(self).memory_current() == old(self).memory_current(),
            final(self).memory_peak() == old(self).memory_peak(),
    {
        let start = instant_now();
        let key = operation.to_owned();
        let ghost old_spans = self.active_spans@;
        proof {
            lemma_put(self.spans(), operation@, start);
        }
        match self.find_span(&key) {
            Some(i) => {
                proof {
                    lemma_key_pos(self.spans(), i as int);
                }
                self.active_spans.set(i, (key, start));
            },
            None => {
                self.active_spans.push((key, start));
            },
        }
        proof {
            assert(self.spans() =~= put(named_view(old_spans), operation@, start));
        }
        TimingGuard { operation: operation.to_owned(), start }
    }

    /// End timing for an operation: its open span is closed and the elapsed
    /// time, as the clock tells it, is recorded, unless the operation's total
    /// would then exceed what a `Duration` can hold (never for an operation
    /// with no samples yet).
    pub fn end_timing(&mut self, guard: TimingGuard)
        requires
            old(self).wf(),
        ensures
            final(self).wf(),
            final(self).spans() == drop_key(old(self).spans(), guard.operation()),
            exists|n: nat| #[trigger] sampled(*old(self), *final(self), guard.operation(), n),
            final(self).counters() == old(self).counters(),
            final(self).readings() == old(self).readings(),
            final(self).memory_current() == old(self).memory_current(),
            final(self).memory_peak() == old(self).memory_peak(),
    {
        let duration = instant_elapsed(&guard.start);
        let ghost old_spans = self.active_spans@;
        proof {
            lemma_drop_key(self.spans(), guard.operation@);
        }
        match self.find_span(&guard.operation) {
            Some(i) => {
                proof {
                    lemma_key_pos(self.spans(), i as int);
                }
                self.active_spans.remove(i);
                proof {
                    assert(self.spans() =~= drop_key(named_view(old_spans), guard.operation@));
                }
            },
            None => {},
        }
        let ghost mid = *self;
        assert(mid.timings() == old(self).timings());
        let recorded = self.try_record_timing(guard.operation.as_str(), duration);
        assert(sampled(*old(self), *self, guard.operation(), duration_nanos(duration)));
    }

    /// Create a scoped timer for `operation`.
    pub fn scoped_timer(&self, operation: &str) -> (r: ScopedTimer)
        ensures
            r.operation() == operation@,
    {
        ScopedTimer::new(operation)
    }

    /// Record the time elapsed on a scoped timer, as the clock tells it,
    /// unless the operation's total would then exceed what a `Duration` can
    /// hold; tells whether it was recorded.
    pub fn end_scoped(&mut self, timer: ScopedTimer) -> (recorded: bool)
        requires
            old(self).wf(),
        ensures
            final(self).wf(),
            exists|n: nat|
                {
                    &&& #[trigger] within_total(old(self).total_of(timer.operation()), n, recorded)
                    &&& recorded ==> final(self).timings() == put(
                        old(self).timings(),
                        timer.operation(),
                        old(self).samples_or_empty(timer.operation()).push(n as u128),
                    )
                },
            !recorded ==> final(self).timings() == old(self).timings(),
            final(self).counters() == old(self).counters(),
            final(self).spans() == old(self).spans(),
            final(self).readings() == old(self).readings(),
            final(self).memory_current() == old(self).memory_current(),
            final(self).memory_peak() == old(self).memory_peak(),
    {
        let duration = timer.elapsed();
        let recorded = self.try_record_timing(timer.operation.as_str(), duration);
        assert(within_total(old(self).total_of(timer.operation()), duration_nanos(duration), recorded));
        recorded
    }
}

impl Default for PerformanceMonitor {
    fn default() -> (r: Self)
        ensures
            r.wf(),
            r.timings() == Seq::<(Seq<char>, Seq<u128>)>::empty(),
            r.counters() == Seq::<(Seq<char>, u64)>::empty(),
            r.spans() == Seq::<(Seq<char>, Instant)>::empty(),
            r.readings() == Seq::<(usize, Option<Seq<char>>)>::empty(),
            r.memory_current() == 0,
            r.memory_peak() == 0,
    {
        Self::new()
    }
}

// ----------------------------------------------------------------------------
// Memory profiler
// ----------------------------------------------------------------------------

/// A memory snapshot.
pub struct MemorySnapshot {
    pub label: String,
    pub usage_bytes: usize,
    pub delta_bytes: isize,
    pub timestamp: Instant,
}

impl MemorySnapshot {
    /// A copy of this snapshot.
    pub fn duplicate(&self) -> (r: Self)
        ensures
            r.label@ == self.label@,
            r.usage_bytes == self.usage_bytes,
            r.delta_bytes == self.delta_bytes,
            r.timestamp == self.timestamp,
    {
        MemorySnapshot {
            label: self.label.clone(),
            usage_bytes: self.usage_bytes,
            delta_bytes: self.delta_bytes,
            timestamp: self.timestamp,
        }
    }
}

/// Potential memory leak detection.
pub struct PotentialLeak {
    pub description: String,
    pub growth_bytes: usize,
    pub start_snapshot: Option<MemorySnapshot>,
    pub end_snapshot: Option<MemorySnapshot>,
}

/// Memory profiler for detecting leaks.
pub struct MemoryProfiler {
    baseline: usize,
    snapshots: Vec<MemorySnapshot>,
}

/// The number of steps from one snapshot to the next, among the first `k`
/// steps, where usage grew.
pub open spec fn growth_steps(u: Seq<int>, k: int) -> nat
    decreases k,
{
    if k <= 0 {
        0
    } else if u[k] > u[k - 1] {
        growth_steps(u, k - 1) + 1
    } else {
        growth_steps(u, k - 1)
    }
}

/// The bytes gained over the first `k` steps where usage grew.
pub open spec fn growth_bytes(u: Seq<int>, k: int) -> int
    decreases k,
{
    if k <= 0 {
        0
    } else if u[k] > u[k - 1] {
        growth_bytes(u, k - 1) + (u[k] - u[k - 1])
    } else {
        growth_bytes(u, k - 1)
    }
}

/// Usage grew at every step, over at least three snapshots, by more than
/// `threshold` bytes in all.
pub open spec fn continuous_growth(u: Seq<int>, threshold: int) -> bool {
    &&& u.len() >= 3
    &&& growth_steps(u, u.len() - 1) >= u.len() - 1
    &&& growth_bytes(u, u.len() - 1) > threshold
}

/// The usage of each snapshot.
pub open spec fn usages(s: Seq<MemorySnapshot>) -> Seq<int> {
    s.map_values(|m: MemorySnapshot| m.usage_bytes as int)
}

/// The leaks reported for `snapshots` at `threshold` bytes: one for
/// continuous growth, spanning the first and last snapshot, or none.
pub open spec fn leaks_reported(
    r: Seq<PotentialLeak>,
    snapshots: Seq<MemorySnapshot>,
    threshold: int,
) -> bool {
    if continuous_growth(usages(snapshots), threshold) {
        &&& r.len() == 1
        &&& r[0].description@ == "Continuous memory growth detected"@
        &&& r[0].growth_bytes == growth_bytes(usages(snapshots), snapshots.len() - 1)
        &&& r[0].start_snapshot is Some
        &&& r[0].start_snapshot.unwrap().usage_bytes == snapshots[0].usage_bytes
        &&& r[0].start_snapshot.unwrap().label@ == snapshots[0].label@
        &&& r[0].end_snapshot is Some
        &&& r[0].end_snapshot.unwrap().usage_bytes == snapshots.last().usage_bytes
        &&& r[0].end_snapshot.unwrap().label@ == snapshots.last().label@
    } else {
        r.len() == 0
    }
}

proof fn lemma_no_growth(u: Seq<int>, k: int)
    requires
        0 <= k < u.len(),
        forall|i: int| 0 <= i < u.len() ==> #[trigger] u[i] == 0,
    ensures
        growth_bytes(u, k) == 0,
        growth_steps(u, k) == 0,
    decreases k,
{
    if k > 0 {
        lemma_no_growth(u, k - 1);
    }
}

impl MemoryProfiler {
    /// The snapshots taken so far.
    pub closed spec fn snapshots(&self) -> Seq<MemorySnapshot> {
        self.snapshots@
    }

    /// The usage that deltas are measured from.
    pub closed spec fn baseline(&self) -> nat {
        self.baseline as nat
    }

    /// The usage figures come from `current_memory_usage`, which reads no
    /// platform figure and reports zero.
    pub closed spec fn wf(&self) -> bool {
        &&& self.baseline == 0
        &&& forall|i: int|
            0 <= i < self.snapshots@.len() ==> (#[trigger] self.snapshots@[i]).usage_bytes == 0
    }

    /// Create a new memory profiler.
    pub fn new() -> (r: Self)
        ensures
            r.wf(),
            r.snapshots() == Seq::<MemorySnapshot>::empty(),
            r.baseline() == 0,
    {
        MemoryProfiler { baseline: Self::current_memory_usage(), snapshots: Vec::new() }
    }

    /// Current memory usage; no platform figure is read, so it is zero.
    fn current_memory_usage() -> (r: usize)
        ensures
            r == 0,
    {
        0
    }

    /// Take a memory snapshot: its usage, and the difference from the
    /// baseline, are kept with the label; the snapshot kept is the one
    /// returned, field by field.
    pub fn snapshot(&mut self, label: &str) -> (r: MemorySnapshot)
        requires
            old(self).wf(),
        ensures
            final(self).wf(),
            r.label@ == label@,
            r.usage_bytes == 0,
            r.delta_bytes == r.usage_bytes - old(self).baseline(),
            final(self).snapshots().len() == old(self).snapshots().len() + 1,
            final(self).snapshots().drop_last() == old(self).snapshots(),
            final(self).snapshots().last().label@ == label@,
            final(self).snapshots().last().usage_bytes == r.usage_bytes,
            final(self).snapshots().last().delta_bytes == r.delta_bytes,
            final(self).snapshots().last().timestamp == r.timestamp,
            final(self).baseline() == old(self).baseline(),
    {
        let current = Self::current_memory_usage();
        let delta: isize = (current as isize) - (self.baseline as isize);
        let snapshot = MemorySnapshot {
            label: label.to_owned(),
            usage_bytes: current,
            delta_bytes: delta,
            timestamp: instant_now(),
        };
        self.snapshots.push(snapshot.duplicate());
        assert(self.snapshots@.drop_last() =~= old(self).snapshots@);
        snapshot
    }

    /// Reset baseline to current memory usage.
    pub fn reset_baseline(&mut self)
        requires
            old(self).wf(),
        ensures
            final(self).wf(),
            final(self).baseline() == 0,
            final(self).snapshots() == old(self).snapshots(),
    {
        self.baseline = Self::current_memory_usage();
    }

    /// Check for potential memory leaks: usage that grew at every step
    /// between at least three snapshots, by more than `threshold_bytes` in
    /// all.
    pub fn check_for_leaks(&self, threshold_bytes: usize) -> (r: Vec<PotentialLeak>)
        requires
            self.wf(),
        ensures
            leaks_reported(r@, self.snapshots(), threshold_bytes as int),
    {
        let mut leaks: Vec<PotentialLeak> = Vec::new();
        let n = self.snapshots.len();
        let ghost u = usages(self.snapshots@);
        proof {
            assert forall|i: int| 0 <= i < u.len() implies #[trigger] u[i] == 0 by {
                assert(self.snapshots@[i].usage_bytes == 0);
            }
            assert forall|i: int| 0 <= i < u.len() implies 0 <= #[trigger] u[i]
                < 18446744073709551616 by {}
        }
        if n >= 3 {
            let mut growing_count: usize = 0;
            let mut total_growth: u128 = 0;
            let mut i: usize = 1;
            while i < n
                invariant
                    3 <= n == self.snapshots@.len(),
                    u == usages(self.snapshots@),
                    forall|j: int| 0 <= j < u.len() ==> #[trigger] u[j] == 0,
                    1 <= i <= n,
                    growing_count == growth_steps(u, i - 1),
                    total_growth == growth_bytes(u, i - 1),
                decreases n - i,
            {
                proof {
                    lemma_no_growth(u, i as int);
                }
                let after = self.snapshots[i].usage_bytes;
                let before = self.snapshots[i - 1].usage_bytes;
                if after > before {
                    growing_count = growing_count + 1;
                    total_growth = total_growth + ((after - before) as u128);
                }
                i = i + 1;
            }
            proof {
                lemma_no_growth(u, n - 1);
            }
            if growing_count >= n - 1 && total_growth > threshold_bytes as u128 {
                let first = self.snapshots[0].duplicate();
                let last = self.snapshots[n - 1].duplicate();
                leaks.push(PotentialLeak {
                    description: String::from_str("Continuous memory growth detected"),
                    growth_bytes: total_growth as usize,
                    start_snapshot: Some(first),
                    end_snapshot: Some(last),
                });
            }
        }
        leaks
    }
}

/// No snapshot ever shows growth, since usage is always reported as zero;
/// so no leak is ever reported.
pub proof fn lemma_profiler_reports_no_leak(p: &MemoryProfiler, threshold: int)
    requires
        p.wf(),
        threshold >= 0,
    ensures
        !continuous_growth(usages(p.snapshots()), threshold),
{
    let u = usages(p.snapshots());
    if u.len() >= 3 {
        assert forall|i: int| 0 <= i < u.len() implies #[trigger] u[i] == 0 by {
            assert(p.snapshots()[i].usage_bytes == 0);
        }
        lemma_no_growth(u, u.len() - 1);
    }
}

} // verus!
