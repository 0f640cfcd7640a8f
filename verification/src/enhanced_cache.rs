//! The combined cache: the template cache, the build cache and a
//! performance monitor that counts and times what they do.

use vstd::prelude::*;
use std::time::Duration;

use crate::build_cache::{
    build_key, rebuild_decision, with_build, BuildCache, BuildStatistics, RebuildDecision, RebuildSet,
    direct_ids, dependent_ids, without_ids,
};
use crate::clock::{instant_elapsed, instant_now};
use crate::keyed::{drop_key, has_key, lemma_drop_key, lemma_put, put, unique_keys, value_of};
use crate::performance_monitor::{within_total, 
    counts_usable, duration_limit, duration_nanos, named_view, stats_listed, PerformanceMonitor,
    PerformanceReport, TimingStats,
};
use crate::protocol::{blake3_hex_digest, TemplateId, TemplateUpdate, UpdateModel};
use crate::template_cache::{insert_report, CacheStats, TemplateCache};
use crate::text::texts;

verus! {

/// Result of a cache operation
pub struct CacheResult {
    pub version: u64,
    pub content_changed: bool,
    pub cache_hit: bool,
    pub dependencies_invalidated: usize,
}

/// Result of template invalidation
pub struct InvalidationResult {
    pub templates_removed: usize,
    pub dependents_removed: usize,
    pub duration: Duration,
}

/// Result of cache warming
pub struct WarmingResult {
    pub loaded: usize,
    pub failed: usize,
    pub total_size_bytes: usize,
    pub duration: Duration,
}

/// Summary of cache optimization
pub struct OptimizationSummary {
    pub templates_removed: usize,
    pub space_freed_bytes: usize,
    pub total_duration: Duration,
}

impl CacheResult {
    /// The result of storing a template: the template cache's version and
    /// change report; a store is a hit when the content did not change.
    pub fn of_store(version: u64, content_changed: bool, dependencies_invalidated: usize) -> (r: Self)
        ensures
            r.version == version,
            r.content_changed == content_changed,
            r.cache_hit == !content_changed,
            r.dependencies_invalidated == dependencies_invalidated,
    {
        CacheResult { version, content_changed, cache_hit: !content_changed, dependencies_invalidated }
    }
}

/// Comprehensive statistics from all cache components
pub struct ComprehensiveStats {
    pub template_cache: CacheStats,
    pub build_cache: BuildStatistics,
    pub performance: PerformanceReport,
}

/// Detailed metrics for debugging and optimization
pub struct DetailedMetrics {
    pub timing_breakdown: Vec<(String, TimingStats)>,
    pub current_memory_mb: usize,
    pub peak_memory_mb: usize,
}

/// The cache entries and the number of templates removed after
/// invalidating each of `ids` in turn.
pub open spec fn invalidated(
    s: Seq<(Seq<char>, (UpdateModel, u64))>,
    ids: Seq<TemplateId>,
) -> (Seq<(Seq<char>, (UpdateModel, u64))>, nat)
    decreases ids.len(),
{
    if ids.len() == 0 {
        (s, 0)
    } else {
        let (t, n) = invalidated(s, ids.drop_last());
        let k = blake3_hex_digest(ids.last().id_bytes());
        if has_key(t, k) {
            (drop_key(t, k), n + 1)
        } else {
            (t, n)
        }
    }
}

/// Enhanced caching system that coordinates template cache, build cache,
/// and performance monitoring
pub struct EnhancedCache {
    template_cache: TemplateCache,
    build_cache: BuildCache,
    performance_monitor: PerformanceMonitor,
}

/// `after` is `before` with `update` stored, as `store_template` does: the
/// report `r` on it, its build of `id` (from a source hashing to
/// `source_hash`, depending on `deps`, compiled in `nanos` nanoseconds), its
/// counts and its compile time.
pub open spec fn template_stored(
    before: EnhancedCache,
    after: EnhancedCache,
    update: UpdateModel,
    id: TemplateId,
    source_hash: Seq<char>,
    deps: Seq<Seq<char>>,
    nanos: nat,
    r: CacheResult,
) -> bool {
    &&& (r.version, r.content_changed) == insert_report(before.templates(), update)
    &&& !r.cache_hit
    &&& r.dependencies_invalidated == 0
    &&& after.templates() == put(before.templates(), update.hash@, (update, r.version))
    &&& with_build(
        before.builds(),
        after.builds(),
        id,
        source_hash,
        deps,
        nanos,
        )
    &&& after.monitor().counter_value("templates_stored"@) == before.monitor().counter_value("templates_stored"@) + 1
    &&& after.monitor().counter_value("content_changes"@) == before.monitor().counter_value("content_changes"@)
        + if r.content_changed { 1int } else { 0int }
    &&& after.monitor().counter_value("no_change_updates"@) == before.monitor().counter_value(
        "no_change_updates"@,
        ) + if r.content_changed { 0int } else { 1int }
    &&& after.monitor().samples_of("template_compilation"@) == Some(
        before.monitor().samples_or_empty("template_compilation"@).push(nanos as u128),
        )
}

impl EnhancedCache {
    /// The template cache's entries.
    pub closed spec fn templates(&self) -> Seq<(Seq<char>, (UpdateModel, u64))> {
        self.template_cache.entries()
    }

    /// The build cache.
    pub closed spec fn builds(&self) -> BuildCache {
        self.build_cache
    }

    /// The performance monitor.
    pub closed spec fn monitor(&self) -> PerformanceMonitor {
        self.performance_monitor
    }

    /// The three parts are well formed.
    pub closed spec fn wf(&self) -> bool {
        &&& self.template_cache.wf()
        &&& self.build_cache.wf()
        &&& self.performance_monitor.wf()
    }

    /// Create a new enhanced cache system
    pub fn new() -> (r: Self)
        ensures
            r.wf(),
            r.templates().len() == 0,
            r.builds().entries().len() == 0,
            r.builds().dependents().len() == 0,
            r.builds().total_builds() == 0,
            r.builds().cache_hits() == 0,
            r.builds().incremental_rebuilds() == 0,
            r.builds().full_rebuilds() == 0,
            r.builds().total_build_nanos() == 0,
            r.monitor().timings().len() == 0,
            r.monitor().counters().len() == 0,
            r.monitor().spans().len() == 0,
            r.monitor().readings().len() == 0,
            r.monitor().memory_current() == 0,
            r.monitor().memory_peak() == 0,
    {
        EnhancedCache {
            template_cache: TemplateCache::new(),
            build_cache: BuildCache::new(),
            performance_monitor: PerformanceMonitor::new(),
        }
    }

    /// Store a template with full tracking: the update goes into the
    /// template cache, its build into the build cache; the store is counted,
    /// as a content change or not, and the compile time is recorded.
    pub fn store_template(
        &mut self,
        update: TemplateUpdate,
        compile_time: Duration,
        source_hash: String,
        dependencies: Vec<String>,
    ) -> (r: CacheResult)
        requires
            old(self).wf(),
            match value_of(old(self).templates(), update.hash@) {
                Some(e) => e.1 < u64::MAX,
                None => true,
            },
            old(self).builds().total_builds() < u64::MAX,
            old(self).builds().total_build_nanos() + duration_nanos(compile_time) < duration_limit(),
            old(self).monitor().counter_value("templates_stored"@) < u64::MAX,
            old(self).monitor().counter_value("content_changes"@) < u64::MAX,
            old(self).monitor().counter_value("no_change_updates"@) < u64::MAX,
            old(self).monitor().total_of("template_compilation"@) + duration_nanos(compile_time) < duration_limit(),
        ensures
            final(self).wf(),
            template_stored(
                *old(self),
                *final(self),
                update@,
                update.id,
                source_hash@,
                texts(dependencies@),
                duration_nanos(compile_time),
                r,
            ),
    {
        proof {
            reveal_strlit("templates_stored");
            assert("templates_stored"@.len() == 16);
            reveal_strlit("content_changes");
            assert("content_changes"@.len() == 15);
            reveal_strlit("no_change_updates");
            assert("no_change_updates"@.len() == 17);
            reveal_strlit("template_compilation");
            assert("template_compilation"@.len() == 20);
            reveal_strlit("store_template");
            assert("store_template"@.len() == 14);
        }
        let timer = self.performance_monitor.scoped_timer("store_template");
        let id = update.id.duplicate();
        let (version, content_changed) = self.template_cache.insert(update);
        self.build_cache.record_build(id, source_hash, dependencies, compile_time);
        let ghost m0 = self.performance_monitor;
        self.performance_monitor.increment_counter("templates_stored");
        let ghost m1 = self.performance_monitor;
        proof {
            m0.lemma_names_unique();
            lemma_put(m0.counters(), "templates_stored"@, (m0.counter_value("templates_stored"@) + 1) as u64);
        }
        self.performance_monitor.record_timing("template_compilation", compile_time);
        let ghost m2 = self.performance_monitor;
        proof {
            m1.lemma_names_unique();
            lemma_put(m1.timings(), "template_compilation"@, m1.samples_or_empty("template_compilation"@).push(duration_nanos(compile_time) as u128));
        }
        if content_changed {
            self.performance_monitor.increment_counter("content_changes");
            proof {
                m2.lemma_names_unique();
                lemma_put(m2.counters(), "content_changes"@, (m2.counter_value("content_changes"@) + 1) as u64);
            }
        } else {
            self.performance_monitor.increment_counter("no_change_updates");
            proof {
                m2.lemma_names_unique();
                lemma_put(m2.counters(), "no_change_updates"@, (m2.counter_value("no_change_updates"@) + 1) as u64);
            }
        }
        let ghost m3 = self.performance_monitor;
        let recorded = self.performance_monitor.end_scoped(timer);
        proof {
            if recorded {
                let n = choose|n: nat|
                    {
                        &&& #[trigger] within_total(m3.total_of("store_template"@), n, recorded)
                        &&& recorded ==> self.performance_monitor.timings() == put(
                            m3.timings(),
                            "store_template"@,
                            m3.samples_or_empty("store_template"@).push(n as u128),
                        )
                    };
                m3.lemma_names_unique();
                lemma_put(m3.timings(), "store_template"@, m3.samples_or_empty("store_template"@).push(n as u128));
            }
        }
        CacheResult { version, content_changed, cache_hit: false, dependencies_invalidated: 0 }
    }

    /// Store a template as `store_template` does, where the compile time
    /// keeps the build cache's total build time and the total compile time
    /// within what a `Duration` can hold; otherwise leave the cache as it
    /// is and give `None`.
    pub fn try_store_template(
        &mut self,
        update: TemplateUpdate,
        compile_time: Duration,
        source_hash: String,
        dependencies: Vec<String>,
    ) -> (r: Option<CacheResult>)
        requires
            old(self).wf(),
            match value_of(old(self).templates(), update.hash@) {
                Some(e) => e.1 < u64::MAX,
                None => true,
            },
            old(self).builds().total_builds() < u64::MAX,
            old(self).monitor().counter_value("templates_stored"@) < u64::MAX,
            old(self).monitor().counter_value("content_changes"@) < u64::MAX,
            old(self).monitor().counter_value("no_change_updates"@) < u64::MAX,
        ensures
            final(self).wf(),
            r is Some == (old(self).builds().total_build_nanos() + duration_nanos(compile_time) < duration_limit()
                && old(self).monitor().total_of("template_compilation"@) + duration_nanos(compile_time)
                < duration_limit()),
            r matches Some(c) ==> template_stored(
                *old(self),
                *final(self),
                update@,
                update.id,
                source_hash@,
                texts(dependencies@),
                duration_nanos(compile_time),
                c,
            ),
            r is None ==> *final(self) == *old(self),
    {
        if self.build_cache.fits_build_time(&compile_time) && self.performance_monitor.fits_timing(
            "template_compilation",
            &compile_time,
        ) {
            Some(self.store_template(update, compile_time, source_hash, dependencies))
        } else {
            None
        }
    }

    /// Get a template, counting a hit or a miss.
    pub fn get_template(&mut self, id: &TemplateId) -> (r: Option<TemplateUpdate>)
        requires
            old(self).wf(),
            old(self).monitor().counter_value("template_cache_hits"@) < u64::MAX,
            old(self).monitor().counter_value("template_cache_misses"@) < u64::MAX,
        ensures
            final(self).wf(),
            final(self).templates() == old(self).templates(),
            final(self).builds() == old(self).builds(),
            match value_of(old(self).templates(), blake3_hex_digest(id.id_bytes())) {
                Some(e) => r matches Some(x) && x@ == e.0,
                None => r is None,
            },
            final(self).monitor().counter_value("template_cache_hits"@) == old(self).monitor().counter_value(
                "template_cache_hits"@,
            ) + if r is Some { 1int } else { 0int },
            final(self).monitor().counter_value("template_cache_misses"@) == old(self).monitor().counter_value(
                "template_cache_misses"@,
            ) + if r is Some { 0int } else { 1int },
    {
        proof {
            reveal_strlit("template_cache_hits");
            assert("template_cache_hits"@.len() == 19);
            reveal_strlit("template_cache_misses");
            assert("template_cache_misses"@.len() == 21);
        }
        let timer = self.performance_monitor.scoped_timer("get_template");
        let result = self.template_cache.get(id);
        let ghost m0 = self.performance_monitor;
        if result.is_some() {
            self.performance_monitor.increment_counter("template_cache_hits");
            proof {
                m0.lemma_names_unique();
                lemma_put(m0.counters(), "template_cache_hits"@, (m0.counter_value("template_cache_hits"@) + 1) as u64);
            }
        } else {
            self.performance_monitor.increment_counter("template_cache_misses");
            proof {
                m0.lemma_names_unique();
                lemma_put(m0.counters(), "template_cache_misses"@, (m0.counter_value("template_cache_misses"@) + 1) as u64);
            }
        }
        self.performance_monitor.end_scoped(timer);
        result
    }

    /// Check if rebuild is needed using the build cache, counting the
    /// decision.
    pub fn needs_rebuild(&mut self, template_id: &TemplateId, current_hash: &str) -> (r: RebuildDecision)
        requires
            old(self).wf(),
            old(self).builds().cache_hits() < u64::MAX,
            old(self).monitor().counter_value("rebuild_required"@) < u64::MAX,
            old(self).monitor().counter_value("rebuild_avoided"@) < u64::MAX,
        ensures
            final(self).wf(),
            r == rebuild_decision(old(self).builds().built(*template_id), current_hash@),
            final(self).templates() == old(self).templates(),
            final(self).builds().entries() == old(self).builds().entries(),
            final(self).builds().cache_hits() == old(self).builds().cache_hits() + if r is NotRequired {
                1int
            } else {
                0int
            },
            final(self).monitor().counter_value("rebuild_required"@) == old(self).monitor().counter_value(
                "rebuild_required"@,
            ) + if r is Required { 1int } else { 0int },
            final(self).monitor().counter_value("rebuild_avoided"@) == old(self).monitor().counter_value(
                "rebuild_avoided"@,
            ) + if r is NotRequired { 1int } else { 0int },
    {
        proof {
            reveal_strlit("rebuild_required");
            assert("rebuild_required"@.len() == 16);
            reveal_strlit("rebuild_avoided");
            assert("rebuild_avoided"@.len() == 15);
        }
        let timer = self.performance_monitor.scoped_timer("needs_rebuild_check");
        let decision = self.build_cache.needs_rebuild(template_id, current_hash);
        let ghost m0 = self.performance_monitor;
        match &decision {
            RebuildDecision::Required(_) => {
                self.performance_monitor.increment_counter("rebuild_required");
                proof {
                    m0.lemma_names_unique();
                    lemma_put(m0.counters(), "rebuild_required"@, (m0.counter_value("rebuild_required"@) + 1) as u64);
                }
            },
            RebuildDecision::NotRequired => {
                self.performance_monitor.increment_counter("rebuild_avoided");
                proof {
                    m0.lemma_names_unique();
                    lemma_put(m0.counters(), "rebuild_avoided"@, (m0.counter_value("rebuild_avoided"@) + 1) as u64);
                }
            },
        }
        self.performance_monitor.end_scoped(timer);
        decision
    }

    /// Get all templates affected by file changes, adding their number to
    /// a counter.
    pub fn get_affected_templates(&mut self, changed_files: &[String]) -> (r: RebuildSet)
        requires
            old(self).wf(),
            old(self).builds().incremental_rebuilds() < u64::MAX,
            old(self).monitor().counter_value("affected_templates"@) + old(self).builds().entries().len()
                <= u64::MAX,
        ensures
            final(self).wf(),
            r.direct_changes@ == direct_ids(old(self).builds().entries(), texts(changed_files@)),
            r.dependency_changes@ == without_ids(
                dependent_ids(old(self).builds().entries(), old(self).builds().dependents(), texts(changed_files@)),
                r.direct_changes@,
            ),
            r.total_affected == r.direct_changes@.len() + r.dependency_changes@.len(),
            final(self).templates() == old(self).templates(),
            final(self).builds().entries() == old(self).builds().entries(),
            final(self).monitor().counter_value("affected_templates"@) == old(self).monitor().counter_value(
                "affected_templates"@,
            ) + r.total_affected,
    {
        let timer = self.performance_monitor.scoped_timer("get_affected_templates");
        let rebuild_set = self.build_cache.get_rebuild_set(changed_files);
        let ghost m0 = self.performance_monitor;
        self.performance_monitor.add_to_counter("affected_templates", rebuild_set.total_affected as u64);
        proof {
            m0.lemma_names_unique();
            lemma_put(
                m0.counters(),
                "affected_templates"@,
                (m0.counter_value("affected_templates"@) + rebuild_set.total_affected) as u64,
            );
        }
        self.performance_monitor.end_scoped(timer);
        rebuild_set
    }

    /// Invalidate templates: each of `template_ids` is removed from the
    /// template cache, counting those that were there. The template cache
    /// keeps no dependencies between templates, so no dependents go with
    /// them.
    pub fn invalidate_templates(&mut self, template_ids: &[TemplateId]) -> (r: InvalidationResult)
        requires
            old(self).wf(),
            old(self).monitor().counter_value("templates_invalidated"@) + template_ids@.len() <= u64::MAX,
        ensures
            final(self).wf(),
            final(self).templates() == invalidated(old(self).templates(), template_ids@).0,
            r.templates_removed == invalidated(old(self).templates(), template_ids@).1,
            r.dependents_removed == 0,
            final(self).builds() == old(self).builds(),
            final(self).monitor().counter_value("templates_invalidated"@) == old(self).monitor().counter_value(
                "templates_invalidated"@,
            ) + r.templates_removed,
    {
        let timer = self.performance_monitor.scoped_timer("invalidate_templates");
        let start = instant_now();
        let ghost s0 = self.template_cache.entries();
        let mut removed_count: usize = 0;
        let mut i: usize = 0;
        while i < template_ids.len()
            invariant
                self.template_cache.wf(),
                i <= template_ids@.len(),
                removed_count <= i,
                self.performance_monitor == old(self).performance_monitor,
                self.build_cache == old(self).build_cache,
                (self.template_cache.entries(), removed_count as nat) == invalidated(s0, template_ids@.subrange(0, i as int)),
            decreases template_ids@.len() - i,
        {
            assert(template_ids@.subrange(0, i + 1).drop_last() =~= template_ids@.subrange(0, i as int));
            let ghost before = self.template_cache.entries();
            let ghost k = blake3_hex_digest(template_ids@[i as int].id_bytes());
            if self.template_cache.remove(&template_ids[i]).is_some() {
                removed_count = removed_count + 1;
            } else {
                assert(!has_key(before, k));
                assert(drop_key(before, k) == before);
            }
            i = i + 1;
        }
        assert(template_ids@.subrange(0, i as int) =~= template_ids@);
        let ghost m0 = self.performance_monitor;
        self.performance_monitor.add_to_counter("templates_invalidated", removed_count as u64);
        proof {
            m0.lemma_names_unique();
            lemma_put(
                m0.counters(),
                "templates_invalidated"@,
                (m0.counter_value("templates_invalidated"@) + removed_count) as u64,
            );
        }
        self.performance_monitor.end_scoped(timer);
        InvalidationResult { templates_removed: removed_count, dependents_removed: 0, duration: instant_elapsed(&start) }
    }

    /// Get comprehensive cache statistics
    pub fn get_statistics(&self) -> (r: ComprehensiveStats)
        requires
            self.wf(),
            self.builds().total_builds() == 0 || self.builds().total_builds() % 4294967296 != 0,
            counts_usable(self.monitor().timings()),
        ensures
            r.template_cache.total_entries == self.templates().len(),
            r.build_cache.total_builds == self.builds().total_builds(),
            r.build_cache.cache_hits == self.builds().cache_hits(),
            r.build_cache.total_entries == self.builds().entries().len(),
            stats_listed(r.performance.timings@, self.monitor().timings()),
            named_view(r.performance.counters@) == self.monitor().counters(),
            r.performance.peak_memory_bytes == self.monitor().memory_peak(),
            r.performance.current_memory_bytes == self.monitor().memory_current(),
    {
        ComprehensiveStats {
            template_cache: self.template_cache.stats(),
            build_cache: self.build_cache.stats(),
            performance: self.performance_monitor.generate_report(),
        }
    }

    /// Get detailed performance metrics: the timing statistics of each
    /// operation and the memory figures in whole mebibytes.
    pub fn get_detailed_stats(&self) -> (r: DetailedMetrics)
        requires
            self.wf(),
            counts_usable(self.monitor().timings()),
        ensures
            stats_listed(r.timing_breakdown@, self.monitor().timings()),
            r.current_memory_mb == self.monitor().memory_current() / 1_048_576,
            r.peak_memory_mb == self.monitor().memory_peak() / 1_048_576,
    {
        DetailedMetrics {
            timing_breakdown: self.performance_monitor.all_timing_stats(),
            current_memory_mb: self.performance_monitor.current_memory() / 1_048_576,
            peak_memory_mb: self.performance_monitor.peak_memory() / 1_048_576,
        }
    }

    /// Reset all caches and metrics, then count the reset.
    pub fn reset(&mut self)
        requires
            old(self).wf(),
        ensures
            final(self).wf(),
            final(self).templates().len() == 0,
            final(self).builds().entries().len() == 0,
            final(self).builds().dependents().len() == 0,
            final(self).builds().total_builds() == old(self).builds().total_builds(),
            final(self).monitor().timings().len() == 0,
            final(self).monitor().counters() == seq![("cache_resets"@, 1u64)],
    {
        self.template_cache.clear();
        self.build_cache.clear();
        self.performance_monitor.reset();
        self.performance_monitor.increment_counter("cache_resets");
    }

    /// Record memory usage
    pub fn record_memory_usage(&mut self, usage_bytes: usize, label: Option<String>)
        requires
            old(self).wf(),
        ensures
            final(self).wf(),
            final(self).templates() == old(self).templates(),
            final(self).builds() == old(self).builds(),
            final(self).monitor().memory_current() == usage_bytes,
            final(self).monitor().counters() == old(self).monitor().counters(),
    {
        self.performance_monitor.record_memory(usage_bytes, label);
    }

    /// The template cache.
    pub fn template_cache(&self) -> (r: &TemplateCache)
        ensures
            r.entries() == self.templates(),
    {
        &self.template_cache
    }

    /// The build cache.
    pub fn build_cache(&self) -> (r: &BuildCache)
        ensures
            *r == self.builds(),
    {
        &self.build_cache
    }

    /// The performance monitor.
    pub fn performance_monitor(&self) -> (r: &PerformanceMonitor)
        ensures
            *r == self.monitor(),
    {
        &self.performance_monitor
    }
}

impl Default for EnhancedCache {
    fn default() -> (r: Self)
        ensures
            r.wf(),
            r.templates().len() == 0,
            r.builds().entries().len() == 0,
    {
        Self::new()
    }
}

} // verus!
