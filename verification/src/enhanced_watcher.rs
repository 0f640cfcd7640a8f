//! The decisions of the enhanced file watcher: which changes are processed,
//! how often a file is processed, what a change does to the diff-aware
//! cache and the statistics, and which messages it sends; and the
//! conversion of enhanced messages to the standard protocol.

use vstd::prelude::*;
use std::time::{Duration, Instant};

use crate::clock::duration_since;
use crate::diff_integration::{
    analysis_to_messages, analyze_upto, messages_for, DiffAwareTemplateCache, EnhancedHotReloadMessage,
    EnhancedModel,
};
use crate::keyed::{lemma_key_pos, lemma_put, put, unique_keys, value_of, has_key, key_pos};
use crate::performance_monitor::{duration_from_nanos, duration_less, duration_nanos};
use crate::protocol::{HotReloadMessage, TemplateId, TemplateUpdate, UpdateModel};
use crate::template_cache::versions_below;
use crate::text::texts;
use crate::watcher::{should_process_path_lenient, watched_path_lenient, ChangeKind};

verus! {

/// Statistics for the enhanced watcher
pub struct WatcherStats {
    /// Total files processed
    pub files_processed: usize,
    /// Hot reloadable changes
    pub hot_reloadable_changes: usize,
    /// Changes requiring rebuild
    pub rebuild_required_changes: usize,
    /// Delta updates sent
    pub delta_updates_sent: usize,
}

impl Default for WatcherStats {
    fn default() -> (r: Self)
        ensures
            r.files_processed == 0,
            r.hot_reloadable_changes == 0,
            r.rebuild_required_changes == 0,
            r.delta_updates_sent == 0,
    {
        WatcherStats {
            files_processed: 0,
            hot_reloadable_changes: 0,
            rebuild_required_changes: 0,
            delta_updates_sent: 0,
        }
    }
}

impl WatcherStats {
    /// A copy of the statistics.
    pub fn duplicate(&self) -> (r: Self)
        ensures
            r == *self,
    {
        WatcherStats {
            files_processed: self.files_processed,
            hot_reloadable_changes: self.hot_reloadable_changes,
            rebuild_required_changes: self.rebuild_required_changes,
            delta_updates_sent: self.delta_updates_sent,
        }
    }
}

/// `r` is the standard message for the enhanced message `m`: a standard
/// message as it is, a delta update as a reload request for its template,
/// and a batch of delta updates as a batch of updates that carry only the
/// identifier and hash of each template.
pub open spec fn standard_for(r: HotReloadMessage, m: EnhancedModel) -> bool {
    match m {
        EnhancedModel::Standard(s) => r@ == s,
        EnhancedModel::DeltaUpdate { template_id, .. } => r == HotReloadMessage::ReloadRequest {
            template_id,
        },
        EnhancedModel::BatchDeltaUpdate { updates } => r matches HotReloadMessage::BatchUpdate {
            updates: us,
        } && us@.len() == updates.len() && forall|i: int|
            0 <= i < us@.len() ==> {
                &&& (#[trigger] us@[i]).id == updates[i].0
                &&& us@[i].hash@ == updates[i].1
                &&& us@[i].content_hash@.len() == 0
                &&& us@[i].html@.len() == 0
                &&& us@[i].dynamic_parts@.len() == 0
            },
    }
}

/// Convert enhanced messages to standard protocol messages
pub fn enhanced_to_standard_messages(messages: Vec<EnhancedHotReloadMessage>) -> (r: Vec<HotReloadMessage>)
    ensures
        r@.len() == messages@.len(),
        forall|i: int| 0 <= i < r@.len() ==> standard_for(#[trigger] r@[i], messages@[i]@),
{
    let ghost all = messages@;
    let total = messages.len();
    let mut out: Vec<HotReloadMessage> = Vec::new();
    let mut rest = messages;
    let mut i: usize = 0;
    while rest.len() > 0
        invariant
            all.len() == total,
            i + rest@.len() == all.len(),
            rest@ == all.subrange(i as int, all.len() as int),
            out@.len() == i,
            forall|j: int| 0 <= j < i ==> standard_for(#[trigger] out@[j], all[j]@),
        decreases rest@.len(),
    {
        let ghost rb = rest@;
        let msg = rest.remove(0);
        assert(rest@ =~= all.subrange(i + 1, all.len() as int)) by {
            assert forall|j: int| 0 <= j < rest@.len() implies rest@[j] == all.subrange(i + 1, all.len() as int)[j] by {
                assert(rest@[j] == rb[j + 1]);
            }
        }
        assert(msg == all[i as int]);
        let converted = match msg {
            EnhancedHotReloadMessage::Standard(standard) => standard,
            EnhancedHotReloadMessage::DeltaUpdate { template_id, .. } => HotReloadMessage::ReloadRequest {
                template_id,
            },
            EnhancedHotReloadMessage::BatchDeltaUpdate { updates } => {
                let ghost ups = updates@;
                let mut list: Vec<TemplateUpdate> = Vec::new();
                let mut k: usize = 0;
                while k < updates.len()
                    invariant
                        ups == updates@,
                        k <= ups.len(),
                        list@.len() == k,
                        forall|j: int|
                            0 <= j < k ==> {
                                &&& (#[trigger] list@[j]).id == ups[j].0
                                &&& list@[j].hash@ == ups[j].1@
                                &&& list@[j].content_hash@.len() == 0
                                &&& list@[j].html@.len() == 0
                                &&& list@[j].dynamic_parts@.len() == 0
                            },
                    decreases ups.len() - k,
                {
                    list.push(TemplateUpdate {
                        id: updates[k].0.duplicate(),
                        hash: updates[k].1.clone(),
                        content_hash: String::new(),
                        html: String::new(),
                        dynamic_parts: Vec::new(),
                    });
                    k = k + 1;
                }
                HotReloadMessage::BatchUpdate { updates: list }
            },
        };
        let ghost ob = out@;
        out.push(converted);
        proof {
            assert forall|j: int| 0 <= j < i + 1 implies standard_for(#[trigger] out@[j], all[j]@) by {
                if j < i {
                    assert(out@[j] == ob[j]);
                }
            }
        }
        i = i + 1;
    }
    out
}

// ----------------------------------------------------------------------------
// Handling file changes
// ----------------------------------------------------------------------------

/// The identifiers of the cached templates.
pub open spec fn cached_ids(s: Seq<(Seq<char>, (UpdateModel, u64))>) -> Seq<TemplateId> {
    s.map_values(|e: (Seq<char>, (UpdateModel, u64))| e.1.0.id)
}

/// The entries after each of `ids` that names the file `path` is removed
/// under the hash of its identifier, in turn.
pub open spec fn drop_templates_of(
    s: Seq<(Seq<char>, (UpdateModel, u64))>,
    ids: Seq<TemplateId>,
    path: Seq<char>,
) -> Seq<(Seq<char>, (UpdateModel, u64))>
    decreases ids.len(),
{
    if ids.len() == 0 {
        s
    } else {
        let prev = drop_templates_of(s, ids.drop_last(), path);
        if ids.last().file@ == path {
            crate::keyed::drop_key(prev, crate::protocol::blake3_hex_digest(ids.last().id_bytes()))
        } else {
            prev
        }
    }
}

/// The decisions of the enhanced watcher: its cache, its statistics, the
/// watched extensions and when each file was last processed.
pub struct WatcherCore {
    cache: DiffAwareTemplateCache,
    stats: WatcherStats,
    extensions: Vec<String>,
    last_processed: Vec<(String, Instant)>,
}

/// What a change to one file does.
pub enum ChangeOutcome {
    /// Changed templates, with the messages that announce them.
    Analyzed(Vec<EnhancedHotReloadMessage>),
    /// Templates of a removed file dropped from the cache.
    Removed(usize),
}

impl WatcherCore {
    /// The cache.
    pub closed spec fn cache(&self) -> DiffAwareTemplateCache {
        self.cache
    }

    /// The statistics.
    pub closed spec fn stats(&self) -> WatcherStats {
        self.stats
    }

    /// The watched extensions.
    pub closed spec fn extensions(&self) -> Seq<Seq<char>> {
        texts(self.extensions@)
    }

    /// When each file was last processed.
    pub closed spec fn last_processed(&self) -> Seq<(Seq<char>, Instant)> {
        self.last_processed@.map_values(|e: (String, Instant)| (e.0@, e.1))
    }

    /// The cache is well formed and no file is listed twice.
    pub closed spec fn wf(&self) -> bool {
        self.cache.wf() && unique_keys(self.last_processed())
    }

    /// A watcher for files with the given extensions.
    pub fn new(extensions: Vec<String>) -> (r: Self)
        ensures
            r.wf(),
            r.extensions() == texts(extensions@),
            r.stats() == (WatcherStats {
                files_processed: 0,
                hot_reloadable_changes: 0,
                rebuild_required_changes: 0,
                delta_updates_sent: 0,
            }),
            r.cache().entries().len() == 0,
            r.cache().states().len() == 0,
            r.last_processed().len() == 0,
    {
        let r = WatcherCore {
            cache: DiffAwareTemplateCache::new(0),
            stats: WatcherStats::default(),
            extensions,
            last_processed: Vec::new(),
        };
        assert(r.last_processed() =~= Seq::<(Seq<char>, Instant)>::empty());
        r
    }

    /// Whether a change at `path` is considered, by its name (whether it is
    /// a regular file is for the caller to ask the file system).
    pub fn should_process_file(&self, path: &str) -> (r: bool)
        ensures
            r == watched_path_lenient(path@, self.extensions()),
    {
        should_process_path_lenient(path, self.extensions.as_slice())
    }

    /// Whether to process a change of `path` seen at `now`: not if the file
    /// was processed less than a second before; otherwise `now` is noted as
    /// its last processing. How long ago that was depends on the clock.
    pub fn debounce(&mut self, path: &str, now: Instant) -> (r: bool)
        requires
            old(self).wf(),
        ensures
            final(self).wf(),
            final(self).cache() == old(self).cache(),
            final(self).stats() == old(self).stats(),
            final(self).extensions() == old(self).extensions(),
            r ==> final(self).last_processed() == put(old(self).last_processed(), path@, now),
            !r ==> final(self).last_processed() == old(self).last_processed() && has_key(
                old(self).last_processed(),
                path@,
            ),
            !has_key(old(self).last_processed(), path@) ==> r,
    {
        let key = path.to_owned();
        let ghost before = self.last_processed@;
        proof {
            lemma_put(self.last_processed(), path@, now);
        }
        let mut i: usize = 0;
        while i < self.last_processed.len()
            invariant
                self.last_processed@ == before,
                before == old(self).last_processed@,
                unique_keys(self.last_processed()),
                self.cache == old(self).cache,
                self.stats == old(self).stats,
                self.extensions == old(self).extensions,
                self.cache.wf(),
                key@ == path@,
                i <= before.len(),
                forall|j: int| 0 <= j < i ==> before[j].0@ != path@,
            decreases before.len() - i,
        {
            if self.last_processed[i].0 == key {
                proof {
                    assert(self.last_processed()[i as int].0 == path@);
                    lemma_key_pos(self.last_processed(), i as int);
                }
                let since = duration_since(&now, &self.last_processed[i].1);
                let limit = duration_from_nanos(1_000_000_000);
                if duration_less(&since, &limit) {
                    return false;
                }
                self.last_processed.set(i, (key, now));
                assert(self.last_processed() =~= put(before.map_values(|e: (String, Instant)| (e.0@, e.1)), path@, now));
                return true;
            }
            i = i + 1;
        }
        proof {
            if has_key(self.last_processed(), path@) {
                let k = key_pos(self.last_processed(), path@);
                assert(before[k].0@ == path@);
            }
        }
        self.last_processed.push((key, now));
        assert(self.last_processed() =~= put(before.map_values(|e: (String, Instant)| (e.0@, e.1)), path@, now));
        true
    }

    /// Handle a processed change of the file at `path`, whose templates are
    /// `updates` when it was created or modified: the change is counted;
    /// new or modified templates are analysed against the cache, counted by
    /// outcome and announced; a removed file's templates leave the cache.
    pub fn handle_file_change(&mut self, path: &str, kind: ChangeKind, updates: Vec<TemplateUpdate>) -> (r: ChangeOutcome)
        requires
            old(self).wf(),
            old(self).stats().files_processed < usize::MAX,
            old(self).stats().hot_reloadable_changes + updates@.len() <= usize::MAX,
            old(self).stats().rebuild_required_changes + updates@.len() <= usize::MAX,
            old(self).stats().delta_updates_sent + updates@.len() <= usize::MAX,
            updates@.len() < u64::MAX,
            versions_below(old(self).cache().entries(), u64::MAX - updates@.len()),
        ensures
            final(self).wf(),
            final(self).extensions() == old(self).extensions(),
            final(self).last_processed() == old(self).last_processed(),
            final(self).stats().files_processed == old(self).stats().files_processed + 1,
            kind == ChangeKind::Removed ==> {
                &&& r is Removed
                &&& final(self).stats().hot_reloadable_changes == old(self).stats().hot_reloadable_changes
                &&& final(self).cache().states() == old(self).cache().states()
                &&& final(self).cache().entries().len() + r->Removed_0 == old(self).cache().entries().len()
                &&& final(self).cache().entries() == drop_templates_of(
                    old(self).cache().entries(),
                    cached_ids(old(self).cache().entries()),
                    path@,
                )
            },
            kind != ChangeKind::Removed && updates@.len() == 0 ==> (r matches ChangeOutcome::Analyzed(m)
                && m@.len() == 0 && final(self).cache() == old(self).cache()),
            kind != ChangeKind::Removed && updates@.len() > 0 ==> (r matches ChangeOutcome::Analyzed(m) && ({
                let (a, s) = analyze_upto(
                    old(self).cache().states(),
                    updates@.map_values(|u: TemplateUpdate| u@),
                    updates@.len(),
                );
                &&& m@.map_values(|x: EnhancedHotReloadMessage| x@) == messages_for(a)
                &&& final(self).cache().states() == s
                &&& final(self).stats().hot_reloadable_changes == old(self).stats().hot_reloadable_changes
                    + a.hot_reloadable.len()
                &&& final(self).stats().rebuild_required_changes == old(self).stats().rebuild_required_changes
                    + a.require_rebuild.len()
                &&& final(self).stats().delta_updates_sent == old(self).stats().delta_updates_sent
                    + a.delta_operations.len()
            })),
    {
        self.stats.files_processed = self.stats.files_processed + 1;
        match kind {
            ChangeKind::Removed => {
                let ids = self.cache.cached_ids();
                let ghost start = self.cache.entries();
                let ghost idv = ids@;
                let mut removed: usize = 0;
                let mut i: usize = 0;
                let target = path.to_owned();
                while i < ids.len()
                    invariant
                        idv == ids@,
                        idv == cached_ids(start),
                        i <= idv.len(),
                        self.cache.wf(),
                        unique_keys(self.last_processed()),
                        self.cache.states() == old(self).cache().states(),
                        self.extensions == old(self).extensions,
                        self.last_processed == old(self).last_processed,
                        self.stats.files_processed == old(self).stats().files_processed + 1,
                        self.stats.hot_reloadable_changes == old(self).stats().hot_reloadable_changes,
                        target@ == path@,
                        self.cache.entries() == drop_templates_of(start, idv.subrange(0, i as int), path@),
                        self.cache.entries().len() + removed == start.len(),
                    decreases idv.len() - i,
                {
                    proof {
                        assert(idv.subrange(0, i + 1).drop_last() =~= idv.subrange(0, i as int));
                        assert(idv.subrange(0, i + 1).last() == idv[i as int]);
                    }
                    if ids[i].file == target {
                        let ghost k = crate::protocol::blake3_hex_digest(idv[i as int].id_bytes());
                        let ghost before = self.cache.entries();
                        proof {
                            crate::keyed::lemma_drop_key(before, k);
                        }
                        match self.cache.remove(&ids[i]) {
                            Some(_) => {
                                proof {
                                    assert(has_key(before, k));
                                }
                                removed = removed + 1;
                            },
                            None => {},
                        }
                    }
                    i = i + 1;
                }
                assert(idv.subrange(0, i as int) =~= idv);
                ChangeOutcome::Removed(removed)
            },
            _ => {
                if updates.len() == 0 {
                    return ChangeOutcome::Analyzed(Vec::new());
                }
                let ghost n = updates@.len();
                let analysis = match self.cache.insert_with_analysis(updates) {
                    Ok(a) => a,
                    Err(_) => {
                        return ChangeOutcome::Analyzed(Vec::new());
                    },
                };
                proof {
                    crate::diff_integration::lemma_analysis_bounds(
                        old(self).cache().states(),
                        updates@.map_values(|u: TemplateUpdate| u@),
                        n,
                    );
                }
                self.stats.hot_reloadable_changes = self.stats.hot_reloadable_changes + analysis.hot_reloadable.len();
                self.stats.rebuild_required_changes = self.stats.rebuild_required_changes + analysis.require_rebuild.len();
                if analysis.delta_operations.len() > 0 {
                    self.stats.delta_updates_sent = self.stats.delta_updates_sent + analysis.delta_operations.len();
                }
                ChangeOutcome::Analyzed(analysis_to_messages(analysis))
            },
        }
    }
}

} // verus!
