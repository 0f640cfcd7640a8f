//! Build cache for selective template recompilation: what was built for each
//! template, which files each build depended on, and which templates a
//! change of files makes stale.

use vstd::prelude::*;
use std::time::{Duration, Instant};

use crate::clock::{duration_since, instant_now};
use crate::keyed::{fresh_entries, position_of, drop_key, has_key, key_pos, lemma_drop_key, lemma_key_pos, lemma_put, put, unique_keys, value_of};
use crate::performance_monitor::{duration_as_nanos, duration_from_nanos, duration_less, duration_limit, duration_nanos};
use crate::protocol::{blake3_hex_digest, TemplateId};
use crate::text::{copy_texts, texts};

verus! {

/// Build cache entry containing compilation metadata
pub struct BuildEntry {
    /// Template identifier
    pub template_id: TemplateId,
    /// Last successful build time
    pub last_build: Instant,
    /// Build duration
    pub build_duration: Duration,
    /// Source file hash at build time
    pub source_hash: String,
    /// Dependencies at build time
    pub dependencies: Vec<String>,
    /// Whether this template has errors
    pub has_errors: bool,
    /// Build error if any
    pub error: Option<String>,
}

/// What the cache keeps of a build: everything but the time it was made.
pub struct BuildModel {
    pub id: TemplateId,
    pub build_nanos: nat,
    pub source_hash: Seq<char>,
    pub dependencies: Seq<Seq<char>>,
    pub has_errors: bool,
    pub error: Option<Seq<char>>,
}

impl BuildEntry {
    pub open spec fn model(&self) -> BuildModel {
        BuildModel {
            id: self.template_id,
            build_nanos: duration_nanos(self.build_duration),
            source_hash: self.source_hash@,
            dependencies: texts(self.dependencies@),
            has_errors: self.has_errors,
            error: match self.error {
                Some(e) => Some(e@),
                None => None,
            },
        }
    }
}

/// Decision on whether a template needs rebuilding
#[derive(Debug, Clone, PartialEq, Eq)]
pub enum RebuildDecision {
    Required(RebuildReason),
    NotRequired,
}

/// Reason for rebuilding a template
#[derive(Debug, Clone, PartialEq, Eq)]
pub enum RebuildReason {
    /// No cache entry exists
    NoCacheEntry,
    /// Source file changed
    SourceChanged,
    /// A dependency changed
    DependencyChanged(String),
    /// Previous build had errors
    PreviousError,
}

/// Set of templates that need rebuilding
#[derive(Debug)]
pub struct RebuildSet {
    /// Templates that changed directly
    pub direct_changes: Vec<TemplateId>,
    /// Templates affected by dependency changes
    pub dependency_changes: Vec<TemplateId>,
    /// Total number of affected templates
    pub total_affected: usize,
}

/// Build cache statistics. The cache hit rate, a percentage, is
/// `cache_hits * 100 / total_builds` where there were builds.
pub struct BuildStatistics {
    pub total_builds: u64,
    pub cache_hits: u64,
    pub incremental_rebuilds: u64,
    pub full_rebuilds: u64,
    pub average_build_time: Duration,
    pub total_entries: usize,
    pub error_entries: usize,
}

/// Build counts kept by the cache.
struct BuildStats {
    total_builds: u64,
    cache_hits: u64,
    incremental_rebuilds: u64,
    full_rebuilds: u64,
    total_build_nanos: u128,
}

/// Build cache for tracking compilation state
pub struct BuildCache {
    entries: Vec<(String, BuildEntry)>,
    file_dependents: Vec<(String, Vec<String>)>,
    stats: BuildStats,
}

// ----------------------------------------------------------------------------
// The files each template depends on, seen from the files
// ----------------------------------------------------------------------------

/// The hashes `hs` without `h`.
pub open spec fn without_hash(hs: Seq<Seq<char>>, h: Seq<char>) -> Seq<Seq<char>>
    decreases hs.len(),
{
    if hs.len() == 0 {
        hs
    } else {
        let rest = without_hash(hs.drop_last(), h);
        if hs.last() == h {
            rest
        } else {
            rest.push(hs.last())
        }
    }
}

/// The dependents after the template hashed `h` stops depending on `f`: a
/// file that is left without dependents is dropped.
pub open spec fn detach_one(fd: Seq<(Seq<char>, Seq<Seq<char>>)>, f: Seq<char>, h: Seq<char>) -> Seq<(Seq<char>, Seq<Seq<char>>)> {
    match value_of(fd, f) {
        Some(hs) => {
            let rest = without_hash(hs, h);
            if rest.len() == 0 {
                drop_key(fd, f)
            } else {
                put(fd, f, rest)
            }
        },
        None => fd,
    }
}

/// The dependents after the template hashed `h` stops depending on each of
/// `deps` in turn.
pub open spec fn detach_all(fd: Seq<(Seq<char>, Seq<Seq<char>>)>, deps: Seq<Seq<char>>, h: Seq<char>) -> Seq<(Seq<char>, Seq<Seq<char>>)>
    decreases deps.len(),
{
    if deps.len() == 0 {
        fd
    } else {
        detach_one(detach_all(fd, deps.drop_last(), h), deps.last(), h)
    }
}

/// The dependents after the template hashed `h` comes to depend on `f`.
pub open spec fn attach_one(fd: Seq<(Seq<char>, Seq<Seq<char>>)>, f: Seq<char>, h: Seq<char>) -> Seq<(Seq<char>, Seq<Seq<char>>)> {
    match value_of(fd, f) {
        Some(hs) => if hs.contains(h) {
            fd
        } else {
            put(fd, f, hs.push(h))
        },
        None => put(fd, f, seq![h]),
    }
}

/// The dependents after the template hashed `h` comes to depend on each of
/// `deps` in turn.
pub open spec fn attach_all(fd: Seq<(Seq<char>, Seq<Seq<char>>)>, deps: Seq<Seq<char>>, h: Seq<char>) -> Seq<(Seq<char>, Seq<Seq<char>>)>
    decreases deps.len(),
{
    if deps.len() == 0 {
        fd
    } else {
        attach_one(attach_all(fd, deps.drop_last(), h), deps.last(), h)
    }
}

/// The dependencies recorded for the template hashed `h`, none if nothing
/// was built for it.
pub open spec fn recorded_deps(entries: Seq<(Seq<char>, BuildModel)>, h: Seq<char>) -> Seq<Seq<char>> {
    match value_of(entries, h) {
        Some(e) => e.dependencies,
        None => Seq::empty(),
    }
}

/// The names and values of `v`, the names by their text.
pub open spec fn dependents_view(v: Seq<(String, Vec<String>)>) -> Seq<(Seq<char>, Seq<Seq<char>>)> {
    v.map_values(|e: (String, Vec<String>)| (e.0@, texts(e.1@)))
}

/// With unique names, where `k` is found first is where it is kept.
proof fn lemma_found<V>(s: Seq<(Seq<char>, V)>, k: Seq<char>, i: int)
    requires
        unique_keys(s),
        0 <= i < s.len(),
        s[i].0 == k,
    ensures
        has_key(s, k),
        key_pos(s, k) == i,
        value_of(s, k) == Some(s[i].1),
{
    lemma_key_pos(s, i);
}

/// The hashes `hs` without `h`.
fn remove_hash(hs: &Vec<String>, h: &String) -> (r: Vec<String>)
    ensures
        texts(r@) == without_hash(texts(hs@), h@),
{
    let mut r: Vec<String> = Vec::new();
    let mut i: usize = 0;
    while i < hs.len()
        invariant
            i <= hs@.len(),
            texts(r@) == without_hash(texts(hs@.subrange(0, i as int)), h@),
        decreases hs@.len() - i,
    {
        proof {
            assert(texts(hs@.subrange(0, i + 1)).drop_last() =~= texts(hs@.subrange(0, i as int)));
            assert(texts(hs@.subrange(0, i + 1)).last() == hs@[i as int]@);
        }
        if hs[i] != *h {
            r.push(hs[i].clone());
            assert(texts(r@) =~= without_hash(texts(hs@.subrange(0, i as int)), h@).push(hs@[i as int]@));
        }
        i = i + 1;
    }
    assert(hs@.subrange(0, i as int) =~= hs@);
    r
}

/// Whether `h` is among `hs`.
fn holds_hash(hs: &Vec<String>, h: &String) -> (r: bool)
    ensures
        r == texts(hs@).contains(h@),
{
    let mut i: usize = 0;
    while i < hs.len()
        invariant
            i <= hs@.len(),
            forall|j: int| 0 <= j < i ==> hs@[j]@ != h@,
        decreases hs@.len() - i,
    {
        if hs[i] == *h {
            assert(texts(hs@)[i as int] == h@);
            return true;
        }
        i = i + 1;
    }
    false
}

/// The template hashed `h` stops depending on `f`.
fn detach(fd: &mut Vec<(String, Vec<String>)>, f: &String, h: &String)
    requires
        unique_keys(dependents_view(old(fd)@)),
    ensures
        unique_keys(dependents_view(final(fd)@)),
        dependents_view(final(fd)@) == detach_one(dependents_view(old(fd)@), f@, h@),
{
    let ghost before = dependents_view(fd@);
    match position_of(fd, f) {
        Some(i) => {
            proof {
                assert(before[i as int].0 == f@);
                lemma_found(before, f@, i as int);
            }
            let rest = remove_hash(&fd[i].1, h);
            if rest.len() == 0 {
                proof {
                    lemma_drop_key(before, f@);
                }
                fd.remove(i);
                assert(dependents_view(fd@) =~= before.remove(i as int));
            } else {
                proof {
                    lemma_put(before, f@, texts(rest@));
                }
                fd.set(i, (f.clone(), rest));
                assert(dependents_view(fd@) =~= before.update(i as int, (f@, texts(rest@))));
            }
        },
        None => {
            assert(!has_key(before, f@));
        },
    }
}

/// The template hashed `h` comes to depend on `f`.
fn attach(fd: &mut Vec<(String, Vec<String>)>, f: &String, h: &String)
    requires
        unique_keys(dependents_view(old(fd)@)),
    ensures
        unique_keys(dependents_view(final(fd)@)),
        dependents_view(final(fd)@) == attach_one(dependents_view(old(fd)@), f@, h@),
{
    let ghost before = dependents_view(fd@);
    match position_of(fd, f) {
        Some(i) => {
            proof {
                assert(before[i as int].0 == f@);
                lemma_found(before, f@, i as int);
            }
            if !holds_hash(&fd[i].1, h) {
                let mut hs = copy_texts(&fd[i].1);
                hs.push(h.clone());
                proof {
                    assert(texts(hs@) =~= before[i as int].1.push(h@));
                    lemma_put(before, f@, texts(hs@));
                }
                fd.set(i, (f.clone(), hs));
                assert(dependents_view(fd@) =~= before.update(i as int, (f@, before[i as int].1.push(h@))));
            }
        },
        None => {
            assert(!has_key(before, f@));
            let mut hs: Vec<String> = Vec::new();
            hs.push(h.clone());
            proof {
                assert(texts(hs@) =~= seq![h@]);
                lemma_put(before, f@, seq![h@]);
            }
            fd.push((f.clone(), hs));
            assert(dependents_view(fd@) =~= before.push((f@, seq![h@])));
        },
    }
}

/// The template hashed `h` stops depending on each of `deps`.
fn detach_each(fd: &mut Vec<(String, Vec<String>)>, deps: &Vec<String>, h: &String)
    requires
        unique_keys(dependents_view(old(fd)@)),
    ensures
        unique_keys(dependents_view(final(fd)@)),
        dependents_view(final(fd)@) == detach_all(dependents_view(old(fd)@), texts(deps@), h@),
{
    let ghost start = dependents_view(fd@);
    let mut i: usize = 0;
    while i < deps.len()
        invariant
            i <= deps@.len(),
            unique_keys(dependents_view(fd@)),
            dependents_view(fd@) == detach_all(start, texts(deps@.subrange(0, i as int)), h@),
        decreases deps@.len() - i,
    {
        proof {
            assert(texts(deps@.subrange(0, i + 1)).drop_last() =~= texts(deps@.subrange(0, i as int)));
            assert(texts(deps@.subrange(0, i + 1)).last() == deps@[i as int]@);
        }
        detach(fd, &deps[i], h);
        i = i + 1;
    }
    assert(deps@.subrange(0, i as int) =~= deps@);
}

/// The template hashed `h` comes to depend on each of `deps`.
fn attach_each(fd: &mut Vec<(String, Vec<String>)>, deps: &Vec<String>, h: &String)
    requires
        unique_keys(dependents_view(old(fd)@)),
    ensures
        unique_keys(dependents_view(final(fd)@)),
        dependents_view(final(fd)@) == attach_all(dependents_view(old(fd)@), texts(deps@), h@),
{
    let ghost start = dependents_view(fd@);
    let mut i: usize = 0;
    while i < deps.len()
        invariant
            i <= deps@.len(),
            unique_keys(dependents_view(fd@)),
            dependents_view(fd@) == attach_all(start, texts(deps@.subrange(0, i as int)), h@),
        decreases deps@.len() - i,
    {
        proof {
            assert(texts(deps@.subrange(0, i + 1)).drop_last() =~= texts(deps@.subrange(0, i as int)));
            assert(texts(deps@.subrange(0, i + 1)).last() == deps@[i as int]@);
        }
        attach(fd, &deps[i], h);
        i = i + 1;
    }
    assert(deps@.subrange(0, i as int) =~= deps@);
}

// ----------------------------------------------------------------------------
// The cache
// ----------------------------------------------------------------------------

/// The name under which the build of `id` is kept: the hash of the
/// identifier.
pub open spec fn build_key(id: TemplateId) -> Seq<char> {
    blake3_hex_digest(id.id_bytes())
}

/// The entries' builds by the hash they are kept under.
spec fn entries_view(v: Seq<(String, BuildEntry)>) -> Seq<(Seq<char>, BuildModel)> {
    v.map_values(|e: (String, BuildEntry)| (e.0@, e.1.model()))
}

/// The build recorded after a failure of `id`: the earlier build marked
/// failed with `error`, or a failed build with no source hash and no
/// dependencies.
pub open spec fn failed_build(earlier: Option<BuildModel>, id: TemplateId, error: Seq<char>, nanos: nat) -> BuildModel {
    match earlier {
        Some(e) => BuildModel { build_nanos: nanos, has_errors: true, error: Some(error), ..e },
        None => BuildModel {
            id,
            build_nanos: nanos,
            source_hash: Seq::empty(),
            dependencies: Seq::empty(),
            has_errors: true,
            error: Some(error),
        },
    }
}

/// Whether a template whose source now hashes to `current` needs a
/// rebuild, given what was built for it.
pub open spec fn rebuild_decision(built: Option<BuildModel>, current: Seq<char>) -> RebuildDecision {
    match built {
        None => RebuildDecision::Required(RebuildReason::NoCacheEntry),
        Some(e) => if e.has_errors {
            RebuildDecision::Required(RebuildReason::PreviousError)
        } else if e.source_hash != current {
            RebuildDecision::Required(RebuildReason::SourceChanged)
        } else {
            RebuildDecision::NotRequired
        },
    }
}

/// `after` is `before` with a successful build of `id` recorded, from a
/// source hashing to `source_hash`, depending on `deps`, taking `nanos`.
pub open spec fn with_build(
    before: BuildCache,
    after: BuildCache,
    id: TemplateId,
    source_hash: Seq<char>,
    deps: Seq<Seq<char>>,
    nanos: nat,
) -> bool {
    &&& after.entries() == put(
        before.entries(),
        build_key(id),
        BuildModel { id, build_nanos: nanos, source_hash, dependencies: deps, has_errors: false, error: None },
    )
    &&& after.dependents() == attach_all(
        detach_all(before.dependents(), recorded_deps(before.entries(), build_key(id)), build_key(id)),
        deps,
        build_key(id),
    )
    &&& after.total_builds() == before.total_builds() + 1
    &&& after.total_build_nanos() == before.total_build_nanos() + nanos
    &&& after.cache_hits() == before.cache_hits()
    &&& after.incremental_rebuilds() == before.incremental_rebuilds()
    &&& after.full_rebuilds() == before.full_rebuilds()
}

impl BuildCache {
    /// The builds by the hash of their template's identifier.
    pub closed spec fn entries(&self) -> Seq<(Seq<char>, BuildModel)> {
        entries_view(self.entries@)
    }

    /// For each file, the hashes of the templates whose builds depend on it.
    pub closed spec fn dependents(&self) -> Seq<(Seq<char>, Seq<Seq<char>>)> {
        dependents_view(self.file_dependents@)
    }

    pub closed spec fn total_builds(&self) -> u64 {
        self.stats.total_builds
    }

    pub closed spec fn cache_hits(&self) -> u64 {
        self.stats.cache_hits
    }

    pub closed spec fn incremental_rebuilds(&self) -> u64 {
        self.stats.incremental_rebuilds
    }

    pub closed spec fn full_rebuilds(&self) -> u64 {
        self.stats.full_rebuilds
    }

    /// The time spent in all builds, in nanoseconds.
    pub closed spec fn total_build_nanos(&self) -> nat {
        self.stats.total_build_nanos as nat
    }

    /// Hashes and files occur once each, and the total build time is a
    /// duration.
    pub open spec fn wf(&self) -> bool {
        &&& unique_keys(self.entries())
        &&& unique_keys(self.dependents())
        &&& self.total_build_nanos() < duration_limit()
    }

    /// What was built for `id`, if anything.
    pub open spec fn built(&self, id: TemplateId) -> Option<BuildModel> {
        value_of(self.entries(), build_key(id))
    }

    /// Create a new build cache
    pub fn new() -> (r: Self)
        ensures
            r.wf(),
            r.entries().len() == 0,
            r.dependents().len() == 0,
            r.total_builds() == 0,
            r.cache_hits() == 0,
            r.incremental_rebuilds() == 0,
            r.full_rebuilds() == 0,
            r.total_build_nanos() == 0,
    {
        let r = BuildCache {
            entries: Vec::new(),
            file_dependents: Vec::new(),
            stats: BuildStats { total_builds: 0, cache_hits: 0, incremental_rebuilds: 0, full_rebuilds: 0, total_build_nanos: 0 },
        };
        assert(r.entries() =~= Seq::<(Seq<char>, BuildModel)>::empty());
        assert(r.dependents() =~= Seq::<(Seq<char>, Seq<Seq<char>>)>::empty());
        r
    }

    /// Store `entry` under `hash`, replacing what is kept there.
    fn store(&mut self, hash: String, entry: BuildEntry)
        requires
            unique_keys(old(self).entries()),
        ensures
            unique_keys(final(self).entries()),
            final(self).entries() == put(old(self).entries(), hash@, entry.model()),
            final(self).file_dependents == old(self).file_dependents,
            final(self).stats == old(self).stats,
    {
        let ghost before = self.entries();
        let ghost m = entry.model();
        proof {
            lemma_put(before, hash@, m);
        }
        match position_of(&self.entries, &hash) {
            Some(i) => {
                proof {
                    assert(before[i as int].0 == hash@);
                    lemma_found(before, hash@, i as int);
                }
                self.entries.set(i, (hash, entry));
                assert(self.entries() =~= before.update(i as int, (hash@, m)));
            },
            None => {
                assert(!has_key(before, hash@));
                self.entries.push((hash, entry));
                assert(self.entries() =~= before.push((hash@, m)));
            },
        }
    }

    /// Record a successful build of `template_id` from a source hashing to
    /// `source_hash`, which depended on the files `dependencies`: the build
    /// replaces the template's earlier one, and the template stops
    /// depending on the earlier build's files and comes to depend on these.
    pub fn record_build(
        &mut self,
        template_id: TemplateId,
        source_hash: String,
        dependencies: Vec<String>,
        build_duration: Duration,
    )
        requires
            old(self).wf(),
            old(self).total_builds() < u64::MAX,
            old(self).total_build_nanos() + duration_nanos(build_duration) < duration_limit(),
        ensures
            final(self).wf(),
            final(self).entries() == put(
                old(self).entries(),
                build_key(template_id),
                BuildModel {
                    id: template_id,
                    build_nanos: duration_nanos(build_duration),
                    source_hash: source_hash@,
                    dependencies: texts(dependencies@),
                    has_errors: false,
                    error: None,
                },
            ),
            final(self).dependents() == attach_all(
                detach_all(
                    old(self).dependents(),
                    recorded_deps(old(self).entries(), build_key(template_id)),
                    build_key(template_id),
                ),
                texts(dependencies@),
                build_key(template_id),
            ),
            final(self).total_builds() == old(self).total_builds() + 1,
            final(self).total_build_nanos() == old(self).total_build_nanos() + duration_nanos(build_duration),
            final(self).cache_hits() == old(self).cache_hits(),
            final(self).incremental_rebuilds() == old(self).incremental_rebuilds(),
            final(self).full_rebuilds() == old(self).full_rebuilds(),
    {
        let hash = template_id.hash();
        let ghost before = self.entries();
        match position_of(&self.entries, &hash) {
            Some(i) => {
                proof {
                    assert(before[i as int].0 == hash@);
                    lemma_found(before, hash@, i as int);
                }
                let earlier = copy_texts(&self.entries[i].1.dependencies);
                detach_each(&mut self.file_dependents, &earlier, &hash);
            },
            None => {
                assert(!has_key(before, hash@));
                assert(detach_all(self.dependents(), Seq::<Seq<char>>::empty(), hash@) == self.dependents());
            },
        }
        attach_each(&mut self.file_dependents, &dependencies, &hash);
        let nanos = duration_as_nanos(&build_duration);
        let entry = BuildEntry {
            template_id,
            last_build: instant_now(),
            build_duration,
            source_hash,
            dependencies,
            has_errors: false,
            error: None,
        };
        self.store(hash, entry);
        self.stats.total_builds = self.stats.total_builds + 1;
        self.stats.total_build_nanos = self.stats.total_build_nanos + nanos;
    }

    /// Whether a build of `build_duration` keeps the total build time within
    /// what a `Duration` can hold.
    pub fn fits_build_time(&self, build_duration: &Duration) -> (r: bool)
        requires
            self.wf(),
        ensures
            r == (self.total_build_nanos() + duration_nanos(*build_duration) < duration_limit()),
    {
        let nanos = duration_as_nanos(build_duration);
        nanos < 18446744073709551616u128 * 1000000000u128 - self.stats.total_build_nanos
    }

    /// Record a successful build as `record_build` does, where the total
    /// build time stays within what a `Duration` can hold; otherwise leave
    /// the cache as it is. Tells whether it was recorded.
    pub fn try_record_build(
        &mut self,
        template_id: TemplateId,
        source_hash: String,
        dependencies: Vec<String>,
        build_duration: Duration,
    ) -> (recorded: bool)
        requires
            old(self).wf(),
            old(self).total_builds() < u64::MAX,
        ensures
            final(self).wf(),
            recorded == (old(self).total_build_nanos() + duration_nanos(build_duration) < duration_limit()),
            recorded ==> with_build(
                *old(self),
                *final(self),
                template_id,
                source_hash@,
                texts(dependencies@),
                duration_nanos(build_duration),
            ),
            !recorded ==> *final(self) == *old(self),
    {
        if self.fits_build_time(&build_duration) {
            self.record_build(template_id, source_hash, dependencies, build_duration);
            true
        } else {
            false
        }
    }

    /// Record a failed build as `record_error` does, where the total build
    /// time stays within what a `Duration` can hold; otherwise leave the
    /// cache as it is. Tells whether it was recorded.
    pub fn try_record_error(&mut self, template_id: TemplateId, error: String, build_duration: Duration) -> (recorded:
        bool)
        requires
            old(self).wf(),
            old(self).total_builds() < u64::MAX,
        ensures
            final(self).wf(),
            recorded == (old(self).total_build_nanos() + duration_nanos(build_duration) < duration_limit()),
            recorded ==> {
                &&& final(self).entries() == put(
                    old(self).entries(),
                    build_key(template_id),
                    failed_build(old(self).built(template_id), template_id, error@, duration_nanos(build_duration)),
                )
                &&& final(self).dependents() == old(self).dependents()
                &&& final(self).total_builds() == old(self).total_builds() + 1
                &&& final(self).total_build_nanos() == old(self).total_build_nanos() + duration_nanos(
                    build_duration,
                )
                &&& final(self).cache_hits() == old(self).cache_hits()
                &&& final(self).incremental_rebuilds() == old(self).incremental_rebuilds()
                &&& final(self).full_rebuilds() == old(self).full_rebuilds()
            },
            !recorded ==> *final(self) == *old(self),
    {
        if self.fits_build_time(&build_duration) {
            self.record_error(template_id, error, build_duration);
            true
        } else {
            false
        }
    }

    /// Record a failed build of `template_id` with the message `error`: an
    /// earlier build is marked failed, or a failed build is recorded.
    pub fn record_error(&mut self, template_id: TemplateId, error: String, build_duration: Duration)
        requires
            old(self).wf(),
            old(self).total_builds() < u64::MAX,
            old(self).total_build_nanos() + duration_nanos(build_duration) < duration_limit(),
        ensures
            final(self).wf(),
            final(self).entries() == put(
                old(self).entries(),
                build_key(template_id),
                failed_build(old(self).built(template_id), template_id, error@, duration_nanos(build_duration)),
            ),
            final(self).dependents() == old(self).dependents(),
            final(self).total_builds() == old(self).total_builds() + 1,
            final(self).total_build_nanos() == old(self).total_build_nanos() + duration_nanos(build_duration),
            final(self).cache_hits() == old(self).cache_hits(),
            final(self).incremental_rebuilds() == old(self).incremental_rebuilds(),
            final(self).full_rebuilds() == old(self).full_rebuilds(),
    {
        let hash = template_id.hash();
        let ghost before = self.entries();
        let nanos = duration_as_nanos(&build_duration);
        match position_of(&self.entries, &hash) {
            Some(i) => {
                proof {
                    assert(before[i as int].0 == hash@);
                    lemma_found(before, hash@, i as int);
                    lemma_put(before, hash@, failed_build(Some(before[i as int].1), template_id, error@, nanos as nat));
                }
                let (key, mut entry) = self.entries.remove(i);
                entry.has_errors = true;
                entry.error = Some(error);
                entry.build_duration = build_duration;
                entry.last_build = instant_now();
                self.entries.insert(i, (key, entry));
                assert(self.entries() =~= before.update(
                    i as int,
                    (hash@, failed_build(Some(before[i as int].1), template_id, error@, nanos as nat)),
                ));
            },
            None => {
                assert(!has_key(before, hash@));
                let entry = BuildEntry {
                    template_id,
                    last_build: instant_now(),
                    build_duration,
                    source_hash: String::new(),
                    dependencies: Vec::new(),
                    has_errors: true,
                    error: Some(error),
                };
                assert(entry.model().source_hash =~= Seq::<char>::empty());
                assert(entry.model().dependencies =~= Seq::<Seq<char>>::empty());
                self.store(hash, entry);
            },
        }
        self.stats.total_builds = self.stats.total_builds + 1;
        self.stats.total_build_nanos = self.stats.total_build_nanos + nanos;
    }
}

/// The identifiers of the templates kept under the hashes `hs`, in order,
/// passing over hashes with nothing kept.
pub open spec fn ids_kept(entries: Seq<(Seq<char>, BuildModel)>, hs: Seq<Seq<char>>) -> Seq<TemplateId>
    decreases hs.len(),
{
    if hs.len() == 0 {
        Seq::empty()
    } else {
        let r = ids_kept(entries, hs.drop_last());
        match value_of(entries, hs.last()) {
            Some(e) => r.push(e.id),
            None => r,
        }
    }
}

/// The templates whose builds depend on the file `f`.
pub open spec fn affected_by(
    entries: Seq<(Seq<char>, BuildModel)>,
    fd: Seq<(Seq<char>, Seq<Seq<char>>)>,
    f: Seq<char>,
) -> Seq<TemplateId> {
    match value_of(fd, f) {
        Some(hs) => ids_kept(entries, hs),
        None => Seq::empty(),
    }
}

/// Some identifier in `s` denotes the template `id`.
pub open spec fn has_id(s: Seq<TemplateId>, id: TemplateId) -> bool {
    exists|j: int| 0 <= j < s.len() && #[trigger] s[j].same_as(&id)
}

/// `s` with `id` added unless it is there.
pub open spec fn add_id(s: Seq<TemplateId>, id: TemplateId) -> Seq<TemplateId> {
    if has_id(s, id) {
        s
    } else {
        s.push(id)
    }
}

/// `s` with each of `ids` added in turn.
pub open spec fn add_ids(s: Seq<TemplateId>, ids: Seq<TemplateId>) -> Seq<TemplateId>
    decreases ids.len(),
{
    if ids.len() == 0 {
        s
    } else {
        add_id(add_ids(s, ids.drop_last()), ids.last())
    }
}

/// `s` without the identifiers that `drop` has.
pub open spec fn without_ids(s: Seq<TemplateId>, drop: Seq<TemplateId>) -> Seq<TemplateId>
    decreases s.len(),
{
    if s.len() == 0 {
        s
    } else {
        let r = without_ids(s.drop_last(), drop);
        if has_id(drop, s.last()) {
            r
        } else {
            r.push(s.last())
        }
    }
}

/// The templates of the builds defined in the file `f`, in order.
pub open spec fn ids_in_file(entries: Seq<(Seq<char>, BuildModel)>, f: Seq<char>) -> Seq<TemplateId>
    decreases entries.len(),
{
    if entries.len() == 0 {
        Seq::empty()
    } else {
        let r = ids_in_file(entries.drop_last(), f);
        if entries.last().1.id.file@ == f {
            r.push(entries.last().1.id)
        } else {
            r
        }
    }
}

/// The templates defined in the changed files, each once.
pub open spec fn direct_ids(entries: Seq<(Seq<char>, BuildModel)>, files: Seq<Seq<char>>) -> Seq<TemplateId>
    decreases files.len(),
{
    if files.len() == 0 {
        Seq::empty()
    } else {
        add_ids(direct_ids(entries, files.drop_last()), ids_in_file(entries, files.last()))
    }
}

/// The templates whose builds depend on the changed files, each once.
pub open spec fn dependent_ids(
    entries: Seq<(Seq<char>, BuildModel)>,
    fd: Seq<(Seq<char>, Seq<Seq<char>>)>,
    files: Seq<Seq<char>>,
) -> Seq<TemplateId>
    decreases files.len(),
{
    if files.len() == 0 {
        Seq::empty()
    } else {
        add_ids(dependent_ids(entries, fd, files.drop_last()), affected_by(entries, fd, files.last()))
    }
}

/// The number of builds that failed.
pub open spec fn failed_count(entries: Seq<(Seq<char>, BuildModel)>) -> nat
    decreases entries.len(),
{
    if entries.len() == 0 {
        0
    } else {
        failed_count(entries.drop_last()) + if entries.last().1.has_errors { 1nat } else { 0nat }
    }
}

/// Each identifier in `s` denotes a template built here.
pub open spec fn all_built(entries: Seq<(Seq<char>, BuildModel)>, s: Seq<TemplateId>) -> bool {
    forall|a: int| 0 <= a < s.len() ==> has_id(ids_of(entries), #[trigger] s[a])
}

/// The identifiers of the builds, in order.
pub open spec fn ids_of(entries: Seq<(Seq<char>, BuildModel)>) -> Seq<TemplateId> {
    entries.map_values(|e: (Seq<char>, BuildModel)| e.1.id)
}

/// No two identifiers in `s` denote the same template.
pub open spec fn distinct_ids(s: Seq<TemplateId>) -> bool {
    forall|a: int, b: int| #![trigger s[a], s[b]] 0 <= a < b < s.len() ==> !s[a].same_as(&s[b])
}

/// Distinct identifiers of templates built here are no more than the builds.
proof fn lemma_count_built(entries: Seq<(Seq<char>, BuildModel)>, s: Seq<TemplateId>)
    requires
        all_built(entries, s),
        distinct_ids(s),
    ensures
        s.len() <= entries.len(),
{
    let ids = ids_of(entries);
    let idx = Seq::new(s.len(), |a: int| choose|j: int| 0 <= j < ids.len() && ids[j].same_as(&s[a]));
    assert forall|a: int| 0 <= a < s.len() implies 0 <= #[trigger] idx[a] < ids.len() && ids[idx[a]].same_as(&s[a]) by {
        assert(has_id(ids, s[a]));
    }
    assert forall|a: int, b: int| 0 <= a < idx.len() && 0 <= b < idx.len() && a != b implies #[trigger] idx[a] != #[trigger] idx[b] by {
        if a < b {
            assert(!s[a].same_as(&s[b]));
        } else {
            assert(!s[b].same_as(&s[a]));
        }
    }
    assert(idx.no_duplicates());
    idx.unique_seq_to_set();
    vstd::set_lib::lemma_int_range(0, entries.len() as int);
    assert forall|x: int| idx.to_set().contains(x) implies vstd::set_lib::set_int_range(0, entries.len() as int).contains(x) by {
        let a = choose|a: int| 0 <= a < idx.len() && idx[a] == x;
    }
    vstd::set_lib::lemma_len_subset(idx.to_set(), vstd::set_lib::set_int_range(0, entries.len() as int));
}

/// Adding identifiers of templates built here keeps them so and distinct.
proof fn lemma_add_ids_built(entries: Seq<(Seq<char>, BuildModel)>, s: Seq<TemplateId>, ids: Seq<TemplateId>)
    requires
        all_built(entries, s),
        distinct_ids(s),
        all_built(entries, ids),
    ensures
        all_built(entries, add_ids(s, ids)),
        distinct_ids(add_ids(s, ids)),
    decreases ids.len(),
{
    if ids.len() > 0 {
        assert(all_built(entries, ids.drop_last())) by {
            assert forall|a: int| 0 <= a < ids.drop_last().len() implies has_id(ids_of(entries), #[trigger] ids.drop_last()[a]) by {
                assert(ids.drop_last()[a] == ids[a]);
            }
        }
        lemma_add_ids_built(entries, s, ids.drop_last());
        let t = add_ids(s, ids.drop_last());
        let x = ids.last();
        assert(has_id(ids_of(entries), ids[ids.len() - 1]));
        if !has_id(t, x) {
            let t2 = t.push(x);
            assert forall|a: int, b: int| #![trigger t2[a], t2[b]] 0 <= a < b < t2.len() implies !t2[a].same_as(&t2[b]) by {
                if b == t.len() {
                    assert(t2[a] == t[a]);
                    if t[a].same_as(&x) {
                        assert(has_id(t, x));
                    }
                } else {
                    assert(t2[a] == t[a]);
                    assert(t2[b] == t[b]);
                }
            }
            assert forall|a: int| 0 <= a < t2.len() implies has_id(ids_of(entries), #[trigger] t2[a]) by {
                if a < t.len() {
                    assert(t2[a] == t[a]);
                }
            }
        }
    }
}

/// The templates defined in a file are built here.
proof fn lemma_in_file_built(entries: Seq<(Seq<char>, BuildModel)>, f: Seq<char>)
    ensures
        all_built(entries, ids_in_file(entries, f)),
    decreases entries.len(),
{
    if entries.len() > 0 {
        let rest = entries.drop_last();
        lemma_in_file_built(rest, f);
        let r = ids_in_file(rest, f);
        assert forall|a: int| 0 <= a < ids_in_file(entries, f).len() implies has_id(ids_of(entries), #[trigger] ids_in_file(entries, f)[a]) by {
            let x = ids_in_file(entries, f)[a];
            if a < r.len() {
                assert(x == r[a]);
                assert(has_id(ids_of(rest), x));
                let j = choose|j: int| 0 <= j < ids_of(rest).len() && #[trigger] ids_of(rest)[j].same_as(&x);
                assert(ids_of(entries)[j] == ids_of(rest)[j]);
            } else {
                let j = entries.len() - 1;
                assert(ids_of(entries)[j] == x);
                assert(ids_of(entries)[j].same_as(&x));
            }
        }
    }
}

/// The templates kept under some hashes are built here.
proof fn lemma_kept_built(entries: Seq<(Seq<char>, BuildModel)>, hs: Seq<Seq<char>>)
    ensures
        all_built(entries, ids_kept(entries, hs)),
    decreases hs.len(),
{
    if hs.len() > 0 {
        lemma_kept_built(entries, hs.drop_last());
        let r = ids_kept(entries, hs.drop_last());
        assert forall|a: int| 0 <= a < ids_kept(entries, hs).len() implies has_id(ids_of(entries), #[trigger] ids_kept(entries, hs)[a]) by {
            let x = ids_kept(entries, hs)[a];
            if a < r.len() {
                assert(x == r[a]);
            } else {
                let j = key_pos(entries, hs.last());
                assert(ids_of(entries)[j] == x);
                assert(ids_of(entries)[j].same_as(&x));
            }
        }
    }
}

/// The templates defined in changed files are built here, each once.
proof fn lemma_direct_built(entries: Seq<(Seq<char>, BuildModel)>, files: Seq<Seq<char>>)
    ensures
        all_built(entries, direct_ids(entries, files)),
        distinct_ids(direct_ids(entries, files)),
    decreases files.len(),
{
    if files.len() > 0 {
        lemma_direct_built(entries, files.drop_last());
        lemma_in_file_built(entries, files.last());
        lemma_add_ids_built(entries, direct_ids(entries, files.drop_last()), ids_in_file(entries, files.last()));
    }
}

/// The templates depending on changed files are built here, each once.
proof fn lemma_dependent_built(
    entries: Seq<(Seq<char>, BuildModel)>,
    fd: Seq<(Seq<char>, Seq<Seq<char>>)>,
    files: Seq<Seq<char>>,
)
    ensures
        all_built(entries, dependent_ids(entries, fd, files)),
        distinct_ids(dependent_ids(entries, fd, files)),
    decreases files.len(),
{
    if files.len() > 0 {
        lemma_dependent_built(entries, fd, files.drop_last());
        match value_of(fd, files.last()) {
            Some(hs) => lemma_kept_built(entries, hs),
            None => {},
        }
        lemma_add_ids_built(entries, dependent_ids(entries, fd, files.drop_last()), affected_by(entries, fd, files.last()));
    }
}

/// Leaving out identifiers keeps the rest, distinct if they were, and none
/// of those left out.
proof fn lemma_without_ids(s: Seq<TemplateId>, drop: Seq<TemplateId>)
    ensures
        forall|a: int| 0 <= a < without_ids(s, drop).len() ==> !has_id(drop, #[trigger] without_ids(s, drop)[a]),
        forall|a: int| 0 <= a < without_ids(s, drop).len() ==> exists|b: int| 0 <= b < s.len() && s[b] == #[trigger] without_ids(s, drop)[a],
        distinct_ids(s) ==> distinct_ids(without_ids(s, drop)),
    decreases s.len(),
{
    if s.len() > 0 {
        let s0 = s.drop_last();
        lemma_without_ids(s0, drop);
        let r = without_ids(s0, drop);
        let w = without_ids(s, drop);
        assert forall|a: int| 0 <= a < w.len() implies exists|b: int| 0 <= b < s.len() && s[b] == #[trigger] w[a] by {
            if a < r.len() {
                assert(w[a] == r[a]);
                let b = choose|b: int| 0 <= b < s0.len() && s0[b] == r[a];
                assert(s[b] == s0[b]);
            } else {
                assert(w[a] == s[s.len() - 1]);
            }
        }
        if distinct_ids(s) {
            assert(distinct_ids(s0)) by {
                assert forall|a: int, b: int| #![trigger s0[a], s0[b]] 0 <= a < b < s0.len() implies !s0[a].same_as(&s0[b]) by {
                    assert(s0[a] == s[a]);
                    assert(s0[b] == s[b]);
                }
            }
            assert forall|a: int, b: int| #![trigger w[a], w[b]] 0 <= a < b < w.len() implies !w[a].same_as(&w[b]) by {
                if b < r.len() {
                    assert(w[a] == r[a]);
                    assert(w[b] == r[b]);
                } else {
                    assert(w[a] == r[a]);
                    let c = choose|c: int| 0 <= c < s0.len() && s0[c] == r[a];
                    assert(s0[c] == s[c]);
                    assert(w[b] == s[s.len() - 1]);
                    assert(!s[c].same_as(&s[s.len() - 1]));
                }
            }
        }
    }
}

/// The templates of a rebuild set are no more than the builds.
proof fn lemma_rebuild_count(entries: Seq<(Seq<char>, BuildModel)>, direct: Seq<TemplateId>, deps: Seq<TemplateId>)
    requires
        all_built(entries, direct),
        distinct_ids(direct),
        all_built(entries, deps),
        distinct_ids(deps),
    ensures
        direct.len() + without_ids(deps, direct).len() <= entries.len(),
{
    lemma_without_ids(deps, direct);
    let rest = without_ids(deps, direct);
    let c = direct + rest;
    assert forall|a: int| 0 <= a < c.len() implies has_id(ids_of(entries), #[trigger] c[a]) by {
        if a < direct.len() {
            assert(c[a] == direct[a]);
        } else {
            assert(c[a] == rest[a - direct.len()]);
            let b = choose|b: int| 0 <= b < deps.len() && deps[b] == rest[a - direct.len()];
            assert(has_id(ids_of(entries), deps[b]));
        }
    }
    assert forall|a: int, b: int| #![trigger c[a], c[b]] 0 <= a < b < c.len() implies !c[a].same_as(&c[b]) by {
        if b < direct.len() {
            assert(c[a] == direct[a]);
            assert(c[b] == direct[b]);
        } else if a >= direct.len() {
            assert(c[a] == rest[a - direct.len()]);
            assert(c[b] == rest[b - direct.len()]);
        } else {
            assert(c[a] == direct[a]);
            assert(c[b] == rest[b - direct.len()]);
            assert(!has_id(direct, rest[b - direct.len()]));
            if direct[a].same_as(&rest[b - direct.len()]) {
                assert(direct[a].same_as(&rest[b - direct.len()]));
            }
        }
    }
    lemma_count_built(entries, c);
}

/// Whether some identifier in `s` denotes the template `id`.
fn find_id(s: &Vec<TemplateId>, id: &TemplateId) -> (r: bool)
    ensures
        r == has_id(s@, *id),
{
    let mut i: usize = 0;
    while i < s.len()
        invariant
            i <= s@.len(),
            forall|j: int| 0 <= j < i ==> !(#[trigger] s@[j].same_as(id)),
        decreases s@.len() - i,
    {
        if s[i] == *id {
            assert(s@[i as int].same_as(id));
            return true;
        }
        i = i + 1;
    }
    false
}

/// Adds each of `ids` to `s` unless it is there.
fn add_each(s: &mut Vec<TemplateId>, ids: &Vec<TemplateId>)
    ensures
        final(s)@ == add_ids(old(s)@, ids@),
{
    let ghost start = s@;
    let mut i: usize = 0;
    while i < ids.len()
        invariant
            i <= ids@.len(),
            s@ == add_ids(start, ids@.subrange(0, i as int)),
        decreases ids@.len() - i,
    {
        assert(ids@.subrange(0, i + 1).drop_last() =~= ids@.subrange(0, i as int));
        if !find_id(s, &ids[i]) {
            s.push(ids[i].duplicate());
        }
        i = i + 1;
    }
    assert(ids@.subrange(0, i as int) =~= ids@);
}

impl BuildCache {
    /// The position of the build kept under `hash`.
    fn find(&self, hash: &String) -> (r: Option<usize>)
        requires
            unique_keys(self.entries()),
        ensures
            match r {
                Some(i) => i < self.entries@.len() && has_key(self.entries(), hash@)
                    && key_pos(self.entries(), hash@) == i,
                None => !has_key(self.entries(), hash@),
            },
    {
        let r = position_of(&self.entries, hash);
        proof {
            match r {
                Some(i) => {
                    assert(self.entries()[i as int].0 == hash@);
                    lemma_found(self.entries(), hash@, i as int);
                },
                None => {
                    if has_key(self.entries(), hash@) {
                        let k = key_pos(self.entries(), hash@);
                        assert(self.entries@[k].0@ == hash@);
                    }
                },
            }
        }
        r
    }

    /// Check if a template whose source now hashes to `current_hash` needs
    /// rebuilding: when nothing was built for it, when its last build
    /// failed, or when its source changed. A decision that no rebuild is
    /// needed counts as a cache hit. Dependencies are not consulted: no
    /// file is taken as modified since the build.
    pub fn needs_rebuild(&mut self, template_id: &TemplateId, current_hash: &str) -> (r: RebuildDecision)
        requires
            old(self).wf(),
            rebuild_decision(old(self).built(*template_id), current_hash@) is NotRequired ==> old(self).cache_hits() < u64::MAX,
        ensures
            final(self).wf(),
            r == rebuild_decision(old(self).built(*template_id), current_hash@),
            final(self).entries() == old(self).entries(),
            final(self).dependents() == old(self).dependents(),
            final(self).total_builds() == old(self).total_builds(),
            final(self).total_build_nanos() == old(self).total_build_nanos(),
            final(self).cache_hits() == old(self).cache_hits() + if r is NotRequired { 1int } else { 0int },
            final(self).incremental_rebuilds() == old(self).incremental_rebuilds(),
            final(self).full_rebuilds() == old(self).full_rebuilds(),
    {
        let hash = template_id.hash();
        match self.find(&hash) {
            Some(i) => {
                proof {
                    lemma_key_pos(self.entries(), i as int);
                }
                if self.entries[i].1.has_errors {
                    return RebuildDecision::Required(RebuildReason::PreviousError);
                }
                let current = current_hash.to_owned();
                if self.entries[i].1.source_hash != current {
                    return RebuildDecision::Required(RebuildReason::SourceChanged);
                }
                self.stats.cache_hits = self.stats.cache_hits + 1;
                RebuildDecision::NotRequired
            },
            None => RebuildDecision::Required(RebuildReason::NoCacheEntry),
        }
    }

    /// The templates kept under the hashes `hs`.
    fn ids_under(&self, hs: &Vec<String>) -> (r: Vec<TemplateId>)
        requires
            unique_keys(self.entries()),
        ensures
            r@ == ids_kept(self.entries(), texts(hs@)),
    {
        let mut r: Vec<TemplateId> = Vec::new();
        let mut i: usize = 0;
        while i < hs.len()
            invariant
                unique_keys(self.entries()),
                i <= hs@.len(),
                r@ == ids_kept(self.entries(), texts(hs@.subrange(0, i as int))),
            decreases hs@.len() - i,
        {
            proof {
                assert(texts(hs@.subrange(0, i + 1)).drop_last() =~= texts(hs@.subrange(0, i as int)));
                assert(texts(hs@.subrange(0, i + 1)).last() == hs@[i as int]@);
            }
            match self.find(&hs[i]) {
                Some(j) => {
                    proof {
                        lemma_key_pos(self.entries(), j as int);
                    }
                    r.push(self.entries[j].1.template_id.duplicate());
                },
                None => {},
            }
            i = i + 1;
        }
        assert(hs@.subrange(0, i as int) =~= hs@);
        r
    }

    /// Get all templates affected by a change of the file `file_path`: those
    /// whose kept builds depend on it.
    pub fn get_affected_templates(&self, file_path: &str) -> (r: Vec<TemplateId>)
        requires
            self.wf(),
        ensures
            r@ == affected_by(self.entries(), self.dependents(), file_path@),
    {
        let key = file_path.to_owned();
        let fd = &self.file_dependents;
        match position_of(fd, &key) {
            Some(i) => {
                proof {
                    assert(self.dependents()[i as int].0 == key@);
                    lemma_found(self.dependents(), key@, i as int);
                }
                self.ids_under(&fd[i].1)
            },
            None => {
                proof {
                    if has_key(self.dependents(), key@) {
                        let k = key_pos(self.dependents(), key@);
                        assert(fd@[k].0@ == key@);
                    }
                }
                Vec::new()
            },
        }
    }

    /// The templates of the builds defined in the file `f`.
    fn ids_defined_in(&self, f: &String) -> (r: Vec<TemplateId>)
        ensures
            r@ == ids_in_file(self.entries(), f@),
    {
        let mut r: Vec<TemplateId> = Vec::new();
        let mut i: usize = 0;
        while i < self.entries.len()
            invariant
                i <= self.entries@.len(),
                r@ == ids_in_file(self.entries().subrange(0, i as int), f@),
            decreases self.entries@.len() - i,
        {
            assert(self.entries().subrange(0, i + 1).drop_last() =~= self.entries().subrange(0, i as int));
            if self.entries[i].1.template_id.file == *f {
                r.push(self.entries[i].1.template_id.duplicate());
            }
            i = i + 1;
        }
        assert(self.entries().subrange(0, i as int) =~= self.entries());
        r
    }

    /// Get templates that need rebuilding after `changed_files` changed:
    /// those defined in a changed file, and apart from them those whose
    /// builds depend on one; each once. A non-empty set counts as an
    /// incremental rebuild.
    pub fn get_rebuild_set(&mut self, changed_files: &[String]) -> (r: RebuildSet)
        requires
            old(self).wf(),
            old(self).incremental_rebuilds() < u64::MAX,
        ensures
            final(self).wf(),
            r.direct_changes@ == direct_ids(old(self).entries(), texts(changed_files@)),
            r.dependency_changes@ == without_ids(
                dependent_ids(old(self).entries(), old(self).dependents(), texts(changed_files@)),
                r.direct_changes@,
            ),
            r.total_affected == r.direct_changes@.len() + r.dependency_changes@.len(),
            r.total_affected <= old(self).entries().len(),
            final(self).incremental_rebuilds() == old(self).incremental_rebuilds() + if r.total_affected
                > 0 {
                1int
            } else {
                0int
            },
            final(self).entries() == old(self).entries(),
            final(self).dependents() == old(self).dependents(),
            final(self).total_builds() == old(self).total_builds(),
            final(self).total_build_nanos() == old(self).total_build_nanos(),
            final(self).cache_hits() == old(self).cache_hits(),
            final(self).full_rebuilds() == old(self).full_rebuilds(),
    {
        let mut direct: Vec<TemplateId> = Vec::new();
        let mut dependent: Vec<TemplateId> = Vec::new();
        let mut i: usize = 0;
        while i < changed_files.len()
            invariant
                self.wf(),
                i <= changed_files@.len(),
                direct@ == direct_ids(self.entries(), texts(changed_files@.subrange(0, i as int))),
                dependent@ == dependent_ids(self.entries(), self.dependents(), texts(changed_files@.subrange(0, i as int))),
            decreases changed_files@.len() - i,
        {
            proof {
                assert(texts(changed_files@.subrange(0, i + 1)).drop_last() =~= texts(changed_files@.subrange(0, i as int)));
                assert(texts(changed_files@.subrange(0, i + 1)).last() == changed_files@[i as int]@);
            }
            let in_file = self.ids_defined_in(&changed_files[i]);
            add_each(&mut direct, &in_file);
            let affected = self.get_affected_templates(changed_files[i].as_str());
            add_each(&mut dependent, &affected);
            i = i + 1;
        }
        assert(changed_files@.subrange(0, i as int) =~= changed_files@);
        let mut rest: Vec<TemplateId> = Vec::new();
        let mut k: usize = 0;
        while k < dependent.len()
            invariant
                k <= dependent@.len(),
                rest@ == without_ids(dependent@.subrange(0, k as int), direct@),
                rest@.len() <= k,
            decreases dependent@.len() - k,
        {
            assert(dependent@.subrange(0, k + 1).drop_last() =~= dependent@.subrange(0, k as int));
            if !find_id(&direct, &dependent[k]) {
                rest.push(dependent[k].duplicate());
            }
            k = k + 1;
        }
        assert(dependent@.subrange(0, k as int) =~= dependent@);
        let kept = self.entries.len();
        proof {
            lemma_direct_built(self.entries(), texts(changed_files@));
            lemma_dependent_built(self.entries(), self.dependents(), texts(changed_files@));
            lemma_rebuild_count(self.entries(), direct@, dependent@);
            assert(rest@ == without_ids(dependent@, direct@));
            assert(self.entries().len() == self.entries@.len());
            assert(direct@.len() + rest@.len() <= kept);
        }
        let total = direct.len() + rest.len();
        if total > 0 {
            self.stats.incremental_rebuilds = self.stats.incremental_rebuilds + 1;
        }
        RebuildSet { direct_changes: direct, dependency_changes: rest, total_affected: total }
    }

    /// Clear the build cache: builds and dependents go; the counts stay.
    pub fn clear(&mut self)
        ensures
            old(self).wf() ==> final(self).wf(),
            final(self).entries().len() == 0,
            final(self).dependents().len() == 0,
            final(self).total_builds() == old(self).total_builds(),
            final(self).total_build_nanos() == old(self).total_build_nanos(),
            final(self).cache_hits() == old(self).cache_hits(),
            final(self).incremental_rebuilds() == old(self).incremental_rebuilds(),
            final(self).full_rebuilds() == old(self).full_rebuilds(),
    {
        self.entries.clear();
        self.file_dependents.clear();
        assert(self.entries() =~= Seq::<(Seq<char>, BuildModel)>::empty());
        assert(self.dependents() =~= Seq::<(Seq<char>, Seq<Seq<char>>)>::empty());
    }

    /// Get build statistics: the counts, the average build time (the total
    /// divided by the number of builds taken as a `u32`), the number of
    /// builds kept and of those that failed.
    pub fn stats(&self) -> (r: BuildStatistics)
        requires
            self.wf(),
            self.total_builds() == 0 || self.total_builds() % 4294967296 != 0,
        ensures
            r.total_builds == self.total_builds(),
            r.cache_hits == self.cache_hits(),
            r.incremental_rebuilds == self.incremental_rebuilds(),
            r.full_rebuilds == self.full_rebuilds(),
            duration_nanos(r.average_build_time) == if self.total_builds() > 0 {
                self.total_build_nanos() / (self.total_builds() % 4294967296) as nat
            } else {
                0
            },
            r.total_entries == self.entries().len(),
            r.error_entries == failed_count(self.entries()),
    {
        let mut failed: usize = 0;
        let mut i: usize = 0;
        while i < self.entries.len()
            invariant
                i <= self.entries@.len(),
                failed == failed_count(self.entries().subrange(0, i as int)),
                failed <= i,
            decreases self.entries@.len() - i,
        {
            assert(self.entries().subrange(0, i + 1).drop_last() =~= self.entries().subrange(0, i as int));
            if self.entries[i].1.has_errors {
                failed = failed + 1;
            }
            i = i + 1;
        }
        assert(self.entries().subrange(0, i as int) =~= self.entries());
        let builds = self.stats.total_builds;
        let average = if builds > 0 {
            let divisor: u128 = (builds % 4294967296) as u128;
            let avg: u128 = self.stats.total_build_nanos / divisor;
            assert(avg <= self.stats.total_build_nanos) by (nonlinear_arith)
                requires
                    avg == self.stats.total_build_nanos / divisor,
                    divisor > 0,
            ;
            duration_from_nanos(avg)
        } else {
            duration_from_nanos(0)
        };
        BuildStatistics {
            total_builds: builds,
            cache_hits: self.stats.cache_hits,
            incremental_rebuilds: self.stats.incremental_rebuilds,
            full_rebuilds: self.stats.full_rebuilds,
            average_build_time: average,
            total_entries: self.entries.len(),
            error_entries: failed,
        }
    }

    /// Prune old entries: builds made `max_age` or longer ago go; the others
    /// stay, in their order. Which go depends on the clock. The dependents
    /// are kept as they are.
    pub fn prune_old_entries(&mut self, max_age: Duration)
        requires
            old(self).wf(),
        ensures
            final(self).wf(),
            final(self).entries().len() <= old(self).entries().len(),
            exists|ages: Seq<nat>|
                ages.len() == old(self).entries().len() && final(self).entries() == #[trigger] fresh_entries(
                    old(self).entries(),
                    ages,
                    duration_nanos(max_age),
                ),
            forall|k: Seq<char>| #[trigger] value_of(final(self).entries(), k) is Some ==> value_of(
                final(self).entries(),
                k,
            ) == value_of(old(self).entries(), k),
            final(self).dependents() == old(self).dependents(),
            final(self).total_builds() == old(self).total_builds(),
            final(self).total_build_nanos() == old(self).total_build_nanos(),
            final(self).cache_hits() == old(self).cache_hits(),
            final(self).incremental_rebuilds() == old(self).incremental_rebuilds(),
            final(self).full_rebuilds() == old(self).full_rebuilds(),
    {
        let now = instant_now();
        let mut kept: Vec<(String, BuildEntry)> = Vec::new();
        let mut old_entries: Vec<(String, BuildEntry)> = Vec::new();
        std::mem::swap(&mut old_entries, &mut self.entries);
        let ghost before = entries_view(old_entries@);
        let mut remaining = old_entries;
        let ghost mut taken: Seq<int> = Seq::empty();
        let ghost mut ages: Seq<nat> = Seq::empty();
        let mut i: usize = 0;
        let n = remaining.len();
        while remaining.len() > 0
            invariant
                unique_keys(before),
                i + remaining@.len() == n,
                n == before.len(),
                entries_view(remaining@) == before.subrange(i as int, n as int),
                kept@.len() <= i,
                taken.len() == kept@.len(),
                forall|a: int| 0 <= a < taken.len() ==> 0 <= #[trigger] taken[a] < i,
                forall|a: int, b: int| 0 <= a < b < taken.len() ==> #[trigger] taken[a] < #[trigger] taken[b],
                forall|a: int| 0 <= a < taken.len() ==> entries_view(kept@)[a] == before[#[trigger] taken[a]],
                ages.len() == i,
                entries_view(kept@) == fresh_entries(before.subrange(0, i as int), ages, duration_nanos(max_age)),
            decreases remaining@.len(),
        {
            let ghost rem_before = remaining@;
            let entry = remaining.remove(0);
            assert(entries_view(remaining@) =~= before.subrange(i + 1, n as int)) by {
                assert forall|j: int| 0 <= j < remaining@.len() implies entries_view(remaining@)[j]
                    == before.subrange(i + 1, n as int)[j] by {
                    assert(remaining@[j] == rem_before[j + 1]);
                    assert(entries_view(rem_before)[j + 1] == before.subrange(i as int, n as int)[j + 1]);
                }
            }
            assert(entries_view(rem_before)[0] == before[i as int]);
            let age = duration_since(&now, &entry.1.last_build);
            let ghost kept_before = entries_view(kept@);
            let ghost ages_before = ages;
            proof {
                assert(before.subrange(0, i + 1).drop_last() =~= before.subrange(0, i as int));
                assert(before.subrange(0, i + 1).last() == before[i as int]);
                ages = ages.push(duration_nanos(age));
                assert(ages.drop_last() =~= ages_before);
            }
            if duration_less(&age, &max_age) {
                let ghost kb = kept@;
                kept.push(entry);
                proof {
                    assert(entries_view(kept@) =~= kept_before.push(before[i as int]));
                    taken = taken.push(i as int);
                    assert forall|a: int| 0 <= a < taken.len() implies entries_view(kept@)[a] == before[#[trigger] taken[a]] by {
                        if a < kb.len() {
                            assert(kept@[a] == kb[a]);
                        }
                    }
                }
            }
            proof {
                let s1 = before.subrange(0, i + 1);
                assert(s1.len() > 0 && ages.len() > 0);
                assert(fresh_entries(s1, ages, duration_nanos(max_age)) == if ages.last() < duration_nanos(max_age) {
                    fresh_entries(before.subrange(0, i as int), ages_before, duration_nanos(max_age)).push(before[i as int])
                } else {
                    fresh_entries(before.subrange(0, i as int), ages_before, duration_nanos(max_age))
                });
            }
            i = i + 1;
        }
        proof {
            assert(before.subrange(0, i as int) =~= before);
        }
        let ghost fresh = entries_view(kept@);
        self.entries = kept;
        assert(self.entries() == fresh);
        assert(ages.len() == before.len() && self.entries() == fresh_entries(before, ages, duration_nanos(max_age)));
        proof {
            let s = self.entries();
            assert forall|a: int, b: int| 0 <= a < b < s.len() implies #[trigger] s[a].0 != #[trigger] s[b].0 by {
                assert(s[a] == before[taken[a]]);
                assert(s[b] == before[taken[b]]);
            }
            assert forall|k: Seq<char>| #[trigger] value_of(s, k) is Some implies value_of(s, k) == value_of(before, k) by {
                let p = key_pos(s, k);
                lemma_key_pos(s, p);
                assert(s[p] == before[taken[p]]);
                lemma_key_pos(before, taken[p]);
            }
        }
    }
}

impl Default for BuildCache {
    fn default() -> (r: Self)
        ensures
            r.wf(),
            r.entries().len() == 0,
            r.dependents().len() == 0,
            r.total_builds() == 0,
            r.cache_hits() == 0,
            r.incremental_rebuilds() == 0,
            r.full_rebuilds() == 0,
            r.total_build_nanos() == 0,
    {
        Self::new()
    }
}

// ----------------------------------------------------------------------------
// Laws
// ----------------------------------------------------------------------------

/// Detaching keeps each file once.
proof fn lemma_detach_all_unique(fd: Seq<(Seq<char>, Seq<Seq<char>>)>, deps: Seq<Seq<char>>, h: Seq<char>)
    requires
        unique_keys(fd),
    ensures
        unique_keys(detach_all(fd, deps, h)),
    decreases deps.len(),
{
    if deps.len() > 0 {
        lemma_detach_all_unique(fd, deps.drop_last(), h);
        let t = detach_all(fd, deps.drop_last(), h);
        let f = deps.last();
        match value_of(t, f) {
            Some(hs) => {
                lemma_drop_key(t, f);
                lemma_put(t, f, without_hash(hs, h));
            },
            None => {},
        }
    }
}

/// After attaching, each file once, and the template hashed `h` is among
/// the dependents of each of `deps`.
proof fn lemma_attach_all_holds(fd: Seq<(Seq<char>, Seq<Seq<char>>)>, deps: Seq<Seq<char>>, h: Seq<char>)
    requires
        unique_keys(fd),
    ensures
        unique_keys(attach_all(fd, deps, h)),
        forall|a: int| 0 <= a < deps.len() ==> (value_of(attach_all(fd, deps, h), #[trigger] deps[a]) matches Some(hs) && hs.contains(h)),
    decreases deps.len(),
{
    if deps.len() > 0 {
        let d0 = deps.drop_last();
        lemma_attach_all_holds(fd, d0, h);
        let t = attach_all(fd, d0, h);
        let f = deps.last();
        let t2 = attach_all(fd, deps, h);
        match value_of(t, f) {
            Some(hs) => {
                lemma_put(t, f, hs.push(h));
                if !hs.contains(h) {
                    assert(hs.push(h)[hs.len() as int] == h);
                }
            },
            None => {
                lemma_put(t, f, seq![h]);
                assert(seq![h][0] == h);
            },
        }
        assert forall|a: int| 0 <= a < deps.len() implies (value_of(t2, #[trigger] deps[a]) matches Some(hs) && hs.contains(h)) by {
            if deps[a] != f {
                assert(d0[a] == deps[a]);
            }
        }
    }
}

/// Among the templates kept under `hs` is the one kept under `h`, when `h`
/// is among them.
proof fn lemma_kept_has(entries: Seq<(Seq<char>, BuildModel)>, hs: Seq<Seq<char>>, h: Seq<char>, e: BuildModel)
    requires
        hs.contains(h),
        value_of(entries, h) == Some(e),
    ensures
        has_id(ids_kept(entries, hs), e.id),
    decreases hs.len(),
{
    let r = ids_kept(entries, hs.drop_last());
    if hs.last() == h {
        assert(ids_kept(entries, hs) == r.push(e.id));
        assert(ids_kept(entries, hs)[r.len() as int].same_as(&e.id));
    } else {
        let j = choose|j: int| 0 <= j < hs.len() && hs[j] == h;
        assert(hs.drop_last()[j] == h);
        lemma_kept_has(entries, hs.drop_last(), h, e);
        let b = choose|b: int| 0 <= b < r.len() && #[trigger] r[b].same_as(&e.id);
        assert(ids_kept(entries, hs)[b] == r[b]);
    }
}

/// After a successful build of `id` from a source hashing to `source_hash`
/// with dependencies `deps`: the same source needs no rebuild, any other
/// source does because it changed, and a change of any of `deps` affects
/// the template.
pub proof fn lemma_build_recorded(
    entries: Seq<(Seq<char>, BuildModel)>,
    fd: Seq<(Seq<char>, Seq<Seq<char>>)>,
    id: TemplateId,
    source_hash: Seq<char>,
    deps: Seq<Seq<char>>,
    nanos: nat,
)
    requires
        unique_keys(entries),
        unique_keys(fd),
    ensures
        ({
            let key = build_key(id);
            let built = BuildModel {
                id,
                build_nanos: nanos,
                source_hash,
                dependencies: deps,
                has_errors: false,
                error: None,
            };
            let entries2 = put(entries, key, built);
            let fd2 = attach_all(detach_all(fd, recorded_deps(entries, key), key), deps, key);
            &&& rebuild_decision(value_of(entries2, key), source_hash) == RebuildDecision::NotRequired
            &&& forall|other: Seq<char>| other != source_hash ==> rebuild_decision(value_of(entries2, key), other)
                == RebuildDecision::Required(RebuildReason::SourceChanged)
            &&& forall|a: int| 0 <= a < deps.len() ==> has_id(affected_by(entries2, fd2, #[trigger] deps[a]), id)
        }),
{
    let key = build_key(id);
    let built = BuildModel { id, build_nanos: nanos, source_hash, dependencies: deps, has_errors: false, error: None };
    let entries2 = put(entries, key, built);
    lemma_put(entries, key, built);
    lemma_detach_all_unique(fd, recorded_deps(entries, key), key);
    let fd1 = detach_all(fd, recorded_deps(entries, key), key);
    lemma_attach_all_holds(fd1, deps, key);
    let fd2 = attach_all(fd1, deps, key);
    assert forall|a: int| 0 <= a < deps.len() implies has_id(affected_by(entries2, fd2, #[trigger] deps[a]), id) by {
        let hs = value_of(fd2, deps[a])->Some_0;
        lemma_kept_has(entries2, hs, key, built);
    }
}

/// After a failed build of `id`, any source needs a rebuild because of the
/// failure.
pub proof fn lemma_error_recorded(
    entries: Seq<(Seq<char>, BuildModel)>,
    id: TemplateId,
    error: Seq<char>,
    nanos: nat,
    current: Seq<char>,
)
    requires
        unique_keys(entries),
    ensures
        rebuild_decision(
            value_of(put(entries, build_key(id), failed_build(value_of(entries, build_key(id)), id, error, nanos)), build_key(id)),
            current,
        ) == RebuildDecision::Required(RebuildReason::PreviousError),
{
    lemma_put(entries, build_key(id), failed_build(value_of(entries, build_key(id)), id, error, nanos));
}

} // verus!
