//! Template cache for the hot reload system: the latest update of each
//! template by its identifier's hash, with a version that counts the updates
//! stored and a note of whether the content changed.

use vstd::prelude::*;
use std::time::{Duration, Instant};

use crate::clock::{duration_since, instant_before, instant_now};
use crate::keyed::{fresh_entries, drop_key, has_key, key_pos, lemma_drop_key, lemma_key_pos, lemma_put, put, unique_keys, value_of};
use crate::performance_monitor::{duration_from_nanos, duration_less, duration_nanos};
use crate::protocol::{TemplateId, TemplateUpdate, UpdateModel, blake3_hex_digest};

verus! {

/// Cache entry for a template
struct CacheEntry {
    update: TemplateUpdate,
    last_accessed: Instant,
    version: u64,
}

/// Template cache for hot reload system
pub struct TemplateCache {
    cache: Vec<(String, CacheEntry)>,
    max_age: Duration,
}

/// Statistics about the cache
pub struct CacheStats {
    /// Total number of entries
    pub total_entries: usize,
    /// Timestamp of oldest entry
    pub oldest_entry: Option<Instant>,
    /// Timestamp of newest entry
    pub newest_entry: Option<Instant>,
}

/// What the cache keeps of an entry: the update and its version.
spec fn entries_view(s: Seq<(String, CacheEntry)>) -> Seq<(Seq<char>, (UpdateModel, u64))> {
    s.map_values(|e: (String, CacheEntry)| (e.0@, (e.1.update@, e.1.version)))
}

/// The version and content change reported when `u` is stored over the
/// entries `s`: the next version and whether the content hash differs, or
/// version 1 and a change for a new template.
pub open spec fn insert_report(s: Seq<(Seq<char>, (UpdateModel, u64))>, u: UpdateModel) -> (u64, bool) {
    match value_of(s, u.hash@) {
        Some(e) => ((e.1 + 1) as u64, e.0.content_hash@ != u.content_hash@),
        None => (1, true),
    }
}

impl TemplateCache {
    /// The cached updates with their versions, by the hash they were
    /// stored under.
    pub closed spec fn entries(&self) -> Seq<(Seq<char>, (UpdateModel, u64))> {
        entries_view(self.cache@)
    }

    /// The age beyond which entries are cleaned up.
    pub closed spec fn max_age(&self) -> Duration {
        self.max_age
    }

    /// No hash is stored twice.
    pub open spec fn wf(&self) -> bool {
        unique_keys(self.entries())
    }

    /// The update cached for `id`, if any.
    pub open spec fn cached(&self, id: TemplateId) -> Option<(UpdateModel, u64)> {
        value_of(self.entries(), blake3_hex_digest(id.id_bytes()))
    }

    /// Create a new template cache, whose entries live an hour.
    pub fn new() -> (r: Self)
        ensures
            r.wf(),
            r.entries().len() == 0,
            duration_nanos(r.max_age()) == 3_600_000_000_000,
    {
        Self::with_max_age(duration_from_nanos(3_600_000_000_000))
    }

    /// Create a new template cache with custom max age
    pub fn with_max_age(max_age: Duration) -> (r: Self)
        ensures
            r.wf(),
            r.entries().len() == 0,
            r.max_age() == max_age,
    {
        let r = TemplateCache { cache: Vec::new(), max_age };
        assert(r.entries() =~= Seq::<(Seq<char>, (UpdateModel, u64))>::empty());
        r
    }

    /// The position of the entry stored under `hash`.
    fn find(&self, hash: &String) -> (r: Option<usize>)
        requires
            self.wf(),
        ensures
            match r {
                Some(i) => i < self.cache@.len() && key_pos(self.entries(), hash@) == i
                    && has_key(self.entries(), hash@),
                None => !has_key(self.entries(), hash@),
            },
    {
        let mut i: usize = 0;
        while i < self.cache.len()
            invariant
                self.wf(),
                i <= self.cache@.len(),
                forall|j: int| 0 <= j < i ==> self.cache@[j].0@ != hash@,
            decreases self.cache@.len() - i,
        {
            if self.cache[i].0 == *hash {
                proof {
                    assert(self.entries()[i as int].0 == hash@);
                    lemma_key_pos(self.entries(), i as int);
                }
                return Some(i);
            }
            i = i + 1;
        }
        proof {
            if has_key(self.entries(), hash@) {
                let k = key_pos(self.entries(), hash@);
                assert(self.cache@[k].0@ == hash@);
            }
        }
        None
    }

    /// Store a template update under its hash. Returns the new version (one
    /// more than the stored one, or 1) and whether the content changed (its
    /// content hash differs from the stored one, or nothing was stored).
    pub fn insert(&mut self, update: TemplateUpdate) -> (r: (u64, bool))
        requires
            old(self).wf(),
            match value_of(old(self).entries(), update.hash@) {
                Some(e) => e.1 < u64::MAX,
                None => true,
            },
        ensures
            final(self).wf(),
            r == insert_report(old(self).entries(), update@),
            final(self).entries() == put(old(self).entries(), update.hash@, (update@, r.0)),
            final(self).max_age() == old(self).max_age(),
    {
        let hash = update.hash.clone();
        let ghost before = self.cache@;
        let ghost u = update@;
        match self.find(&hash) {
            Some(i) => {
                proof {
                    lemma_key_pos(self.entries(), i as int);
                }
                let content_changed = self.cache[i].1.update.content_hash != update.content_hash;
                let version = self.cache[i].1.version + 1;
                proof {
                    lemma_put(self.entries(), hash@, (u, version));
                }
                let entry = CacheEntry { update, last_accessed: instant_now(), version };
                self.cache.set(i, (hash, entry));
                assert(self.entries() =~= put(entries_view(before), hash@, (u, version)));
                (version, content_changed)
            },
            None => {
                proof {
                    lemma_put(self.entries(), hash@, (u, 1u64));
                }
                let entry = CacheEntry { update, last_accessed: instant_now(), version: 1 };
                self.cache.push((hash, entry));
                assert(self.entries() =~= put(entries_view(before), hash@, (u, 1u64)));
                (1, true)
            },
        }
    }

    /// Get a template by its hash, noting the access.
    pub fn get_by_hash(&mut self, hash: &str) -> (r: Option<TemplateUpdate>)
        requires
            old(self).wf(),
        ensures
            final(self).wf(),
            final(self).entries() == old(self).entries(),
            final(self).max_age() == old(self).max_age(),
            match value_of(old(self).entries(), hash@) {
                Some(e) => r matches Some(x) && x@ == e.0,
                None => r is None,
            },
    {
        let key = hash.to_owned();
        match self.find(&key) {
            Some(i) => {
                proof {
                    lemma_key_pos(self.entries(), i as int);
                }
                let ghost before = self.cache@;
                let stamp = instant_now();
                let update = self.cache[i].1.update.duplicate();
                let version = self.cache[i].1.version;
                let mut entry_pair = self.cache.remove(i);
                entry_pair.1.last_accessed = stamp;
                self.cache.insert(i, entry_pair);
                assert(self.entries() =~= entries_view(before));
                Some(update)
            },
            None => None,
        }
    }

    /// Get a template from the cache, noting the access.
    pub fn get(&mut self, id: &TemplateId) -> (r: Option<TemplateUpdate>)
        requires
            old(self).wf(),
        ensures
            final(self).wf(),
            final(self).entries() == old(self).entries(),
            final(self).max_age() == old(self).max_age(),
            match old(self).cached(*id) {
                Some(e) => r matches Some(x) && x@ == e.0,
                None => r is None,
            },
    {
        let hash = id.hash();
        self.get_by_hash(hash.as_str())
    }

    /// The first cached update for the template `id`, whatever hash it is
    /// stored under.
    pub(crate) fn first_for(&self, id: &TemplateId) -> (r: Option<TemplateUpdate>)
        ensures
            match r {
                Some(x) => exists|k: int|
                    0 <= k < self.entries().len() && (#[trigger] self.entries()[k]).1.0.id.same_as(id) && x@
                        == self.entries()[k].1.0 && forall|j: int| 0 <= j < k ==> !self.entries()[j].1.0.id.same_as(id),
                None => forall|k: int| 0 <= k < self.entries().len() ==> !(#[trigger] self.entries()[k]).1.0.id.same_as(id),
            },
    {
        let mut i: usize = 0;
        while i < self.cache.len()
            invariant
                i <= self.cache@.len(),
                forall|j: int| 0 <= j < i ==> !self.entries()[j].1.0.id.same_as(id),
            decreases self.cache@.len() - i,
        {
            if self.cache[i].1.update.id == *id {
                let x = self.cache[i].1.update.duplicate();
                assert(self.entries()[i as int].1.0.id.same_as(id));
                return Some(x);
            }
            i = i + 1;
        }
        None
    }

    /// Check if a template exists in the cache
    pub fn contains(&self, id: &TemplateId) -> (r: bool)
        requires
            self.wf(),
        ensures
            r == (self.cached(*id) is Some),
    {
        let hash = id.hash();
        self.find(&hash).is_some()
    }

    /// Remove a template from the cache, giving back its update.
    pub fn remove(&mut self, id: &TemplateId) -> (r: Option<TemplateUpdate>)
        requires
            old(self).wf(),
        ensures
            final(self).wf(),
            final(self).entries() == drop_key(old(self).entries(), blake3_hex_digest(id.id_bytes())),
            final(self).max_age() == old(self).max_age(),
            match old(self).cached(*id) {
                Some(e) => r matches Some(x) && x@ == e.0,
                None => r is None,
            },
    {
        let hash = id.hash();
        let ghost before = self.cache@;
        proof {
            lemma_drop_key(self.entries(), hash@);
        }
        match self.find(&hash) {
            Some(i) => {
                proof {
                    lemma_key_pos(self.entries(), i as int);
                }
                let (_, entry) = self.cache.remove(i);
                assert(self.entries() =~= drop_key(entries_view(before), hash@));
                Some(entry.update)
            },
            None => None,
        }
    }

    /// Clear all entries from the cache
    pub fn clear(&mut self)
        ensures
            final(self).wf(),
            final(self).entries().len() == 0,
            final(self).max_age() == old(self).max_age(),
    {
        self.cache.clear();
        assert(self.entries() =~= Seq::<(Seq<char>, (UpdateModel, u64))>::empty());
    }

    /// Get the number of cached templates
    pub fn len(&self) -> (r: usize)
        ensures
            r == self.entries().len(),
    {
        self.cache.len()
    }

    /// Check if the cache is empty
    pub fn is_empty(&self) -> (r: bool)
        ensures
            r == (self.entries().len() == 0),
    {
        self.cache.len() == 0
    }

    /// Clean up old entries: those not accessed within the maximum age go;
    /// the others stay in their order. Which go depends on the clock.
    pub fn cleanup(&mut self)
        requires
            old(self).wf(),
        ensures
            final(self).wf(),
            final(self).max_age() == old(self).max_age(),
            final(self).entries().len() <= old(self).entries().len(),
            exists|ages: Seq<nat>|
                ages.len() == old(self).entries().len() && final(self).entries() == #[trigger] fresh_entries(
                    old(self).entries(),
                    ages,
                    duration_nanos(old(self).max_age()),
                ),
            forall|k: Seq<char>| #[trigger] value_of(final(self).entries(), k) is Some ==> value_of(
                final(self).entries(),
                k,
            ) == value_of(old(self).entries(), k),
    {
        let stamp = instant_now();
        let mut kept: Vec<(String, CacheEntry)> = Vec::new();
        let mut old_cache: Vec<(String, CacheEntry)> = Vec::new();
        std::mem::swap(&mut old_cache, &mut self.cache);
        let ghost before = entries_view(old_cache@);
        let mut remaining = old_cache;
        let ghost mut taken: Seq<int> = Seq::empty();
        let ghost mut ages: Seq<nat> = Seq::empty();
        let mut i: usize = 0;
        let n = remaining.len();
        while remaining.len() > 0
            invariant
                unique_keys(before),
                i + remaining@.len() == n,
                n == before.len(),
                entries_view(remaining@) == before.subrange(i as int, n as int),
                kept@.len() <= i,
                taken.len() == kept@.len(),
                forall|a: int| 0 <= a < taken.len() ==> 0 <= #[trigger] taken[a] < i,
                forall|a: int, b: int| 0 <= a < b < taken.len() ==> #[trigger] taken[a] < #[trigger] taken[b],
                forall|a: int| 0 <= a < taken.len() ==> entries_view(kept@)[a] == before[#[trigger] taken[a]],
                ages.len() == i,
                entries_view(kept@) == fresh_entries(before.subrange(0, i as int), ages, duration_nanos(self.max_age)),
            decreases remaining@.len(),
        {
            let ghost rem_before = remaining@;
            let entry = remaining.remove(0);
            assert(entries_view(remaining@) =~= before.subrange(i + 1, n as int)) by {
                assert forall|j: int| 0 <= j < remaining@.len() implies entries_view(remaining@)[j]
                    == before.subrange(i + 1, n as int)[j] by {
                    assert(remaining@[j] == rem_before[j + 1]);
                    assert(entries_view(rem_before)[j + 1] == before.subrange(i as int, n as int)[j + 1]);
                }
            }
            assert(entries_view(rem_before)[0] == before[i as int]);
            let age = duration_since(&stamp, &entry.1.last_accessed);
            let ghost kept_before = entries_view(kept@);
            let ghost ages_before = ages;
            proof {
                assert(before.subrange(0, i + 1).drop_last() =~= before.subrange(0, i as int));
                assert(before.subrange(0, i + 1).last() == before[i as int]);
                ages = ages.push(duration_nanos(age));
                assert(ages.drop_last() =~= ages_before);
            }
            if duration_less(&age, &self.max_age) {
                let ghost kb = kept@;
                kept.push(entry);
                proof {
                    assert(entries_view(kept@) =~= kept_before.push(before[i as int]));
                    taken = taken.push(i as int);
                    assert forall|a: int| 0 <= a < taken.len() implies entries_view(kept@)[a] == before[#[trigger] taken[a]] by {
                        if a < kb.len() {
                            assert(kept@[a] == kb[a]);
                        }
                    }
                }
            }
            proof {
                let s1 = before.subrange(0, i + 1);
                assert(s1.len() > 0 && ages.len() > 0);
                assert(fresh_entries(s1, ages, duration_nanos(self.max_age)) == if ages.last() < duration_nanos(self.max_age) {
                    fresh_entries(before.subrange(0, i as int), ages_before, duration_nanos(self.max_age)).push(before[i as int])
                } else {
                    fresh_entries(before.subrange(0, i as int), ages_before, duration_nanos(self.max_age))
                });
            }
            i = i + 1;
        }
        proof {
            assert(before.subrange(0, i as int) =~= before);
        }
        let ghost fresh = entries_view(kept@);
        self.cache = kept;
        assert(self.entries() == fresh);
        assert(ages.len() == before.len() && self.entries() == fresh_entries(before, ages, duration_nanos(old(self).max_age())));
        proof {
            let s = self.entries();
            assert forall|a: int, b: int| 0 <= a < b < s.len() implies #[trigger] s[a].0 != #[trigger] s[b].0 by {
                assert(s[a] == before[taken[a]]);
                assert(s[b] == before[taken[b]]);
            }
            assert forall|k: Seq<char>| #[trigger] value_of(s, k) is Some implies value_of(s, k) == value_of(before, k) by {
                let p = key_pos(s, k);
                lemma_key_pos(s, p);
                assert(s[p] == before[taken[p]]);
                lemma_key_pos(before, taken[p]);
            }
        }
    }

    /// Get all cached template IDs
    pub fn get_all_ids(&self) -> (r: Vec<TemplateId>)
        ensures
            r@ == self.entries().map_values(|e: (Seq<char>, (UpdateModel, u64))| e.1.0.id),
    {
        let mut r: Vec<TemplateId> = Vec::new();
        let mut i: usize = 0;
        while i < self.cache.len()
            invariant
                i <= self.cache@.len(),
                r@ == self.entries().subrange(0, i as int).map_values(
                    |e: (Seq<char>, (UpdateModel, u64))| e.1.0.id,
                ),
            decreases self.cache@.len() - i,
        {
            r.push(self.cache[i].1.update.id.duplicate());
            assert(self.entries().subrange(0, i + 1).map_values(|e: (Seq<char>, (UpdateModel, u64))| e.1.0.id)
                =~= self.entries().subrange(0, i as int).map_values(|e: (Seq<char>, (UpdateModel, u64))| e.1.0.id).push(
                self.cache@[i as int].1.update.id));
            i = i + 1;
        }
        assert(self.entries().subrange(0, i as int) =~= self.entries());
        r
    }

    /// Get all cached updates
    pub fn get_all_updates(&self) -> (r: Vec<TemplateUpdate>)
        ensures
            r@.map_values(|u: TemplateUpdate| u@) == self.entries().map_values(
                |e: (Seq<char>, (UpdateModel, u64))| e.1.0,
            ),
    {
        let mut r: Vec<TemplateUpdate> = Vec::new();
        let mut i: usize = 0;
        while i < self.cache.len()
            invariant
                i <= self.cache@.len(),
                r@.len() == i,
                forall|j: int| 0 <= j < i ==> (#[trigger] r@[j])@ == self.cache@[j].1.update@,
            decreases self.cache@.len() - i,
        {
            r.push(self.cache[i].1.update.duplicate());
            i = i + 1;
        }
        assert(r@.map_values(|u: TemplateUpdate| u@) =~= self.entries().map_values(
            |e: (Seq<char>, (UpdateModel, u64))| e.1.0,
        ));
        r
    }

    /// Get cache statistics: the number of entries, and the earliest and
    /// latest access among them, if any.
    pub fn stats(&self) -> (r: CacheStats)
        ensures
            r.total_entries == self.entries().len(),
            (r.oldest_entry is Some) == (self.entries().len() > 0),
            (r.newest_entry is Some) == (self.entries().len() > 0),
    {
        let mut oldest: Option<Instant> = None;
        let mut newest: Option<Instant> = None;
        let mut i: usize = 0;
        while i < self.cache.len()
            invariant
                i <= self.cache@.len(),
                (oldest is Some) == (i > 0),
                (newest is Some) == (i > 0),
            decreases self.cache@.len() - i,
        {
            let t = self.cache[i].1.last_accessed;
            oldest = match oldest {
                Some(o) => if instant_before(&t, &o) { Some(t) } else { Some(o) },
                None => Some(t),
            };
            newest = match newest {
                Some(o) => if instant_before(&o, &t) { Some(t) } else { Some(o) },
                None => Some(t),
            };
            i = i + 1;
        }
        CacheStats { total_entries: self.cache.len(), oldest_entry: oldest, newest_entry: newest }
    }
}

/// Storing the same content again reports no change and the next version;
/// storing different content reports a change.
pub proof fn lemma_insert_twice(s: Seq<(Seq<char>, (UpdateModel, u64))>, u: UpdateModel, w: UpdateModel)
    requires
        unique_keys(s),
        w.hash@ == u.hash@,
        insert_report(s, u).0 < u64::MAX,
    ensures
        insert_report(put(s, u.hash@, (u, insert_report(s, u).0)), w) == (
            (insert_report(s, u).0 + 1) as u64,
            u.content_hash@ != w.content_hash@,
        ),
{
    lemma_put(s, u.hash@, (u, insert_report(s, u).0));
}

/// Every stored version is below `bound`.
pub open spec fn versions_below(s: Seq<(Seq<char>, (UpdateModel, u64))>, bound: int) -> bool {
    forall|i: int| 0 <= i < s.len() ==> (#[trigger] s[i]).1.1 < bound
}

/// The entries after storing each of `us` in turn.
pub open spec fn inserted_all(s: Seq<(Seq<char>, (UpdateModel, u64))>, us: Seq<UpdateModel>) -> Seq<(Seq<char>, (UpdateModel, u64))>
    decreases us.len(),
{
    if us.len() == 0 {
        s
    } else {
        let before = inserted_all(s, us.drop_last());
        let u = us.last();
        put(before, u.hash@, (u, insert_report(before, u).0))
    }
}

/// Storing keeps versions below a bound one higher, and the hashes unique.
pub proof fn lemma_insert_bound(s: Seq<(Seq<char>, (UpdateModel, u64))>, u: UpdateModel, bound: int)
    requires
        unique_keys(s),
        versions_below(s, bound),
        1 <= bound < u64::MAX,
    ensures
        unique_keys(put(s, u.hash@, (u, insert_report(s, u).0))),
        versions_below(put(s, u.hash@, (u, insert_report(s, u).0)), bound + 1),
{
    let v = insert_report(s, u).0;
    lemma_put(s, u.hash@, (u, v));
    if has_key(s, u.hash@) {
        lemma_key_pos(s, key_pos(s, u.hash@));
    }
    let s2 = put(s, u.hash@, (u, v));
    assert forall|i: int| 0 <= i < s2.len() implies (#[trigger] s2[i]).1.1 < bound + 1 by {
        if has_key(s, u.hash@) {
            let p = key_pos(s, u.hash@);
            if i != p {
                assert(s2[i] == s[i]);
            } else {
                assert(s[p].1.1 < bound);
                assert(value_of(s, u.hash@) == Some(s[p].1));
                assert(s2[i].1.1 == v);
            }
        } else if i < s.len() {
            assert(s2[i] == s[i]);
        } else {
            assert(s2[i].1.1 == v);
        }
    }
}

impl TemplateCache {
    /// Whether every stored version is below `u64::MAX - n`, so that `n`
    /// more updates can be stored.
    pub fn has_room_for(&self, n: usize) -> (r: bool)
        ensures
            r == versions_below(self.entries(), u64::MAX - n),
    {
        let bound: u64 = u64::MAX - n as u64;
        let mut i: usize = 0;
        while i < self.cache.len()
            invariant
                i <= self.cache@.len(),
                bound == u64::MAX - n,
                forall|j: int| 0 <= j < i ==> (#[trigger] self.entries()[j]).1.1 < bound,
            decreases self.cache@.len() - i,
        {
            if self.cache[i].1.version >= bound {
                assert(self.entries()[i as int].1.1 >= bound);
                return false;
            }
            i = i + 1;
        }
        true
    }
}

} // verus!
