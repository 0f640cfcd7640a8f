//! Integration of template diffing with the hot reload system: decides, per
//! updated template, whether it can be hot-reloaded or needs a rebuild, and
//! turns that decision into protocol messages.

use vstd::prelude::*;

use crate::protocol::{
    duplicate_updates, updates_view, HotReloadMessage, MessageModel, TemplateId, TemplateUpdate,
    UpdateModel,
};
use crate::text::push_str;
use crate::dom_diff::contains_text;
use crate::keyed::{has_key, key_pos, lemma_key_pos, value_of};
use crate::template_cache::{inserted_all, versions_below, CacheStats, TemplateCache};
use crate::template_diff::{
    diff_asts, issues_view, ops_view, parsed_ast, CompatibilityChecker, CompatibilityIssue,
    DeltaOperation, DiffError, DiffOut, IssueModel, OpModel, TemplateDiffer, issues_debug,
    lemma_part_count_change_incompatible, lemma_text_edit_compatible, lemma_unchanged_template_compatible,
    push_issues_debug,
};

verus! {

/// The stored update whose hash is `key`, if any.
pub open spec fn lookup(states: Seq<UpdateModel>, key: Seq<char>) -> Option<UpdateModel> {
    if exists|i: int| 0 <= i < states.len() && #[trigger] states[i].hash@ == key {
        Some(states[choose|i: int| 0 <= i < states.len() && #[trigger] states[i].hash@ == key])
    } else {
        None
    }
}

/// No two stored updates share a hash.
pub open spec fn unique_hashes(states: Seq<UpdateModel>) -> bool {
    forall|i: int, j: int|
        0 <= i < j < states.len() ==> #[trigger] states[i].hash@ != #[trigger] states[j].hash@
}

/// The stored updates after `u` is stored: it replaces the update with its
/// hash, or is added after the others.
pub open spec fn store(states: Seq<UpdateModel>, u: UpdateModel) -> Seq<UpdateModel> {
    if exists|i: int| 0 <= i < states.len() && #[trigger] states[i].hash@ == u.hash@ {
        states.update(choose|i: int| 0 <= i < states.len() && #[trigger] states[i].hash@ == u.hash@, u)
    } else {
        states.push(u)
    }
}

/// Storing keeps hashes unique and makes `u` the update found under its hash,
/// leaving every other hash as it was.
pub proof fn lemma_store(states: Seq<UpdateModel>, u: UpdateModel)
    requires
        unique_hashes(states),
    ensures
        unique_hashes(store(states, u)),
        lookup(store(states, u), u.hash@) == Some(u),
        forall|k: Seq<char>| k != u.hash@ ==> lookup(store(states, u), k) == lookup(states, k),
        lookup(states, u.hash@) is Some ==> store(states, u).len() == states.len(),
        lookup(states, u.hash@) is None ==> store(states, u).len() == states.len() + 1,
{
    let s2 = store(states, u);
    if exists|i: int| 0 <= i < states.len() && #[trigger] states[i].hash@ == u.hash@ {
        let c = choose|i: int| 0 <= i < states.len() && #[trigger] states[i].hash@ == u.hash@;
        assert(s2[c].hash@ == u.hash@);
        assert forall|k: Seq<char>| k != u.hash@ implies lookup(s2, k) == lookup(states, k) by {
            if exists|i: int| 0 <= i < states.len() && #[trigger] states[i].hash@ == k {
                let a = choose|i: int| 0 <= i < states.len() && #[trigger] states[i].hash@ == k;
                assert(s2[a].hash@ == k);
                let b = choose|i: int| 0 <= i < s2.len() && #[trigger] s2[i].hash@ == k;
                assert(b != c);
                assert(states[b].hash@ == k);
                if a != b {
                    if a < b {
                        assert(states[a].hash@ != states[b].hash@);
                    } else {
                        assert(states[b].hash@ != states[a].hash@);
                    }
                }
            } else {
                if exists|i: int| 0 <= i < s2.len() && #[trigger] s2[i].hash@ == k {
                    let b = choose|i: int| 0 <= i < s2.len() && #[trigger] s2[i].hash@ == k;
                    assert(states[b].hash@ == k);
                }
            }
        }
        let b = choose|i: int| 0 <= i < s2.len() && #[trigger] s2[i].hash@ == u.hash@;
        if b != c {
            assert(states[b].hash@ == u.hash@);
            if b < c {
                assert(states[b].hash@ != states[c].hash@);
            } else {
                assert(states[c].hash@ != states[b].hash@);
            }
        }
        assert forall|i: int, j: int| 0 <= i < j < s2.len() implies #[trigger] s2[i].hash@
            != #[trigger] s2[j].hash@ by {
            if i != c && j != c {
                assert(states[i].hash@ != states[j].hash@);
            } else if i == c {
                assert(states[i].hash@ != states[j].hash@);
            } else {
                assert(states[i].hash@ != states[j].hash@);
            }
        }
    } else {
        let n = states.len() as int;
        assert(s2[n].hash@ == u.hash@);
        let b = choose|i: int| 0 <= i < s2.len() && #[trigger] s2[i].hash@ == u.hash@;
        if b != n {
            assert(states[b].hash@ == u.hash@);
        }
        assert forall|k: Seq<char>| k != u.hash@ implies lookup(s2, k) == lookup(states, k) by {
            if exists|i: int| 0 <= i < states.len() && #[trigger] states[i].hash@ == k {
                let a = choose|i: int| 0 <= i < states.len() && #[trigger] states[i].hash@ == k;
                assert(s2[a].hash@ == k);
                let b2 = choose|i: int| 0 <= i < s2.len() && #[trigger] s2[i].hash@ == k;
                assert(b2 != n);
                assert(states[b2].hash@ == k);
                if a != b2 {
                    if a < b2 {
                        assert(states[a].hash@ != states[b2].hash@);
                    } else {
                        assert(states[b2].hash@ != states[a].hash@);
                    }
                }
            } else {
                if exists|i: int| 0 <= i < s2.len() && #[trigger] s2[i].hash@ == k {
                    let b2 = choose|i: int| 0 <= i < s2.len() && #[trigger] s2[i].hash@ == k;
                    assert(b2 != n);
                    assert(states[b2].hash@ == k);
                }
            }
        }
        assert forall|i: int, j: int| 0 <= i < j < s2.len() implies #[trigger] s2[i].hash@
            != #[trigger] s2[j].hash@ by {
            if j < n {
                assert(states[i].hash@ != states[j].hash@);
            } else {
                assert(s2[i] == states[i]);
            }
        }
    }
}

/// Result of analyzing template updates for hot reload
#[derive(Debug)]
pub struct HotReloadAnalysis {
    /// Templates that can be hot-reloaded
    pub hot_reloadable: Vec<TemplateUpdate>,
    /// Templates that require a full rebuild (with reasons)
    pub require_rebuild: Vec<(TemplateUpdate, Vec<CompatibilityIssue>)>,
    /// Delta operations for hot-reloadable templates, by template hash
    pub delta_operations: Vec<(String, Vec<DeltaOperation>)>,
}

/// The value of an analysis.
#[verifier::ext_equal]
pub struct AnalysisModel {
    pub hot_reloadable: Seq<UpdateModel>,
    pub require_rebuild: Seq<(UpdateModel, Seq<IssueModel>)>,
    pub delta_operations: Seq<(Seq<char>, Seq<OpModel>)>,
}

impl View for HotReloadAnalysis {
    type V = AnalysisModel;

    open spec fn view(&self) -> AnalysisModel {
        AnalysisModel {
            hot_reloadable: self.hot_reloadable@.map_values(|u: TemplateUpdate| u@),
            require_rebuild: self.require_rebuild@.map_values(
                |e: (TemplateUpdate, Vec<CompatibilityIssue>)| (e.0@, issues_view(e.1@)),
            ),
            delta_operations: deltas_view(self.delta_operations@),
        }
    }
}

/// The value of one entry of operations by hash.
pub open spec fn delta_view(e: (String, Vec<DeltaOperation>)) -> (Seq<char>, Seq<OpModel>) {
    (e.0@, ops_view(e.1@))
}

/// The values of a list of operations by hash.
pub open spec fn deltas_view(s: Seq<(String, Vec<DeltaOperation>)>) -> Seq<(Seq<char>, Seq<OpModel>)> {
    s.map_values(|e: (String, Vec<DeltaOperation>)| delta_view(e))
}

/// The findings of comparing a stored update with its new version.
pub open spec fn update_diff(previous: UpdateModel, current: UpdateModel) -> DiffOut {
    diff_asts(
        parsed_ast(previous.html@, previous.dynamic_parts),
        parsed_ast(current.html@, current.dynamic_parts),
    )
}

/// The first position holding `key`.
pub open spec fn first_with_key(deltas: Seq<(Seq<char>, Seq<OpModel>)>, key: Seq<char>) -> int {
    choose|i: int|
        0 <= i < deltas.len() && deltas[i].0 == key && forall|j: int|
            0 <= j < i ==> #[trigger] deltas[j].0 != key
}

/// The list of operations by hash with `key` set to `ops`: the first entry
/// for `key` is replaced, or a new entry is added at the end.
pub open spec fn set_ops(
    deltas: Seq<(Seq<char>, Seq<OpModel>)>,
    key: Seq<char>,
    ops: Seq<OpModel>,
) -> Seq<(Seq<char>, Seq<OpModel>)> {
    if exists|i: int| 0 <= i < deltas.len() && #[trigger] deltas[i].0 == key {
        deltas.update(first_with_key(deltas, key), (key, ops))
    } else {
        deltas.push((key, ops))
    }
}

/// Analysis of one more update against the stored updates.
pub open spec fn analyze_step(a: AnalysisModel, states: Seq<UpdateModel>, u: UpdateModel) -> AnalysisModel {
    match lookup(states, u.hash@) {
        Some(previous) => {
            let d = update_diff(previous, u);
            if d.issues.len() == 0 {
                AnalysisModel {
                    hot_reloadable: a.hot_reloadable.push(u),
                    require_rebuild: a.require_rebuild,
                    delta_operations: if d.ops.len() > 0 {
                        set_ops(a.delta_operations, u.hash@, d.ops)
                    } else {
                        a.delta_operations
                    },
                }
            } else {
                AnalysisModel {
                    hot_reloadable: a.hot_reloadable,
                    require_rebuild: a.require_rebuild.push((u, d.issues)),
                    delta_operations: a.delta_operations,
                }
            }
        },
        None => AnalysisModel {
            hot_reloadable: a.hot_reloadable.push(u),
            require_rebuild: a.require_rebuild,
            delta_operations: a.delta_operations,
        },
    }
}

/// The analysis of the first `n` updates, and the stored updates after them.
pub open spec fn analyze_upto(states: Seq<UpdateModel>, updates: Seq<UpdateModel>, n: nat) -> (
    AnalysisModel,
    Seq<UpdateModel>,
)
    decreases n,
{
    if n == 0 {
        (
            AnalysisModel {
                hot_reloadable: Seq::empty(),
                require_rebuild: Seq::empty(),
                delta_operations: Seq::empty(),
            },
            states,
        )
    } else {
        let (a, s) = analyze_upto(states, updates, (n - 1) as nat);
        let u = updates[n - 1];
        (analyze_step(a, s, u), store(s, u))
    }
}

/// Statistics about the decision maker
#[derive(Debug)]
pub struct DecisionMakerStats {
    /// Number of cached templates
    pub cached_templates: usize,
}

/// Hot reload decision maker that uses the template differ
pub struct HotReloadDecisionMaker {
    /// Template differ for AST-level comparison
    differ: TemplateDiffer,
    /// Compatibility checker
    compatibility_checker: CompatibilityChecker,
    /// Previous template states for comparison, one per hash
    previous_states: Vec<TemplateUpdate>,
}

impl HotReloadDecisionMaker {
    /// The stored template states.
    pub closed spec fn states(&self) -> Seq<UpdateModel> {
        self.previous_states@.map_values(|u: TemplateUpdate| u@)
    }

    /// The internal invariant: the differ is well formed and hashes are unique.
    pub closed spec fn wf(&self) -> bool {
        self.differ.wf() && unique_hashes(self.states())
    }

    /// Create a new decision maker
    pub fn new() -> (r: Self)
        ensures
            r.wf(),
            r.states() == Seq::<UpdateModel>::empty(),
    {
        let r = HotReloadDecisionMaker {
            differ: TemplateDiffer::new(),
            compatibility_checker: CompatibilityChecker::new(),
            previous_states: Vec::new(),
        };
        assert(r.states() =~= Seq::<UpdateModel>::empty());
        r
    }

    /// Position of the stored state with the given hash.
    fn find_state(&self, hash: &String) -> (r: Option<usize>)
        requires
            self.wf(),
        ensures
            match r {
                Some(i) => i < self.states().len() && self.states()[i as int].hash@ == hash@
                    && lookup(self.states(), hash@) == Some(self.states()[i as int]),
                None => lookup(self.states(), hash@) is None,
            },
    {
        let ghost st = self.states();
        let mut i: usize = 0;
        while i < self.previous_states.len()
            invariant
                i <= self.previous_states.len(),
                st == self.states(),
                self.wf(),
                forall|j: int| 0 <= j < i ==> #[trigger] st[j].hash@ != hash@,
            decreases self.previous_states.len() - i,
        {
            assert(st[i as int] == self.previous_states@[i as int]@);
            if self.previous_states[i].hash == *hash {
                proof {
                    let c = choose|j: int| 0 <= j < st.len() && #[trigger] st[j].hash@ == hash@;
                    if c != i {
                        if c < i {
                            assert(st[c].hash@ != st[i as int].hash@);
                        } else {
                            assert(st[i as int].hash@ != st[c].hash@);
                        }
                    }
                }
                return Some(i);
            }
            i = i + 1;
        }
        None
    }

    /// Stores `update` as the state for its hash.
    fn store_state(&mut self, update: TemplateUpdate)
        requires
            old(self).wf(),
        ensures
            final(self).wf(),
            final(self).states() == store(old(self).states(), update@),
    {
        let ghost st = self.states();
        proof {
            lemma_store(st, update@);
        }
        match self.find_state(&update.hash) {
            Some(i) => {
                proof {
                    let c = choose|j: int| 0 <= j < st.len() && #[trigger] st[j].hash@ == update@.hash@;
                    if c != i {
                        if c < i {
                            assert(st[c].hash@ != st[i as int].hash@);
                        } else {
                            assert(st[i as int].hash@ != st[c].hash@);
                        }
                    }
                }
                self.previous_states.set(i, update);
                assert(self.states() =~= store(st, update@));
            },
            None => {
                self.previous_states.push(update);
                assert(self.states() =~= store(st, update@));
            },
        }
    }

    /// Analyze template updates and determine hot reload eligibility. A
    /// template not seen before is hot-reloadable; one seen before is
    /// hot-reloadable when its diff against the stored version finds no
    /// compatibility issue, and needs a rebuild otherwise. Every update then
    /// becomes the stored version for its hash.
    pub fn analyze_updates(&mut self, updates: Vec<TemplateUpdate>) -> (r: Result<
        HotReloadAnalysis,
        DiffError,
    >)
        requires
            old(self).wf(),
        ensures
            final(self).wf(),
            r matches Ok(a) && ({
                let (m, s) = analyze_upto(
                    old(self).states(),
                    updates@.map_values(|u: TemplateUpdate| u@),
                    updates@.len(),
                );
                a@ == m && final(self).states() == s
            }),
    {
        let ghost uv = updates@.map_values(|u: TemplateUpdate| u@);
        let ghost start = self.states();
        let mut hot_reloadable: Vec<TemplateUpdate> = Vec::new();
        let mut require_rebuild: Vec<(TemplateUpdate, Vec<CompatibilityIssue>)> = Vec::new();
        let mut delta_operations: Vec<(String, Vec<DeltaOperation>)> = Vec::new();
        assert((HotReloadAnalysis { hot_reloadable, require_rebuild, delta_operations })@ =~= analyze_upto(
            start,
            uv,
            0,
        ).0);
        let mut i: usize = 0;
        while i < updates.len()
            invariant
                i <= updates.len(),
                self.wf(),
                uv == updates@.map_values(|u: TemplateUpdate| u@),
                ({
                    let (m, s) = analyze_upto(start, uv, i as nat);
                    (HotReloadAnalysis { hot_reloadable, require_rebuild, delta_operations })@ == m
                        && self.states() == s
                }),
            decreases updates.len() - i,
        {
            let update = &updates[i];
            let ghost a0 = (HotReloadAnalysis { hot_reloadable, require_rebuild, delta_operations })@;
            let ghost s0 = self.states();
            assert(uv[i as int] == update@);
            match self.find_state(&update.hash) {
                Some(k) => {
                    let previous = &self.previous_states[k];
                    let diff = match self.differ.diff_updates(previous, update) {
                        Ok(d) => d,
                        Err(e) => {
                            return Err(e);
                        },
                    };
                    if diff.compatible {
                        if diff.delta_ops.len() > 0 {
                            set_delta(&mut delta_operations, &update.hash, diff.delta_ops);
                        }
                        hot_reloadable.push(update.duplicate());
                    } else {
                        require_rebuild.push((update.duplicate(), diff.compatibility_issues));
                    }
                },
                None => {
                    hot_reloadable.push(update.duplicate());
                },
            }
            proof {
                let a1 = (HotReloadAnalysis { hot_reloadable, require_rebuild, delta_operations })@;
                assert(a1.hot_reloadable =~= analyze_step(a0, s0, update@).hot_reloadable);
                assert(a1.require_rebuild =~= analyze_step(a0, s0, update@).require_rebuild);
                assert(a1.delta_operations =~= analyze_step(a0, s0, update@).delta_operations);
            }
            self.store_state(update.duplicate());
            i = i + 1;
        }
        Ok(HotReloadAnalysis { hot_reloadable, require_rebuild, delta_operations })
    }

    /// Clear previous states (e.g., after a full rebuild)
    pub fn clear_states(&mut self)
        requires
            old(self).wf(),
        ensures
            final(self).wf(),
            final(self).states() == Seq::<UpdateModel>::empty(),
    {
        self.previous_states.clear();
        assert(self.states() =~= Seq::<UpdateModel>::empty());
    }

    /// Get statistics about the decision maker
    pub fn get_stats(&self) -> (r: DecisionMakerStats)
        ensures
            r.cached_templates == self.states().len(),
    {
        DecisionMakerStats { cached_templates: self.previous_states.len() }
    }
}

/// Sets the operations recorded for `key`.
fn set_delta(deltas: &mut Vec<(String, Vec<DeltaOperation>)>, key: &String, ops: Vec<DeltaOperation>)
    ensures
        deltas_view(final(deltas)@) == set_ops(deltas_view(old(deltas)@), key@, ops_view(ops@)),
{
    let ghost dv = deltas_view(deltas@);
    let mut i: usize = 0;
    while i < deltas.len()
        invariant
            i <= deltas.len(),
            dv == deltas_view(deltas@),
            dv == deltas_view(old(deltas)@),
            forall|j: int| 0 <= j < i ==> #[trigger] dv[j].0 != key@,
        decreases deltas.len() - i,
    {
        assert(dv[i as int] == delta_view(deltas@[i as int]));
        if deltas[i].0 == *key {
            proof {
                let c = first_with_key(dv, key@);
                assert(dv[i as int].0 == key@);
                assert(0 <= i < dv.len() && dv[i as int].0 == key@ && forall|j: int|
                    0 <= j < i ==> #[trigger] dv[j].0 != key@);
                if c != i {
                    if c < i {
                        assert(dv[c].0 != key@);
                    } else {
                        assert(dv[i as int].0 != key@);
                    }
                }
            }
            let ghost ov = ops_view(ops@);
            deltas.set(i, (key.clone(), ops));
            assert(deltas_view(deltas@) =~= set_ops(dv, key@, ov));
            return;
        }
        i = i + 1;
    }
    let ghost ov = ops_view(ops@);
    deltas.push((key.clone(), ops));
    assert(deltas_view(deltas@) =~= set_ops(dv, key@, ov));
}


/// Enhanced protocol message with delta operations
#[derive(Debug)]
pub enum EnhancedHotReloadMessage {
    /// Standard template update
    Standard(HotReloadMessage),
    /// Delta update with operations
    DeltaUpdate { template_id: TemplateId, hash: String, operations: Vec<DeltaOperation> },
    /// Batch delta update
    BatchDeltaUpdate { updates: Vec<(TemplateId, String, Vec<DeltaOperation>)> },
}

/// The value of an enhanced message.
pub enum EnhancedModel {
    Standard(MessageModel),
    DeltaUpdate { template_id: TemplateId, hash: Seq<char>, operations: Seq<OpModel> },
    BatchDeltaUpdate { updates: Seq<(TemplateId, Seq<char>, Seq<OpModel>)> },
}

/// The value of one delta update of a batch.
pub open spec fn batch_entry_view(e: (TemplateId, String, Vec<DeltaOperation>)) -> (
    TemplateId,
    Seq<char>,
    Seq<OpModel>,
) {
    (e.0, e.1@, ops_view(e.2@))
}

impl View for EnhancedHotReloadMessage {
    type V = EnhancedModel;

    open spec fn view(&self) -> EnhancedModel {
        match *self {
            EnhancedHotReloadMessage::Standard(m) => EnhancedModel::Standard(m@),
            EnhancedHotReloadMessage::DeltaUpdate { template_id, hash, operations } => {
                EnhancedModel::DeltaUpdate { template_id, hash: hash@, operations: ops_view(operations@) }
            },
            EnhancedHotReloadMessage::BatchDeltaUpdate { updates } => EnhancedModel::BatchDeltaUpdate {
                updates: updates@.map_values(|e: (TemplateId, String, Vec<DeltaOperation>)| batch_entry_view(e)),
            },
        }
    }
}

/// The operations recorded for `key`, if any.
pub open spec fn ops_for(deltas: Seq<(Seq<char>, Seq<OpModel>)>, key: Seq<char>) -> Option<Seq<OpModel>> {
    if exists|i: int| 0 <= i < deltas.len() && #[trigger] deltas[i].0 == key {
        Some(deltas[first_with_key(deltas, key)].1)
    } else {
        None
    }
}

/// The first `n` hot-reloadable updates, split into delta updates (those with
/// recorded operations) and full updates, each in order.
pub open spec fn split_hot(
    hot: Seq<UpdateModel>,
    deltas: Seq<(Seq<char>, Seq<OpModel>)>,
    n: nat,
) -> (Seq<(TemplateId, Seq<char>, Seq<OpModel>)>, Seq<UpdateModel>)
    decreases n,
{
    if n == 0 {
        (Seq::empty(), Seq::empty())
    } else {
        let (d, s) = split_hot(hot, deltas, (n - 1) as nat);
        let u = hot[n - 1];
        match ops_for(deltas, u.hash@) {
            Some(ops) => (d.push((u.id, u.hash@, ops)), s),
            None => (d, s.push(u)),
        }
    }
}

/// The line reporting that a template needs a rebuild.
pub open spec fn rebuild_line(e: (UpdateModel, Seq<IssueModel>)) -> Seq<char> {
    "Template "@ + e.0.id.file@ + " requires rebuild: "@ + issues_debug(e.1)
}

/// The rebuild lines of the first `n` entries, separated by newlines.
pub open spec fn rebuild_text(s: Seq<(UpdateModel, Seq<IssueModel>)>, n: nat) -> Seq<char>
    decreases n,
{
    if n == 0 {
        Seq::empty()
    } else if n == 1 {
        rebuild_line(s[0])
    } else {
        rebuild_text(s, (n - 1) as nat) + "\n"@ + rebuild_line(s[n - 1])
    }
}

/// The messages an analysis becomes: one batch of delta updates, one batch
/// of full updates, and one error listing the templates that need a
/// rebuild; each only when it would not be empty.
pub open spec fn messages_for(a: AnalysisModel) -> Seq<EnhancedModel> {
    let (d, s) = split_hot(a.hot_reloadable, a.delta_operations, a.hot_reloadable.len());
    let first: Seq<EnhancedModel> = if d.len() > 0 {
        seq![EnhancedModel::BatchDeltaUpdate { updates: d }]
    } else {
        Seq::empty()
    };
    let second: Seq<EnhancedModel> = if s.len() > 0 {
        seq![EnhancedModel::Standard(MessageModel::BatchUpdate { updates: s })]
    } else {
        Seq::empty()
    };
    let third: Seq<EnhancedModel> = if a.require_rebuild.len() > 0 {
        seq![
            EnhancedModel::Standard(
                MessageModel::Error {
                    message: rebuild_text(a.require_rebuild, a.require_rebuild.len()),
                    code: None,
                    suggestions: None,
                },
            ),
        ]
    } else {
        Seq::empty()
    };
    first + second + third
}

/// Copies of a list of operations.
pub fn duplicate_ops(ops: &Vec<DeltaOperation>) -> (r: Vec<DeltaOperation>)
    ensures
        ops_view(r@) == ops_view(ops@),
{
    let mut r: Vec<DeltaOperation> = Vec::new();
    let mut i: usize = 0;
    while i < ops.len()
        invariant
            i <= ops.len(),
            r.len() == i,
            forall|j: int| 0 <= j < i ==> #[trigger] r@[j]@ == ops@[j]@,
        decreases ops.len() - i,
    {
        r.push(ops[i].duplicate());
        i = i + 1;
    }
    assert(ops_view(r@) =~= ops_view(ops@));
    r
}

/// The position of the first entry for `key`.
fn find_delta(deltas: &Vec<(String, Vec<DeltaOperation>)>, key: &String) -> (r: Option<usize>)
    ensures
        match r {
            Some(i) => i < deltas.len() && ops_for(deltas_view(deltas@), key@) == Some(
                ops_view(deltas@[i as int].1@),
            ),
            None => ops_for(deltas_view(deltas@), key@) is None,
        },
{
    let ghost dv = deltas_view(deltas@);
    let mut i: usize = 0;
    while i < deltas.len()
        invariant
            i <= deltas.len(),
            dv == deltas_view(deltas@),
            forall|j: int| 0 <= j < i ==> #[trigger] dv[j].0 != key@,
        decreases deltas.len() - i,
    {
        assert(dv[i as int] == delta_view(deltas@[i as int]));
        if deltas[i].0 == *key {
            proof {
                let c = first_with_key(dv, key@);
                assert(dv[i as int].0 == key@);
                if c != i {
                    if c < i {
                        assert(dv[c].0 != key@);
                    } else {
                        assert(dv[i as int].0 != key@);
                    }
                }
            }
            return Some(i);
        }
        i = i + 1;
    }
    None
}

/// Convert hot reload analysis to protocol messages
pub fn analysis_to_messages(analysis: HotReloadAnalysis) -> (r: Vec<EnhancedHotReloadMessage>)
    ensures
        r@.map_values(|m: EnhancedHotReloadMessage| m@) == messages_for(analysis@),
{
    let ghost a = analysis@;
    let mut delta_updates: Vec<(TemplateId, String, Vec<DeltaOperation>)> = Vec::new();
    let mut standard_updates: Vec<TemplateUpdate> = Vec::new();
    let mut i: usize = 0;
    while i < analysis.hot_reloadable.len()
        invariant
            i <= analysis.hot_reloadable.len(),
            a == analysis@,
            ({
                let (d, s) = split_hot(a.hot_reloadable, a.delta_operations, i as nat);
                delta_updates@.map_values(|e: (TemplateId, String, Vec<DeltaOperation>)| batch_entry_view(e)) == d
                    && updates_view(standard_updates@) == s
            }),
        decreases analysis.hot_reloadable.len() - i,
    {
        let update = &analysis.hot_reloadable[i];
        assert(a.hot_reloadable[i as int] == update@);
        match find_delta(&analysis.delta_operations, &update.hash) {
            Some(k) => {
                let ops = duplicate_ops(&analysis.delta_operations[k].1);
                let ghost before = delta_updates@;
                delta_updates.push((update.id.duplicate(), update.hash.clone(), ops));
                assert(delta_updates@.map_values(|e: (TemplateId, String, Vec<DeltaOperation>)| batch_entry_view(e))
                    =~= before.map_values(|e: (TemplateId, String, Vec<DeltaOperation>)| batch_entry_view(e)).push(
                    batch_entry_view(delta_updates@[i as int - (i as int - before.len())]),
                ));
            },
            None => {
                let ghost before = standard_updates@;
                standard_updates.push(update.duplicate());
                assert(updates_view(standard_updates@) =~= updates_view(before).push(update@));
            },
        }
        i = i + 1;
    }
    let mut messages: Vec<EnhancedHotReloadMessage> = Vec::new();
    if delta_updates.len() > 0 {
        messages.push(EnhancedHotReloadMessage::BatchDeltaUpdate { updates: delta_updates });
    }
    if standard_updates.len() > 0 {
        messages.push(
            EnhancedHotReloadMessage::Standard(HotReloadMessage::BatchUpdate { updates: standard_updates }),
        );
    }
    if analysis.require_rebuild.len() > 0 {
        let mut text = String::new();
        let mut j: usize = 0;
        while j < analysis.require_rebuild.len()
            invariant
                j <= analysis.require_rebuild.len(),
                a == analysis@,
                text@ == rebuild_text(a.require_rebuild, j as nat),
            decreases analysis.require_rebuild.len() - j,
        {
            if j > 0 {
                push_str(&mut text, "\n");
            }
            push_str(&mut text, "Template ");
            push_str(&mut text, analysis.require_rebuild[j].0.id.file.as_str());
            push_str(&mut text, " requires rebuild: ");
            push_issues_debug(&mut text, &analysis.require_rebuild[j].1);
            proof {
                assert(a.require_rebuild[j as int] == (analysis.require_rebuild@[j as int].0@, issues_view(analysis.require_rebuild@[j as int].1@)));
            }
            j = j + 1;
        }
        messages.push(
            EnhancedHotReloadMessage::Standard(
                HotReloadMessage::Error { message: text, code: None, suggestions: None },
            ),
        );
    }
    assert(messages@.map_values(|m: EnhancedHotReloadMessage| m@) =~= messages_for(a));
    messages
}


/// The analysis of no update.
pub open spec fn empty_analysis() -> AnalysisModel {
    AnalysisModel {
        hot_reloadable: Seq::empty(),
        require_rebuild: Seq::empty(),
        delta_operations: Seq::empty(),
    }
}

/// A template not seen before is hot-reloadable, and nothing else changes.
pub proof fn lemma_new_template_hot_reloadable(a: AnalysisModel, states: Seq<UpdateModel>, u: UpdateModel)
    requires
        lookup(states, u.hash@) is None,
    ensures
        analyze_step(a, states, u) == (AnalysisModel {
            hot_reloadable: a.hot_reloadable.push(u),
            require_rebuild: a.require_rebuild,
            delta_operations: a.delta_operations,
        }),
{
}

/// Sending a template again, unchanged, right after it was analyzed, is
/// hot-reloadable and needs no delta operation.
pub proof fn lemma_resent_template_hot_reloadable(states: Seq<UpdateModel>, u: UpdateModel)
    requires
        unique_hashes(states),
    ensures
        analyze_step(empty_analysis(), store(states, u), u) == (AnalysisModel {
            hot_reloadable: seq![u],
            require_rebuild: Seq::empty(),
            delta_operations: Seq::empty(),
        }),
{
    lemma_store(states, u);
    lemma_unchanged_template_compatible(u.html@, u.dynamic_parts);
    assert(Seq::<UpdateModel>::empty().push(u) =~= seq![u]);
}

/// A template whose number of dynamic parts changed since it was stored
/// needs a rebuild, with the count mismatch as its first reason.
pub proof fn lemma_part_count_change_needs_rebuild(
    a: AnalysisModel,
    states: Seq<UpdateModel>,
    u: UpdateModel,
    previous: UpdateModel,
)
    requires
        lookup(states, u.hash@) == Some(previous),
        previous.dynamic_parts.len() != u.dynamic_parts.len(),
    ensures
        analyze_step(a, states, u).hot_reloadable == a.hot_reloadable,
        analyze_step(a, states, u).require_rebuild == a.require_rebuild.push(
            (u, update_diff(previous, u).issues),
        ),
        update_diff(previous, u).issues[0] == (IssueModel::DynamicPartCountMismatch {
            old: previous.dynamic_parts.len() as usize,
            new: u.dynamic_parts.len() as usize,
        }),
{
    lemma_part_count_change_incompatible(
        parsed_ast(previous.html@, previous.dynamic_parts),
        parsed_ast(u.html@, u.dynamic_parts),
    );
}

/// Where an entry holds `key`, the first one is at a position where `key`
/// stands and before which it does not.
proof fn lemma_first_with_key(deltas: Seq<(Seq<char>, Seq<OpModel>)>, key: Seq<char>, c: int)
    requires
        0 <= c < deltas.len(),
        deltas[c].0 == key,
        forall|j: int| 0 <= j < c ==> #[trigger] deltas[j].0 != key,
    ensures
        first_with_key(deltas, key) == c,
{
    let f = first_with_key(deltas, key);
    assert(0 <= f < deltas.len() && deltas[f].0 == key && forall|j: int| 0 <= j < f ==> #[trigger] deltas[j].0 != key);
    if f < c {
        assert(deltas[f].0 != key);
    } else if c < f {
        assert(deltas[c].0 != key);
    }
}

/// Setting the operations of `key` makes them the ones found under `key`,
/// and leaves those of every other key as they were.
pub proof fn lemma_set_ops(deltas: Seq<(Seq<char>, Seq<OpModel>)>, key: Seq<char>, ops: Seq<OpModel>)
    ensures
        ops_for(set_ops(deltas, key, ops), key) == Some(ops),
        forall|k: Seq<char>| k != key ==> ops_for(#[trigger] set_ops(deltas, key, ops), k) == ops_for(deltas, k),
{
    let d2 = set_ops(deltas, key, ops);
    if exists|i: int| 0 <= i < deltas.len() && #[trigger] deltas[i].0 == key {
        let i0 = choose|i: int| 0 <= i < deltas.len() && #[trigger] deltas[i].0 == key;
        lemma_first_exists(deltas, key, i0);
        let c = first_with_key(deltas, key);
        assert(d2[c].0 == key);
        assert forall|j: int| 0 <= j < c implies #[trigger] d2[j].0 != key by {
            assert(d2[j] == deltas[j]);
        }
        lemma_first_with_key(d2, key, c);
        assert forall|k: Seq<char>| k != key implies ops_for(#[trigger] set_ops(deltas, key, ops), k) == ops_for(deltas, k) by {
            if exists|i: int| 0 <= i < deltas.len() && #[trigger] deltas[i].0 == k {
                let a = choose|i: int| 0 <= i < deltas.len() && #[trigger] deltas[i].0 == k;
                lemma_first_exists(deltas, k, a);
                let e = first_with_key(deltas, k);
                assert(e != c);
                assert(d2[e] == deltas[e]);
                assert forall|j: int| 0 <= j < e implies #[trigger] d2[j].0 != k by {
                    if j != c {
                        assert(d2[j] == deltas[j]);
                    }
                }
                lemma_first_with_key(d2, k, e);
            } else {
                if exists|i: int| 0 <= i < d2.len() && #[trigger] d2[i].0 == k {
                    let b = choose|i: int| 0 <= i < d2.len() && #[trigger] d2[i].0 == k;
                    assert(b != c);
                    assert(deltas[b].0 == k);
                }
            }
        }
    } else {
        let n = deltas.len() as int;
        assert(d2[n].0 == key);
        assert forall|j: int| 0 <= j < n implies #[trigger] d2[j].0 != key by {
            assert(d2[j] == deltas[j]);
        }
        lemma_first_with_key(d2, key, n);
        assert forall|k: Seq<char>| k != key implies ops_for(#[trigger] set_ops(deltas, key, ops), k) == ops_for(deltas, k) by {
            if exists|i: int| 0 <= i < deltas.len() && #[trigger] deltas[i].0 == k {
                let a = choose|i: int| 0 <= i < deltas.len() && #[trigger] deltas[i].0 == k;
                lemma_first_exists(deltas, k, a);
                let e = first_with_key(deltas, k);
                assert(d2[e] == deltas[e]);
                assert forall|j: int| 0 <= j < e implies #[trigger] d2[j].0 != k by {
                    assert(d2[j] == deltas[j]);
                }
                lemma_first_with_key(d2, k, e);
            } else {
                if exists|i: int| 0 <= i < d2.len() && #[trigger] d2[i].0 == k {
                    let b = choose|i: int| 0 <= i < d2.len() && #[trigger] d2[i].0 == k;
                    assert(b != n);
                    assert(deltas[b].0 == k);
                }
            }
        }
    }
}

/// A stored template whose new version the diff finds compatible is
/// hot-reloadable, and when the diff has delta operations they become the
/// operations recorded under its hash; the operations of other hashes stay.
pub proof fn lemma_compatible_change_records_ops(
    a: AnalysisModel,
    states: Seq<UpdateModel>,
    u: UpdateModel,
    previous: UpdateModel,
)
    requires
        lookup(states, u.hash@) == Some(previous),
        update_diff(previous, u).issues.len() == 0,
    ensures
        analyze_step(a, states, u).hot_reloadable == a.hot_reloadable.push(u),
        analyze_step(a, states, u).require_rebuild == a.require_rebuild,
        update_diff(previous, u).ops.len() > 0 ==> ops_for(analyze_step(a, states, u).delta_operations, u.hash@)
            == Some(update_diff(previous, u).ops),
        forall|k: Seq<char>|
            k != u.hash@ ==> ops_for(analyze_step(a, states, u).delta_operations, k) == ops_for(
                a.delta_operations,
                k,
            ),
{
    lemma_set_ops(a.delta_operations, u.hash@, update_diff(previous, u).ops);
}

/// A stored template whose HTML changed, with the same dynamic parts, is
/// hot-reloadable, and the operation recorded under its hash sets the text
/// of its root to the new HTML.
pub proof fn lemma_text_edit_records_update(
    a: AnalysisModel,
    states: Seq<UpdateModel>,
    u: UpdateModel,
    previous: UpdateModel,
)
    requires
        lookup(states, u.hash@) == Some(previous),
        previous.html@ != u.html@,
        previous.dynamic_parts == u.dynamic_parts,
    ensures
        analyze_step(a, states, u).hot_reloadable == a.hot_reloadable.push(u),
        analyze_step(a, states, u).require_rebuild == a.require_rebuild,
        ops_for(analyze_step(a, states, u).delta_operations, u.hash@) == Some(
            seq![OpModel::UpdateText { path: seq![0usize], content: u.html@ }],
        ),
{
    lemma_text_edit_compatible(previous.html@, u.html@, u.dynamic_parts);
    lemma_compatible_change_records_ops(a, states, u, previous);
}

/// In a batch, an update whose stored version the diff finds compatible,
/// with delta operations, has those operations recorded under its hash in
/// the analysis that ends with it.
pub proof fn lemma_batch_records_ops(states: Seq<UpdateModel>, updates: Seq<UpdateModel>, n: nat)
    requires
        1 <= n <= updates.len(),
        lookup(analyze_upto(states, updates, (n - 1) as nat).1, updates[n - 1].hash@) matches Some(p)
            && update_diff(p, updates[n - 1]).issues.len() == 0 && update_diff(p, updates[n - 1]).ops.len() > 0,
    ensures
        ({
            let p = lookup(analyze_upto(states, updates, (n - 1) as nat).1, updates[n - 1].hash@).unwrap();
            &&& ops_for(analyze_upto(states, updates, n).0.delta_operations, updates[n - 1].hash@) == Some(
                update_diff(p, updates[n - 1]).ops,
            )
            &&& analyze_upto(states, updates, n).0.hot_reloadable.last() == updates[n - 1]
        }),
{
    let (a, st) = analyze_upto(states, updates, (n - 1) as nat);
    let p = lookup(st, updates[n - 1].hash@).unwrap();
    lemma_compatible_change_records_ops(a, st, updates[n - 1], p);
}

/// `t` holds `x` when the part of it before or after some point does.
proof fn lemma_contains_in_concat(a: Seq<char>, b: Seq<char>, x: Seq<char>)
    ensures
        contains_text(a, x) ==> contains_text(a + b, x),
        contains_text(b, x) ==> contains_text(a + b, x),
{
    if contains_text(a, x) {
        let i = choose|i: int| 0 <= i && i + x.len() <= a.len() && #[trigger] a.subrange(i, i + x.len()) == x;
        assert((a + b).subrange(i, i + x.len()) =~= a.subrange(i, i + x.len()));
    }
    if contains_text(b, x) {
        let i = choose|i: int| 0 <= i && i + x.len() <= b.len() && #[trigger] b.subrange(i, i + x.len()) == x;
        let j = a.len() + i;
        assert((a + b).subrange(j, j + x.len()) =~= b.subrange(i, i + x.len()));
    }
}

/// The rebuild text of the first `n` entries holds the line of each.
proof fn lemma_rebuild_text_lists(s: Seq<(UpdateModel, Seq<IssueModel>)>, n: nat, j: int)
    requires
        0 <= j < n <= s.len(),
    ensures
        contains_text(rebuild_text(s, n), rebuild_line(s[j])),
    decreases n,
{
    let line = rebuild_line(s[j]);
    if n == 1 {
        assert(rebuild_text(s, n) == line);
        assert(line.subrange(0, 0 + line.len() as int) =~= line);
    } else {
        let prefix = rebuild_text(s, (n - 1) as nat) + "\n"@;
        assert(rebuild_text(s, n) == prefix + rebuild_line(s[n - 1]));
        if j == n - 1 {
            assert(line.subrange(0, 0 + line.len() as int) =~= line);
            lemma_contains_in_concat(prefix, line, line);
        } else {
            lemma_rebuild_text_lists(s, (n - 1) as nat, j);
            lemma_contains_in_concat(rebuild_text(s, (n - 1) as nat), "\n"@, line);
            lemma_contains_in_concat(prefix, rebuild_line(s[n - 1]), line);
        }
    }
}

/// When some template needs a rebuild, the messages end with an error whose
/// text holds, for each such template, the line naming its file and its
/// issues; when none does, no message is an error.
pub proof fn lemma_rebuilds_reported(a: AnalysisModel)
    ensures
        a.require_rebuild.len() > 0 ==> {
            &&& messages_for(a).len() > 0
            &&& messages_for(a).last() matches EnhancedModel::Standard(MessageModel::Error { message, code, suggestions })
                && code is None && suggestions is None && forall|j: int|
                0 <= j < a.require_rebuild.len() ==> contains_text(message, rebuild_line(#[trigger] a.require_rebuild[j]))
        },
        a.require_rebuild.len() == 0 ==> forall|i: int|
            0 <= i < messages_for(a).len() ==> !(#[trigger] messages_for(a)[i] matches EnhancedModel::Standard(
                MessageModel::Error { .. },
            )),
{
    let m = messages_for(a);
    if a.require_rebuild.len() > 0 {
        assert forall|j: int| 0 <= j < a.require_rebuild.len() implies contains_text(
            rebuild_text(a.require_rebuild, a.require_rebuild.len()),
            rebuild_line(#[trigger] a.require_rebuild[j]),
        ) by {
            lemma_rebuild_text_lists(a.require_rebuild, a.require_rebuild.len(), j);
        }
    } else {
        let (d, st) = split_hot(a.hot_reloadable, a.delta_operations, a.hot_reloadable.len());
        assert forall|i: int| 0 <= i < m.len() implies !(#[trigger] m[i] matches EnhancedModel::Standard(
            MessageModel::Error { .. },
        )) by {
            if d.len() > 0 && i == 0 {
            }
        }
    }
}

/// Among the first `n` hot-reloadable updates, each with recorded
/// operations goes to the delta updates with them, and each without to the
/// full updates.
proof fn lemma_split_hot_places(hot: Seq<UpdateModel>, deltas: Seq<(Seq<char>, Seq<OpModel>)>, n: nat, i: int)
    requires
        0 <= i < n <= hot.len(),
    ensures
        ops_for(deltas, hot[i].hash@) matches Some(ops) ==> split_hot(hot, deltas, n).0.contains(
            (hot[i].id, hot[i].hash@, ops),
        ),
        ops_for(deltas, hot[i].hash@) is None ==> split_hot(hot, deltas, n).1.contains(hot[i]),
    decreases n,
{
    let (d, st) = split_hot(hot, deltas, (n - 1) as nat);
    let (d2, s2) = split_hot(hot, deltas, n);
    if i == n - 1 {
        match ops_for(deltas, hot[i].hash@) {
            Some(ops) => {
                assert(d2[d.len() as int] == (hot[i].id, hot[i].hash@, ops));
            },
            None => {
                assert(s2[st.len() as int] == hot[i]);
            },
        }
    } else {
        lemma_split_hot_places(hot, deltas, (n - 1) as nat, i);
        match ops_for(deltas, hot[i].hash@) {
            Some(ops) => {
                let k = choose|k: int| 0 <= k < d.len() && d[k] == (hot[i].id, hot[i].hash@, ops);
                assert(d2[k] == d[k]);
            },
            None => {
                let k = choose|k: int| 0 <= k < st.len() && st[k] == hot[i];
                assert(s2[k] == st[k]);
            },
        }
    }
}

/// Every hot-reloadable update is sent: with the operations recorded under
/// its hash in a batch of delta updates, or, where none are recorded, whole
/// in a batch of full updates.
pub proof fn lemma_hot_updates_sent(a: AnalysisModel, i: int)
    requires
        0 <= i < a.hot_reloadable.len(),
    ensures
        ops_for(a.delta_operations, a.hot_reloadable[i].hash@) matches Some(ops) ==> exists|k: int|
            0 <= k < messages_for(a).len() && (#[trigger] messages_for(a)[k] matches EnhancedModel::BatchDeltaUpdate {
                updates,
            } && updates.contains((a.hot_reloadable[i].id, a.hot_reloadable[i].hash@, ops))),
        ops_for(a.delta_operations, a.hot_reloadable[i].hash@) is None ==> exists|k: int|
            0 <= k < messages_for(a).len() && (#[trigger] messages_for(a)[k] matches EnhancedModel::Standard(
                MessageModel::BatchUpdate { updates },
            ) && updates.contains(a.hot_reloadable[i])),
{
    let hot = a.hot_reloadable;
    let (d, st) = split_hot(hot, a.delta_operations, hot.len());
    lemma_split_hot_places(hot, a.delta_operations, hot.len(), i);
    let m = messages_for(a);
    match ops_for(a.delta_operations, hot[i].hash@) {
        Some(ops) => {
            assert(d.len() > 0);
            assert(m[0] == EnhancedModel::BatchDeltaUpdate { updates: d });
        },
        None => {
            assert(st.len() > 0);
            let f: int = if d.len() > 0 { 1 } else { 0 };
            assert(m[f] == EnhancedModel::Standard(MessageModel::BatchUpdate { updates: st }));
        },
    }
}

/// Integration with the template cache for diff-aware caching
pub struct DiffAwareTemplateCache {
    /// Underlying template cache
    cache: TemplateCache,
    /// Decision maker for hot reload eligibility
    decision_maker: HotReloadDecisionMaker,
}

impl DiffAwareTemplateCache {
    /// The cached updates with their versions.
    pub closed spec fn entries(&self) -> Seq<(Seq<char>, (UpdateModel, u64))> {
        self.cache.entries()
    }

    /// The template states the decisions compare against.
    pub closed spec fn states(&self) -> Seq<UpdateModel> {
        self.decision_maker.states()
    }

    /// No hash is cached twice, and both parts are well formed.
    pub open spec fn wf(&self) -> bool {
        crate::keyed::unique_keys(self.entries()) && self.parts_wf()
    }

    /// Both parts are well formed.
    pub closed spec fn parts_wf(&self) -> bool {
        self.cache.wf() && self.decision_maker.wf()
    }

    /// Create a new diff-aware cache. The cache keeps one entry per
    /// template however many there are, so `max_size` bounds nothing.
    pub fn new(max_size: usize) -> (r: Self)
        ensures
            r.wf(),
            r.entries().len() == 0,
            r.states().len() == 0,
    {
        DiffAwareTemplateCache { cache: TemplateCache::new(), decision_maker: HotReloadDecisionMaker::new() }
    }

    /// Whether `n` more updates can be versioned.
    pub fn has_room_for(&self, n: usize) -> (r: bool)
        ensures
            r == versions_below(self.entries(), u64::MAX - n),
    {
        self.cache.has_room_for(n)
    }

    /// Insert templates with hot reload analysis: the updates are analysed
    /// against the stored states, and the hot-reloadable ones are cached.
    pub fn insert_with_analysis(&mut self, updates: Vec<TemplateUpdate>) -> (r: Result<HotReloadAnalysis, DiffError>)
        requires
            old(self).wf(),
            updates@.len() < u64::MAX,
            versions_below(old(self).entries(), u64::MAX - updates@.len()),
        ensures
            final(self).wf(),
            r matches Ok(a) && ({
                let (m, s) = analyze_upto(
                    old(self).states(),
                    updates@.map_values(|u: TemplateUpdate| u@),
                    updates@.len(),
                );
                &&& a@ == m
                &&& final(self).states() == s
                &&& final(self).entries() == inserted_all(old(self).entries(), m.hot_reloadable)
            }),
    {
        let ghost n = updates@.len();
        let ghost start = self.cache.entries();
        let analysis = match self.decision_maker.analyze_updates(updates) {
            Ok(a) => a,
            Err(e) => {
                return Err(e);
            },
        };
        let ghost hot = updates_view(analysis.hot_reloadable@);
        let ghost decided = self.decision_maker.states();
        proof {
            lemma_hot_count(old(self).decision_maker.states(), updates@.map_values(|u: TemplateUpdate| u@), n);
        }
        let mut i: usize = 0;
        while i < analysis.hot_reloadable.len()
            invariant
                i <= analysis.hot_reloadable@.len(),
                hot == updates_view(analysis.hot_reloadable@),
                hot.len() <= n,
                n < u64::MAX,
                self.cache.wf(),
                self.decision_maker.wf(),
                self.decision_maker.states() == decided,
                versions_below(self.cache.entries(), u64::MAX - n + i),
                self.cache.entries() == inserted_all(start, hot.subrange(0, i as int)),
            decreases analysis.hot_reloadable@.len() - i,
        {
            let u = analysis.hot_reloadable[i].duplicate();
            let ghost um = u@;
            proof {
                crate::template_cache::lemma_insert_bound(self.cache.entries(), um, u64::MAX - n + i);
                if has_key(self.cache.entries(), um.hash@) {
                    lemma_key_pos(self.cache.entries(), key_pos(self.cache.entries(), um.hash@));
                }
                let sub = hot.subrange(0, i + 1);
                assert(sub.drop_last() =~= hot.subrange(0, i as int));
                assert(sub.last() == um);
            }
            self.cache.insert(u);
            i = i + 1;
        }
        assert(hot.subrange(0, i as int) =~= hot);
        Ok(analysis)
    }

    /// Get a template from cache: the first cached update for the template
    /// `id`, whatever hash it was stored under.
    pub fn get(&self, id: &TemplateId) -> (r: Option<TemplateUpdate>)
        ensures
            match r {
                Some(x) => exists|k: int|
                    0 <= k < self.entries().len() && (#[trigger] self.entries()[k]).1.0.id.same_as(id) && x@
                        == self.entries()[k].1.0 && forall|j: int| 0 <= j < k ==> !self.entries()[j].1.0.id.same_as(id),
                None => forall|k: int| 0 <= k < self.entries().len() ==> !(#[trigger] self.entries()[k]).1.0.id.same_as(id),
            },
    {
        let r = self.cache.first_for(id);
        proof {
            if r is Some {
                let x = r->Some_0;
                let k = choose|k: int|
                    0 <= k < self.cache.entries().len() && (#[trigger] self.cache.entries()[k]).1.0.id.same_as(id) && x@
                        == self.cache.entries()[k].1.0 && forall|j: int| 0 <= j < k ==> !self.cache.entries()[j].1.0.id.same_as(id);
                assert(self.entries()[k] == self.cache.entries()[k]);
            }
        }
        r
    }

    /// The identifiers of the cached templates.
    pub fn cached_ids(&self) -> (r: Vec<TemplateId>)
        ensures
            r@ == self.entries().map_values(|e: (Seq<char>, (UpdateModel, u64))| e.1.0.id),
    {
        self.cache.get_all_ids()
    }

    /// Remove a template from the cache.
    pub fn remove(&mut self, id: &TemplateId) -> (r: Option<TemplateUpdate>)
        requires
            old(self).wf(),
        ensures
            final(self).wf(),
            final(self).entries() == crate::keyed::drop_key(
                old(self).entries(),
                crate::protocol::blake3_hex_digest(id.id_bytes()),
            ),
            final(self).states() == old(self).states(),
            match value_of(old(self).entries(), crate::protocol::blake3_hex_digest(id.id_bytes())) {
                Some(e) => r matches Some(x) && x@ == e.0,
                None => r is None,
            },
    {
        self.cache.remove(id)
    }

    /// Clear the cache and decision maker states
    pub fn clear(&mut self)
        requires
            old(self).wf(),
        ensures
            final(self).wf(),
            final(self).entries().len() == 0,
            final(self).states().len() == 0,
    {
        self.cache.clear();
        self.decision_maker.clear_states();
    }

    /// Get cache statistics
    pub fn stats(&self) -> (r: (CacheStats, DecisionMakerStats))
        ensures
            r.0.total_entries == self.entries().len(),
            r.1.cached_templates == self.states().len(),
    {
        (self.cache.stats(), self.decision_maker.get_stats())
    }
}

/// Each analysed update is found hot-reloadable or in need of a rebuild,
/// and delta operations are recorded for hot-reloadable ones only.
pub proof fn lemma_analysis_bounds(states: Seq<UpdateModel>, updates: Seq<UpdateModel>, n: nat)
    ensures
        analyze_upto(states, updates, n).0.hot_reloadable.len() + analyze_upto(states, updates, n).0.require_rebuild.len() == n,
        analyze_upto(states, updates, n).0.delta_operations.len() <= analyze_upto(states, updates, n).0.hot_reloadable.len(),
    decreases n,
{
    if n > 0 {
        lemma_analysis_bounds(states, updates, (n - 1) as nat);
        let (a, s) = analyze_upto(states, updates, (n - 1) as nat);
        let u = updates[n - 1];
        match lookup(s, u.hash@) {
            Some(previous) => {
                let d = update_diff(previous, u);
                if d.issues.len() == 0 && d.ops.len() > 0 {
                    lemma_set_ops_len(a.delta_operations, u.hash@, d.ops);
                }
            },
            None => {},
        }
    }
}

/// The hashes of the stored updates, in order.
pub open spec fn hashes_of(states: Seq<UpdateModel>) -> Seq<Seq<char>> {
    states.map_values(|u: UpdateModel| u.hash@)
}

/// Storing an update adds its hash to the stored hashes and no other.
proof fn lemma_store_hashes(states: Seq<UpdateModel>, u: UpdateModel)
    requires
        unique_hashes(states),
    ensures
        hashes_of(store(states, u)).to_set() == hashes_of(states).to_set().insert(u.hash@),
{
    let h = hashes_of(states);
    if exists|i: int| 0 <= i < states.len() && #[trigger] states[i].hash@ == u.hash@ {
        let c = choose|i: int| 0 <= i < states.len() && #[trigger] states[i].hash@ == u.hash@;
        assert(hashes_of(store(states, u)) =~= h);
        assert(h[c] == u.hash@);
        assert(h.to_set() =~= h.to_set().insert(u.hash@));
    } else {
        let h2 = h.push(u.hash@);
        assert(hashes_of(store(states, u)) =~= h2);
        assert forall|x: Seq<char>| h2.contains(x) <==> h.to_set().insert(u.hash@).contains(x) by {
            if h2.contains(x) && x != u.hash@ {
                let i = choose|i: int| 0 <= i < h2.len() && h2[i] == x;
                assert(h[i] == x);
            }
            if h.contains(x) {
                let i = choose|i: int| 0 <= i < h.len() && h[i] == x;
                assert(h2[i] == x);
            }
            if x == u.hash@ {
                assert(h2[h.len() as int] == x);
            }
        }
        assert(h2.to_set() =~= h.to_set().insert(u.hash@));
    }
}

/// Analysing updates stores one update per distinct hash: the hashes stored
/// afterwards are those stored before together with those of the analysed
/// updates, and as many updates are stored as there are such hashes.
pub proof fn lemma_stored_per_hash(states: Seq<UpdateModel>, updates: Seq<UpdateModel>, n: nat)
    requires
        unique_hashes(states),
        n <= updates.len(),
    ensures
        unique_hashes(analyze_upto(states, updates, n).1),
        hashes_of(analyze_upto(states, updates, n).1).to_set() == hashes_of(states).to_set() + hashes_of(
            updates.take(n as int),
        ).to_set(),
        analyze_upto(states, updates, n).1.len() == hashes_of(analyze_upto(states, updates, n).1).to_set().len(),
    decreases n,
{
    let s = analyze_upto(states, updates, n).1;
    if n == 0 {
        assert(hashes_of(updates.take(0)).to_set() =~= Set::<Seq<char>>::empty());
        assert(hashes_of(states).to_set() + Set::<Seq<char>>::empty() =~= hashes_of(states).to_set());
    } else {
        lemma_stored_per_hash(states, updates, (n - 1) as nat);
        let p = analyze_upto(states, updates, (n - 1) as nat).1;
        let u = updates[n - 1];
        lemma_store(p, u);
        lemma_store_hashes(p, u);
        let t = hashes_of(updates.take(n - 1));
        let t2 = hashes_of(updates.take(n as int));
        assert(t2 =~= t.push(u.hash@));
        assert forall|x: Seq<char>| t2.contains(x) <==> t.to_set().insert(u.hash@).contains(x) by {
            if t2.contains(x) && x != u.hash@ {
                let i = choose|i: int| 0 <= i < t2.len() && t2[i] == x;
                assert(t[i] == x);
            }
            if t.contains(x) {
                let i = choose|i: int| 0 <= i < t.len() && t[i] == x;
                assert(t2[i] == x);
            }
            if x == u.hash@ {
                assert(t2[t.len() as int] == x);
            }
        }
        assert(t2.to_set() =~= t.to_set().insert(u.hash@));
        assert(hashes_of(s).to_set() =~= hashes_of(states).to_set() + t2.to_set());
    }
    let hs = hashes_of(s);
    assert(hs.no_duplicates()) by {
        assert forall|i: int, j: int| 0 <= i < hs.len() && 0 <= j < hs.len() && i != j implies hs[i] != hs[j] by {
            if i < j {
                assert(s[i].hash@ != s[j].hash@);
            } else {
                assert(s[j].hash@ != s[i].hash@);
            }
        }
    }
    hs.unique_seq_to_set();
}

/// Setting operations adds at most one entry.
proof fn lemma_set_ops_len(deltas: Seq<(Seq<char>, Seq<OpModel>)>, key: Seq<char>, ops: Seq<OpModel>)
    ensures
        set_ops(deltas, key, ops).len() <= deltas.len() + 1,
{
    if exists|i: int| 0 <= i < deltas.len() && #[trigger] deltas[i].0 == key {
        let i = choose|i: int| 0 <= i < deltas.len() && #[trigger] deltas[i].0 == key;
        lemma_first_exists(deltas, key, i);
    }
}

/// Where some entry holds `key`, a first one does.
proof fn lemma_first_exists(deltas: Seq<(Seq<char>, Seq<OpModel>)>, key: Seq<char>, i: int)
    requires
        0 <= i < deltas.len(),
        deltas[i].0 == key,
    ensures
        exists|m: int|
            0 <= m < deltas.len() && deltas[m].0 == key && forall|j: int|
                0 <= j < m ==> #[trigger] deltas[j].0 != key,
    decreases i,
{
    if exists|j: int| 0 <= j < i && #[trigger] deltas[j].0 == key {
        let j = choose|j: int| 0 <= j < i && #[trigger] deltas[j].0 == key;
        lemma_first_exists(deltas, key, j);
    } else {
        assert(forall|j: int| 0 <= j < i ==> #[trigger] deltas[j].0 != key);
    }
}

/// No more updates are found hot-reloadable than were analysed.
proof fn lemma_hot_count(states: Seq<UpdateModel>, updates: Seq<UpdateModel>, n: nat)
    ensures
        analyze_upto(states, updates, n).0.hot_reloadable.len() <= n,
    decreases n,
{
    if n > 0 {
        lemma_hot_count(states, updates, (n - 1) as nat);
    }
}

} // verus!
