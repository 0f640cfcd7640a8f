//! DOM update support for hot reload: CSS selectors for element paths,
//! the elements whose content is left alone, the options of DOM diffing, the
//! component boundaries that scope updates, and the script that captures DOM
//! state in the browser.

use vstd::prelude::*;
use vstd::multiset::Multiset;
use vstd::utf8::encode_utf8;

use crate::clock::{instant_elapsed, instant_now};
use crate::keyed::{
    drop_key, has_key, key_pos, lemma_drop_key, lemma_key_pos, lemma_put, position_of, put, unique_keys, value_of,
};
use crate::performance_monitor::duration_as_nanos;
use std::time::Instant;
use crate::protocol::{blake3_hex, blake3_hex_digest};
use crate::text::{append_bytes, decimal, has_prefix, has_text, push_decimal, push_str, starts_with_str, str_chars, texts};

verus! {

/// Options for hot reload DOM diffing
pub struct HotReloadDiffOptions {
    /// Whether to preserve input focus during updates
    pub preserve_focus: bool,
    /// Whether to preserve scroll positions
    pub preserve_scroll: bool,
    /// Whether to preserve form state
    pub preserve_form_state: bool,
    /// Whether to animate transitions
    pub animate_transitions: bool,
    /// Custom attributes that should trigger full component re-render
    pub component_triggers: Vec<String>,
    /// Selectors for elements that should never be updated
    pub preserve_selectors: Vec<String>,
    /// Maximum depth for nested component updates
    pub max_update_depth: usize,
}

impl Default for HotReloadDiffOptions {
    fn default() -> (r: Self)
        ensures
            r.preserve_focus,
            r.preserve_scroll,
            r.preserve_form_state,
            !r.animate_transitions,
            texts(r.component_triggers@) == seq!["data-live-view"@, "data-component-id"@],
            texts(r.preserve_selectors@) == seq!["input[type=\"file\"]"@, "video"@, "audio"@],
            r.max_update_depth == 10,
    {
        let mut component_triggers: Vec<String> = Vec::new();
        component_triggers.push("data-live-view".to_owned());
        component_triggers.push("data-component-id".to_owned());
        let mut preserve_selectors: Vec<String> = Vec::new();
        preserve_selectors.push("input[type=\"file\"]".to_owned());
        preserve_selectors.push("video".to_owned());
        preserve_selectors.push("audio".to_owned());
        assert(texts(component_triggers@) =~= seq!["data-live-view"@, "data-component-id"@]);
        assert(texts(preserve_selectors@) =~= seq!["input[type=\"file\"]"@, "video"@, "audio"@]);
        HotReloadDiffOptions {
            preserve_focus: true,
            preserve_scroll: true,
            preserve_form_state: true,
            animate_transitions: false,
            component_triggers,
            preserve_selectors,
            max_update_depth: 10,
        }
    }
}

/// Text selection range
pub struct TextSelection {
    pub start: u32,
    pub end: u32,
    pub direction: String,
}

/// Component boundary information for targeted updates
pub struct ComponentBoundary {
    /// Component identifier
    pub component_id: String,
    /// CSS selector for the component root
    pub root_selector: String,
    /// Whether this component can be updated independently
    pub isolated: bool,
    /// Child component boundaries
    pub children: Vec<ComponentBoundary>,
    /// State preservation data, as JSON text
    pub state_data: Option<String>,
}

/// An edit between two documents, addressed by the child positions that
/// lead from the body to the element.
pub enum PatchOp {
    Replace { path: Vec<usize>, new_html: String },
    UpdateText { path: Vec<usize>, new_text: String },
    SetAttribute { path: Vec<usize>, name: String, value: String },
    RemoveAttribute { path: Vec<usize>, name: String },
    InsertChild { parent_path: Vec<usize>, index: usize, html: String },
    RemoveChild { parent_path: Vec<usize>, index: usize },
    MoveChild { parent_path: Vec<usize>, from_index: usize, to_index: usize },
}

/// The edits between two documents.
pub struct Patch {
    pub ops: Vec<PatchOp>,
}

/// The value of an edit addressed by child positions.
pub enum PathEdit {
    Replace { path: Seq<usize>, new_html: Seq<char> },
    UpdateText { path: Seq<usize>, new_text: Seq<char> },
    SetAttribute { path: Seq<usize>, name: Seq<char>, value: Seq<char> },
    RemoveAttribute { path: Seq<usize>, name: Seq<char> },
    InsertChild { parent_path: Seq<usize>, index: usize, html: Seq<char> },
    RemoveChild { parent_path: Seq<usize>, index: usize },
    MoveChild { parent_path: Seq<usize>, from_index: usize, to_index: usize },
}

impl View for PatchOp {
    type V = PathEdit;

    open spec fn view(&self) -> PathEdit {
        match self {
            PatchOp::Replace { path, new_html } => PathEdit::Replace { path: path@, new_html: new_html@ },
            PatchOp::UpdateText { path, new_text } => PathEdit::UpdateText { path: path@, new_text: new_text@ },
            PatchOp::SetAttribute { path, name, value } => PathEdit::SetAttribute {
                path: path@,
                name: name@,
                value: value@,
            },
            PatchOp::RemoveAttribute { path, name } => PathEdit::RemoveAttribute { path: path@, name: name@ },
            PatchOp::InsertChild { parent_path, index, html } => PathEdit::InsertChild {
                parent_path: parent_path@,
                index: *index,
                html: html@,
            },
            PatchOp::RemoveChild { parent_path, index } => PathEdit::RemoveChild {
                parent_path: parent_path@,
                index: *index,
            },
            PatchOp::MoveChild { parent_path, from_index, to_index } => PathEdit::MoveChild {
                parent_path: parent_path@,
                from_index: *from_index,
                to_index: *to_index,
            },
        }
    }
}

/// A DOM edit addressed by CSS selector, as the browser applies it.
pub enum HotReloadPatchOp {
    Replace { selector: String, html: String },
    UpdateText { selector: String, text: String },
    SetAttribute { selector: String, name: String, value: String },
    RemoveAttribute { selector: String, name: String },
    InsertChild { parent_selector: String, index: usize, html: String },
    RemoveChild { parent_selector: String, index: usize },
    MoveChild { parent_selector: String, from_index: usize, to_index: usize },
}

/// The value of an edit addressed by selector.
pub enum SelectorEdit {
    Replace { selector: Seq<char>, html: Seq<char> },
    UpdateText { selector: Seq<char>, text: Seq<char> },
    SetAttribute { selector: Seq<char>, name: Seq<char>, value: Seq<char> },
    RemoveAttribute { selector: Seq<char>, name: Seq<char> },
    InsertChild { parent_selector: Seq<char>, index: usize, html: Seq<char> },
    RemoveChild { parent_selector: Seq<char>, index: usize },
    MoveChild { parent_selector: Seq<char>, from_index: usize, to_index: usize },
}

impl View for HotReloadPatchOp {
    type V = SelectorEdit;

    open spec fn view(&self) -> SelectorEdit {
        match self {
            HotReloadPatchOp::Replace { selector, html } => SelectorEdit::Replace {
                selector: selector@,
                html: html@,
            },
            HotReloadPatchOp::UpdateText { selector, text } => SelectorEdit::UpdateText {
                selector: selector@,
                text: text@,
            },
            HotReloadPatchOp::SetAttribute { selector, name, value } => SelectorEdit::SetAttribute {
                selector: selector@,
                name: name@,
                value: value@,
            },
            HotReloadPatchOp::RemoveAttribute { selector, name } => SelectorEdit::RemoveAttribute {
                selector: selector@,
                name: name@,
            },
            HotReloadPatchOp::InsertChild { parent_selector, index, html } => SelectorEdit::InsertChild {
                parent_selector: parent_selector@,
                index: *index,
                html: html@,
            },
            HotReloadPatchOp::RemoveChild { parent_selector, index } => SelectorEdit::RemoveChild {
                parent_selector: parent_selector@,
                index: *index,
            },
            HotReloadPatchOp::MoveChild { parent_selector, from_index, to_index } => SelectorEdit::MoveChild {
                parent_selector: parent_selector@,
                from_index: *from_index,
                to_index: *to_index,
            },
        }
    }
}

impl HotReloadPatchOp {
    /// A copy of this edit.
    pub fn duplicate(&self) -> (r: Self)
        ensures
            r@ == self@,
    {
        match self {
            HotReloadPatchOp::Replace { selector, html } => HotReloadPatchOp::Replace {
                selector: selector.clone(),
                html: html.clone(),
            },
            HotReloadPatchOp::UpdateText { selector, text } => HotReloadPatchOp::UpdateText {
                selector: selector.clone(),
                text: text.clone(),
            },
            HotReloadPatchOp::SetAttribute { selector, name, value } => HotReloadPatchOp::SetAttribute {
                selector: selector.clone(),
                name: name.clone(),
                value: value.clone(),
            },
            HotReloadPatchOp::RemoveAttribute { selector, name } => HotReloadPatchOp::RemoveAttribute {
                selector: selector.clone(),
                name: name.clone(),
            },
            HotReloadPatchOp::InsertChild { parent_selector, index, html } => HotReloadPatchOp::InsertChild {
                parent_selector: parent_selector.clone(),
                index: *index,
                html: html.clone(),
            },
            HotReloadPatchOp::RemoveChild { parent_selector, index } => HotReloadPatchOp::RemoveChild {
                parent_selector: parent_selector.clone(),
                index: *index,
            },
            HotReloadPatchOp::MoveChild { parent_selector, from_index, to_index } => HotReloadPatchOp::MoveChild {
                parent_selector: parent_selector.clone(),
                from_index: *from_index,
                to_index: *to_index,
            },
        }
    }
}

/// The edits a browser applies for a hot reload.
pub struct HotReloadPatch {
    pub operations: Vec<HotReloadPatchOp>,
}

/// A patch prepared for sending: its edits grouped by target, the
/// components they touch, and whether reloading the page would be better.
pub struct OptimizedPatch {
    /// The grouped edits
    pub patch: HotReloadPatch,
    /// Components affected by this patch
    pub component_boundaries: Vec<String>,
    /// Whether a full page refresh is recommended
    pub requires_full_refresh: bool,
}

/// What went wrong in a hot reload.
#[derive(Debug)]
pub enum HotReloadError {
    DomDiffingFailed { reason: String },
    ComponentInstanceNotFound { instance_id: String },
    TemplateUpdateFailed { reason: String },
    StatePreservationFailed { reason: String },
    ParseError(String),
    IoError(String),
}

/// The text an error carries.
pub open spec fn error_text(e: HotReloadError) -> Seq<char> {
    match e {
        HotReloadError::DomDiffingFailed { reason } => reason@,
        HotReloadError::ComponentInstanceNotFound { instance_id } => instance_id@,
        HotReloadError::TemplateUpdateFailed { reason } => reason@,
        HotReloadError::StatePreservationFailed { reason } => reason@,
        HotReloadError::ParseError(m) => m@,
        HotReloadError::IoError(m) => m@,
    }
}

impl HotReloadError {
    /// The text the error carries: its reason, instance or message.
    pub fn message(&self) -> (r: String)
        ensures
            r@ == error_text(*self),
    {
        match self {
            HotReloadError::DomDiffingFailed { reason } => reason.clone(),
            HotReloadError::ComponentInstanceNotFound { instance_id } => instance_id.clone(),
            HotReloadError::TemplateUpdateFailed { reason } => reason.clone(),
            HotReloadError::StatePreservationFailed { reason } => reason.clone(),
            HotReloadError::ParseError(m) => m.clone(),
            HotReloadError::IoError(m) => m.clone(),
        }
    }
}

/// The values of edits addressed by selector.
pub open spec fn edits(ops: Seq<HotReloadPatchOp>) -> Seq<SelectorEdit> {
    ops.map_values(|o: HotReloadPatchOp| o@)
}

/// The values of edits addressed by child positions.
pub open spec fn path_edits(ops: Seq<PatchOp>) -> Seq<PathEdit> {
    ops.map_values(|o: PatchOp| o@)
}

/// The text of an optional string.
pub open spec fn opt_view(o: Option<&str>) -> Option<Seq<char>> {
    match o {
        Some(c) => Some(c@),
        None => None,
    }
}

/// The text of an optional string.
pub open spec fn opt_string(o: Option<String>) -> Option<Seq<char>> {
    match o {
        Some(c) => Some(c@),
        None => None,
    }
}

/// The positions an edit is addressed by.
pub open spec fn edit_path(e: PathEdit) -> Seq<usize> {
    match e {
        PathEdit::Replace { path, .. } => path,
        PathEdit::UpdateText { path, .. } => path,
        PathEdit::SetAttribute { path, .. } => path,
        PathEdit::RemoveAttribute { path, .. } => path,
        PathEdit::InsertChild { parent_path, .. } => parent_path,
        PathEdit::RemoveChild { parent_path, .. } => parent_path,
        PathEdit::MoveChild { parent_path, .. } => parent_path,
    }
}

/// No position is the largest `usize`, whose successor has no `usize`.
pub open spec fn path_ok(p: Seq<usize>) -> bool {
    forall|i: int| 0 <= i < p.len() ==> p[i] < usize::MAX
}

/// The selector an edit is addressed by.
pub open spec fn edit_target(e: SelectorEdit) -> Seq<char> {
    match e {
        SelectorEdit::Replace { selector, .. } => selector,
        SelectorEdit::UpdateText { selector, .. } => selector,
        SelectorEdit::SetAttribute { selector, .. } => selector,
        SelectorEdit::RemoveAttribute { selector, .. } => selector,
        SelectorEdit::InsertChild { parent_selector, .. } => parent_selector,
        SelectorEdit::RemoveChild { parent_selector, .. } => parent_selector,
        SelectorEdit::MoveChild { parent_selector, .. } => parent_selector,
    }
}

/// The reason given when an element left alone would be replaced.
pub open spec fn preservation_refusal() -> Seq<char> {
    "Element marked for preservation"@
}

/// Enhanced DOM diffing engine for hot reload: its options and the
/// component boundaries that scope its selectors.
pub struct HotReloadDomDiffer {
    options: HotReloadDiffOptions,
    diff_cache: Vec<(String, CachedDiff)>,
    component_boundaries: Vec<ComponentBoundary>,
}

/// A computed diff kept for reuse: the digests of its two documents, its
/// edits, and when it was kept.
struct CachedDiff {
    source_hash: String,
    target_hash: String,
    patch: HotReloadPatch,
    cached_at: Instant,
}

/// What the cache keeps of a diff.
pub struct CachedDiffModel {
    pub source_hash: Seq<char>,
    pub target_hash: Seq<char>,
    pub edits: Seq<SelectorEdit>,
}

/// The cache key of a diff: the BLAKE3 hex digest of the two documents and
/// the component id, one after the other.
pub open spec fn diff_key(from_html: Seq<char>, to_html: Seq<char>, comp: Option<Seq<char>>) -> Seq<char> {
    blake3_hex_digest(encode_utf8(from_html) + encode_utf8(to_html) + match comp {
        Some(c) => encode_utf8(c),
        None => Seq::empty(),
    })
}

/// What is kept of the diff from `from_html` to `to_html` with `es`.
pub open spec fn kept_diff(from_html: Seq<char>, to_html: Seq<char>, es: Seq<SelectorEdit>) -> CachedDiffModel {
    CachedDiffModel {
        source_hash: blake3_hex_digest(encode_utf8(from_html)),
        target_hash: blake3_hex_digest(encode_utf8(to_html)),
        edits: es,
    }
}

/// The cache after keeping `d` under `key`: an older entry under `key`
/// goes, the new one comes last, and beyond 100 entries the 20 oldest go.
pub open spec fn cache_after(
    entries: Seq<(Seq<char>, CachedDiffModel)>,
    key: Seq<char>,
    d: CachedDiffModel,
) -> Seq<(Seq<char>, CachedDiffModel)> {
    let e = drop_key(entries, key).push((key, d));
    if e.len() > 100 {
        e.subrange(20, e.len() as int)
    } else {
        e
    }
}

// ----------------------------------------------------------------------------
// Selectors
// ----------------------------------------------------------------------------

/// The selector step for a child position.
pub open spec fn nth_child(index: usize) -> Seq<char> {
    ":nth-child("@ + decimal((index + 1) as nat) + ")"@
}

/// The steps of a path joined with ` > `.
pub open spec fn joined_steps(path: Seq<usize>) -> Seq<char>
    decreases path.len(),
{
    if path.len() == 0 {
        Seq::empty()
    } else if path.len() == 1 {
        nth_child(path[0])
    } else {
        joined_steps(path.drop_last()) + " > "@ + nth_child(path.last())
    }
}

/// The selector of the element at `path` from the body.
pub open spec fn path_selector(path: Seq<usize>) -> Seq<char> {
    if path.len() == 0 {
        "body"@
    } else {
        joined_steps(path)
    }
}

/// `s` occurs in `t`.
pub open spec fn contains_text(t: Seq<char>, s: Seq<char>) -> bool {
    exists|i: int| 0 <= i && i + s.len() <= t.len() && #[trigger] t.subrange(i, i + s.len()) == s
}

/// The boundaries by component id.
pub open spec fn boundary_roots(bs: Seq<ComponentBoundary>) -> Seq<(Seq<char>, Seq<char>)> {
    bs.map_values(|b: ComponentBoundary| (b.component_id@, b.root_selector@))
}

/// The selector of the element at `path`, scoped to the root of component
/// `comp` where that component is registered in `roots`.
pub open spec fn selector_for(
    roots: Seq<(Seq<char>, Seq<char>)>,
    path: Seq<usize>,
    comp: Option<Seq<char>>,
) -> Seq<char> {
    match comp {
        Some(c) => match value_of(roots, c) {
            Some(root) => root + " "@ + path_selector(path),
            None => path_selector(path),
        },
        None => path_selector(path),
    }
}

/// One of the preserved selectors occurs in `selector`.
pub open spec fn preserved_by(sels: Seq<Seq<char>>, selector: Seq<char>) -> bool {
    exists|i: int| 0 <= i < sels.len() && contains_text(selector, #[trigger] sels[i])
}

/// The edit addressed by selector that an edit addressed by positions
/// becomes; none for a replacement of an element left alone.
pub open spec fn converted(
    roots: Seq<(Seq<char>, Seq<char>)>,
    preserve: Seq<Seq<char>>,
    e: PathEdit,
    comp: Option<Seq<char>>,
) -> Option<SelectorEdit> {
    let sel = selector_for(roots, edit_path(e), comp);
    match e {
        PathEdit::Replace { new_html, .. } => if preserved_by(preserve, sel) {
            None
        } else {
            Some(SelectorEdit::Replace { selector: sel, html: new_html })
        },
        PathEdit::UpdateText { new_text, .. } => Some(SelectorEdit::UpdateText { selector: sel, text: new_text }),
        PathEdit::SetAttribute { name, value, .. } => Some(
            SelectorEdit::SetAttribute { selector: sel, name, value },
        ),
        PathEdit::RemoveAttribute { name, .. } => Some(SelectorEdit::RemoveAttribute { selector: sel, name }),
        PathEdit::InsertChild { index, html, .. } => Some(
            SelectorEdit::InsertChild { parent_selector: sel, index, html },
        ),
        PathEdit::RemoveChild { index, .. } => Some(SelectorEdit::RemoveChild { parent_selector: sel, index }),
        PathEdit::MoveChild { from_index, to_index, .. } => Some(
            SelectorEdit::MoveChild { parent_selector: sel, from_index, to_index },
        ),
    }
}

/// The edits that a sequence of edits becomes, those left out dropped.
pub open spec fn converted_all(
    roots: Seq<(Seq<char>, Seq<char>)>,
    preserve: Seq<Seq<char>>,
    es: Seq<PathEdit>,
    comp: Option<Seq<char>>,
) -> Seq<SelectorEdit>
    decreases es.len(),
{
    if es.len() == 0 {
        Seq::empty()
    } else {
        let prev = converted_all(roots, preserve, es.drop_last(), comp);
        match converted(roots, preserve, es.last(), comp) {
            Some(m) => prev.push(m),
            None => prev,
        }
    }
}

/// The first component, from the `i`-th registered on, whose root selector
/// begins `sel`.
pub open spec fn owner_from(roots: Seq<(Seq<char>, Seq<char>)>, sel: Seq<char>, i: int) -> Option<Seq<char>>
    decreases roots.len() - i,
{
    if i < 0 || i >= roots.len() {
        None
    } else if has_prefix(sel, roots[i].1) {
        Some(roots[i].0)
    } else {
        owner_from(roots, sel, i + 1)
    }
}

/// The first registered component whose root selector begins `sel`.
pub open spec fn owner(roots: Seq<(Seq<char>, Seq<char>)>, sel: Seq<char>) -> Option<Seq<char>> {
    owner_from(roots, sel, 0)
}

/// `owners` with `o` added at the end unless it is absent or already there.
pub open spec fn with_owner(owners: Seq<Seq<char>>, o: Option<Seq<char>>) -> Seq<Seq<char>> {
    match o {
        Some(c) => if owners.contains(c) {
            owners
        } else {
            owners.push(c)
        },
        None => owners,
    }
}

/// The components that the edits touch, each once, in the order first
/// touched.
pub open spec fn owners_of(roots: Seq<(Seq<char>, Seq<char>)>, es: Seq<SelectorEdit>) -> Seq<Seq<char>>
    decreases es.len(),
{
    if es.len() == 0 {
        Seq::empty()
    } else {
        with_owner(owners_of(roots, es.drop_last()), owner(roots, edit_target(es.last())))
    }
}

/// The targets of the edits, each once, in the order first met.
pub open spec fn targets_of(es: Seq<SelectorEdit>) -> Seq<Seq<char>>
    decreases es.len(),
{
    if es.len() == 0 {
        Seq::empty()
    } else {
        let prev = targets_of(es.drop_last());
        let t = edit_target(es.last());
        if prev.contains(t) {
            prev
        } else {
            prev.push(t)
        }
    }
}

/// The edits aimed at `t`.
pub open spec fn aimed_at(t: Seq<char>) -> spec_fn(SelectorEdit) -> bool {
    |e: SelectorEdit| edit_target(e) == t
}

/// The edits aimed at one of `ts`.
pub open spec fn aimed_in(ts: Seq<Seq<char>>) -> spec_fn(SelectorEdit) -> bool {
    |e: SelectorEdit| ts.contains(edit_target(e))
}

/// For each target of `ts` in turn, the edits of `es` aimed at it, in their
/// order.
pub open spec fn groups(es: Seq<SelectorEdit>, ts: Seq<Seq<char>>) -> Seq<SelectorEdit>
    decreases ts.len(),
{
    if ts.len() == 0 {
        Seq::empty()
    } else {
        groups(es, ts.drop_last()) + es.filter(aimed_at(ts.last()))
    }
}

/// The edits grouped by target: the targets in the order first met, the
/// edits of each in their order.
pub open spec fn grouped(es: Seq<SelectorEdit>) -> Seq<SelectorEdit> {
    groups(es, targets_of(es))
}

/// Filtering by a predicate that every item meets keeps them all.
proof fn lemma_filter_all<A>(s: Seq<A>, p: spec_fn(A) -> bool)
    requires
        forall|i: int| 0 <= i < s.len() ==> p(s[i]),
    ensures
        s.filter(p) == s,
    decreases s.len(),
{
    reveal(Seq::filter);
    if s.len() > 0 {
        lemma_filter_all(s.drop_last(), p);
        assert(p(s[s.len() - 1]));
        assert(s.drop_last().push(s.last()) =~= s);
    }
}

/// Filtering by a predicate that no item meets keeps none.
proof fn lemma_filter_none<A>(s: Seq<A>, p: spec_fn(A) -> bool)
    requires
        forall|i: int| 0 <= i < s.len() ==> !p(s[i]),
    ensures
        s.filter(p) == Seq::<A>::empty(),
    decreases s.len(),
{
    reveal(Seq::filter);
    if s.len() > 0 {
        lemma_filter_none(s.drop_last(), p);
        assert(!p(s[s.len() - 1]));
    } else {
        assert(s =~= Seq::<A>::empty());
    }
}

/// The targets met are distinct.
proof fn lemma_targets_unique(es: Seq<SelectorEdit>)
    ensures
        targets_of(es).no_duplicates(),
    decreases es.len(),
{
    if es.len() > 0 {
        lemma_targets_unique(es.drop_last());
        let prev = targets_of(es.drop_last());
        let t = edit_target(es.last());
        if !prev.contains(t) {
            assert forall|i: int, j: int|
                0 <= i < j < prev.push(t).len() implies prev.push(t)[i] != prev.push(t)[j] by {
                if j == prev.len() {
                    assert(prev[i] == prev.push(t)[i]);
                }
            }
        }
    }
}

/// The target of every edit is among the targets met.
proof fn lemma_targets_cover(es: Seq<SelectorEdit>)
    ensures
        forall|i: int| 0 <= i < es.len() ==> targets_of(es).contains(edit_target(#[trigger] es[i])),
    decreases es.len(),
{
    if es.len() > 0 {
        let prev_es = es.drop_last();
        lemma_targets_cover(prev_es);
        let prev = targets_of(prev_es);
        let t = edit_target(es.last());
        assert forall|i: int| 0 <= i < es.len() implies targets_of(es).contains(edit_target(#[trigger] es[i])) by {
            if i < es.len() - 1 {
                assert(es[i] == prev_es[i]);
                assert(prev.contains(edit_target(prev_es[i])));
                let k = choose|k: int| 0 <= k < prev.len() && prev[k] == edit_target(prev_es[i]);
                if !prev.contains(t) {
                    assert(prev.push(t)[k] == prev[k]);
                }
            } else {
                if !prev.contains(t) {
                    assert(prev.push(t)[prev.len() as int] == t);
                }
            }
        }
    }
}

/// The edits aimed at `ts` with `t` added, `t` not among `ts`, are those
/// aimed at `ts` and those aimed at `t`.
proof fn lemma_aimed_split(es: Seq<SelectorEdit>, ts: Seq<Seq<char>>, t: Seq<char>)
    requires
        !ts.contains(t),
    ensures
        es.filter(aimed_in(ts.push(t))).to_multiset() =~= es.filter(aimed_in(ts)).to_multiset().add(
            es.filter(aimed_at(t)).to_multiset(),
        ),
    decreases es.len(),
{
    broadcast use vstd::seq_lib::group_to_multiset_ensures;
    broadcast use vstd::multiset::group_multiset_axioms;

    if es.len() == 0 {
        reveal(Seq::filter);
        assert(es.to_multiset().len() == 0);
        assert(es.to_multiset() =~= Multiset::<SelectorEdit>::empty());
    } else {
        let x = es.last();
        let rest = es.drop_last();
        lemma_aimed_split(rest, ts, t);
        rest.lemma_filter_push(x, aimed_in(ts.push(t)));
        rest.lemma_filter_push(x, aimed_in(ts));
        rest.lemma_filter_push(x, aimed_at(t));
        assert(rest.push(x) =~= es);
        let tx = edit_target(x);
        if ts.contains(tx) {
            let k = choose|k: int| 0 <= k < ts.len() && ts[k] == tx;
            assert(ts.push(t)[k] == tx);
            assert(tx != t);
        } else if tx == t {
            assert(ts.push(t)[ts.len() as int] == tx);
        } else {
            assert(!ts.push(t).contains(tx)) by {
                if ts.push(t).contains(tx) {
                    let k = choose|k: int| 0 <= k < ts.push(t).len() && ts.push(t)[k] == tx;
                    if k < ts.len() {
                        assert(ts[k] == tx);
                    }
                }
            }
        }
    }
}

/// Concatenating the groups of distinct targets gives the edits aimed at
/// one of them, as many times each.
proof fn lemma_groups_multiset(es: Seq<SelectorEdit>, ts: Seq<Seq<char>>)
    requires
        ts.no_duplicates(),
    ensures
        groups(es, ts).to_multiset() =~= es.filter(aimed_in(ts)).to_multiset(),
    decreases ts.len(),
{
    broadcast use vstd::seq_lib::group_to_multiset_ensures;
    broadcast use vstd::multiset::group_multiset_axioms;

    if ts.len() == 0 {
        lemma_filter_none(es, aimed_in(ts));
        assert(groups(es, ts) =~= Seq::<SelectorEdit>::empty());
    } else {
        let rest = ts.drop_last();
        let t = ts.last();
        assert(rest.no_duplicates());
        assert(!rest.contains(t)) by {
            if rest.contains(t) {
                let k = choose|k: int| 0 <= k < rest.len() && rest[k] == t;
                assert(ts[k] == ts[ts.len() - 1]);
            }
        }
        lemma_groups_multiset(es, rest);
        lemma_aimed_split(es, rest, t);
        assert(rest.push(t) =~= ts);
        vstd::seq_lib::lemma_multiset_commutative(groups(es, rest), es.filter(aimed_at(t)));
    }
}

/// Grouping edits by target keeps every edit, as many times as it came, and
/// so as many edits as there were.
pub proof fn lemma_grouping_keeps_edits(es: Seq<SelectorEdit>)
    ensures
        grouped(es).to_multiset() =~= es.to_multiset(),
        grouped(es).len() == es.len(),
{
    broadcast use vstd::seq_lib::group_to_multiset_ensures;

    lemma_targets_unique(es);
    lemma_targets_cover(es);
    lemma_groups_multiset(es, targets_of(es));
    lemma_filter_all(es, aimed_in(targets_of(es)));
    assert(grouped(es).to_multiset().len() == es.to_multiset().len());
}

/// Whether `s` occurs in `t`.
pub fn contains_str(t: &[char], s: &[char]) -> (r: bool)
    ensures
        r == contains_text(t@, s@),
{
    if s.len() > t.len() {
        return false;
    }
    let mut i: usize = 0;
    while i <= t.len() - s.len()
        invariant
            s.len() <= t.len(),
            i <= t.len() - s.len() + 1,
            forall|k: int| 0 <= k < i ==> #[trigger] t@.subrange(k, k + s@.len()) != s@,
        decreases t.len() - s.len() + 1 - i,
    {
        let mut j: usize = 0;
        let mut same = true;
        while j < s.len() && same
            invariant
                s.len() <= t.len(),
                i + s.len() <= t.len(),
                j <= s.len(),
                same ==> forall|m: int| 0 <= m < j ==> t@[i + m] == s@[m],
                !same ==> j < s.len() && t@[i + j] != s@[j as int],
            decreases s.len() - j + (if same { 1int } else { 0int }),
        {
            if t[i + j] != s[j] {
                same = false;
            } else {
                j = j + 1;
            }
        }
        if same {
            assert(t@.subrange(i as int, i + s@.len()) =~= s@);
            return true;
        }
        assert(t@.subrange(i as int, i + s@.len())[j as int] != s@[j as int]);
        i = i + 1;
    }
    false
}

/// A copy of a patch.
pub fn duplicate_patch(p: &HotReloadPatch) -> (r: HotReloadPatch)
    ensures
        edits(r.operations@) == edits(p.operations@),
{
    let mut operations: Vec<HotReloadPatchOp> = Vec::new();
    let mut i: usize = 0;
    while i < p.operations.len()
        invariant
            i <= p.operations@.len(),
            edits(operations@) == edits(p.operations@).take(i as int),
        decreases p.operations@.len() - i,
    {
        let ghost before = operations@;
        let d = p.operations[i].duplicate();
        operations.push(d);
        proof {
            assert(edits(operations@) =~= edits(before).push(d@));
            assert(edits(p.operations@).take(i + 1) =~= edits(p.operations@).take(i as int).push(
                p.operations@[i as int]@,
            ));
        }
        i = i + 1;
    }
    assert(edits(p.operations@).take(i as int) =~= edits(p.operations@));
    HotReloadPatch { operations }
}

impl HotReloadDomDiffer {
    /// The options.
    pub closed spec fn options(&self) -> HotReloadDiffOptions {
        self.options
    }

    /// The root selector of each registered component.
    pub closed spec fn roots(&self) -> Seq<(Seq<char>, Seq<char>)> {
        boundary_roots(self.component_boundaries@)
    }

    /// The selectors of the elements left alone.
    pub open spec fn preserved(&self) -> Seq<Seq<char>> {
        texts(self.options().preserve_selectors@)
    }

    /// The kept diffs by key, oldest first.
    pub closed spec fn cache(&self) -> Seq<(Seq<char>, CachedDiffModel)> {
        self.diff_cache@.map_values(
            |e: (String, CachedDiff)|
                (
                    e.0@,
                    CachedDiffModel {
                        source_hash: e.1.source_hash@,
                        target_hash: e.1.target_hash@,
                        edits: edits(e.1.patch.operations@),
                    },
                ),
        )
    }

    /// No component is registered twice, no diff kept twice, and no more
    /// than 100 diffs kept.
    pub closed spec fn wf(&self) -> bool {
        &&& unique_keys(self.roots())
        &&& unique_keys(self.cache())
        &&& self.cache().len() <= 100
    }

    /// The diff cache never holds more than 100 diffs.
    pub proof fn lemma_cache_bounded(&self)
        requires
            self.wf(),
        ensures
            self.cache().len() <= 100,
    {
    }

    /// Create a new DOM differ with default options
    pub fn new() -> (r: Self)
        ensures
            r.wf(),
            r.roots().len() == 0,
            r.cache().len() == 0,
    {
        Self::with_options(HotReloadDiffOptions::default())
    }

    /// Create a new DOM differ with custom options
    pub fn with_options(options: HotReloadDiffOptions) -> (r: Self)
        ensures
            r.wf(),
            r.roots().len() == 0,
            r.cache().len() == 0,
            r.options() == options,
    {
        let r = HotReloadDomDiffer { options, diff_cache: Vec::new(), component_boundaries: Vec::new() };
        assert(r.roots() =~= Seq::<(Seq<char>, Seq<char>)>::empty());
        assert(r.cache() =~= Seq::<(Seq<char>, CachedDiffModel)>::empty());
        r
    }

    /// Register a component boundary for targeted updates; it replaces a
    /// boundary of the same component.
    pub fn register_component_boundary(&mut self, boundary: ComponentBoundary)
        requires
            old(self).wf(),
        ensures
            final(self).wf(),
            final(self).roots() == put(old(self).roots(), boundary.component_id@, boundary.root_selector@),
            final(self).options() == old(self).options(),
            final(self).cache() == old(self).cache(),
    {
        let ghost before = self.component_boundaries@;
        let ghost key = boundary.component_id@;
        let ghost root = boundary.root_selector@;
        proof {
            lemma_put(self.roots(), key, root);
        }
        match self.find_boundary(boundary.component_id.as_str()) {
            Some(i) => {
                proof {
                    lemma_key_pos(self.roots(), i as int);
                }
                self.component_boundaries.set(i, boundary);
                assert(self.roots() =~= put(boundary_roots(before), key, root));
            },
            None => {
                self.component_boundaries.push(boundary);
                assert(self.roots() =~= put(boundary_roots(before), key, root));
            },
        }
    }

    /// The number of registered component boundaries.
    pub fn component_count(&self) -> (r: usize)
        ensures
            r == self.roots().len(),
    {
        self.component_boundaries.len()
    }

    /// The number of kept diffs.
    pub fn cached_diff_count(&self) -> (r: usize)
        ensures
            r == self.cache().len(),
    {
        self.diff_cache.len()
    }

    /// Whether a boundary of component `id` is registered.
    pub fn has_component_boundary(&self, id: &str) -> (r: bool)
        requires
            self.wf(),
        ensures
            r == has_key(self.roots(), id@),
    {
        self.find_boundary(id).is_some()
    }

    /// The position of the boundary of component `id`.
    fn find_boundary(&self, id: &str) -> (r: Option<usize>)
        requires
            self.wf(),
        ensures
            match r {
                Some(i) => i < self.component_boundaries@.len() && key_pos(self.roots(), id@) == i
                    && has_key(self.roots(), id@),
                None => !has_key(self.roots(), id@),
            },
    {
        let key = id.to_owned();
        let mut i: usize = 0;
        while i < self.component_boundaries.len()
            invariant
                self.wf(),
                key@ == id@,
                i <= self.component_boundaries@.len(),
                forall|j: int| 0 <= j < i ==> self.component_boundaries@[j].component_id@ != id@,
            decreases self.component_boundaries@.len() - i,
        {
            if self.component_boundaries[i].component_id == key {
                proof {
                    assert(self.roots()[i as int].0 == id@);
                    lemma_key_pos(self.roots(), i as int);
                }
                return Some(i);
            }
            i = i + 1;
        }
        proof {
            if has_key(self.roots(), id@) {
                let k = key_pos(self.roots(), id@);
                assert(self.component_boundaries@[k].component_id@ == id@);
            }
        }
        None
    }

    /// The selector of the element at `path`: child positions from the
    /// body, scoped to the root of the given component when it is
    /// registered.
    pub fn path_to_selector(&self, path: &[usize], component_id: Option<&str>) -> (r: String)
        requires
            self.wf(),
            forall|i: int| 0 <= i < path.len() ==> path[i] < usize::MAX,
        ensures
            r@ == selector_for(self.roots(), path@, opt_view(component_id)),
    {
        let mut base = String::new();
        if path.len() == 0 {
            push_str(&mut base, "body");
        } else {
            let mut i: usize = 0;
            while i < path.len()
                invariant
                    i <= path@.len(),
                    forall|k: int| 0 <= k < path.len() ==> path[k] < usize::MAX,
                    base@ == joined_steps(path@.subrange(0, i as int)),
                decreases path@.len() - i,
            {
                let ghost before = base@;
                if i > 0 {
                    push_str(&mut base, " > ");
                }
                push_str(&mut base, ":nth-child(");
                push_decimal(&mut base, (path[i] + 1) as u64);
                push_str(&mut base, ")");
                proof {
                    let p = path@.subrange(0, i + 1);
                    assert(p.drop_last() =~= path@.subrange(0, i as int));
                    assert(p.last() == path@[i as int]);
                    if i == 0 {
                        assert(base@ =~= nth_child(path@[0]));
                    } else {
                        assert(base@ =~= before + " > "@ + nth_child(p.last()));
                    }
                }
                i = i + 1;
            }
            assert(path@.subrange(0, i as int) =~= path@);
        }
        match component_id {
            Some(c) => match self.find_boundary(c) {
                Some(i) => {
                    proof {
                        lemma_key_pos(self.roots(), i as int);
                    }
                    let mut r = String::new();
                    push_str(&mut r, self.component_boundaries[i].root_selector.as_str());
                    push_str(&mut r, " ");
                    push_str(&mut r, base.as_str());
                    r
                },
                None => base,
            },
            None => base,
        }
    }

    /// Whether an element is left alone: one of the preserved selectors
    /// occurs in its selector.
    pub fn should_preserve_element(&self, selector: &str) -> (r: bool)
        ensures
            r == preserved_by(self.preserved(), selector@),
    {
        let t = crate::text::str_chars(selector);
        let sels = &self.options.preserve_selectors;
        let mut i: usize = 0;
        while i < sels.len()
            invariant
                t@ == selector@,
                sels == &self.options.preserve_selectors,
                i <= sels@.len(),
                forall|k: int| 0 <= k < i ==> !contains_text(selector@, sels@[k]@),
            decreases sels@.len() - i,
        {
            let s = crate::text::str_chars(sels[i].as_str());
            if contains_str(t.as_slice(), s.as_slice()) {
                assert(self.preserved()[i as int] == sels@[i as int]@);
                return true;
            }
            i = i + 1;
        }
        assert forall|k: int| 0 <= k < self.preserved().len() implies !contains_text(
            selector@,
            #[trigger] self.preserved()[k],
        ) by {
            assert(self.preserved()[k] == sels@[k]@);
        }
        false
    }

    /// Address an edit by selector, scoped to `component_id` where that
    /// component is registered. A replacement of an element left alone is
    /// refused.
    pub fn convert_patch_operation(&self, op: &PatchOp, component_id: Option<&str>) -> (r: Result<
        HotReloadPatchOp,
        HotReloadError,
    >)
        requires
            self.wf(),
            path_ok(edit_path(op@)),
        ensures
            match converted(self.roots(), self.preserved(), op@, opt_view(component_id)) {
                Some(e) => r matches Ok(o) && o@ == e,
                None => r matches Err(HotReloadError::DomDiffingFailed { reason }) && reason@
                    == preservation_refusal(),
            },
    {
        match op {
            PatchOp::Replace { path, new_html } => {
                let selector = self.path_to_selector(path.as_slice(), component_id);
                if self.should_preserve_element(selector.as_str()) {
                    return Err(
                        HotReloadError::DomDiffingFailed { reason: "Element marked for preservation".to_owned() },
                    );
                }
                Ok(HotReloadPatchOp::Replace { selector, html: new_html.clone() })
            },
            PatchOp::UpdateText { path, new_text } => Ok(
                HotReloadPatchOp::UpdateText {
                    selector: self.path_to_selector(path.as_slice(), component_id),
                    text: new_text.clone(),
                },
            ),
            PatchOp::SetAttribute { path, name, value } => Ok(
                HotReloadPatchOp::SetAttribute {
                    selector: self.path_to_selector(path.as_slice(), component_id),
                    name: name.clone(),
                    value: value.clone(),
                },
            ),
            PatchOp::RemoveAttribute { path, name } => Ok(
                HotReloadPatchOp::RemoveAttribute {
                    selector: self.path_to_selector(path.as_slice(), component_id),
                    name: name.clone(),
                },
            ),
            PatchOp::InsertChild { parent_path, index, html } => Ok(
                HotReloadPatchOp::InsertChild {
                    parent_selector: self.path_to_selector(parent_path.as_slice(), component_id),
                    index: *index,
                    html: html.clone(),
                },
            ),
            PatchOp::RemoveChild { parent_path, index } => Ok(
                HotReloadPatchOp::RemoveChild {
                    parent_selector: self.path_to_selector(parent_path.as_slice(), component_id),
                    index: *index,
                },
            ),
            PatchOp::MoveChild { parent_path, from_index, to_index } => Ok(
                HotReloadPatchOp::MoveChild {
                    parent_selector: self.path_to_selector(parent_path.as_slice(), component_id),
                    from_index: *from_index,
                    to_index: *to_index,
                },
            ),
        }
    }

    /// Address every edit of a patch by selector, dropping those refused.
    pub fn convert_patch_to_hot_reload(&self, patch: &Patch, component_id: Option<&str>) -> (r: HotReloadPatch)
        requires
            self.wf(),
            forall|i: int| 0 <= i < patch.ops@.len() ==> path_ok(edit_path(#[trigger] patch.ops@[i]@)),
        ensures
            edits(r.operations@) == converted_all(
                self.roots(),
                self.preserved(),
                path_edits(patch.ops@),
                opt_view(component_id),
            ),
    {
        let ghost es = path_edits(patch.ops@);
        let mut operations: Vec<HotReloadPatchOp> = Vec::new();
        let mut i: usize = 0;
        while i < patch.ops.len()
            invariant
                self.wf(),
                es == path_edits(patch.ops@),
                forall|j: int| 0 <= j < patch.ops@.len() ==> path_ok(edit_path(#[trigger] patch.ops@[j]@)),
                i <= patch.ops@.len(),
                edits(operations@) == converted_all(
                    self.roots(),
                    self.preserved(),
                    es.take(i as int),
                    opt_view(component_id),
                ),
            decreases patch.ops@.len() - i,
        {
            let ghost before = operations@;
            proof {
                assert(es.take(i + 1).drop_last() =~= es.take(i as int));
                assert(es.take(i + 1).last() == patch.ops@[i as int]@);
            }
            match self.convert_patch_operation(&patch.ops[i], component_id) {
                Ok(o) => {
                    operations.push(o);
                    assert(edits(operations@) =~= edits(before).push(o@));
                },
                Err(_) => {},
            }
            i = i + 1;
        }
        assert(es.take(i as int) =~= es);
        HotReloadPatch { operations }
    }

    /// The selector an edit is aimed at.
    pub fn get_operation_target(&self, op: &HotReloadPatchOp) -> (r: String)
        ensures
            r@ == edit_target(op@),
    {
        match op {
            HotReloadPatchOp::Replace { selector, .. } => selector.clone(),
            HotReloadPatchOp::UpdateText { selector, .. } => selector.clone(),
            HotReloadPatchOp::SetAttribute { selector, .. } => selector.clone(),
            HotReloadPatchOp::RemoveAttribute { selector, .. } => selector.clone(),
            HotReloadPatchOp::InsertChild { parent_selector, .. } => parent_selector.clone(),
            HotReloadPatchOp::RemoveChild { parent_selector, .. } => parent_selector.clone(),
            HotReloadPatchOp::MoveChild { parent_selector, .. } => parent_selector.clone(),
        }
    }

    /// The first registered component whose root selector begins the
    /// target of the edit.
    pub fn extract_component_id_from_operation(&self, op: &HotReloadPatchOp) -> (r: Option<String>)
        ensures
            opt_string(r) == owner(self.roots(), edit_target(op@)),
    {
        let target = self.get_operation_target(op);
        let t = str_chars(target.as_str());
        let ghost roots = self.roots();
        let mut i: usize = 0;
        while i < self.component_boundaries.len()
            invariant
                roots == self.roots(),
                roots.len() == self.component_boundaries@.len(),
                i <= self.component_boundaries@.len(),
                t@ == edit_target(op@),
                owner(roots, t@) == owner_from(roots, t@, i as int),
            decreases self.component_boundaries@.len() - i,
        {
            assert(roots[i as int] == (
                self.component_boundaries@[i as int].component_id@,
                self.component_boundaries@[i as int].root_selector@,
            ));
            if starts_with_str(t.as_slice(), self.component_boundaries[i].root_selector.as_str()) {
                return Some(self.component_boundaries[i].component_id.clone());
            }
            i = i + 1;
        }
        None
    }

    /// The components the edits of a patch touch, each once, in the order
    /// first touched.
    pub fn get_affected_components(&self, patch: &HotReloadPatch) -> (r: Vec<String>)
        ensures
            texts(r@) == owners_of(self.roots(), edits(patch.operations@)),
    {
        let ghost es = edits(patch.operations@);
        let mut r: Vec<String> = Vec::new();
        let mut i: usize = 0;
        while i < patch.operations.len()
            invariant
                es == edits(patch.operations@),
                i <= patch.operations@.len(),
                texts(r@) == owners_of(self.roots(), es.take(i as int)),
            decreases patch.operations@.len() - i,
        {
            proof {
                assert(es.take(i + 1).drop_last() =~= es.take(i as int));
                assert(es.take(i + 1).last() == patch.operations@[i as int]@);
            }
            let ghost before = r@;
            match self.extract_component_id_from_operation(&patch.operations[i]) {
                Some(c) => {
                    if !has_text(&r, c.as_str()) {
                        r.push(c);
                        assert(texts(r@) =~= texts(before).push(c@));
                    }
                },
                None => {},
            }
            i = i + 1;
        }
        assert(es.take(i as int) =~= es);
        r
    }

    /// Group the edits of a patch by target, the targets in the order first
    /// met and the edits of each in their order; name the components the
    /// grouped edits touch; and recommend reloading the page when there are
    /// more than 100 edits.
    pub fn optimize_patch(&self, patch: HotReloadPatch, component_id: Option<&str>) -> (r: Result<
        OptimizedPatch,
        HotReloadError,
    >)
        ensures
            r matches Ok(p) && {
                &&& edits(p.patch.operations@) == grouped(edits(patch.operations@))
                &&& texts(p.component_boundaries@) == owners_of(self.roots(), edits(p.patch.operations@))
                &&& p.requires_full_refresh == (patch.operations@.len() > 100)
            },
    {
        let ops = &patch.operations;
        let ghost es = edits(ops@);
        let mut targets: Vec<String> = Vec::new();
        let mut i: usize = 0;
        while i < ops.len()
            invariant
                es == edits(ops@),
                i <= ops@.len(),
                texts(targets@) == targets_of(es.take(i as int)),
            decreases ops@.len() - i,
        {
            proof {
                assert(es.take(i + 1).drop_last() =~= es.take(i as int));
                assert(es.take(i + 1).last() == ops@[i as int]@);
            }
            let t = self.get_operation_target(&ops[i]);
            if !has_text(&targets, t.as_str()) {
                let ghost before = targets@;
                targets.push(t);
                assert(texts(targets@) =~= texts(before).push(t@));
            }
            i = i + 1;
        }
        assert(es.take(i as int) =~= es);
        let ghost ts = texts(targets@);
        let mut grouped_ops: Vec<HotReloadPatchOp> = Vec::new();
        let mut j: usize = 0;
        while j < targets.len()
            invariant
                es == edits(ops@),
                ts == texts(targets@),
                j <= targets@.len(),
                edits(grouped_ops@) == groups(es, ts.take(j as int)),
            decreases targets@.len() - j,
        {
            let ghost start = edits(grouped_ops@);
            let ghost tj = targets@[j as int]@;
            let mut k: usize = 0;
            while k < ops.len()
                invariant
                    es == edits(ops@),
                    ts == texts(targets@),
                    j < targets@.len(),
                    tj == targets@[j as int]@,
                    k <= ops@.len(),
                    edits(grouped_ops@) == start + es.take(k as int).filter(aimed_at(tj)),
                decreases ops@.len() - k,
            {
                proof {
                    es.take(k as int).lemma_filter_push(es[k as int], aimed_at(tj));
                    assert(es.take(k + 1) =~= es.take(k as int).push(es[k as int]));
                    assert(es[k as int] == ops@[k as int]@);
                }
                let t = self.get_operation_target(&ops[k]);
                if t == targets[j] {
                    let ghost before = grouped_ops@;
                    let d = ops[k].duplicate();
                    grouped_ops.push(d);
                    assert(edits(grouped_ops@) =~= edits(before).push(d@));
                }
                k = k + 1;
            }
            proof {
                assert(es.take(k as int) =~= es);
                assert(ts.take(j + 1).drop_last() =~= ts.take(j as int));
                assert(ts.take(j + 1).last() == tj);
            }
            j = j + 1;
        }
        proof {
            assert(ts.take(j as int) =~= ts);
            lemma_grouping_keeps_edits(es);
        }
        let requires_full_refresh = grouped_ops.len() > 100;
        let optimized = HotReloadPatch { operations: grouped_ops };
        let component_boundaries = self.get_affected_components(&optimized);
        Ok(OptimizedPatch { patch: optimized, component_boundaries, requires_full_refresh })
    }

    /// The edits between two documents, addressed by selector. No DOM diff
    /// engine is linked in: the diff has no edits.
    fn compute_diff(&self, from_html: &str, to_html: &str, component_id: Option<&str>) -> (r: Result<
        HotReloadPatch,
        HotReloadError,
    >)
        requires
            self.wf(),
        ensures
            r matches Ok(p) && p.operations@.len() == 0,
    {
        let patch = Patch { ops: Vec::new() };
        let converted = self.convert_patch_to_hot_reload(&patch, component_id);
        proof {
            assert(path_edits(patch.ops@) =~= Seq::<PathEdit>::empty());
            assert(edits(converted.operations@).len() == converted.operations@.len());
        }
        Ok(converted)
    }

    /// Keep a computed diff under `key`: an older one under the same key goes,
    /// and beyond 100 kept diffs the 20 oldest go.
    fn cache_diff(&mut self, key: String, from_html: &str, to_html: &str, patch: &HotReloadPatch)
        requires
            old(self).wf(),
        ensures
            final(self).wf(),
            final(self).roots() == old(self).roots(),
            final(self).options() == old(self).options(),
            final(self).cache() == cache_after(
                old(self).cache(),
                key@,
                kept_diff(from_html@, to_html@, edits(patch.operations@)),
            ),
    {
        let ghost entries = self.cache();
        let ghost model = kept_diff(from_html@, to_html@, edits(patch.operations@));
        let source_hash = blake3_hex(from_html.as_bytes());
        let target_hash = blake3_hex(to_html.as_bytes());
        let cached = CachedDiff {
            source_hash,
            target_hash,
            patch: duplicate_patch(patch),
            cached_at: instant_now(),
        };
        proof {
            lemma_drop_key(entries, key@);
        }
        match position_of(&self.diff_cache, &key) {
            Some(i) => {
                proof {
                    assert(entries[i as int].0 == key@);
                    lemma_key_pos(entries, i as int);
                }
                let ghost before = self.diff_cache@;
                self.diff_cache.remove(i);
                assert(self.cache() =~= entries.remove(i as int));
            },
            None => {
                proof {
                    if has_key(entries, key@) {
                        let k = key_pos(entries, key@);
                        assert(self.diff_cache@[k].0@ == key@);
                    }
                }
            },
        }
        let ghost dropped = self.cache();
        assert(dropped == drop_key(entries, key@));
        assert(dropped.len() <= entries.len());
        assert(!has_key(dropped, key@));
        self.diff_cache.push((key, cached));
        assert(self.cache() =~= dropped.push((key@, model)));
        proof {
            let e = dropped.push((key@, model));
            assert forall|i: int, j: int| 0 <= i < j < e.len() implies #[trigger] e[i].0 != #[trigger] e[j].0 by {
                if j == dropped.len() {
                    assert(dropped[i].0 != key@);
                } else {
                    assert(dropped[i].0 != dropped[j].0);
                }
            }
        }
        assert(self.cache().len() == self.diff_cache@.len());
        if self.diff_cache.len() > 100 {
            let ghost full = self.cache();
            let ghost fullv = self.diff_cache@;
            let mut n: usize = 0;
            while n < 20
                invariant
                    fullv.len() > 100,
                    full.len() == fullv.len(),
                    full == fullv.map_values(
                        |e: (String, CachedDiff)|
                            (
                                e.0@,
                                CachedDiffModel {
                                    source_hash: e.1.source_hash@,
                                    target_hash: e.1.target_hash@,
                                    edits: edits(e.1.patch.operations@),
                                },
                            ),
                    ),
                    n <= 20,
                    self.diff_cache@ == fullv.subrange(n as int, fullv.len() as int),
                    self.roots() == old(self).roots(),
                    self.options() == old(self).options(),
                decreases 20 - n,
            {
                self.diff_cache.remove(0);
                assert(self.diff_cache@ =~= fullv.subrange(n + 1, fullv.len() as int));
                n = n + 1;
            }
            assert(self.cache() =~= full.subrange(20, full.len() as int));
            assert(full == dropped.push((key@, model)));
            assert(self.cache() == cache_after(entries, key@, model));
            proof {
                assert forall|i: int, j: int| 0 <= i < j < self.cache().len() implies #[trigger] self.cache()[i].0
                    != #[trigger] self.cache()[j].0 by {
                    assert(self.cache()[i] == full[i + 20]);
                    assert(self.cache()[j] == full[j + 20]);
                }
            }
        } else {
            assert(self.cache() == cache_after(entries, key@, model));
        }
    }

    /// Forget every kept diff.
    pub fn clear_cache(&mut self)
        requires
            old(self).wf(),
        ensures
            final(self).wf(),
            final(self).cache().len() == 0,
            final(self).roots() == old(self).roots(),
            final(self).options() == old(self).options(),
    {
        self.diff_cache.clear();
        assert(self.cache() =~= Seq::<(Seq<char>, CachedDiffModel)>::empty());
    }

    /// The hot reload patch from one document to another, scoped to
    /// `component_id`. A diff kept under the same key less than a minute ago
    /// is reused; how old it is, the clock decides. Otherwise the diff is
    /// computed, grouped and kept.
    pub fn generate_hot_reload_patch(
        &mut self,
        from_html: &str,
        to_html: &str,
        component_id: Option<&str>,
    ) -> (r: Result<OptimizedPatch, HotReloadError>)
        requires
            old(self).wf(),
        ensures
            final(self).wf(),
            final(self).roots() == old(self).roots(),
            final(self).options() == old(self).options(),
            r matches Ok(p) && {
                let key = diff_key(from_html@, to_html@, opt_view(component_id));
                ||| {
                    &&& value_of(old(self).cache(), key) matches Some(c)
                    &&& edits(p.patch.operations@) == c.edits
                    &&& texts(p.component_boundaries@) == owners_of(old(self).roots(), c.edits)
                    &&& !p.requires_full_refresh
                    &&& final(self).cache() == old(self).cache()
                }
                ||| {
                    &&& p.patch.operations@.len() == 0
                    &&& p.component_boundaries@.len() == 0
                    &&& !p.requires_full_refresh
                    &&& final(self).cache() == cache_after(
                        old(self).cache(),
                        key,
                        kept_diff(from_html@, to_html@, Seq::empty()),
                    )
                }
            },
            !has_key(old(self).cache(), diff_key(from_html@, to_html@, opt_view(component_id))) ==> (r matches Ok(
                p,
            ) && p.patch.operations@.len() == 0 && final(self).cache() == cache_after(
                old(self).cache(),
                diff_key(from_html@, to_html@, opt_view(component_id)),
                kept_diff(from_html@, to_html@, Seq::empty()),
            )),
    {
        let cache_key = self.compute_cache_key(from_html, to_html, component_id);
        let ghost entries = self.cache();
        match position_of(&self.diff_cache, &cache_key) {
            Some(i) => {
                proof {
                    assert(entries[i as int].0 == cache_key@);
                    lemma_key_pos(entries, i as int);
                }
                let age = instant_elapsed(&self.diff_cache[i].1.cached_at);
                if duration_as_nanos(&age) < 60_000_000_000 {
                    let patch = duplicate_patch(&self.diff_cache[i].1.patch);
                    let component_boundaries = self.get_affected_components(&patch);
                    return Ok(OptimizedPatch { patch, component_boundaries, requires_full_refresh: false });
                }
            },
            None => {
                proof {
                    if has_key(entries, cache_key@) {
                        let k = key_pos(entries, cache_key@);
                        assert(self.diff_cache@[k].0@ == cache_key@);
                    }
                }
            },
        }
        let patch = match self.compute_diff(from_html, to_html, component_id) {
            Ok(p) => p,
            Err(e) => {
                return Err(e);
            },
        };
        let optimized = match self.optimize_patch(patch, component_id) {
            Ok(p) => p,
            Err(e) => {
                return Err(e);
            },
        };
        proof {
            lemma_grouping_keeps_edits(Seq::<SelectorEdit>::empty());
            assert(edits(patch.operations@) =~= Seq::<SelectorEdit>::empty());
        }
        self.cache_diff(cache_key, from_html, to_html, &optimized.patch);
        Ok(optimized)
    }

    /// The cache key of a diff: the BLAKE3 hex digest of the two documents
    /// and the component id, one after the other.
    pub fn compute_cache_key(&self, from_html: &str, to_html: &str, component_id: Option<&str>) -> (r: String)
        ensures
            r@ == diff_key(from_html@, to_html@, opt_view(component_id)),
    {
        let mut bytes: Vec<u8> = Vec::new();
        append_bytes(&mut bytes, from_html.as_bytes());
        append_bytes(&mut bytes, to_html.as_bytes());
        match component_id {
            Some(c) => append_bytes(&mut bytes, c.as_bytes()),
            None => {},
        }
        proof {
            match component_id {
                Some(c) => {},
                None => {
                    assert(bytes@ =~= encode_utf8(from_html@) + encode_utf8(to_html@) + Seq::<u8>::empty());
                },
            }
        }
        blake3_hex(bytes.as_slice())
    }
}

/// The script text.
pub const CAPTURE_SCRIPT: &'static str = r#"
        (function() {
            const state = {
                focused_element: null,
                scroll_positions: {},
                form_values: {},
                text_selections: {}
            };
            
            // Capture focused element
            if (document.activeElement && document.activeElement !== document.body) {
                state.focused_element = getElementSelector(document.activeElement);
            }
            
            // Capture scroll positions
            document.querySelectorAll('*').forEach(el => {
                if (el.scrollTop > 0 || el.scrollLeft > 0) {
                    const selector = getElementSelector(el);
                    state.scroll_positions[selector] = {
                        x: el.scrollLeft,
                        y: el.scrollTop
                    };
                }
            });
            
            // Capture form values
            document.querySelectorAll('input, textarea, select').forEach(el => {
                const selector = getElementSelector(el);
                if (el.type === 'checkbox' || el.type === 'radio') {
                    state.form_values[selector] = el.checked;
                } else if (el.type === 'file') {
                    // Don't capture file inputs
                } else if (el.tagName === 'SELECT' && el.multiple) {
                    state.form_values[selector] = Array.from(el.selectedOptions).map(o => o.value);
                } else {
                    state.form_values[selector] = el.value;
                }
                
                // Capture text selections
                if ((el.type === 'text' || el.type === 'textarea') && 
                    el.selectionStart !== el.selectionEnd) {
                    state.text_selections[selector] = {
                        start: el.selectionStart,
                        end: el.selectionEnd,
                        direction: el.selectionDirection || 'forward'
                    };
                }
            });
            
            function getElementSelector(el) {
                if (el.id) return '#' + el.id;
                if (el.className) return '.' + el.className.split(' ').join('.');
                
                let path = [];
                while (el.parentNode) {
                    let siblings = Array.from(el.parentNode.children);
                    let index = siblings.indexOf(el) + 1;
                    path.unshift(`${el.tagName.toLowerCase()}:nth-child(${index})`);
                    el = el.parentNode;
                }
                return path.join(' > ');
            }
            
            return state;
        })();
        "#;

/// The script that captures the focused element, scroll positions, form
/// values and text selections of the page.
pub open spec fn state_capture_script() -> Seq<char> {
    CAPTURE_SCRIPT@
}

/// Generate JavaScript code to capture current DOM state
pub fn generate_state_capture_script() -> (r: String)
    ensures
        r@ == state_capture_script(),
{
    CAPTURE_SCRIPT.to_owned()
}

} // verus!
