//! Settings and results of applying hot reload updates to live LiveView
//! components.

use vstd::prelude::*;
use std::time::{Duration, SystemTime};

use crate::clock::{system_elapsed, system_now};
use crate::dom_diff::{
    boundary_roots, edits, ComponentBoundary, HotReloadDomDiffer, HotReloadError, OptimizedPatch,
};
use crate::keyed::{drop_key, has_key, key_pos, lemma_drop_key, lemma_key_pos, lemma_put, put, unique_keys};
use crate::performance_monitor::{duration_as_nanos, duration_nanos};
use crate::protocol::{TemplateId, TemplateUpdate};
use crate::text::{copy_opt_text, push_str, texts};

verus! {

/// Configuration for LiveView hot reload
pub struct LiveViewHotReloadConfig {
    /// Whether to preserve component state during updates
    pub preserve_state: bool,
    /// Whether to preserve form input values
    pub preserve_form_state: bool,
    /// Whether to preserve scroll positions
    pub preserve_scroll: bool,
    /// Whether to preserve focus
    pub preserve_focus: bool,
    /// Maximum time to wait for state preservation (ms)
    pub state_preservation_timeout: u64,
    /// Whether to enable debug logging
    pub debug_mode: bool,
}

impl LiveViewHotReloadConfig {
    /// The default configuration; debug logging is on in builds with debug
    /// assertions, which `debug_build` tells.
    pub fn defaults(debug_build: bool) -> (r: Self)
        ensures
            r.preserve_state,
            r.preserve_form_state,
            r.preserve_scroll,
            r.preserve_focus,
            r.state_preservation_timeout == 1000,
            r.debug_mode == debug_build,
    {
        LiveViewHotReloadConfig {
            preserve_state: true,
            preserve_form_state: true,
            preserve_scroll: true,
            preserve_focus: true,
            state_preservation_timeout: 1000,
            debug_mode: debug_build,
        }
    }
}

/// Text selection range
pub struct TextSelection {
    pub start: u32,
    pub end: u32,
    pub direction: String,
}

/// Result of a hot reload update operation
pub enum HotReloadResult {
    /// Update was applied successfully
    Updated { instance_id: String, patch_size: usize, state_preserved: bool },
    /// Full refresh is required
    FullRefreshRequired { reason: String },
    /// Update failed, with the error's message
    Failed { error: String, fallback_to_refresh: bool },
}

impl HotReloadResult {
    /// Whether the component was updated in place.
    pub fn is_updated(&self) -> (r: bool)
        ensures
            r == (*self is Updated),
    {
        match self {
            HotReloadResult::Updated { .. } => true,
            _ => false,
        }
    }
}


/// The state a view keeps when a client has reported none yet, as JSON text.
pub const EMPTY_STATE_JSON: &'static str = "{\"component_data\":null,\"form_values\":{},\"scroll_positions\":{},\"focused_element\":null,\"text_selections\":{},\"user_state\":null}";

/// The empty preserved state.
pub open spec fn empty_state() -> Seq<char> {
    EMPTY_STATE_JSON@
}

/// An active LiveView instance tracked for hot reload
pub struct ActiveLiveView {
    /// Unique instance identifier
    pub instance_id: String,
    /// Template ID this view is based on
    pub template_id: TemplateId,
    /// Current HTML content
    pub current_html: String,
    /// Preserved component state, as JSON text
    pub preserved_state: Option<String>,
    /// WebSocket connection ID for sending updates
    pub connection_id: Option<String>,
    /// Component type information
    pub component_type: String,
    /// Last update timestamp
    pub last_updated: SystemTime,
    /// Whether this view supports hot reload
    pub hot_reload_enabled: bool,
}

/// `r` tells whether a span of `elapsed` nanoseconds is under
/// `threshold_secs` whole seconds; an unknown span is not.
pub open spec fn under_seconds(elapsed: Option<nat>, threshold_secs: u64, r: bool) -> bool {
    r == match elapsed {
        Some(n) => n / 1_000_000_000 < threshold_secs,
        None => false,
    }
}

/// Whether a time span is under `threshold_secs` whole seconds; an unknown
/// span is not.
pub fn within_seconds(elapsed: Option<Duration>, threshold_secs: u64) -> (r: bool)
    ensures
        r == match elapsed {
            Some(d) => duration_nanos(d) / 1_000_000_000 < threshold_secs,
            None => false,
        },
{
    match elapsed {
        Some(d) => duration_as_nanos(&d) / 1_000_000_000 < threshold_secs as u128,
        None => false,
    }
}

impl ActiveLiveView {
    /// A view updated now, with hot reload on and nothing preserved.
    pub fn new(instance_id: String, template_id: TemplateId, current_html: String, component_type: String) -> (r:
        Self)
        ensures
            r.instance_id == instance_id,
            r.template_id == template_id,
            r.current_html == current_html,
            r.preserved_state is None,
            r.connection_id is None,
            r.component_type == component_type,
            r.hot_reload_enabled,
    {
        ActiveLiveView {
            instance_id,
            template_id,
            current_html,
            preserved_state: None,
            connection_id: None,
            component_type,
            last_updated: system_now(),
            hot_reload_enabled: true,
        }
    }

    /// Enable or disable hot reload for this view
    pub fn set_hot_reload_enabled(&mut self, enabled: bool)
        ensures
            *final(self) == (ActiveLiveView { hot_reload_enabled: enabled, ..*old(self) }),
    {
        self.hot_reload_enabled = enabled;
    }

    /// Set the WebSocket connection ID
    pub fn set_connection_id(&mut self, connection_id: String)
        ensures
            *final(self) == (ActiveLiveView { connection_id: Some(connection_id), ..*old(self) }),
    {
        self.connection_id = Some(connection_id);
    }

    /// Whether the view was updated less than `threshold_secs` seconds ago,
    /// as the clock tells; a clock that reads earlier than the update says
    /// no. The span is the clock's; what is stated is that the answer is that
    /// comparison for some span (or for an unreadable one).
    pub fn is_recently_updated(&self, threshold_secs: u64) -> (r: bool)
        ensures
            exists|elapsed: Option<nat>| #[trigger] under_seconds(elapsed, threshold_secs, r),
    {
        let elapsed = system_elapsed(&self.last_updated);
        let r = within_seconds(elapsed, threshold_secs);
        proof {
            let e = match elapsed {
                Some(d) => Some(duration_nanos(d)),
                None => None,
            };
            assert(under_seconds(e, threshold_secs, r));
        }
        r
    }

    /// A copy of the view.
    pub fn duplicate(&self) -> (r: Self)
        ensures
            r == *self,
    {
        ActiveLiveView {
            instance_id: self.instance_id.clone(),
            template_id: self.template_id.duplicate(),
            current_html: self.current_html.clone(),
            preserved_state: copy_opt_text(&self.preserved_state),
            connection_id: copy_opt_text(&self.connection_id),
            component_type: self.component_type.clone(),
            last_updated: self.last_updated,
            hot_reload_enabled: self.hot_reload_enabled,
        }
    }
}

/// Events sent to clients for hot reload updates
pub enum HotReloadEvent {
    /// A LiveView component needs to be updated
    ComponentUpdate { instance_id: String, patch: OptimizedPatch, preserve_state: bool },
    /// State preservation request
    StatePreservationRequest { instance_id: String, timeout_ms: u64 },
    /// State preservation response, its state as JSON text
    StatePreservationResponse { instance_id: String, state: String, success: bool },
    /// Full page refresh required
    FullRefresh { reason: String },
    /// Hot reload error occurred
    Error { message: String, instance_id: Option<String> },
}

/// Statistics about hot reload operations
pub struct HotReloadStatistics {
    pub active_views: usize,
    pub hot_reload_enabled_views: usize,
    pub total_updates: usize,
    pub successful_updates: usize,
    pub failed_updates: usize,
}

/// The views by instance id.
pub open spec fn view_entries(vs: Seq<ActiveLiveView>) -> Seq<(Seq<char>, ActiveLiveView)> {
    vs.map_values(|v: ActiveLiveView| (v.instance_id@, v))
}

/// The selector of the root element of a view.
pub open spec fn view_root(instance_id: Seq<char>) -> Seq<char> {
    "[data-live-view-id=\""@ + instance_id + "\"]"@
}

/// A view is updated for `t`: it shows that template, with hot reload on.
pub open spec fn affected(v: ActiveLiveView, t: TemplateId) -> bool {
    v.template_id.same_as(&t) && v.hot_reload_enabled
}

/// One of the first `n` views, named `id`, is updated for `t`.
pub open spec fn picked_among(views: Seq<(Seq<char>, ActiveLiveView)>, id: Seq<char>, t: TemplateId, n: int) -> bool {
    exists|i: int| 0 <= i < n && i < views.len() && views[i].0 == id && #[trigger] affected(views[i].1, t)
}

/// How many views have hot reload on.
pub open spec fn enabled_count(vs: Seq<ActiveLiveView>) -> nat
    decreases vs.len(),
{
    if vs.len() == 0 {
        0
    } else {
        enabled_count(vs.drop_last()) + if vs.last().hot_reload_enabled {
            1nat
        } else {
            0nat
        }
    }
}

/// Manager for LiveView component hot reload: the active views by instance,
/// and the DOM differ whose component boundaries scope their updates.
pub struct LiveViewHotReloadManager {
    active_views: Vec<ActiveLiveView>,
    dom_differ: HotReloadDomDiffer,
    config: LiveViewHotReloadConfig,
}

impl LiveViewHotReloadManager {
    /// The active views by instance id, in the order registered.
    pub closed spec fn views(&self) -> Seq<(Seq<char>, ActiveLiveView)> {
        view_entries(self.active_views@)
    }

    /// The active views, in the order registered.
    pub closed spec fn view_list(&self) -> Seq<ActiveLiveView> {
        self.active_views@
    }

    /// The component roots that the differ scopes updates to.
    pub closed spec fn roots(&self) -> Seq<(Seq<char>, Seq<char>)> {
        self.dom_differ.roots()
    }

    /// The configuration.
    pub closed spec fn config(&self) -> LiveViewHotReloadConfig {
        self.config
    }

    /// Each instance registered once, and the differ consistent.
    pub closed spec fn wf(&self) -> bool {
        &&& unique_keys(self.views())
        &&& self.dom_differ.wf()
    }

    /// A manager with no views.
    pub fn new(config: LiveViewHotReloadConfig) -> (r: Self)
        ensures
            r.wf(),
            r.views().len() == 0,
            r.roots().len() == 0,
            r.config() == config,
    {
        let r = LiveViewHotReloadManager { active_views: Vec::new(), dom_differ: HotReloadDomDiffer::new(), config };
        assert(r.views() =~= Seq::<(Seq<char>, ActiveLiveView)>::empty());
        r
    }

    /// The position of the view of `instance_id`.
    fn find_view(&self, instance_id: &str) -> (r: Option<usize>)
        requires
            self.wf(),
        ensures
            match r {
                Some(i) => i < self.active_views@.len() && key_pos(self.views(), instance_id@) == i && has_key(
                    self.views(),
                    instance_id@,
                ),
                None => !has_key(self.views(), instance_id@),
            },
    {
        let key = instance_id.to_owned();
        let mut i: usize = 0;
        while i < self.active_views.len()
            invariant
                self.wf(),
                key@ == instance_id@,
                i <= self.active_views@.len(),
                forall|j: int| 0 <= j < i ==> self.active_views@[j].instance_id@ != instance_id@,
            decreases self.active_views@.len() - i,
        {
            if self.active_views[i].instance_id == key {
                proof {
                    assert(self.views()[i as int].0 == instance_id@);
                    lemma_key_pos(self.views(), i as int);
                }
                return Some(i);
            }
            i = i + 1;
        }
        proof {
            if has_key(self.views(), instance_id@) {
                let k = key_pos(self.views(), instance_id@);
                assert(self.active_views@[k].instance_id@ == instance_id@);
            }
        }
        None
    }

    /// Track a view for hot reload: its root becomes a component boundary
    /// of the differ, and it replaces a view of the same instance.
    pub fn register_liveview_instance(&mut self, view: ActiveLiveView) -> (r: Result<(), HotReloadError>)
        requires
            old(self).wf(),
        ensures
            final(self).wf(),
            r is Ok,
            final(self).views() == put(old(self).views(), view.instance_id@, view),
            final(self).roots() == put(old(self).roots(), view.instance_id@, view_root(view.instance_id@)),
            final(self).config() == old(self).config(),
    {
        let mut root = String::new();
        push_str(&mut root, "[data-live-view-id=\"");
        push_str(&mut root, view.instance_id.as_str());
        push_str(&mut root, "\"]");
        let boundary = ComponentBoundary {
            component_id: view.instance_id.clone(),
            root_selector: root,
            isolated: true,
            children: Vec::new(),
            state_data: copy_opt_text(&view.preserved_state),
        };
        self.dom_differ.register_component_boundary(boundary);
        let ghost before = self.active_views@;
        let ghost key = view.instance_id@;
        proof {
            lemma_put(self.views(), key, view);
        }
        match self.find_view(view.instance_id.as_str()) {
            Some(i) => {
                proof {
                    lemma_key_pos(self.views(), i as int);
                }
                self.active_views.set(i, view);
                assert(self.views() =~= put(view_entries(before), key, view));
            },
            None => {
                self.active_views.push(view);
                assert(self.views() =~= put(view_entries(before), key, view));
            },
        }
        Ok(())
    }

    /// Stop tracking the view of `instance_id`, if there is one.
    pub fn unregister_liveview_instance(&mut self, instance_id: &str)
        requires
            old(self).wf(),
        ensures
            final(self).wf(),
            final(self).views() == drop_key(old(self).views(), instance_id@),
            final(self).roots() == old(self).roots(),
            final(self).config() == old(self).config(),
    {
        proof {
            lemma_drop_key(self.views(), instance_id@);
        }
        match self.find_view(instance_id) {
            Some(i) => {
                let ghost before = self.active_views@;
                self.active_views.remove(i);
                assert(self.views() =~= view_entries(before).remove(i as int));
            },
            None => {},
        }
    }

    /// The instances whose views are of `template_id` and have hot reload
    /// on, in the order registered.
    pub fn affected_views(&self, template_id: &TemplateId) -> (r: Vec<String>)
        ensures
            forall|k: int| 0 <= k < r@.len() ==> picked_among(self.views(), (#[trigger] r@[k])@, *template_id, self.views().len() as int),
            forall|i: int|
                0 <= i < self.views().len() && affected(#[trigger] self.views()[i].1, *template_id) ==> texts(r@).contains(
                    self.views()[i].0,
                ),
    {
        let mut r: Vec<String> = Vec::new();
        let mut i: usize = 0;
        assert(self.views().len() == self.active_views@.len());
        while i < self.active_views.len()
            invariant
                i <= self.active_views@.len(),
                self.views().len() == self.active_views@.len(),
                forall|k: int| 0 <= k < r@.len() ==> picked_among(self.views(), (#[trigger] r@[k])@, *template_id, i as int),
                forall|j: int|
                    0 <= j < i && affected(#[trigger] self.views()[j].1, *template_id) ==> texts(r@).contains(
                        self.views()[j].0,
                    ),
            decreases self.active_views@.len() - i,
        {
            let ghost before = r@;
            let v = &self.active_views[i];
            assert(self.views()[i as int] == (v.instance_id@, *v));
            if v.template_id == *template_id && v.hot_reload_enabled {
                r.push(v.instance_id.clone());
                proof {
                    assert(texts(r@) == texts(before).push(v.instance_id@));
                    assert(texts(r@)[before.len() as int] == v.instance_id@);
                    assert forall|k: int| 0 <= k < r@.len() implies picked_among(
                        self.views(),
                        (#[trigger] r@[k])@,
                        *template_id,
                        i + 1,
                    ) by {
                        if k < before.len() {
                            assert(r@[k] == before[k]);
                            assert(picked_among(self.views(), before[k]@, *template_id, i as int));
                        } else {
                            assert(self.views()[i as int].0 == r@[k]@);
                            assert(affected(self.views()[i as int].1, *template_id));
                        }
                    }
                    assert forall|j: int|
                        0 <= j < i + 1 && affected(#[trigger] self.views()[j].1, *template_id) implies texts(
                            r@,
                        ).contains(self.views()[j].0) by {
                        if j < i {
                            assert(texts(before).contains(self.views()[j].0));
                            let k = choose|k: int| 0 <= k < texts(before).len() && texts(before)[k] == self.views()[j].0;
                            assert(texts(r@)[k] == texts(before)[k]);
                        }
                    }
                }
            } else {
                proof {
                    assert forall|k: int| 0 <= k < r@.len() implies picked_among(
                        self.views(),
                        (#[trigger] r@[k])@,
                        *template_id,
                        i + 1,
                    ) by {
                        assert(picked_among(self.views(), r@[k]@, *template_id, i as int));
                    }
                }
            }
            i = i + 1;
        }
        r
    }

    /// The request for a client to report the state of a view.
    pub fn state_request(&self, instance_id: &str) -> (r: HotReloadEvent)
        ensures
            r matches HotReloadEvent::StatePreservationRequest { instance_id: id, timeout_ms } && id@ == instance_id@
                && timeout_ms == self.config().state_preservation_timeout,
    {
        HotReloadEvent::StatePreservationRequest {
            instance_id: instance_id.to_owned(),
            timeout_ms: self.config.state_preservation_timeout,
        }
    }

    /// Update one view to a new version of its template. Its state counts as
    /// preserved when state preservation is on and the request for it was
    /// delivered, `request_delivered` telling. A patch calling for a full
    /// refresh leaves the view as it was; otherwise the view takes the new
    /// HTML, the empty state where state was preserved, and the event that
    /// carries the patch to the client is returned.
    pub fn update_single_view(
        &mut self,
        view: &ActiveLiveView,
        template_update: &TemplateUpdate,
        request_delivered: bool,
    ) -> (r: Result<(HotReloadResult, Option<HotReloadEvent>), HotReloadError>)
        requires
            old(self).wf(),
        ensures
            final(self).wf(),
            final(self).roots() == old(self).roots(),
            final(self).config() == old(self).config(),
            r matches Ok((result, event)) && {
                let preserved = old(self).config().preserve_state && request_delivered;
                match result {
                    HotReloadResult::FullRefreshRequired { reason } => {
                        &&& reason@ == "Complex changes detected"@
                        &&& event is None
                        &&& final(self).views() == old(self).views()
                    },
                    HotReloadResult::Updated { instance_id, patch_size, state_preserved } => {
                        &&& instance_id == view.instance_id
                        &&& state_preserved == preserved
                        &&& event matches Some(HotReloadEvent::ComponentUpdate { instance_id: i2, patch, preserve_state })
                            && {
                            &&& i2 == view.instance_id
                            &&& preserve_state == preserved
                            &&& patch_size == patch.patch.operations@.len()
                            &&& !patch.requires_full_refresh
                        }
                        &&& final(self).views().len() == old(self).views().len()
                        &&& forall|i: int|
                            0 <= i < old(self).views().len() ==> {
                                let (k, v) = #[trigger] old(self).views()[i];
                                let (k2, w) = final(self).views()[i];
                                &&& k2 == k
                                &&& if k == view.instance_id@ {
                                    &&& w.current_html == template_update.html
                                    &&& if preserved {
                                        w.preserved_state matches Some(t) && t@ == empty_state()
                                    } else {
                                        w.preserved_state == v.preserved_state
                                    }
                                    &&& w.template_id == v.template_id
                                    &&& w.hot_reload_enabled == v.hot_reload_enabled
                                    &&& w.component_type == v.component_type
                                    &&& w.connection_id == v.connection_id
                                } else {
                                    w == v
                                }
                            }
                    },
                    HotReloadResult::Failed { .. } => false,
                }
            },
    {
        let preserved = self.config.preserve_state && request_delivered;
        let patch = match self.dom_differ.generate_hot_reload_patch(
            view.current_html.as_str(),
            template_update.html.as_str(),
            Some(view.instance_id.as_str()),
        ) {
            Ok(p) => p,
            Err(e) => {
                return Err(e);
            },
        };
        if patch.requires_full_refresh {
            return Ok(
                (HotReloadResult::FullRefreshRequired { reason: "Complex changes detected".to_owned() }, None),
            );
        }
        let patch_size = patch.patch.operations.len();
        match self.find_view(view.instance_id.as_str()) {
            Some(i) => {
                let ghost before = self.active_views@;
                let mut stored = self.active_views[i].duplicate();
                stored.current_html = template_update.html.clone();
                stored.last_updated = system_now();
                if preserved {
                    stored.preserved_state = Some(EMPTY_STATE_JSON.to_owned());
                }
                self.active_views.set(i, stored);
                proof {
                    lemma_key_pos(view_entries(before), i as int);
                    assert forall|j: int| 0 <= j < view_entries(before).len() implies #[trigger] view_entries(before)[j].0 == self.views()[j].0 by {
                        if j != i {
                            assert(self.active_views@[j] == before[j]);
                        }
                    }
                    assert forall|j: int, m: int| 0 <= j < m < self.views().len() implies #[trigger] self.views()[j].0
                        != #[trigger] self.views()[m].0 by {
                        assert(view_entries(before)[j].0 != view_entries(before)[m].0);
                    }
                }
            },
            None => {},
        }
        let event = HotReloadEvent::ComponentUpdate {
            instance_id: view.instance_id.clone(),
            patch,
            preserve_state: preserved,
        };
        Ok(
            (
                HotReloadResult::Updated { instance_id: view.instance_id.clone(), patch_size, state_preserved: preserved },
                Some(event),
            ),
        )
    }

    /// Keep the state a client reported for a view.
    pub fn handle_state_preservation_response(&mut self, instance_id: &str, state: String) -> (r: Result<
        (),
        HotReloadError,
    >)
        requires
            old(self).wf(),
        ensures
            final(self).wf(),
            final(self).roots() == old(self).roots(),
            has_key(old(self).views(), instance_id@) <==> r is Ok,
            r matches Err(HotReloadError::ComponentInstanceNotFound { instance_id: id }) ==> id@ == instance_id@,
            r is Err ==> final(self).views() == old(self).views(),
            final(self).views().len() == old(self).views().len(),
            forall|i: int|
                0 <= i < old(self).views().len() ==> {
                    let (k, v) = #[trigger] old(self).views()[i];
                    let (k2, w) = final(self).views()[i];
                    &&& k2 == k
                    &&& if k == instance_id@ {
                        w == ActiveLiveView { preserved_state: Some(state), ..v }
                    } else {
                        w == v
                    }
                },
    {
        match self.find_view(instance_id) {
            Some(i) => {
                let ghost before = self.active_views@;
                proof {
                    lemma_key_pos(view_entries(before), i as int);
                }
                let mut stored = self.active_views[i].duplicate();
                stored.preserved_state = Some(state);
                self.active_views.set(i, stored);
                proof {
                    assert forall|j: int, m: int| 0 <= j < m < self.views().len() implies #[trigger] self.views()[j].0
                        != #[trigger] self.views()[m].0 by {
                        assert(view_entries(before)[j].0 != view_entries(before)[m].0);
                    }
                }
                Ok(())
            },
            None => {
                proof {
                    assert forall|i: int| 0 <= i < self.views().len() implies #[trigger] self.views()[i].0 != instance_id@ by {
                        if self.views()[i].0 == instance_id@ {
                            assert(has_key(self.views(), instance_id@));
                        }
                    }
                }
                Err(HotReloadError::ComponentInstanceNotFound { instance_id: instance_id.to_owned() })
            },
        }
    }

    /// A copy of the view of `instance_id`, if there is one.
    pub fn get_view(&self, instance_id: &str) -> (r: Option<ActiveLiveView>)
        requires
            self.wf(),
        ensures
            match r {
                Some(v) => has_key(self.views(), instance_id@) && self.views()[key_pos(self.views(), instance_id@)].1
                    == v,
                None => !has_key(self.views(), instance_id@),
            },
    {
        match self.find_view(instance_id) {
            Some(i) => Some(self.active_views[i].duplicate()),
            None => None,
        }
    }

    /// Copies of the active views, in the order registered.
    pub fn get_active_views(&self) -> (r: Vec<ActiveLiveView>)
        ensures
            view_entries(r@) == self.views(),
    {
        let mut r: Vec<ActiveLiveView> = Vec::new();
        let mut i: usize = 0;
        while i < self.active_views.len()
            invariant
                i <= self.active_views@.len(),
                r@ == self.active_views@.take(i as int),
            decreases self.active_views@.len() - i,
        {
            r.push(self.active_views[i].duplicate());
            assert(r@ =~= self.active_views@.take(i + 1));
            i = i + 1;
        }
        assert(self.active_views@.take(i as int) =~= self.active_views@);
        r
    }

    /// Forget every view and every kept diff.
    pub fn reset(&mut self)
        requires
            old(self).wf(),
        ensures
            final(self).wf(),
            final(self).views().len() == 0,
            final(self).roots() == old(self).roots(),
            final(self).config() == old(self).config(),
    {
        self.active_views.clear();
        self.dom_differ.clear_cache();
        assert(self.views() =~= Seq::<(Seq<char>, ActiveLiveView)>::empty());
    }

    /// How many views are active and how many have hot reload on; no
    /// updates are counted.
    pub fn get_statistics(&self) -> (r: HotReloadStatistics)
        ensures
            r.active_views == self.views().len(),
            r.hot_reload_enabled_views == enabled_count(self.view_list()),
            r.total_updates == 0,
            r.successful_updates == 0,
            r.failed_updates == 0,
    {
        let mut enabled: usize = 0;
        let mut i: usize = 0;
        while i < self.active_views.len()
            invariant
                i <= self.active_views@.len(),
                enabled == enabled_count(self.active_views@.take(i as int)),
                enabled <= i,
            decreases self.active_views@.len() - i,
        {
            assert(self.active_views@.take(i + 1).drop_last() =~= self.active_views@.take(i as int));
            if self.active_views[i].hot_reload_enabled {
                enabled = enabled + 1;
            }
            i = i + 1;
        }
        assert(self.active_views@.take(i as int) =~= self.active_views@);
        HotReloadStatistics {
            active_views: self.active_views.len(),
            hot_reload_enabled_views: enabled,
            total_updates: 0,
            successful_updates: 0,
            failed_updates: 0,
        }
    }
}

} // verus!
