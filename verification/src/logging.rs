//! Logging and debugging of hot reload operations: the logging
//! configuration, debug sessions with their breakpoints, and the rules that
//! decide when a breakpoint is hit and which events a console shows.

use vstd::prelude::*;
use std::time::{Duration, SystemTime};

use crate::clock::system_now;
use crate::dom_diff::{error_text, HotReloadError};
use crate::keyed::{has_key, key_pos, lemma_key_pos, lemma_put, position_of, put, unique_keys, value_of};
use crate::liveview_integration::HotReloadResult;
use crate::performance_monitor::{duration_as_nanos, duration_nanos};
use crate::protocol::TemplateId;
use crate::text::{copy_texts, decimal, push_decimal, push_quoted, push_str, quoted};

verus! {

/// Logging levels, from the most to the least verbose.
#[derive(Debug, Clone, Copy, PartialEq, Eq, Structural)]
pub enum LogLevel {
    Trace,
    Debug,
    Info,
    Warn,
    Error,
}

impl LogLevel {
    /// The position of the level, from `Trace` up.
    pub open spec fn rank(&self) -> nat {
        match *self {
            LogLevel::Trace => 0,
            LogLevel::Debug => 1,
            LogLevel::Info => 2,
            LogLevel::Warn => 3,
            LogLevel::Error => 4,
        }
    }

    /// The position of the level, from `Trace` up.
    pub fn position(&self) -> (r: u8)
        ensures
            r == self.rank(),
    {
        match *self {
            LogLevel::Trace => 0,
            LogLevel::Debug => 1,
            LogLevel::Info => 2,
            LogLevel::Warn => 3,
            LogLevel::Error => 4,
        }
    }

    /// Whether this level is at least as severe as `other`.
    pub fn at_least(&self, other: LogLevel) -> (r: bool)
        ensures
            r == (self.rank() >= other.rank()),
    {
        self.position() >= other.position()
    }
}

/// Log output formats
#[derive(Debug, Clone, Copy, PartialEq, Eq, Structural)]
pub enum LogFormat {
    /// Human-readable text
    Text,
    /// JSON format
    Json,
    /// Compact format for development
    Compact,
    /// Pretty-printed with colors
    Pretty,
}

/// Types of log events
#[derive(Debug, Clone, Copy, PartialEq, Eq, Structural)]
pub enum LogEventType {
    /// File change detected
    FileChange,
    /// Template parsing started/completed
    TemplateParsing,
    /// DOM diff generation
    DomDiffing,
    /// Component update
    ComponentUpdate,
    /// State preservation
    StatePreservation,
    /// Error occurred
    Error,
    /// Recovery attempt
    ErrorRecovery,
    /// WebSocket communication
    WebSocketEvent,
    /// Performance measurement
    Performance,
    /// Debug information
    Debug,
}

/// Configuration for the logging system
pub struct LoggingConfig {
    /// Logging level
    pub level: LogLevel,
    /// Maximum number of events to buffer
    pub max_events: usize,
    /// Whether to include detailed timing information
    pub include_timing: bool,
    /// Whether to include stack traces for errors
    pub include_stack_traces: bool,
    /// Whether to log DOM patches
    pub log_dom_patches: bool,
    /// Whether to log state preservation details
    pub log_state_preservation: bool,
    /// Output format
    pub output_format: LogFormat,
    /// Whether to enable real-time debugging
    pub enable_debug_mode: bool,
    /// File to write logs to (optional)
    pub log_file: Option<String>,
}

impl LoggingConfig {
    /// The default configuration; real-time debugging is on in builds with
    /// debug assertions, which `debug_build` tells.
    pub fn defaults(debug_build: bool) -> (r: Self)
        ensures
            r.level == LogLevel::Info,
            r.max_events == 1000,
            r.include_timing,
            r.include_stack_traces,
            !r.log_dom_patches,
            r.log_state_preservation,
            r.output_format == LogFormat::Pretty,
            r.enable_debug_mode == debug_build,
            r.log_file is None,
    {
        LoggingConfig {
            level: LogLevel::Info,
            max_events: 1000,
            include_timing: true,
            include_stack_traces: true,
            log_dom_patches: false,
            log_state_preservation: true,
            output_format: LogFormat::Pretty,
            enable_debug_mode: debug_build,
            log_file: None,
        }
    }
}

/// Debug breakpoint
pub struct DebugBreakpoint {
    /// Breakpoint ID
    pub id: String,
    /// Template to break on
    pub template_id: Option<TemplateId>,
    /// Event type to break on
    pub event_type: Option<LogEventType>,
    /// Condition for breaking
    pub condition: Option<String>,
    /// Whether this breakpoint is enabled
    pub enabled: bool,
}

/// Active debugging session
pub struct DebugSession {
    /// Session ID
    pub id: String,
    /// Start time
    pub start_time: SystemTime,
    /// Templates being debugged
    pub watched_templates: Vec<TemplateId>,
    /// Components being debugged
    pub watched_components: Vec<String>,
    /// Breakpoints for debugging
    pub breakpoints: Vec<DebugBreakpoint>,
    /// Step-through mode
    pub step_mode: bool,
    /// Current step
    pub current_step: Option<String>,
}

/// Debug command for interactive debugging
pub enum DebugCommand {
    /// Start a debug session
    StartSession { templates: Vec<TemplateId>, components: Vec<String> },
    /// Stop the current debug session
    StopSession,
    /// Add a breakpoint
    AddBreakpoint {
        template_id: Option<TemplateId>,
        event_type: Option<LogEventType>,
        condition: Option<String>,
    },
    /// Remove a breakpoint
    RemoveBreakpoint { id: String },
    /// Step to next event
    Step,
    /// Continue execution
    Continue,
    /// Get current state
    GetState,
    /// Get event history
    GetEventHistory { limit: Option<usize> },
    /// Get performance metrics
    GetMetrics,
}

/// An enabled breakpoint is hit by an event when its template, if it names
/// one, is the event's (an event without a template never matches one),
/// and its event type, if it names one, is the event's. Conditions are not
/// evaluated.
pub open spec fn hits(
    bp: DebugBreakpoint,
    event_template: Option<TemplateId>,
    event_type: LogEventType,
) -> bool {
    &&& bp.enabled
    &&& match bp.template_id {
        Some(t) => match event_template {
            Some(e) => t.same_as(&e),
            None => false,
        },
        None => true,
    }
    &&& match bp.event_type {
        Some(k) => k == event_type,
        None => true,
    }
}

/// Whether `bp` is hit by an event of type `event_type` about
/// `event_template`.
pub fn breakpoint_hit(
    bp: &DebugBreakpoint,
    event_template: &Option<TemplateId>,
    event_type: LogEventType,
) -> (r: bool)
    ensures
        r == hits(*bp, *event_template, event_type),
{
    if !bp.enabled {
        return false;
    }
    let mut should_break = false;
    match &bp.template_id {
        Some(t) => {
            match event_template {
                Some(e) => {
                    should_break = *t == *e;
                },
                None => {},
            }
        },
        None => {
            should_break = true;
        },
    }
    if should_break {
        match bp.event_type {
            Some(k) => {
                should_break = k == event_type;
            },
            None => {},
        }
    }
    should_break
}

/// The breakpoints of a session hit by an event, in order.
pub fn hit_breakpoints(
    session: &DebugSession,
    event_template: &Option<TemplateId>,
    event_type: LogEventType,
) -> (r: Vec<usize>)
    ensures
        forall|k: int| 0 <= k < r@.len() ==> (#[trigger] r@[k]) < session.breakpoints@.len(),
        forall|k: int, m: int| 0 <= k < m < r@.len() ==> #[trigger] r@[k] < #[trigger] r@[m],
        forall|i: int|
            0 <= i < session.breakpoints@.len() ==> (hits(
                #[trigger] session.breakpoints@[i],
                *event_template,
                event_type,
            ) <==> r@.contains(i as usize)),
{
    let mut r: Vec<usize> = Vec::new();
    let mut i: usize = 0;
    while i < session.breakpoints.len()
        invariant
            i <= session.breakpoints@.len(),
            forall|k: int| 0 <= k < r@.len() ==> (#[trigger] r@[k]) < i,
            forall|k: int, m: int| 0 <= k < m < r@.len() ==> #[trigger] r@[k] < #[trigger] r@[m],
            forall|j: int|
                0 <= j < i ==> (hits(#[trigger] session.breakpoints@[j], *event_template, event_type)
                    <==> r@.contains(j as usize)),
        decreases session.breakpoints@.len() - i,
    {
        let ghost before = r@;
        if breakpoint_hit(&session.breakpoints[i], event_template, event_type) {
            r.push(i);
            proof {
                assert(r@[before.len() as int] == i);
                assert forall|j: int| 0 <= j < i implies (hits(
                    #[trigger] session.breakpoints@[j],
                    *event_template,
                    event_type,
                ) <==> r@.contains(j as usize)) by {
                    if before.contains(j as usize) {
                        let k = choose|k: int| 0 <= k < before.len() && before[k] == j as usize;
                        assert(r@[k] == j as usize);
                    }
                    if r@.contains(j as usize) {
                        let k = choose|k: int| 0 <= k < r@.len() && r@[k] == j as usize;
                        assert(k < before.len());
                        assert(before[k] == j as usize);
                    }
                }
            }
        } else {
            proof {
                if r@.contains(i as usize) {
                    let k = choose|k: int| 0 <= k < r@.len() && r@[k] == i as usize;
                    assert(r@[k] < i);
                }
            }
        }
        proof {
            assert(hits(session.breakpoints@[i as int], *event_template, event_type) <==> r@.contains(i as usize));
        }
        i = i + 1;
    }
    r
}

impl DebugSession {
    /// A session started at `start_time` that watches the given templates
    /// and components, with no breakpoints and no stepping.
    pub fn new(
        id: String,
        start_time: SystemTime,
        templates: Vec<TemplateId>,
        components: Vec<String>,
    ) -> (r: Self)
        ensures
            r.id == id,
            r.start_time == start_time,
            r.watched_templates == templates,
            r.watched_components == components,
            r.breakpoints@.len() == 0,
            !r.step_mode,
            r.current_step is None,
    {
        DebugSession {
            id,
            start_time,
            watched_templates: templates,
            watched_components: components,
            breakpoints: Vec::new(),
            step_mode: false,
            current_step: None,
        }
    }
}

/// The error when a breakpoint is added with no session running.
pub open spec fn no_session_error() -> Seq<char> {
    "No active debug session"@
}

/// Add an enabled breakpoint with the given id to the running session, if
/// there is one.
pub fn add_breakpoint(
    session: &mut Option<DebugSession>,
    id: String,
    template_id: Option<TemplateId>,
    event_type: Option<LogEventType>,
    condition: Option<String>,
) -> (r: Result<String, String>)
    ensures
        match *old(session) {
            None => *final(session) is None && r is Err && r->Err_0@ == no_session_error(),
            Some(s) => {
                &&& r is Ok && r->Ok_0 == id
                &&& (*final(session)) is Some
                &&& (*final(session)).unwrap().breakpoints@ == s.breakpoints@.push(
                    DebugBreakpoint { id, template_id, event_type, condition, enabled: true },
                )
                &&& (*final(session)).unwrap().id == s.id
                &&& (*final(session)).unwrap().watched_templates == s.watched_templates
                &&& (*final(session)).unwrap().watched_components == s.watched_components
                &&& (*final(session)).unwrap().step_mode == s.step_mode
            },
        },
{
    match session {
        Some(s) => {
            let breakpoint_id = id.clone();
            s.breakpoints.push(DebugBreakpoint { id, template_id, event_type, condition, enabled: true });
            Ok(breakpoint_id)
        },
        None => Err("No active debug session".to_owned()),
    }
}

/// Console subscriber that prints events to stdout
pub struct ConsoleSubscriber {
    verbose: bool,
}

impl ConsoleSubscriber {
    pub fn new(verbose: bool) -> (r: Self)
        ensures
            r.verbose() == verbose,
    {
        ConsoleSubscriber { verbose }
    }

    /// Whether every event is shown.
    pub closed spec fn verbose(&self) -> bool {
        self.verbose
    }

    /// Whether an event of `level` is printed: every event when verbose,
    /// else those of level `Info` and above.
    pub fn shows(&self, level: LogLevel) -> (r: bool)
        ensures
            r == (self.verbose() || level.rank() >= LogLevel::Info.rank()),
    {
        self.verbose || level.at_least(LogLevel::Info)
    }

    /// Whether metrics are printed.
    pub fn shows_metrics(&self) -> (r: bool)
        ensures
            r == self.verbose(),
    {
        self.verbose
    }
}

/// File subscriber that writes events to a file
pub struct FileSubscriber {
    file_path: String,
}

impl FileSubscriber {
    pub fn new(file_path: String) -> (r: Self)
        ensures
            r.file_path() == file_path@,
    {
        FileSubscriber { file_path }
    }

    /// The file written to.
    pub closed spec fn file_path(&self) -> Seq<char> {
        self.file_path@
    }
}

/// Receives what the logger logs as it happens: each event, updated
/// metrics, and each breakpoint an event hits.
pub trait LogEventSubscriber {
    /// Called when a new log event occurs
    fn on_log_event(&self, event: &LogEvent);

    /// Called when performance metrics are updated
    fn on_metrics_update(&self, metrics: &PerformanceMetrics);

    /// Called when a debug breakpoint is hit
    fn on_breakpoint_hit(&self, breakpoint: &DebugBreakpoint, event: &LogEvent);
}

/// The file subscriber names its file and writes nothing to it.
impl LogEventSubscriber for FileSubscriber {
    fn on_log_event(&self, event: &LogEvent) {
    }

    fn on_metrics_update(&self, metrics: &PerformanceMetrics) {
    }

    fn on_breakpoint_hit(&self, breakpoint: &DebugBreakpoint, event: &LogEvent) {
    }
}

/// A value recorded in the context of a log event.
pub enum ContextValue {
    Text(String),
    Bool(bool),
    Number(u64),
}

/// The value of a context value.
pub enum ContextModel {
    Text(Seq<char>),
    Bool(bool),
    Number(u64),
}

impl View for ContextValue {
    type V = ContextModel;

    open spec fn view(&self) -> ContextModel {
        match self {
            ContextValue::Text(t) => ContextModel::Text(t@),
            ContextValue::Bool(b) => ContextModel::Bool(*b),
            ContextValue::Number(n) => ContextModel::Number(*n),
        }
    }
}

/// The entries of an event context, by name.
pub open spec fn context_view(c: Seq<(String, ContextValue)>) -> Seq<(Seq<char>, ContextModel)> {
    c.map_values(|e: (String, ContextValue)| (e.0@, e.1@))
}

/// A copy of an event context.
pub fn copy_context(c: &Vec<(String, ContextValue)>) -> (r: Vec<(String, ContextValue)>)
    ensures
        context_view(r@) == context_view(c@),
{
    let mut r: Vec<(String, ContextValue)> = Vec::new();
    let mut i: usize = 0;
    while i < c.len()
        invariant
            i <= c@.len(),
            context_view(r@) == context_view(c@).take(i as int),
        decreases c@.len() - i,
    {
        let v = match &c[i].1 {
            ContextValue::Text(t) => ContextValue::Text(t.clone()),
            ContextValue::Bool(b) => ContextValue::Bool(*b),
            ContextValue::Number(n) => ContextValue::Number(*n),
        };
        assert(v@ == c@[i as int].1@);
        let ghost before = r@;
        let name = c[i].0.clone();
        r.push((name, v));
        assert(context_view(r@) =~= context_view(before).push((c@[i as int].0@, c@[i as int].1@)));
        assert(context_view(c@).take(i + 1) =~= context_view(c@).take(i as int).push(
            (c@[i as int].0@, c@[i as int].1@),
        ));
        i = i + 1;
    }
    assert(context_view(c@).take(i as int) =~= context_view(c@));
    r
}

/// A log event: what happened, when, how severe, and its context.
pub struct LogEvent {
    /// Event ID for tracking
    pub id: String,
    /// When the event occurred
    pub timestamp: SystemTime,
    /// Event type/category
    pub event_type: LogEventType,
    /// Log level
    pub level: LogLevel,
    /// Main message
    pub message: String,
    /// Additional context data
    pub context: Vec<(String, ContextValue)>,
    /// Template ID if applicable
    pub template_id: Option<TemplateId>,
    /// Duration if this is a timed event
    pub duration: Option<Duration>,
    /// Related events (by ID)
    pub related_events: Vec<String>,
}

impl LogEvent {
    /// A copy of this event.
    pub fn duplicate(&self) -> (r: Self)
        ensures
            r.id == self.id,
            r.timestamp == self.timestamp,
            r.event_type == self.event_type,
            r.level == self.level,
            r.message == self.message,
            context_view(r.context@) == context_view(self.context@),
            r.template_id == self.template_id,
            r.duration == self.duration,
            r.related_events@ == self.related_events@,
    {
        LogEvent {
            id: self.id.clone(),
            timestamp: self.timestamp,
            event_type: self.event_type,
            level: self.level,
            message: self.message.clone(),
            context: copy_context(&self.context),
            template_id: match &self.template_id {
                Some(t) => Some(t.duplicate()),
                None => None,
            },
            duration: self.duration,
            related_events: copy_texts(&self.related_events),
        }
    }
}

/// Two events carry the same data.
pub open spec fn same_event(a: LogEvent, b: LogEvent) -> bool {
    &&& a.id == b.id
    &&& a.timestamp == b.timestamp
    &&& a.event_type == b.event_type
    &&& a.level == b.level
    &&& a.message == b.message
    &&& context_view(a.context@) == context_view(b.context@)
    &&& a.template_id == b.template_id
    &&& a.duration == b.duration
    &&& a.related_events@ == b.related_events@
}

/// `r` holds the `limit` most recent of `events` (all of them if fewer),
/// newest first.
pub open spec fn newest_first(r: Seq<LogEvent>, events: Seq<LogEvent>, limit: nat) -> bool {
    &&& r.len() == if limit < events.len() { limit } else { events.len() }
    &&& forall|k: int| 0 <= k < r.len() ==> same_event(#[trigger] r[k], events[events.len() - 1 - k])
}

/// The last `max` of `s`.
pub open spec fn last_n<T>(s: Seq<T>, max: nat) -> Seq<T> {
    if s.len() > max {
        s.subrange(s.len() - max, s.len() as int)
    } else {
        s
    }
}

/// The buffer of recent log events, oldest first, holding at most
/// `max_events` of them.
pub struct EventLog {
    events: Vec<LogEvent>,
    max_events: usize,
}

impl EventLog {
    /// The buffered events, oldest first.
    pub closed spec fn events(&self) -> Seq<LogEvent> {
        self.events@
    }

    /// The most events kept.
    pub closed spec fn capacity(&self) -> nat {
        self.max_events as nat
    }

    /// No more events than the capacity.
    pub open spec fn wf(&self) -> bool {
        self.events().len() <= self.capacity()
    }

    /// An empty buffer keeping at most `max_events` events.
    pub fn new(max_events: usize) -> (r: Self)
        ensures
            r.wf(),
            r.events().len() == 0,
            r.capacity() == max_events,
    {
        EventLog { events: Vec::new(), max_events }
    }

    /// Add an event; the oldest go while there are more than the capacity.
    pub fn push(&mut self, event: LogEvent)
        requires
            old(self).wf(),
        ensures
            final(self).wf(),
            final(self).capacity() == old(self).capacity(),
            final(self).events() == last_n(old(self).events().push(event), old(self).capacity()),
    {
        let ghost pushed = self.events@.push(event);
        self.events.push(event);
        let mut dropped: usize = 0;
        while self.events.len() > self.max_events
            invariant
                self.events@ == pushed.subrange(dropped as int, pushed.len() as int),
                self.max_events == old(self).max_events,
                pushed == old(self).events@.push(event),
                pushed.len() <= self.max_events + 1,
                dropped <= 1,
                dropped == 1 ==> pushed.len() == self.max_events + 1,
            decreases self.events@.len(),
        {
            self.events.remove(0);
            dropped = dropped + 1;
            assert(self.events@ =~= pushed.subrange(dropped as int, pushed.len() as int));
        }
        assert(self.events@ =~= last_n(pushed, self.max_events as nat));
    }

    /// The `limit` most recent events, newest first.
    pub fn recent(&self, limit: usize) -> (r: Vec<LogEvent>)
        ensures
            newest_first(r@, self.events(), limit as nat),
    {
        let mut r: Vec<LogEvent> = Vec::new();
        let n = self.events.len();
        let mut k: usize = 0;
        while k < n && k < limit
            invariant
                n == self.events@.len(),
                k <= n,
                k <= limit,
                r@.len() == k,
                forall|j: int| 0 <= j < k ==> {
                    let e = self.events()[n - 1 - j];
                    &&& (#[trigger] r@[j]).id == e.id
                    &&& r@[j].timestamp == e.timestamp
                    &&& r@[j].event_type == e.event_type
                    &&& r@[j].level == e.level
                    &&& r@[j].message == e.message
                    &&& context_view(r@[j].context@) == context_view(e.context@)
                    &&& r@[j].template_id == e.template_id
                    &&& r@[j].duration == e.duration
                    &&& r@[j].related_events@ == e.related_events@
                },
            decreases n - k,
        {
            r.push(self.events[n - 1 - k].duplicate());
            k = k + 1;
        }
        r
    }

    /// Drop every event.
    pub fn clear(&mut self)
        ensures
            final(self).wf(),
            final(self).events().len() == 0,
            final(self).capacity() == old(self).capacity(),
    {
        self.events.clear();
    }
}


// ----------------------------------------------------------------------------
// Metrics
// ----------------------------------------------------------------------------

/// Performance metrics of timed events, in whole milliseconds. The average
/// update time is the total over the number of updates.
pub struct PerformanceMetrics {
    /// Total number of updates processed
    pub total_updates: usize,
    /// Sum of the update times, held at `u128::MAX` once it gets there
    pub total_update_time_ms: u128,
    /// Fastest update time
    pub fastest_update_ms: Option<u128>,
    /// Slowest update time
    pub slowest_update_ms: Option<u128>,
    /// Updates by hour (`YYYY-MM-DD HH:00`) for trend analysis
    pub updates_by_hour: Vec<(String, usize)>,
    /// DOM patch sizes
    pub patch_sizes: Vec<usize>,
}

/// The value of the metrics.
pub struct MetricsModel {
    pub total_updates: usize,
    pub total_update_time_ms: u128,
    pub fastest_update_ms: Option<u128>,
    pub slowest_update_ms: Option<u128>,
    pub updates_by_hour: Seq<(Seq<char>, usize)>,
    pub patch_sizes: Seq<usize>,
}

impl View for PerformanceMetrics {
    type V = MetricsModel;

    open spec fn view(&self) -> MetricsModel {
        MetricsModel {
            total_updates: self.total_updates,
            total_update_time_ms: self.total_update_time_ms,
            fastest_update_ms: self.fastest_update_ms,
            slowest_update_ms: self.slowest_update_ms,
            updates_by_hour: hour_counts(self.updates_by_hour@),
            patch_sizes: self.patch_sizes@,
        }
    }
}

/// The counts by hour.
pub open spec fn hour_counts(v: Seq<(String, usize)>) -> Seq<(Seq<char>, usize)> {
    v.map_values(|e: (String, usize)| (e.0@, e.1))
}

/// Each hour counted once, and no hour more often than there were updates.
pub open spec fn metrics_wf(m: MetricsModel) -> bool {
    &&& unique_keys(m.updates_by_hour)
    &&& forall|i: int| 0 <= i < m.updates_by_hour.len() ==> #[trigger] m.updates_by_hour[i].1 <= m.total_updates
}

/// No updates yet.
pub open spec fn no_metrics() -> MetricsModel {
    MetricsModel {
        total_updates: 0,
        total_update_time_ms: 0,
        fastest_update_ms: None,
        slowest_update_ms: None,
        updates_by_hour: Seq::empty(),
        patch_sizes: Seq::empty(),
    }
}

/// The whole milliseconds of a duration.
pub open spec fn millis(d: Duration) -> u128 {
    (duration_nanos(d) / 1_000_000) as u128
}

/// The metrics after one more update of `ms` milliseconds in `hour`.
pub open spec fn with_update(m: MetricsModel, ms: u128, hour: Seq<char>) -> MetricsModel {
    MetricsModel {
        total_updates: (m.total_updates + 1) as usize,
        total_update_time_ms: if m.total_update_time_ms + ms > u128::MAX {
            u128::MAX
        } else {
            (m.total_update_time_ms + ms) as u128
        },
        fastest_update_ms: Some(
            match m.fastest_update_ms {
                Some(f) => if ms < f {
                    ms
                } else {
                    f
                },
                None => ms,
            },
        ),
        slowest_update_ms: Some(
            match m.slowest_update_ms {
                Some(f) => if ms > f {
                    ms
                } else {
                    f
                },
                None => ms,
            },
        ),
        updates_by_hour: put(
            m.updates_by_hour,
            hour,
            (match value_of(m.updates_by_hour, hour) {
                Some(c) => c + 1,
                None => 1,
            }) as usize,
        ),
        patch_sizes: m.patch_sizes,
    }
}

impl PerformanceMetrics {
    /// No updates yet.
    pub fn new() -> (r: Self)
        ensures
            r@ == no_metrics(),
    {
        let r = PerformanceMetrics {
            total_updates: 0,
            total_update_time_ms: 0,
            fastest_update_ms: None,
            slowest_update_ms: None,
            updates_by_hour: Vec::new(),
            patch_sizes: Vec::new(),
        };
        assert(r@.updates_by_hour =~= Seq::<(Seq<char>, usize)>::empty());
        r
    }

    /// A copy of the metrics.
    pub fn duplicate(&self) -> (r: Self)
        ensures
            r@ == self@,
    {
        let mut by_hour: Vec<(String, usize)> = Vec::new();
        let mut i: usize = 0;
        while i < self.updates_by_hour.len()
            invariant
                i <= self.updates_by_hour@.len(),
                hour_counts(by_hour@) == self@.updates_by_hour.take(i as int),
            decreases self.updates_by_hour@.len() - i,
        {
            let ghost before = by_hour@;
            let hour = self.updates_by_hour[i].0.clone();
            by_hour.push((hour, self.updates_by_hour[i].1));
            assert(hour_counts(by_hour@) =~= hour_counts(before).push(
                (self.updates_by_hour@[i as int].0@, self.updates_by_hour@[i as int].1),
            ));
            assert(self@.updates_by_hour.take(i + 1) =~= self@.updates_by_hour.take(i as int).push(
                (self.updates_by_hour@[i as int].0@, self.updates_by_hour@[i as int].1),
            ));
            i = i + 1;
        }
        assert(self@.updates_by_hour.take(i as int) =~= self@.updates_by_hour);
        let mut sizes: Vec<usize> = Vec::new();
        let mut j: usize = 0;
        while j < self.patch_sizes.len()
            invariant
                j <= self.patch_sizes@.len(),
                sizes@ == self.patch_sizes@.take(j as int),
            decreases self.patch_sizes@.len() - j,
        {
            sizes.push(self.patch_sizes[j]);
            assert(sizes@ =~= self.patch_sizes@.take(j + 1));
            j = j + 1;
        }
        assert(self.patch_sizes@.take(j as int) =~= self.patch_sizes@);
        let r = PerformanceMetrics {
            total_updates: self.total_updates,
            total_update_time_ms: self.total_update_time_ms,
            fastest_update_ms: self.fastest_update_ms,
            slowest_update_ms: self.slowest_update_ms,
            updates_by_hour: by_hour,
            patch_sizes: sizes,
        };
        assert(r@.updates_by_hour =~= self@.updates_by_hour);
        r
    }

    /// Count one more update of `ms` milliseconds in `hour`.
    pub fn record_update(&mut self, ms: u128, hour: &str)
        requires
            metrics_wf(old(self)@),
            old(self).total_updates < usize::MAX,
        ensures
            metrics_wf(final(self)@),
            final(self)@ == with_update(old(self)@, ms, hour@),
    {
        let ghost m = self@;
        proof {
            lemma_put(m.updates_by_hour, hour@, (match value_of(m.updates_by_hour, hour@) {
                Some(c) => c + 1,
                None => 1,
            }) as usize);
        }
        self.total_updates = self.total_updates + 1;
        self.total_update_time_ms = self.total_update_time_ms.saturating_add(ms);
        self.fastest_update_ms = match self.fastest_update_ms {
            Some(f) => Some(if ms < f { ms } else { f }),
            None => Some(ms),
        };
        self.slowest_update_ms = match self.slowest_update_ms {
            Some(f) => Some(if ms > f { ms } else { f }),
            None => Some(ms),
        };
        let key = hour.to_owned();
        match position_of(&self.updates_by_hour, &key) {
            Some(i) => {
                proof {
                    assert(m.updates_by_hour[i as int].0 == hour@);
                    lemma_key_pos(m.updates_by_hour, i as int);
                    assert(m.updates_by_hour[i as int].1 <= m.total_updates);
                }
                let count = self.updates_by_hour[i].1 + 1;
                self.updates_by_hour.set(i, (key, count));
                assert(self@.updates_by_hour =~= m.updates_by_hour.update(i as int, (hour@, count)));
            },
            None => {
                proof {
                    if has_key(m.updates_by_hour, hour@) {
                        let k = key_pos(m.updates_by_hour, hour@);
                        assert(self.updates_by_hour@[k].0@ == hour@);
                    }
                }
                self.updates_by_hour.push((key, 1));
                assert(self@.updates_by_hour =~= m.updates_by_hour.push((hour@, 1usize)));
            },
        }
        proof {
            let hs = self@.updates_by_hour;
            assert forall|i: int| 0 <= i < hs.len() implies #[trigger] hs[i].1 <= self@.total_updates by {
                if has_key(m.updates_by_hour, hour@) {
                    let c = key_pos(m.updates_by_hour, hour@);
                    if i != c {
                        assert(hs[i] == m.updates_by_hour[i]);
                    }
                } else if i < m.updates_by_hour.len() {
                    assert(hs[i] == m.updates_by_hour[i]);
                }
            }
        }
    }
}

// ----------------------------------------------------------------------------
// The logger
// ----------------------------------------------------------------------------

/// A fresh identifier from `uuid::Uuid::new_v4`, in its hyphenated text
/// form, which `uuid` writes as 36 characters. It is random: nothing more is
/// stated of it.
#[verifier::external_body]
fn new_event_id() -> (r: String)
    ensures
        r@.len() == 36,
{
    uuid::Uuid::new_v4().to_string()
}

/// The current hour in UTC as `chrono` formats it with `%Y-%m-%d %H:00`. It
/// depends on the clock: nothing is stated of it.
#[verifier::external_body]
fn current_hour_key() -> String {
    format!("{}", chrono::Utc::now().format("%Y-%m-%d %H:00"))
}

/// The text `format!("{:?}", ..)` gives for an error, through its derived
/// `Debug`.
pub uninterp spec fn error_debug_text(e: HotReloadError) -> Seq<char>;

/// Formats `error` with its derived `Debug`; the text is named, as it
/// depends on the error alone.
#[verifier::external_body]
fn error_debug(error: &HotReloadError) -> (r: String)
    ensures
        r@ == error_debug_text(*error),
{
    format!("{:?}", error)
}

/// The context logged with an error: its `Debug` text, the caller's
/// context where there is one, and a stack trace entry where the
/// configuration asks for stack traces.
pub open spec fn error_context(
    error: HotReloadError,
    context: Option<Seq<char>>,
    stack_traces: bool,
) -> Seq<(Seq<char>, ContextModel)> {
    let first = seq![("error_type"@, ContextModel::Text(error_debug_text(error)))];
    let with_context = match context {
        Some(c) => first.push(("context"@, ContextModel::Text(c))),
        None => first,
    };
    if stack_traces {
        with_context.push(("stack_trace"@, ContextModel::Text("Stack trace placeholder"@)))
    } else {
        with_context
    }
}

/// What a debug command answers.
pub enum DebugReply {
    /// A session was started under this id
    SessionStarted { session_id: String },
    /// The session was stopped
    Stopped,
    /// A breakpoint was added under this id
    BreakpointAdded { breakpoint_id: String },
    /// The most recent events, newest first
    EventHistory(Vec<LogEvent>),
    /// The metrics
    Metrics(PerformanceMetrics),
    /// The command is not implemented
    NotImplemented,
}

/// Hot reload debugging and logging: the buffered events, the metrics of
/// timed events, the debug session with its breakpoints, and the
/// subscribers told of each event.
pub struct HotReloadLogger<L> {
    config: LoggingConfig,
    events: EventLog,
    metrics: PerformanceMetrics,
    debug_session: Option<DebugSession>,
    subscribers: Vec<L>,
}

impl<L: LogEventSubscriber> HotReloadLogger<L> {
    /// The configuration.
    pub closed spec fn config(&self) -> LoggingConfig {
        self.config
    }

    /// The buffered events, oldest first.
    pub closed spec fn events(&self) -> Seq<LogEvent> {
        self.events.events()
    }

    /// The most events buffered.
    pub closed spec fn capacity(&self) -> nat {
        self.events.capacity()
    }

    /// The metrics.
    pub closed spec fn metrics(&self) -> MetricsModel {
        self.metrics@
    }

    /// The debug session, if one is running.
    pub closed spec fn session(&self) -> Option<DebugSession> {
        self.debug_session
    }

    /// The buffer within its capacity, and the metrics consistent.
    pub closed spec fn wf(&self) -> bool {
        &&& self.events.wf()
        &&& self.events.capacity() == self.config.max_events
        &&& metrics_wf(self.metrics@)
    }

    /// The buffer never holds more events than its capacity.
    pub proof fn lemma_buffer_bounded(&self)
        requires
            self.wf(),
        ensures
            self.events().len() <= self.capacity(),
    {
    }

    /// A logger with nothing logged and no session.
    pub fn new(config: LoggingConfig) -> (r: Self)
        ensures
            r.wf(),
            r.config() == config,
            r.events().len() == 0,
            r.capacity() == config.max_events,
            r.metrics() == no_metrics(),
            r.session() is None,
            r.subscribers().len() == 0,
    {
        let events = EventLog::new(config.max_events);
        HotReloadLogger {
            config,
            events,
            metrics: PerformanceMetrics::new(),
            debug_session: None,
            subscribers: Vec::new(),
        }
    }

    /// The subscribers, in the order they were added.
    pub closed spec fn subscribers(&self) -> Seq<L> {
        self.subscribers@
    }

    /// Add a log event subscriber
    pub fn add_subscriber(&mut self, subscriber: L)
        ensures
            final(self).subscribers() == old(self).subscribers().push(subscriber),
            final(self).config() == old(self).config(),
            final(self).capacity() == old(self).capacity(),
            final(self).events() == old(self).events(),
            final(self).metrics() == old(self).metrics(),
            final(self).session() == old(self).session(),
            final(self).wf() == old(self).wf(),
    {
        self.subscribers.push(subscriber);
    }

    /// Tell each subscriber of each breakpoint of the session at the
    /// positions `hits`, in order, and then of the event.
    fn notify(&self, event: &LogEvent, hits: &Vec<usize>)
        requires
            self.session() matches Some(s) ==> forall|k: int|
                0 <= k < hits@.len() ==> #[trigger] hits@[k] < s.breakpoints@.len(),
    {
        match &self.debug_session {
            Some(session) => {
                let mut k: usize = 0;
                while k < hits.len()
                    invariant
                        forall|m: int| 0 <= m < hits@.len() ==> #[trigger] hits@[m] < session.breakpoints@.len(),
                    decreases hits@.len() - k,
                {
                    let breakpoint = &session.breakpoints[hits[k]];
                    let mut j: usize = 0;
                    while j < self.subscribers.len()
                        decreases self.subscribers@.len() - j,
                    {
                        self.subscribers[j].on_breakpoint_hit(breakpoint, event);
                        j = j + 1;
                    }
                    k = k + 1;
                }
            },
            None => {},
        }
        let mut j: usize = 0;
        while j < self.subscribers.len()
            decreases self.subscribers@.len() - j,
        {
            self.subscribers[j].on_log_event(event);
            j = j + 1;
        }
    }

    /// Buffer `event`, dropping the oldest beyond the capacity; count its
    /// duration in the metrics under `hour` when it has one; and tell which
    /// breakpoints of the session it hits.
    pub fn record_event(&mut self, event: LogEvent, hour: &str) -> (r: Vec<usize>)
        requires
            old(self).wf(),
            event.duration is Some ==> old(self).metrics().total_updates < usize::MAX,
        ensures
            final(self).wf(),
            final(self).config() == old(self).config(),
            final(self).capacity() == old(self).capacity(),
            final(self).events() == last_n(old(self).events().push(event), old(self).capacity()),
            final(self).metrics() == match event.duration {
                Some(d) => with_update(old(self).metrics(), millis(d), hour@),
                None => old(self).metrics(),
            },
            final(self).session() == old(self).session(),
            final(self).subscribers() == old(self).subscribers(),
            match old(self).session() {
                Some(s) => {
                    &&& forall|k: int| 0 <= k < r@.len() ==> (#[trigger] r@[k]) < s.breakpoints@.len()
                    &&& forall|k: int, m: int| 0 <= k < m < r@.len() ==> #[trigger] r@[k] < #[trigger] r@[m]
                    &&& forall|i: int|
                        0 <= i < s.breakpoints@.len() ==> (hits(
                            #[trigger] s.breakpoints@[i],
                            event.template_id,
                            event.event_type,
                        ) <==> r@.contains(i as usize))
                },
                None => r@.len() == 0,
            },
    {
        let hit = match &self.debug_session {
            Some(session) => hit_breakpoints(session, &event.template_id, event.event_type),
            None => Vec::new(),
        };
        match event.duration {
            Some(d) => {
                let ms = duration_as_nanos(&d) / 1_000_000;
                self.metrics.record_update(ms, hour);
            },
            None => {},
        }
        self.events.push(event);
        hit
    }

    /// Log an event: a fresh id, the current time, and, for a timed event,
    /// the current hour come from outside; the event is then recorded as
    /// `record_event` says, and the subscribers are told of each breakpoint
    /// it hits and of the event. Returns the id and the breakpoints hit.
    pub fn log_event(
        &mut self,
        event_type: LogEventType,
        level: LogLevel,
        message: String,
        context: Option<Vec<(String, ContextValue)>>,
        template_id: Option<TemplateId>,
        duration: Option<Duration>,
    ) -> (r: (String, Vec<usize>))
        requires
            old(self).wf(),
            duration is Some ==> old(self).metrics().total_updates < usize::MAX,
        ensures
            final(self).wf(),
            final(self).config() == old(self).config(),
            final(self).capacity() == old(self).capacity(),
            final(self).session() == old(self).session(),
            final(self).subscribers() == old(self).subscribers(),
            r.0@.len() == 36,
            exists|e: LogEvent|
                {
                    &&& e.id == r.0
                    &&& e.event_type == event_type
                    &&& e.level == level
                    &&& e.message == message
                    &&& context_view(e.context@) == match context {
                        Some(c) => context_view(c@),
                        None => Seq::empty(),
                    }
                    &&& e.template_id == template_id
                    &&& e.duration == duration
                    &&& e.related_events@.len() == 0
                    &&& final(self).events() == last_n(#[trigger] old(self).events().push(e), old(self).capacity())
                },
            duration is None ==> final(self).metrics() == old(self).metrics(),
            duration matches Some(d) ==> exists|hour: Seq<char>|
                final(self).metrics() == #[trigger] with_update(old(self).metrics(), millis(d), hour),
    {
        let id = new_event_id();
        let hour = match duration {
            Some(_) => current_hour_key(),
            None => String::new(),
        };
        let ctx = match context {
            Some(c) => c,
            None => Vec::new(),
        };
        proof {
            if context is None {
                assert(context_view(ctx@) =~= Seq::<(Seq<char>, ContextModel)>::empty());
            }
        }
        let event = LogEvent {
            id: id.clone(),
            timestamp: system_now(),
            event_type,
            level,
            message,
            context: ctx,
            template_id,
            duration,
            related_events: Vec::new(),
        };
        let ghost e = event;
        let told = event.duplicate();
        let hit = self.record_event(event, hour.as_str());
        self.notify(&told, &hit);
        proof {
            assert(final(self).events() == last_n(old(self).events().push(e), old(self).capacity()));
            match duration {
                Some(d) => {
                    assert(final(self).metrics() == with_update(old(self).metrics(), millis(d), hour@));
                },
                None => {},
            }
        }
        (id, hit)
    }
}


impl<L: LogEventSubscriber> HotReloadLogger<L> {
    /// Carry out a debug command; a new session or breakpoint gets `new_id`
    /// and a new session starts at `now`. Only the session changes.
    pub fn apply_debug_command(&mut self, command: DebugCommand, new_id: String, now: SystemTime) -> (r: Result<
        DebugReply,
        String,
    >)
        requires
            old(self).wf(),
        ensures
            final(self).wf(),
            final(self).config() == old(self).config(),
            final(self).capacity() == old(self).capacity(),
            final(self).events() == old(self).events(),
            final(self).metrics() == old(self).metrics(),
            match command {
                DebugCommand::StartSession { templates, components } => {
                    &&& r matches Ok(DebugReply::SessionStarted { session_id }) && session_id == new_id
                    &&& final(self).session() matches Some(s) && {
                        &&& s.id == new_id
                        &&& s.start_time == now
                        &&& s.watched_templates == templates
                        &&& s.watched_components == components
                        &&& s.breakpoints@.len() == 0
                        &&& !s.step_mode
                        &&& s.current_step is None
                    }
                },
                DebugCommand::StopSession => {
                    &&& r matches Ok(DebugReply::Stopped)
                    &&& final(self).session() is None
                },
                DebugCommand::AddBreakpoint { template_id, event_type, condition } => match old(self).session() {
                    None => {
                        &&& r matches Err(m) && m@ == no_session_error()
                        &&& final(self).session() is None
                    },
                    Some(s) => {
                        &&& r matches Ok(DebugReply::BreakpointAdded { breakpoint_id }) && breakpoint_id == new_id
                        &&& final(self).session() matches Some(t) && {
                            &&& t.breakpoints@ == s.breakpoints@.push(
                                DebugBreakpoint { id: new_id, template_id, event_type, condition, enabled: true },
                            )
                            &&& t.id == s.id
                            &&& t.watched_templates == s.watched_templates
                            &&& t.watched_components == s.watched_components
                            &&& t.step_mode == s.step_mode
                        }
                    },
                },
                DebugCommand::GetEventHistory { limit } => {
                    &&& r matches Ok(DebugReply::EventHistory(v)) && newest_first(
                        v@,
                        old(self).events(),
                        match limit {
                            Some(l) => l as nat,
                            None => 100,
                        },
                    )
                    &&& final(self).session() == old(self).session()
                },
                DebugCommand::GetMetrics => {
                    &&& r matches Ok(DebugReply::Metrics(m)) && m@ == old(self).metrics()
                    &&& final(self).session() == old(self).session()
                },
                _ => {
                    &&& r matches Ok(DebugReply::NotImplemented)
                    &&& final(self).session() == old(self).session()
                },
            },
    {
        match command {
            DebugCommand::StartSession { templates, components } => {
                let session_id = new_id.clone();
                self.debug_session = Some(DebugSession::new(new_id, now, templates, components));
                Ok(DebugReply::SessionStarted { session_id })
            },
            DebugCommand::StopSession => {
                self.debug_session = None;
                Ok(DebugReply::Stopped)
            },
            DebugCommand::AddBreakpoint { template_id, event_type, condition } => {
                match add_breakpoint(&mut self.debug_session, new_id, template_id, event_type, condition) {
                    Ok(breakpoint_id) => Ok(DebugReply::BreakpointAdded { breakpoint_id }),
                    Err(m) => Err(m),
                }
            },
            DebugCommand::GetEventHistory { limit } => {
                let n = match limit {
                    Some(l) => l,
                    None => 100,
                };
                Ok(DebugReply::EventHistory(self.events.recent(n)))
            },
            DebugCommand::GetMetrics => Ok(DebugReply::Metrics(self.metrics.duplicate())),
            _ => Ok(DebugReply::NotImplemented),
        }
    }

    /// Carry out a debug command, a fresh random id and the current time
    /// taken for what it creates; see `apply_debug_command`.
    pub fn handle_debug_command(&mut self, command: DebugCommand) -> (r: Result<DebugReply, String>)
        requires
            old(self).wf(),
        ensures
            final(self).wf(),
            final(self).events() == old(self).events(),
            final(self).metrics() == old(self).metrics(),
            match command {
                DebugCommand::StopSession => r matches Ok(DebugReply::Stopped) && final(self).session() is None,
                DebugCommand::AddBreakpoint { .. } => old(self).session() is None ==> (r matches Err(m) && m@
                    == no_session_error()),
                DebugCommand::StartSession { .. } => r is Ok && final(self).session() is Some,
                _ => r is Ok && final(self).session() == old(self).session(),
            },
    {
        let id = new_event_id();
        let now = system_now();
        self.apply_debug_command(command, id, now)
    }

    /// A copy of the metrics.
    pub fn get_metrics(&self) -> (r: PerformanceMetrics)
        ensures
            r@ == self.metrics(),
    {
        self.metrics.duplicate()
    }

    /// The `limit` most recent events, newest first.
    pub fn get_recent_events(&self, limit: usize) -> (r: Vec<LogEvent>)
        ensures
            newest_first(r@, self.events(), limit as nat),
    {
        self.events.recent(limit)
    }

    /// Forget every event and every metric.
    pub fn clear_events(&mut self)
        requires
            old(self).wf(),
        ensures
            final(self).wf(),
            final(self).config() == old(self).config(),
            final(self).capacity() == old(self).capacity(),
            final(self).events().len() == 0,
            final(self).metrics() == no_metrics(),
            final(self).session() == old(self).session(),
    {
        self.events.clear();
        self.metrics = PerformanceMetrics::new();
    }

    /// Log a file change at debug level, the path and the kind of change in
    /// the context.
    pub fn log_file_change(&mut self, file_path: &str, change_type: &str) -> (r: String)
        requires
            old(self).wf(),
        ensures
            final(self).wf(),
            final(self).metrics() == old(self).metrics(),
            final(self).session() == old(self).session(),
            exists|e: LogEvent|
                {
                    &&& e.id == r
                    &&& e.event_type == LogEventType::FileChange
                    &&& e.level == LogLevel::Debug
                    &&& e.message@ == file_change_message(file_path@, change_type@)
                    &&& context_view(e.context@) == seq![
                        ("file_path"@, ContextModel::Text(file_path@)),
                        ("change_type"@, ContextModel::Text(change_type@)),
                    ]
                    &&& e.template_id is None
                    &&& e.duration is None
                    &&& final(self).events() == last_n(#[trigger] old(self).events().push(e), old(self).capacity())
                },
    {
        let mut context: Vec<(String, ContextValue)> = Vec::new();
        context.push(("file_path".to_owned(), ContextValue::Text(file_path.to_owned())));
        context.push(("change_type".to_owned(), ContextValue::Text(change_type.to_owned())));
        let ghost cv = context_view(context@);
        assert(cv =~= seq![
            ("file_path"@, ContextModel::Text(file_path@)),
            ("change_type"@, ContextModel::Text(change_type@)),
        ]);
        let mut message = String::new();
        push_str(&mut message, "File changed: ");
        push_str(&mut message, file_path);
        push_str(&mut message, " (");
        push_str(&mut message, change_type);
        push_str(&mut message, ")");
        let (id, _) = self.log_event(
            LogEventType::FileChange,
            LogLevel::Debug,
            message,
            Some(context),
            None,
            None,
        );
        id
    }

    /// Log an error at error level, with its text in the message and its
    /// description in the context.
    pub fn log_error(&mut self, error: &HotReloadError, context: Option<&str>) -> (r: String)
        requires
            old(self).wf(),
        ensures
            final(self).wf(),
            final(self).metrics() == old(self).metrics(),
            final(self).session() == old(self).session(),
            r@.len() == 36,
            exists|e: LogEvent|
                {
                    &&& e.id == r
                    &&& e.event_type == LogEventType::Error
                    &&& e.level == LogLevel::Error
                    &&& e.message@ == "Hot reload error: "@ + error_text(*error)
                    &&& context_view(e.context@) == error_context(
                        *error,
                        match context {
                            Some(c) => Some(c@),
                            None => None,
                        },
                        old(self).config().include_stack_traces,
                    )
                    &&& e.template_id is None
                    &&& e.duration is None
                    &&& final(self).events() == last_n(#[trigger] old(self).events().push(e), old(self).capacity())
                },
    {
        let mut ctx: Vec<(String, ContextValue)> = Vec::new();
        ctx.push(("error_type".to_owned(), ContextValue::Text(error_debug(error))));
        match context {
            Some(c) => {
                ctx.push(("context".to_owned(), ContextValue::Text(c.to_owned())));
            },
            None => {},
        }
        if self.config.include_stack_traces {
            ctx.push(("stack_trace".to_owned(), ContextValue::Text("Stack trace placeholder".to_owned())));
        }
        assert(context_view(ctx@) =~= error_context(
            *error,
            match context {
                Some(c) => Some(c@),
                None => None,
            },
            self.config().include_stack_traces,
        ));
        let mut message = String::new();
        push_str(&mut message, "Hot reload error: ");
        let text = error.message();
        push_str(&mut message, text.as_str());
        let (id, _) = self.log_event(LogEventType::Error, LogLevel::Error, message, Some(ctx), None, None);
        id
    }

    /// Log the outcome of parsing a template, timed: at debug level when it
    /// succeeded, at error level when it failed.
    pub fn log_template_parsing(&mut self, template_id: &TemplateId, duration: Duration, success: bool) -> (r:
        String)
        requires
            old(self).wf(),
            old(self).metrics().total_updates < usize::MAX,
        ensures
            final(self).wf(),
            final(self).session() == old(self).session(),
            exists|hour: Seq<char>|
                final(self).metrics() == #[trigger] with_update(old(self).metrics(), millis(duration), hour),
            exists|e: LogEvent|
                {
                    &&& e.id == r
                    &&& e.event_type == LogEventType::TemplateParsing
                    &&& e.level == if success {
                        LogLevel::Debug
                    } else {
                        LogLevel::Error
                    }
                    &&& e.message@ == parsing_message(*template_id, success)
                    &&& context_view(e.context@) == seq![("success"@, ContextModel::Bool(success))]
                    &&& e.template_id == Some(*template_id)
                    &&& e.duration == Some(duration)
                    &&& final(self).events() == last_n(#[trigger] old(self).events().push(e), old(self).capacity())
                },
    {
        let mut context: Vec<(String, ContextValue)> = Vec::new();
        context.push(("success".to_owned(), ContextValue::Bool(success)));
        assert(context_view(context@) =~= seq![("success"@, ContextModel::Bool(success))]);
        let mut message = String::new();
        if success {
            push_str(&mut message, "Template parsed successfully: ");
        } else {
            push_str(&mut message, "Template parsing failed: ");
        }
        push_template_id_debug(&mut message, template_id);
        let level = if success {
            LogLevel::Debug
        } else {
            LogLevel::Error
        };
        let (id, _) = self.log_event(
            LogEventType::TemplateParsing,
            level,
            message,
            Some(context),
            Some(template_id.duplicate()),
            Some(duration),
        );
        id
    }

    /// Log the result of updating a component: at info level when it was
    /// updated, at warning level when the page must be reloaded, at error
    /// level when it failed.
    pub fn log_component_update(&mut self, instance_id: &str, result: &HotReloadResult) -> (r: String)
        requires
            old(self).wf(),
        ensures
            final(self).wf(),
            final(self).metrics() == old(self).metrics(),
            final(self).session() == old(self).session(),
            exists|e: LogEvent|
                {
                    &&& e.id == r
                    &&& e.event_type == LogEventType::ComponentUpdate
                    &&& e.level == update_level(*result)
                    &&& e.message@ == update_message(instance_id@, *result)
                    &&& context_view(e.context@) == update_context(instance_id@, *result)
                    &&& e.template_id is None
                    &&& e.duration is None
                    &&& final(self).events() == last_n(#[trigger] old(self).events().push(e), old(self).capacity())
                },
    {
        let mut context: Vec<(String, ContextValue)> = Vec::new();
        context.push(("instance_id".to_owned(), ContextValue::Text(instance_id.to_owned())));
        let ghost first = context_view(context@);
        let mut message = String::new();
        let level = match result {
            HotReloadResult::Updated { patch_size, state_preserved, .. } => {
                context.push(("patch_size".to_owned(), ContextValue::Number(*patch_size as u64)));
                context.push(("state_preserved".to_owned(), ContextValue::Bool(*state_preserved)));
                push_str(&mut message, "Component updated: ");
                push_str(&mut message, instance_id);
                push_str(&mut message, " (patch size: ");
                push_decimal(&mut message, *patch_size as u64);
                push_str(&mut message, ")");
                LogLevel::Info
            },
            HotReloadResult::FullRefreshRequired { reason } => {
                context.push(("reason".to_owned(), ContextValue::Text(reason.clone())));
                push_str(&mut message, "Full refresh required for ");
                push_str(&mut message, instance_id);
                push_str(&mut message, ": ");
                push_str(&mut message, reason.as_str());
                LogLevel::Warn
            },
            HotReloadResult::Failed { error, .. } => {
                context.push(("error".to_owned(), ContextValue::Text(error.clone())));
                push_str(&mut message, "Update failed for ");
                push_str(&mut message, instance_id);
                push_str(&mut message, ": ");
                push_str(&mut message, error.as_str());
                LogLevel::Error
            },
        };
        assert(context_view(context@) =~= update_context(instance_id@, *result));
        let (id, _) = self.log_event(LogEventType::ComponentUpdate, level, message, Some(context), None, None);
        id
    }
}

/// The message of a file change.
pub open spec fn file_change_message(path: Seq<char>, change: Seq<char>) -> Seq<char> {
    "File changed: "@ + path + " ("@ + change + ")"@
}

/// A template identifier as `Debug` shows it.
pub open spec fn template_id_debug(id: TemplateId) -> Seq<char> {
    "TemplateId { file: "@ + quoted(id.file@) + ", line: "@ + decimal(id.line as nat) + ", column: "@ + decimal(
        id.column as nat,
    ) + " }"@
}

/// Appends a template identifier as `Debug` shows it.
pub fn push_template_id_debug(s: &mut String, id: &TemplateId)
    ensures
        final(s)@ == old(s)@ + template_id_debug(*id),
{
    push_str(s, "TemplateId { file: ");
    push_quoted(s, id.file.as_str());
    push_str(s, ", line: ");
    push_decimal(s, id.line as u64);
    push_str(s, ", column: ");
    push_decimal(s, id.column as u64);
    push_str(s, " }");
    assert(final(s)@ =~= old(s)@ + template_id_debug(*id));
}

/// The message of a parsed template.
pub open spec fn parsing_message(id: TemplateId, success: bool) -> Seq<char> {
    if success {
        "Template parsed successfully: "@ + template_id_debug(id)
    } else {
        "Template parsing failed: "@ + template_id_debug(id)
    }
}

/// The level of a component update's log event.
pub open spec fn update_level(result: HotReloadResult) -> LogLevel {
    match result {
        HotReloadResult::Updated { .. } => LogLevel::Info,
        HotReloadResult::FullRefreshRequired { .. } => LogLevel::Warn,
        HotReloadResult::Failed { .. } => LogLevel::Error,
    }
}

/// The message of a component update.
pub open spec fn update_message(instance_id: Seq<char>, result: HotReloadResult) -> Seq<char> {
    match result {
        HotReloadResult::Updated { patch_size, .. } => "Component updated: "@ + instance_id + " (patch size: "@
            + decimal(patch_size as nat) + ")"@,
        HotReloadResult::FullRefreshRequired { reason } => "Full refresh required for "@ + instance_id + ": "@
            + reason@,
        HotReloadResult::Failed { error, .. } => "Update failed for "@ + instance_id + ": "@ + error@,
    }
}

/// The context of a component update.
pub open spec fn update_context(instance_id: Seq<char>, result: HotReloadResult) -> Seq<(Seq<char>, ContextModel)> {
    match result {
        HotReloadResult::Updated { patch_size, state_preserved, .. } => seq![
            ("instance_id"@, ContextModel::Text(instance_id)),
            ("patch_size"@, ContextModel::Number(patch_size as u64)),
            ("state_preserved"@, ContextModel::Bool(state_preserved)),
        ],
        HotReloadResult::FullRefreshRequired { reason } => seq![
            ("instance_id"@, ContextModel::Text(instance_id)),
            ("reason"@, ContextModel::Text(reason@)),
        ],
        HotReloadResult::Failed { error, .. } => seq![
            ("instance_id"@, ContextModel::Text(instance_id)),
            ("error"@, ContextModel::Text(error@)),
        ],
    }
}

} // verus!
