//! Error boundaries and the decisions of graceful recovery: what a boundary
//! records when an error comes, how a recovery outcome changes it, when its
//! circuit breaker blocks further attempts, and which strategy result ends
//! the search for a recovery.

use vstd::prelude::*;
use std::time::{Duration, SystemTime};

use crate::clock::{system_elapsed, system_now};
use crate::dom_diff::{error_text, HotReloadError};
use crate::keyed::{has_key, key_pos, lemma_key_pos, lemma_put, lemma_put_twice, put, unique_keys, value_of};
use crate::liveview_integration::ActiveLiveView;
use crate::performance_monitor::{duration_from_nanos, duration_nanos};
use crate::protocol::{blake3_hex_digest, TemplateId, TemplateUpdate};
use crate::text::{push_decimal, push_str};

verus! {

/// Configuration for error recovery
pub struct ErrorRecoveryConfig {
    /// Maximum number of retry attempts
    pub max_retries: usize,
    /// Delay between retry attempts
    pub retry_delay: Duration,
    /// Whether to use exponential backoff
    pub exponential_backoff: bool,
    /// Timeout for recovery operations
    pub recovery_timeout: Duration,
    /// Whether to automatically fall back to full refresh
    pub auto_fallback_to_refresh: bool,
    /// Circuit breaker threshold (failures before opening circuit)
    pub circuit_breaker_threshold: usize,
    /// Circuit breaker reset timeout
    pub circuit_breaker_reset_timeout: Duration,
}

impl Default for ErrorRecoveryConfig {
    fn default() -> (r: Self)
        ensures
            r.max_retries == 3,
            duration_nanos(r.retry_delay) == 500_000_000,
            r.exponential_backoff,
            duration_nanos(r.recovery_timeout) == 10_000_000_000,
            r.auto_fallback_to_refresh,
            r.circuit_breaker_threshold == 5,
            duration_nanos(r.circuit_breaker_reset_timeout) == 30_000_000_000,
    {
        ErrorRecoveryConfig {
            max_retries: 3,
            retry_delay: duration_from_nanos(500_000_000),
            exponential_backoff: true,
            recovery_timeout: duration_from_nanos(10_000_000_000),
            auto_fallback_to_refresh: true,
            circuit_breaker_threshold: 5,
            circuit_breaker_reset_timeout: duration_from_nanos(30_000_000_000),
        }
    }
}

/// Current error state of a boundary
pub enum ErrorState {
    /// No errors, operating normally
    Healthy,
    /// Recoverable error occurred
    RecoverableError { error: String, timestamp: SystemTime },
    /// Critical error, needs fallback
    CriticalError { error: String, timestamp: SystemTime },
    /// Using fallback content
    UsingFallback { reason: String, timestamp: SystemTime },
    /// Permanently failed
    Failed { error: String, timestamp: SystemTime },
}

/// Circuit breaker state
pub enum CircuitBreakerState {
    /// Circuit is closed, allowing operations
    Closed,
    /// Circuit is open, blocking operations
    Open { opened_at: SystemTime },
    /// Circuit is half-open, testing recovery
    HalfOpen,
}

/// Categories of errors for better handling
#[derive(Debug, Clone, Copy, PartialEq, Eq, Structural)]
pub enum ErrorType {
    /// Template parsing failed
    ParseError,
    /// DOM diffing failed
    DiffError,
    /// State preservation failed
    StateError,
    /// Network/communication error
    NetworkError,
    /// File system error
    FileSystemError,
    /// Unknown error
    Unknown,
}

/// Record of an error occurrence
pub struct ErrorRecord {
    /// Error message
    pub error: String,
    /// Error type/category
    pub error_type: ErrorType,
    /// When the error occurred
    pub timestamp: SystemTime,
    /// Template ID associated with the error
    pub template_id: Option<TemplateId>,
    /// Recovery action taken
    pub recovery_action: Option<String>,
    /// Whether recovery was successful
    pub recovery_successful: Option<bool>,
}

/// Error boundary for a component or template
pub struct ErrorBoundary {
    /// Boundary identifier
    pub id: String,
    /// Template or component this boundary protects
    pub protected_id: String,
    /// Current error state
    pub error_state: ErrorState,
    /// Error history
    pub error_history: Vec<ErrorRecord>,
    /// Recovery attempts
    pub recovery_attempts: usize,
    /// Last recovery attempt time
    pub last_recovery_attempt: Option<SystemTime>,
    /// Circuit breaker state
    pub circuit_breaker: CircuitBreakerState,
    /// Fallback content
    pub fallback_content: Option<String>,
}

/// Result of a recovery attempt
pub enum RecoveryResult {
    /// Recovery succeeded
    Success { message: String, recovered_content: Option<String> },
    /// Recovery partially succeeded, but may need additional action
    PartialSuccess { message: String, issues: Vec<String> },
    /// Recovery failed, try next strategy
    Failed { error: String, retry_recommended: bool },
    /// Fallback to refresh required
    RequiresFallback { reason: String },
}

/// Actions to take when fallback is triggered
pub enum FallbackAction {
    /// Show fallback content
    ShowFallbackContent,
    /// Trigger full page refresh
    FullPageRefresh,
    /// Show error message to user
    ShowErrorMessage,
    /// Retry after delay
    RetryAfterDelay(Duration),
}

/// Outcome of error recovery attempt
pub enum RecoveryOutcome {
    /// Error was successfully recovered
    Recovered { strategy: String, message: String, new_content: Option<String> },
    /// Recovery failed, fallback was triggered
    FallbackTriggered { reason: String, fallback_content: Option<String>, action: FallbackAction },
    /// Recovery completely failed
    Failed { error: String, requires_manual_intervention: bool },
}

/// Fallback strategies when recovery fails
pub enum FallbackStrategy {
    /// Show previous working version
    UsePreviousVersion,
    /// Show generic error message
    ShowErrorMessage,
    /// Trigger full page refresh
    FullPageRefresh,
    /// Show loading state
    ShowLoadingState,
    /// Show custom content
    ShowCustomContent(String),
}

/// Fallback manager for when recovery fails
pub struct FallbackManager {
    /// Default fallback strategies
    strategies: Vec<FallbackStrategy>,
    /// Custom fallback content by template
    custom_fallbacks: Vec<(TemplateId, String)>,
}

// ----------------------------------------------------------------------------
// Boundaries
// ----------------------------------------------------------------------------

impl ErrorBoundary {
    /// Create a new error boundary
    pub fn new(id: String, protected_id: String) -> (r: Self)
        ensures
            r.id == id,
            r.protected_id == protected_id,
            r.error_state is Healthy,
            r.error_history@.len() == 0,
            r.recovery_attempts == 0,
            r.last_recovery_attempt is None,
            r.circuit_breaker is Closed,
            r.fallback_content is None,
    {
        ErrorBoundary {
            id,
            protected_id,
            error_state: ErrorState::Healthy,
            error_history: Vec::new(),
            recovery_attempts: 0,
            last_recovery_attempt: None,
            circuit_breaker: CircuitBreakerState::Closed,
            fallback_content: None,
        }
    }

    /// Check if the boundary is healthy
    pub fn is_healthy(&self) -> (r: bool)
        ensures
            r == (self.error_state is Healthy),
    {
        match self.error_state {
            ErrorState::Healthy => true,
            _ => false,
        }
    }

    /// Get the last error
    pub fn last_error(&self) -> (r: Option<&ErrorRecord>)
        ensures
            match r {
                Some(e) => self.error_history@.len() > 0 && *e == self.error_history@.last(),
                None => self.error_history@.len() == 0,
            },
    {
        let n = self.error_history.len();
        if n == 0 {
            None
        } else {
            Some(&self.error_history[n - 1])
        }
    }

    /// Record an error: it joins the history and the boundary holds a
    /// recoverable error with its message.
    pub fn record_error(&mut self, record: ErrorRecord)
        ensures
            final(self).error_history@ == old(self).error_history@.push(record),
            final(self).error_state matches ErrorState::RecoverableError { error, .. } && error
                == record.error,
            final(self).id == old(self).id,
            final(self).protected_id == old(self).protected_id,
            final(self).recovery_attempts == old(self).recovery_attempts,
            final(self).circuit_breaker == old(self).circuit_breaker,
            final(self).last_recovery_attempt == old(self).last_recovery_attempt,
            final(self).fallback_content == old(self).fallback_content,
    {
        let message = record.error.clone();
        self.error_history.push(record);
        self.error_state = ErrorState::RecoverableError { error: message, timestamp: system_now() };
    }

    /// Update the boundary after a recovery outcome: a recovery makes it
    /// healthy, closes its circuit and forgets the attempts; a failure counts
    /// an attempt and opens the circuit once `threshold` attempts failed; a
    /// fallback marks the boundary as using it.
    pub fn apply_outcome(&mut self, outcome: &RecoveryOutcome, threshold: usize)
        requires
            outcome is Failed ==> old(self).recovery_attempts < usize::MAX,
        ensures
            final(self).id == old(self).id,
            final(self).protected_id == old(self).protected_id,
            final(self).error_history == old(self).error_history,
            final(self).fallback_content == old(self).fallback_content,
            match outcome {
                RecoveryOutcome::Recovered { .. } => {
                    &&& final(self).error_state is Healthy
                    &&& final(self).recovery_attempts == 0
                    &&& final(self).circuit_breaker is Closed
                    &&& final(self).last_recovery_attempt == old(self).last_recovery_attempt
                },
                RecoveryOutcome::Failed { .. } => {
                    &&& final(self).error_state == old(self).error_state
                    &&& final(self).recovery_attempts == old(self).recovery_attempts + 1
                    &&& final(self).last_recovery_attempt is Some
                    &&& if final(self).recovery_attempts >= threshold {
                        final(self).circuit_breaker is Open
                    } else {
                        final(self).circuit_breaker == old(self).circuit_breaker
                    }
                },
                RecoveryOutcome::FallbackTriggered { .. } => {
                    &&& final(self).error_state matches ErrorState::UsingFallback { reason, .. }
                        && reason@ == "Recovery failed, using fallback"@
                    &&& final(self).recovery_attempts == old(self).recovery_attempts
                    &&& final(self).circuit_breaker == old(self).circuit_breaker
                    &&& final(self).last_recovery_attempt == old(self).last_recovery_attempt
                },
            },
    {
        match outcome {
            RecoveryOutcome::Recovered { .. } => {
                self.error_state = ErrorState::Healthy;
                self.recovery_attempts = 0;
                self.circuit_breaker = CircuitBreakerState::Closed;
            },
            RecoveryOutcome::Failed { .. } => {
                self.recovery_attempts = self.recovery_attempts + 1;
                self.last_recovery_attempt = Some(system_now());
                if self.recovery_attempts >= threshold {
                    self.circuit_breaker = CircuitBreakerState::Open { opened_at: system_now() };
                }
            },
            RecoveryOutcome::FallbackTriggered { .. } => {
                self.error_state = ErrorState::UsingFallback {
                    reason: "Recovery failed, using fallback".to_owned(),
                    timestamp: system_now(),
                };
            },
        }
    }
}

/// The circuit of a boundary blocks attempts while it is open and less than
/// the reset timeout has passed since it opened; `since_opened` is that
/// time, where the circuit is open.
pub fn circuit_blocks(
    circuit: &CircuitBreakerState,
    since_opened: Duration,
    reset_timeout: Duration,
) -> (r: bool)
    ensures
        r == (circuit is Open && duration_nanos(since_opened) < duration_nanos(reset_timeout)),
{
    match circuit {
        CircuitBreakerState::Open { .. } => {
            crate::performance_monitor::duration_less(&since_opened, &reset_timeout)
        },
        _ => false,
    }
}

// ----------------------------------------------------------------------------
// Strategies
// ----------------------------------------------------------------------------

/// What one strategy's result decides: recovered, fall back with a reason,
/// or go on to the next strategy.
pub enum StepDecision {
    Recovered { strategy: String, message: String, new_content: Option<String> },
    Fallback { reason: String },
    Continue,
}

/// Where the search for a recovery goes after a strategy of `priority`
/// returned `result`: a success ends it as a recovery named after the
/// priority, a request for fallback ends it with that reason, partial
/// successes and failures go on.
pub fn recovery_step(priority: u32, result: RecoveryResult) -> (r: StepDecision)
    ensures
        match result {
            RecoveryResult::Success { message, recovered_content } => r matches StepDecision::Recovered { strategy, message: m, new_content }
                && strategy@ == "Strategy "@ + crate::text::decimal(priority as nat) && m == message
                && new_content == recovered_content,
            RecoveryResult::RequiresFallback { reason } => r matches StepDecision::Fallback { reason: x }
                && x == reason,
            _ => r is Continue,
        },
{
    match result {
        RecoveryResult::Success { message, recovered_content } => {
            let mut strategy = String::new();
            push_str(&mut strategy, "Strategy ");
            push_decimal(&mut strategy, priority as u64);
            StepDecision::Recovered { strategy, message, new_content: recovered_content }
        },
        RecoveryResult::RequiresFallback { reason } => StepDecision::Fallback { reason },
        _ => StepDecision::Continue,
    }
}

/// The reason given when no strategy recovered.
pub fn strategies_exhausted() -> (r: String)
    ensures
        r@ == "All recovery strategies failed"@,
{
    "All recovery strategies failed".to_owned()
}

/// The reason given when the circuit breaker blocks recovery.
pub fn circuit_open_reason() -> (r: String)
    ensures
        r@ == "Circuit breaker open"@,
{
    "Circuit breaker open".to_owned()
}

/// Strategy that retries the operation with a delay
pub struct RetryStrategy {
    max_attempts: usize,
    delay: Duration,
}

impl RetryStrategy {
    pub fn new(max_attempts: usize, delay: Duration) -> (r: Self)
        ensures
            r.max_attempts() == max_attempts,
            r.delay() == delay,
    {
        RetryStrategy { max_attempts, delay }
    }

    /// The most errors after which a retry is still tried.
    pub closed spec fn max_attempts(&self) -> usize {
        self.max_attempts
    }

    /// How long to wait before retrying.
    pub closed spec fn delay(&self) -> Duration {
        self.delay
    }

    /// How long to wait before retrying.
    pub fn retry_delay(&self) -> (r: Duration)
        ensures
            r == self.delay(),
    {
        self.delay
    }
}

/// Strategy that falls back to the previous working version
pub struct PreviousVersionStrategy;

// ----------------------------------------------------------------------------
// Fallbacks
// ----------------------------------------------------------------------------

/// The value of a fallback strategy.
pub enum FallbackModel {
    UsePreviousVersion,
    ShowErrorMessage,
    FullPageRefresh,
    ShowLoadingState,
    ShowCustomContent(Seq<char>),
}

impl View for FallbackStrategy {
    type V = FallbackModel;

    open spec fn view(&self) -> FallbackModel {
        match *self {
            FallbackStrategy::UsePreviousVersion => FallbackModel::UsePreviousVersion,
            FallbackStrategy::ShowErrorMessage => FallbackModel::ShowErrorMessage,
            FallbackStrategy::FullPageRefresh => FallbackModel::FullPageRefresh,
            FallbackStrategy::ShowLoadingState => FallbackModel::ShowLoadingState,
            FallbackStrategy::ShowCustomContent(c) => FallbackModel::ShowCustomContent(c@),
        }
    }
}

impl FallbackManager {
    /// The fallback strategies, in the order they are tried.
    pub closed spec fn strategies(&self) -> Seq<FallbackModel> {
        self.strategies@.map_values(|s: FallbackStrategy| s@)
    }

    /// The custom fallback content of each template.
    pub closed spec fn custom_fallbacks(&self) -> Seq<(TemplateId, Seq<char>)> {
        self.custom_fallbacks@.map_values(|p: (TemplateId, String)| (p.0, p.1@))
    }

    /// No template has two custom fallbacks.
    pub closed spec fn wf(&self) -> bool {
        forall|i: int, j: int|
            0 <= i < j < self.custom_fallbacks@.len() ==> !(#[trigger] self.custom_fallbacks@[i]).0.same_as(
                &(#[trigger] self.custom_fallbacks@[j]).0,
            )
    }

    /// Create a new fallback manager
    pub fn new() -> (r: Self)
        ensures
            r.wf(),
            r.strategies() == seq![
                FallbackModel::UsePreviousVersion,
                FallbackModel::ShowLoadingState,
                FallbackModel::ShowErrorMessage,
                FallbackModel::FullPageRefresh,
            ],
            r.custom_fallbacks().len() == 0,
    {
        let mut strategies: Vec<FallbackStrategy> = Vec::new();
        strategies.push(FallbackStrategy::UsePreviousVersion);
        strategies.push(FallbackStrategy::ShowLoadingState);
        strategies.push(FallbackStrategy::ShowErrorMessage);
        strategies.push(FallbackStrategy::FullPageRefresh);
        let r = FallbackManager { strategies, custom_fallbacks: Vec::new() };
        assert(r.strategies() =~= seq![
            FallbackModel::UsePreviousVersion,
            FallbackModel::ShowLoadingState,
            FallbackModel::ShowErrorMessage,
            FallbackModel::FullPageRefresh,
        ]);
        r
    }

    /// Get fallback content for a component
    pub fn get_fallback_content(&self, _component_id: &str) -> (r: Option<String>)
        ensures
            r is Some && r.unwrap()@
                == "<div class=\"hot-reload-error\">Hot reload temporarily unavailable</div>"@,
    {
        Some("<div class=\"hot-reload-error\">Hot reload temporarily unavailable</div>".to_owned())
    }

    /// Set custom fallback content for a template, replacing any it had.
    pub fn set_custom_fallback(&mut self, template_id: TemplateId, content: String)
        requires
            old(self).wf(),
        ensures
            final(self).wf(),
            final(self).strategies() == old(self).strategies(),
            final(self).custom_fallbacks().contains((template_id, content@)),
            forall|i: int|
                0 <= i < final(self).custom_fallbacks().len() && (#[trigger] final(self).custom_fallbacks()[i]).0.same_as(&template_id)
                    ==> final(self).custom_fallbacks()[i].1 == content@,
            forall|i: int|
                0 <= i < old(self).custom_fallbacks().len() && !(#[trigger] old(self).custom_fallbacks()[i]).0.same_as(&template_id)
                    ==> final(self).custom_fallbacks().contains(old(self).custom_fallbacks()[i]),
            ({
                let before = old(self).custom_fallbacks();
                let entry = (template_id, content@);
                ||| exists|i: int|
                    0 <= i < before.len() && (#[trigger] before[i]).0.same_as(&template_id)
                        && final(self).custom_fallbacks() == before.update(i, entry)
                ||| (forall|i: int| 0 <= i < before.len() ==> !(#[trigger] before[i]).0.same_as(&template_id))
                    && final(self).custom_fallbacks() == before.push(entry)
            }),
    {
        let ghost before = self.custom_fallbacks@;
        let mut i: usize = 0;
        while i < self.custom_fallbacks.len()
            invariant
                self.custom_fallbacks@ == before,
                before == old(self).custom_fallbacks@,
                self.strategies == old(self).strategies,
                self.wf(),
                i <= before.len(),
                forall|j: int| 0 <= j < i ==> !(#[trigger] before[j]).0.same_as(&template_id),
            decreases before.len() - i,
        {
            if self.custom_fallbacks[i].0 == template_id {
                self.custom_fallbacks.set(i, (template_id, content));
                proof {
                    let after = self.custom_fallbacks@;
                    assert(self.custom_fallbacks()[i as int] == (template_id, content@));
                    assert forall|a: int, b: int| 0 <= a < b < after.len() implies !(
                    #[trigger] after[a]).0.same_as(&(#[trigger] after[b]).0) by {
                        assert(!before[a].0.same_as(&before[b].0));
                    }
                    assert forall|j: int|
                        0 <= j < self.custom_fallbacks().len() && (#[trigger] self.custom_fallbacks()[j]).0.same_as(
                            &template_id,
                        ) implies self.custom_fallbacks()[j].1 == content@ by {
                        if j != i {
                            if j < i {
                                assert(!before[j].0.same_as(&before[i as int].0));
                            } else {
                                assert(!before[i as int].0.same_as(&before[j].0));
                            }
                        }
                    }
                    assert forall|j: int|
                        0 <= j < before.len() && !(#[trigger] old(self).custom_fallbacks()[j]).0.same_as(
                            &template_id,
                        ) implies self.custom_fallbacks().contains(old(self).custom_fallbacks()[j]) by {
                        assert(self.custom_fallbacks()[j] == old(self).custom_fallbacks()[j]);
                    }
                    assert(old(self).custom_fallbacks()[i as int].0.same_as(&template_id));
                    assert(self.custom_fallbacks() =~= old(self).custom_fallbacks().update(
                        i as int,
                        (template_id, content@),
                    ));
                }
                return;
            }
            i = i + 1;
        }
        self.custom_fallbacks.push((template_id, content));
        proof {
            let after = self.custom_fallbacks@;
            let n = before.len() as int;
            assert(self.custom_fallbacks()[n] == (template_id, content@));
            assert forall|a: int, b: int| 0 <= a < b < after.len() implies !(#[trigger] after[a]).0.same_as(
                &(#[trigger] after[b]).0,
            ) by {
                if b < n {
                    assert(!before[a].0.same_as(&before[b].0));
                } else {
                    assert(!before[a].0.same_as(&template_id));
                }
            }
            assert forall|j: int|
                0 <= j < before.len() && !(#[trigger] old(self).custom_fallbacks()[j]).0.same_as(
                    &template_id,
                ) implies self.custom_fallbacks().contains(old(self).custom_fallbacks()[j]) by {
                assert(self.custom_fallbacks()[j] == old(self).custom_fallbacks()[j]);
            }
            assert(self.custom_fallbacks() =~= old(self).custom_fallbacks().push((template_id, content@)));
            assert forall|j: int| 0 <= j < before.len() implies !(
            #[trigger] old(self).custom_fallbacks()[j]).0.same_as(&template_id) by {
                assert(!before[j].0.same_as(&template_id));
            }
        }
    }
}

/// The outcome when recovery gives way to fallback content.
pub fn fallback_outcome(reason: String, fallback_content: Option<String>) -> (r: RecoveryOutcome)
    ensures
        r matches RecoveryOutcome::FallbackTriggered { reason: x, fallback_content: c, action }
            && x == reason && c == fallback_content && action is ShowFallbackContent,
{
    RecoveryOutcome::FallbackTriggered {
        reason,
        fallback_content,
        action: FallbackAction::ShowFallbackContent,
    }
}


// ----------------------------------------------------------------------------
// The recovery system
// ----------------------------------------------------------------------------

/// The category of an error.
pub open spec fn error_category(e: HotReloadError) -> ErrorType {
    match e {
        HotReloadError::DomDiffingFailed { .. } => ErrorType::DiffError,
        HotReloadError::StatePreservationFailed { .. } => ErrorType::StateError,
        HotReloadError::ParseError(_) => ErrorType::ParseError,
        HotReloadError::IoError(_) => ErrorType::FileSystemError,
        _ => ErrorType::Unknown,
    }
}

/// Categorize an error for better handling
pub fn categorize_error(error: &HotReloadError) -> (r: ErrorType)
    ensures
        r == error_category(*error),
{
    match error {
        HotReloadError::DomDiffingFailed { .. } => ErrorType::DiffError,
        HotReloadError::StatePreservationFailed { .. } => ErrorType::StateError,
        HotReloadError::ParseError(_) => ErrorType::ParseError,
        HotReloadError::IoError(_) => ErrorType::FileSystemError,
        _ => ErrorType::Unknown,
    }
}

/// Context for recovery operations
pub struct RecoveryContext {
    /// Template being updated
    pub template_id: TemplateId,
    /// Template update that failed
    pub template_update: Option<TemplateUpdate>,
    /// LiveView instance that failed
    pub liveview_instance: Option<ActiveLiveView>,
    /// Previous error attempts
    pub error_history: Vec<ErrorRecord>,
    /// Recovery configuration
    pub config: ErrorRecoveryConfig,
}

/// The value of a recovery result.
pub enum RecoveryResultModel {
    Success { message: Seq<char>, recovered_content: Option<Seq<char>> },
    PartialSuccess { message: Seq<char>, issues: Seq<Seq<char>> },
    Failed { error: Seq<char>, retry_recommended: bool },
    RequiresFallback { reason: Seq<char> },
}

impl View for RecoveryResult {
    type V = RecoveryResultModel;

    open spec fn view(&self) -> RecoveryResultModel {
        match self {
            RecoveryResult::Success { message, recovered_content } => RecoveryResultModel::Success {
                message: message@,
                recovered_content: match recovered_content {
                    Some(c) => Some(c@),
                    None => None,
                },
            },
            RecoveryResult::PartialSuccess { message, issues } => RecoveryResultModel::PartialSuccess {
                message: message@,
                issues: issues@.map_values(|t: String| t@),
            },
            RecoveryResult::Failed { error, retry_recommended } => RecoveryResultModel::Failed {
                error: error@,
                retry_recommended: *retry_recommended,
            },
            RecoveryResult::RequiresFallback { reason } => RecoveryResultModel::RequiresFallback { reason: reason@ },
        }
    }
}

/// A way to recover from an error. The built-in strategies implement it, and
/// so may users. Each implementation names what it does: which errors it
/// handles, the result it gives for an error in a context, and its
/// priority; its methods return those. For an implementation outside the
/// verified code, that is what its author promises.
pub trait RecoveryStrategy {
    /// Whether this strategy applies to `error`.
    spec fn handles(&self, error: HotReloadError) -> bool;

    /// The result this strategy gives for `error` in `context`.
    spec fn result_for(&self, error: HotReloadError, context: RecoveryContext) -> RecoveryResultModel;

    /// The priority of this strategy; lower numbers are tried first.
    spec fn priority_of(&self) -> u32;

    /// Try to recover from `error`.
    fn attempt_recovery(&self, error: &HotReloadError, context: &RecoveryContext) -> (r: RecoveryResult)
        ensures
            r@ == self.result_for(*error, *context),
    ;

    /// Whether this strategy applies to `error`.
    fn can_handle(&self, error: &HotReloadError) -> (r: bool)
        ensures
            r == self.handles(*error),
    ;

    /// Lower numbers are tried first.
    fn priority(&self) -> (r: u32)
        ensures
            r == self.priority_of(),
    ;
}

impl RecoveryStrategy for RetryStrategy {
    /// Any error.
    open spec fn handles(&self, error: HotReloadError) -> bool {
        true
    }

    /// Refused once the context holds as many errors as the limit; else (the
    /// caller waiting `retry_delay` first) a success.
    open spec fn result_for(&self, error: HotReloadError, context: RecoveryContext) -> RecoveryResultModel {
        if context.error_history@.len() >= self.max_attempts() {
            RecoveryResultModel::Failed { error: "Max retry attempts exceeded"@, retry_recommended: false }
        } else {
            RecoveryResultModel::Success { message: "Retry successful"@, recovered_content: None }
        }
    }

    /// Low priority.
    open spec fn priority_of(&self) -> u32 {
        100
    }

    fn attempt_recovery(&self, error: &HotReloadError, context: &RecoveryContext) -> (r: RecoveryResult) {
        if context.error_history.len() >= self.max_attempts {
            RecoveryResult::Failed { error: "Max retry attempts exceeded".to_owned(), retry_recommended: false }
        } else {
            RecoveryResult::Success { message: "Retry successful".to_owned(), recovered_content: None }
        }
    }

    fn can_handle(&self, error: &HotReloadError) -> (r: bool) {
        true
    }

    fn priority(&self) -> (r: u32) {
        100
    }
}

impl RecoveryStrategy for PreviousVersionStrategy {
    /// Template and diff errors.
    open spec fn handles(&self, error: HotReloadError) -> bool {
        error is DomDiffingFailed || error is TemplateUpdateFailed
    }

    /// Restores the previous version.
    open spec fn result_for(&self, error: HotReloadError, context: RecoveryContext) -> RecoveryResultModel {
        RecoveryResultModel::Success {
            message: "Restored previous version"@,
            recovered_content: Some("<div>Previous version restored</div>"@),
        }
    }

    /// Medium priority.
    open spec fn priority_of(&self) -> u32 {
        50
    }

    fn attempt_recovery(&self, error: &HotReloadError, context: &RecoveryContext) -> (r: RecoveryResult) {
        RecoveryResult::Success {
            message: "Restored previous version".to_owned(),
            recovered_content: Some("<div>Previous version restored</div>".to_owned()),
        }
    }

    fn can_handle(&self, error: &HotReloadError) -> (r: bool) {
        match error {
            HotReloadError::DomDiffingFailed { .. } => true,
            HotReloadError::TemplateUpdateFailed { .. } => true,
            _ => false,
        }
    }

    fn priority(&self) -> (r: u32) {
        50
    }
}

/// The value of a recovery outcome.
pub enum OutcomeModel {
    Recovered { strategy: Seq<char>, message: Seq<char>, new_content: Option<Seq<char>> },
    FallbackTriggered { reason: Seq<char>, fallback_content: Option<Seq<char>>, action: FallbackAction },
    Failed { error: Seq<char>, requires_manual_intervention: bool },
}

impl View for RecoveryOutcome {
    type V = OutcomeModel;

    open spec fn view(&self) -> OutcomeModel {
        match self {
            RecoveryOutcome::Recovered { strategy, message, new_content } => OutcomeModel::Recovered {
                strategy: strategy@,
                message: message@,
                new_content: match new_content {
                    Some(c) => Some(c@),
                    None => None,
                },
            },
            RecoveryOutcome::FallbackTriggered { reason, fallback_content, action } => OutcomeModel::FallbackTriggered {
                reason: reason@,
                fallback_content: match fallback_content {
                    Some(c) => Some(c@),
                    None => None,
                },
                action: *action,
            },
            RecoveryOutcome::Failed { error, requires_manual_intervention } => OutcomeModel::Failed {
                error: error@,
                requires_manual_intervention: *requires_manual_intervention,
            },
        }
    }
}

/// The content shown when recovery gives way to the fallback.
pub open spec fn fallback_text() -> Seq<char> {
    "<div class=\"hot-reload-error\">Hot reload temporarily unavailable</div>"@
}

/// The fallback outcome with `reason`.
pub open spec fn fallback_with(reason: Seq<char>) -> OutcomeModel {
    OutcomeModel::FallbackTriggered {
        reason,
        fallback_content: Some(fallback_text()),
        action: FallbackAction::ShowFallbackContent,
    }
}

/// The outcome of trying the strategies from the `i`-th on, in their order:
/// one that does not handle the error is passed over; a success is a
/// recovery named after its priority; a request for fallback gives the
/// fallback with its reason; partial successes and failures go on; when none
/// is left, the fallback as all having failed.
pub open spec fn search<S: RecoveryStrategy>(
    ss: Seq<S>,
    i: int,
    error: HotReloadError,
    context: RecoveryContext,
) -> OutcomeModel
    decreases ss.len() - i,
{
    if i < 0 || i >= ss.len() {
        fallback_with("All recovery strategies failed"@)
    } else if !ss[i].handles(error) {
        search(ss, i + 1, error, context)
    } else {
        match ss[i].result_for(error, context) {
            RecoveryResultModel::Success { message, recovered_content } => OutcomeModel::Recovered {
                strategy: "Strategy "@ + crate::text::decimal(ss[i].priority_of() as nat),
                message,
                new_content: recovered_content,
            },
            RecoveryResultModel::RequiresFallback { reason } => fallback_with(reason),
            _ => search(ss, i + 1, error, context),
        }
    }
}

/// The search for a recovery never ends in outright failure: it recovers or
/// falls back.
pub proof fn lemma_search_not_failed<S: RecoveryStrategy>(
    ss: Seq<S>,
    i: int,
    error: HotReloadError,
    context: RecoveryContext,
)
    ensures
        !(search(ss, i, error, context) is Failed),
    decreases ss.len() - i,
{
    if i < 0 || i >= ss.len() {
    } else if !ss[i].handles(error) {
        lemma_search_not_failed(ss, i + 1, error, context);
    } else {
        match ss[i].result_for(error, context) {
            RecoveryResultModel::Success { .. } => {},
            RecoveryResultModel::RequiresFallback { .. } => {},
            _ => lemma_search_not_failed(ss, i + 1, error, context),
        }
    }
}

/// Strategy `s` ends the search for a recovery from `error` in `context`: it
/// handles the error and answers with a success or a request for fallback.
pub open spec fn settles<S: RecoveryStrategy>(s: S, error: HotReloadError, context: RecoveryContext) -> bool {
    s.handles(error) && (s.result_for(error, context) is Success || s.result_for(error, context) is RequiresFallback)
}

/// A strategy that does not handle the error, or answers it with a failure
/// or a partial success, is passed over: the outcome is that of trying the
/// strategies after it.
pub proof fn lemma_unsettling_strategy_passed_over<S: RecoveryStrategy>(
    ss: Seq<S>,
    i: int,
    error: HotReloadError,
    context: RecoveryContext,
)
    requires
        0 <= i < ss.len(),
        !settles(ss[i], error, context),
    ensures
        search(ss, i, error, context) == search(ss, i + 1, error, context),
{
}

/// The first strategy from the `i`-th on that settles the search decides
/// the outcome: its success is a recovery named after its priority, with
/// its message and content; its request for fallback is the fallback with
/// its reason and the fallback content.
pub proof fn lemma_first_settling_strategy_decides<S: RecoveryStrategy>(
    ss: Seq<S>,
    i: int,
    j: int,
    error: HotReloadError,
    context: RecoveryContext,
)
    requires
        0 <= i <= j < ss.len(),
        settles(ss[j], error, context),
        forall|k: int| i <= k < j ==> !settles(#[trigger] ss[k], error, context),
    ensures
        ss[j].result_for(error, context) matches RecoveryResultModel::Success { message, recovered_content }
            ==> search(ss, i, error, context) == (OutcomeModel::Recovered {
            strategy: "Strategy "@ + crate::text::decimal(ss[j].priority_of() as nat),
            message,
            new_content: recovered_content,
        }),
        ss[j].result_for(error, context) matches RecoveryResultModel::RequiresFallback { reason }
            ==> search(ss, i, error, context) == fallback_with(reason),
    decreases j - i,
{
    if i < j {
        lemma_unsettling_strategy_passed_over(ss, i, error, context);
        lemma_first_settling_strategy_decides(ss, i + 1, j, error, context);
    }
}

/// When no strategy from the `i`-th on settles the search, the outcome is
/// the fallback given as all strategies having failed.
pub proof fn lemma_no_settling_strategy_falls_back<S: RecoveryStrategy>(
    ss: Seq<S>,
    i: int,
    error: HotReloadError,
    context: RecoveryContext,
)
    requires
        0 <= i <= ss.len(),
        forall|k: int| i <= k < ss.len() ==> !settles(#[trigger] ss[k], error, context),
    ensures
        search(ss, i, error, context) == fallback_with("All recovery strategies failed"@),
    decreases ss.len() - i,
{
    if i < ss.len() {
        lemma_unsettling_strategy_passed_over(ss, i, error, context);
        lemma_no_settling_strategy_falls_back(ss, i + 1, error, context);
    }
}

/// The boundary `b` after the strategies answered `error` with `r`, where
/// `before` is the boundary that was registered (a new, healthy one with a
/// closed circuit where there was none): the error joined its history; a
/// recovery made it healthy, closed its circuit and forgot its attempts; a
/// fallback marked it as using the fallback and kept its attempts and
/// circuit.
pub open spec fn boundary_handled(
    before: Option<ErrorBoundary>,
    b: ErrorBoundary,
    error: HotReloadError,
    r: OutcomeModel,
) -> bool {
    let history = match before {
        Some(p) => p.error_history@,
        None => Seq::empty(),
    };
    let attempts: usize = match before {
        Some(p) => p.recovery_attempts,
        None => 0,
    };
    let circuit_kept = match before {
        Some(p) => b.circuit_breaker == p.circuit_breaker,
        None => b.circuit_breaker is Closed,
    };
    &&& b.error_history@.len() == history.len() + 1
    &&& b.error_history@.drop_last() == history
    &&& b.error_history@.last().error@ == error_text(error)
    &&& b.error_history@.last().error_type == error_category(error)
    &&& match r {
        OutcomeModel::Recovered { .. } => {
            &&& b.error_state is Healthy
            &&& b.recovery_attempts == 0
            &&& b.circuit_breaker is Closed
        },
        OutcomeModel::FallbackTriggered { .. } => {
            &&& b.error_state is UsingFallback
            &&& b.recovery_attempts == attempts
            &&& circuit_kept
        },
        OutcomeModel::Failed { .. } => false,
    }
}

/// Error statistics
pub struct ErrorStats {
    pub total_errors: usize,
    pub errors_by_type: Vec<(ErrorType, usize)>,
    pub successful_recoveries: usize,
    pub failed_recoveries: usize,
    pub fallbacks_triggered: usize,
}

/// The count of `t` among the counts by type.
pub open spec fn type_count(counts: Seq<(ErrorType, usize)>, t: ErrorType) -> nat
    decreases counts.len(),
{
    if counts.len() == 0 {
        0
    } else if counts.last().0 == t {
        counts.last().1 as nat
    } else {
        type_count(counts.drop_last(), t)
    }
}

impl ErrorStats {
    /// No errors yet.
    pub fn new() -> (r: Self)
        ensures
            r.total_errors == 0,
            r.errors_by_type@.len() == 0,
            r.successful_recoveries == 0,
            r.failed_recoveries == 0,
            r.fallbacks_triggered == 0,
    {
        ErrorStats {
            total_errors: 0,
            errors_by_type: Vec::new(),
            successful_recoveries: 0,
            failed_recoveries: 0,
            fallbacks_triggered: 0,
        }
    }

    /// Each type counted once, and no count above the total.
    pub open spec fn wf(&self) -> bool {
        &&& forall|i: int, j: int|
            0 <= i < j < self.errors_by_type@.len() ==> #[trigger] self.errors_by_type@[i].0
                != #[trigger] self.errors_by_type@[j].0
        &&& forall|i: int| 0 <= i < self.errors_by_type@.len() ==> #[trigger] self.errors_by_type@[i].1 <= self.total_errors
    }

    /// Count one more error of type `t`.
    pub fn count_error(&mut self, t: ErrorType)
        requires
            old(self).wf(),
            old(self).total_errors < usize::MAX,
        ensures
            final(self).wf(),
            final(self).total_errors == old(self).total_errors + 1,
            forall|u: ErrorType| type_count(final(self).errors_by_type@, u) == type_count(old(self).errors_by_type@, u) + if u == t {
                1nat
            } else {
                0nat
            },
            final(self).successful_recoveries == old(self).successful_recoveries,
            final(self).failed_recoveries == old(self).failed_recoveries,
            final(self).fallbacks_triggered == old(self).fallbacks_triggered,
    {
        self.total_errors = self.total_errors + 1;
        let mut i: usize = 0;
        while i < self.errors_by_type.len()
            invariant
                old(self).wf(),
                self.errors_by_type@ == old(self).errors_by_type@,
                self.total_errors == old(self).total_errors + 1,
                self.successful_recoveries == old(self).successful_recoveries,
                self.failed_recoveries == old(self).failed_recoveries,
                self.fallbacks_triggered == old(self).fallbacks_triggered,
                i <= self.errors_by_type@.len(),
                forall|k: int| 0 <= k < i ==> self.errors_by_type@[k].0 != t,
            decreases self.errors_by_type@.len() - i,
        {
            if self.errors_by_type[i].0 == t {
                let ghost before = self.errors_by_type@;
                assert(before[i as int].1 <= old(self).total_errors);
                let n = self.errors_by_type[i].1 + 1;
                self.errors_by_type.set(i, (t, n));
                proof {
                    assert forall|u: ErrorType| type_count(self.errors_by_type@, u) == type_count(before, u) + if u == t {
                        1nat
                    } else {
                        0nat
                    } by {
                        lemma_type_count_update(before, i as int, n, u);
                    }
                    assert forall|k: int| 0 <= k < self.errors_by_type@.len() implies #[trigger] self.errors_by_type@[k].1
                        <= self.total_errors by {
                        assert(before[k].1 <= old(self).total_errors);
                    }
                    assert forall|a: int, b: int| 0 <= a < b < self.errors_by_type@.len() implies #[trigger] self.errors_by_type@[a].0
                        != #[trigger] self.errors_by_type@[b].0 by {
                        assert(before[a].0 != before[b].0);
                    }
                }
                return;
            }
            i = i + 1;
        }
        let ghost before = self.errors_by_type@;
        proof {
            lemma_type_count_absent(before, t);
        }
        self.errors_by_type.push((t, 1));
        proof {
            assert(self.errors_by_type@.drop_last() =~= before);
            assert forall|k: int| 0 <= k < self.errors_by_type@.len() implies #[trigger] self.errors_by_type@[k].1
                <= self.total_errors by {
                if k < before.len() {
                    assert(before[k].1 <= old(self).total_errors);
                }
            }
            assert forall|a: int, b: int| 0 <= a < b < self.errors_by_type@.len() implies #[trigger] self.errors_by_type@[a].0
                != #[trigger] self.errors_by_type@[b].0 by {
                if b < before.len() {
                    assert(before[a].0 != before[b].0);
                }
            }
            assert forall|u: ErrorType| type_count(self.errors_by_type@, u) == type_count(before, u) + if u == t {
                1nat
            } else {
                0nat
            } by {
                assert(self.errors_by_type@.last() == (t, 1usize));
            }
        }
    }
}

/// With distinct types, the count of a type is the one in its entry.
proof fn lemma_type_count_at(counts: Seq<(ErrorType, usize)>, i: int)
    requires
        0 <= i < counts.len(),
        forall|a: int, b: int| 0 <= a < b < counts.len() ==> #[trigger] counts[a].0 != #[trigger] counts[b].0,
    ensures
        type_count(counts, counts[i].0) == counts[i].1,
    decreases counts.len(),
{
    if i < counts.len() - 1 {
        assert(counts.last().0 != counts[i].0);
        lemma_type_count_at(counts.drop_last(), i);
    }
}

/// A type without an entry counts zero.
proof fn lemma_type_count_absent(counts: Seq<(ErrorType, usize)>, t: ErrorType)
    requires
        forall|k: int| 0 <= k < counts.len() ==> counts[k].0 != t,
    ensures
        type_count(counts, t) == 0,
    decreases counts.len(),
{
    if counts.len() > 0 {
        lemma_type_count_absent(counts.drop_last(), t);
    }
}

/// Raising the count in one entry raises that type's count alone.
proof fn lemma_type_count_update(counts: Seq<(ErrorType, usize)>, i: int, n: usize, u: ErrorType)
    requires
        0 <= i < counts.len(),
        n == counts[i].1 + 1,
        forall|a: int, b: int| 0 <= a < b < counts.len() ==> #[trigger] counts[a].0 != #[trigger] counts[b].0,
    ensures
        type_count(counts.update(i, (counts[i].0, n)), u) == type_count(counts, u) + if u == counts[i].0 {
            1nat
        } else {
            0nat
        },
    decreases counts.len(),
{
    let c2 = counts.update(i, (counts[i].0, n));
    let last = counts.len() - 1;
    if i == last {
        assert(c2.last() == (counts[i].0, n));
        if u != counts[i].0 {
            assert(c2.drop_last() =~= counts.drop_last());
        }
    } else {
        let rest = counts.drop_last();
        assert(c2.drop_last() =~= rest.update(i, (rest[i].0, n)));
        assert(c2.last() == counts.last());
        assert(counts[last].0 != counts[i].0);
        if counts.last().0 != u {
            assert forall|a: int, b: int| 0 <= a < b < rest.len() implies #[trigger] rest[a].0 != #[trigger] rest[b].0 by {
                assert(counts[a].0 != counts[b].0);
            }
            lemma_type_count_update(rest, i, n, u);
        }
    }
}

/// Error recovery: the boundaries by id, the recovery strategies by
/// priority, the fallbacks, and the statistics.
pub struct ErrorRecoverySystem<S> {
    boundaries: Vec<ErrorBoundary>,
    recovery_strategies: Vec<(u32, S)>,
    fallback_manager: FallbackManager,
    config: ErrorRecoveryConfig,
    stats: ErrorStats,
}

/// `blocked` tells whether `since` nanoseconds are under a reset timeout of
/// `reset` nanoseconds.
pub open spec fn before_reset(since: nat, reset: nat, blocked: bool) -> bool {
    blocked == (since < reset)
}

/// Each priority at most the ones after it.
pub open spec fn ascending(ps: Seq<u32>) -> bool {
    forall|i: int, j: int| 0 <= i <= j < ps.len() ==> #[trigger] ps[i] <= #[trigger] ps[j]
}

/// The boundaries by id.
pub open spec fn boundary_entries(bs: Seq<ErrorBoundary>) -> Seq<(Seq<char>, ErrorBoundary)> {
    bs.map_values(|b: ErrorBoundary| (b.id@, b))
}

impl<S: RecoveryStrategy> ErrorRecoverySystem<S> {
    /// The boundaries by id.
    pub closed spec fn boundaries(&self) -> Seq<(Seq<char>, ErrorBoundary)> {
        boundary_entries(self.boundaries@)
    }

    /// The priorities of the strategies, in the order they are tried.
    pub closed spec fn priorities(&self) -> Seq<u32> {
        self.recovery_strategies@.map_values(|e: (u32, S)| e.0)
    }

    /// The strategies, in the order they are tried.
    pub closed spec fn strategies(&self) -> Seq<S> {
        self.recovery_strategies@.map_values(|e: (u32, S)| e.1)
    }

    /// The statistics.
    pub closed spec fn stats(&self) -> ErrorStats {
        self.stats
    }

    /// The configuration.
    pub closed spec fn config(&self) -> ErrorRecoveryConfig {
        self.config
    }

    /// Each boundary once, the strategies by priority, the statistics
    /// consistent.
    pub closed spec fn wf(&self) -> bool {
        &&& unique_keys(self.boundaries())
        &&& ascending(self.priorities())
        &&& forall|i: int|
            0 <= i < self.recovery_strategies@.len() ==> (#[trigger] self.recovery_strategies@[i]).0
                == self.recovery_strategies@[i].1.priority_of()
        &&& self.stats.wf()
    }

    /// Handling an error stopped at the open circuit of its boundary: the
    /// outcome is the fallback for that reason, and the boundaries and the
    /// recovery counts are as they were in `self`.
    pub open spec fn circuit_blocked(&self, post: Self, r: OutcomeModel) -> bool {
        &&& r == fallback_with("Circuit breaker open"@)
        &&& post.boundaries() == self.boundaries()
        &&& post.stats().successful_recoveries == self.stats().successful_recoveries
        &&& post.stats().fallbacks_triggered == self.stats().fallbacks_triggered
    }

    /// Handling `error` in `context` tried the strategies of `self`: the
    /// outcome is their search, the boundary under `key` is the one handled
    /// (others are as they were), and the outcome is counted.
    pub open spec fn strategies_tried(
        &self,
        post: Self,
        key: Seq<char>,
        error: HotReloadError,
        context: RecoveryContext,
        r: OutcomeModel,
    ) -> bool {
        &&& r == search(self.strategies(), 0, error, context)
        &&& value_of(post.boundaries(), key) matches Some(b) && post.boundaries() == put(
            self.boundaries(),
            key,
            b,
        ) && b.id@ == key && boundary_handled(value_of(self.boundaries(), key), b, error, r)
        &&& post.stats().successful_recoveries == self.stats().successful_recoveries + if r is Recovered {
            1nat
        } else {
            0nat
        }
        &&& post.stats().fallbacks_triggered == self.stats().fallbacks_triggered + if r is FallbackTriggered {
            1nat
        } else {
            0nat
        }
    }

    /// Create a new error recovery system
    pub fn new(config: ErrorRecoveryConfig) -> (r: Self)
        ensures
            r.wf(),
            r.boundaries().len() == 0,
            r.priorities().len() == 0,
            r.strategies().len() == 0,
            r.stats().total_errors == 0,
            r.stats().successful_recoveries == 0,
            r.stats().fallbacks_triggered == 0,
            r.config() == config,
    {
        let r = ErrorRecoverySystem {
            boundaries: Vec::new(),
            recovery_strategies: Vec::new(),
            fallback_manager: FallbackManager::new(),
            config,
            stats: ErrorStats::new(),
        };
        assert(r.boundaries() =~= Seq::<(Seq<char>, ErrorBoundary)>::empty());
        assert(r.priorities() =~= Seq::<u32>::empty());
        assert(r.strategies() =~= Seq::<S>::empty());
        r
    }

    /// The position of the boundary `id`.
    fn find_boundary(&self, id: &str) -> (r: Option<usize>)
        requires
            self.wf(),
        ensures
            match r {
                Some(i) => i < self.boundaries@.len() && key_pos(self.boundaries(), id@) == i && has_key(
                    self.boundaries(),
                    id@,
                ),
                None => !has_key(self.boundaries(), id@),
            },
    {
        let key = id.to_owned();
        let mut i: usize = 0;
        while i < self.boundaries.len()
            invariant
                self.wf(),
                key@ == id@,
                i <= self.boundaries@.len(),
                forall|j: int| 0 <= j < i ==> self.boundaries@[j].id@ != id@,
            decreases self.boundaries@.len() - i,
        {
            if self.boundaries[i].id == key {
                proof {
                    assert(self.boundaries()[i as int].0 == id@);
                    lemma_key_pos(self.boundaries(), i as int);
                }
                return Some(i);
            }
            i = i + 1;
        }
        proof {
            if has_key(self.boundaries(), id@) {
                let k = key_pos(self.boundaries(), id@);
                assert(self.boundaries@[k].id@ == id@);
            }
        }
        None
    }

    /// Register an error boundary, replacing one of the same id.
    pub fn register_boundary(&mut self, boundary: ErrorBoundary)
        requires
            old(self).wf(),
        ensures
            final(self).wf(),
            final(self).boundaries() == put(old(self).boundaries(), boundary.id@, boundary),
            final(self).priorities() == old(self).priorities(),
            final(self).strategies() == old(self).strategies(),
            final(self).stats() == old(self).stats(),
            final(self).config() == old(self).config(),
    {
        let ghost before = self.boundaries@;
        let ghost key = boundary.id@;
        proof {
            lemma_put(self.boundaries(), key, boundary);
        }
        match self.find_boundary(boundary.id.as_str()) {
            Some(i) => {
                proof {
                    lemma_key_pos(self.boundaries(), i as int);
                }
                self.boundaries.set(i, boundary);
                assert(self.boundaries() =~= put(boundary_entries(before), key, boundary));
            },
            None => {
                self.boundaries.push(boundary);
                assert(self.boundaries() =~= put(boundary_entries(before), key, boundary));
            },
        }
    }

    /// Add a recovery strategy after those of the same or a lower priority.
    pub fn add_recovery_strategy(&mut self, strategy: S)
        requires
            old(self).wf(),
        ensures
            final(self).wf(),
            exists|i: int|
                {
                    &&& 0 <= i <= old(self).priorities().len()
                    &&& final(self).strategies() == #[trigger] old(self).strategies().insert(i, strategy)
                    &&& final(self).priorities() == old(self).priorities().insert(i, strategy.priority_of())
                    &&& forall|k: int| 0 <= k < i ==> #[trigger] old(self).priorities()[k] <= strategy.priority_of()
                    &&& forall|k: int|
                        i <= k < old(self).priorities().len() ==> strategy.priority_of()
                            < #[trigger] old(self).priorities()[k]
                },
            final(self).boundaries() == old(self).boundaries(),
            final(self).stats() == old(self).stats(),
            final(self).config() == old(self).config(),
    {
        let p = strategy.priority();
        let ghost ps = self.priorities();
        let mut i: usize = 0;
        while i < self.recovery_strategies.len() && self.recovery_strategies[i].0 <= p
            invariant
                i <= self.recovery_strategies@.len(),
                ps == self.priorities(),
                forall|k: int| 0 <= k < i ==> #[trigger] ps[k] <= p,
            decreases self.recovery_strategies@.len() - i,
        {
            assert(ps[i as int] == self.recovery_strategies@[i as int].0);
            i = i + 1;
        }
        proof {
            if i < ps.len() {
                assert(ps[i as int] == self.recovery_strategies@[i as int].0);
            }
        }
        let ghost vs = self.recovery_strategies@;
        let ghost ss = self.strategies();
        let ghost st = strategy;
        self.recovery_strategies.insert(i, (p, strategy));
        proof {
            assert(self.priorities() =~= ps.insert(i as int, p));
            assert(self.strategies() =~= ss.insert(i as int, st));
            assert forall|k: int|
                0 <= k < self.recovery_strategies@.len() implies (#[trigger] self.recovery_strategies@[k]).0
                    == self.recovery_strategies@[k].1.priority_of() by {
                if k < i {
                    assert(self.recovery_strategies@[k] == vs[k]);
                } else if k > i {
                    assert(self.recovery_strategies@[k] == vs[k - 1]);
                }
            }
            assert forall|k: int| i <= k < ps.len() implies p < #[trigger] ps[k] by {
                assert(ps[i as int] <= ps[k]);
            }
            let q = self.priorities();
            assert forall|a: int, b: int| 0 <= a <= b < q.len() implies #[trigger] q[a] <= #[trigger] q[b] by {
                if a < i && b < i {
                    assert(q[a] == ps[a] && q[b] == ps[b]);
                } else if a < i && b == i {
                } else if a < i {
                    assert(q[b] == ps[b - 1]);
                } else if a == i && b > i {
                    assert(q[b] == ps[b - 1]);
                } else if a > i {
                    assert(q[a] == ps[a - 1] && q[b] == ps[b - 1]);
                }
            }
        }
    }

    /// Whether the circuit of `boundary` blocks recovery: it is open and the
    /// clock tells that less than the reset timeout has passed since it
    /// opened (an unreadable span counts as none). The span is the clock's;
    /// what is stated is that the answer is that comparison for some span.
    pub fn is_circuit_open(&self, boundary: &ErrorBoundary) -> (r: bool)
        ensures
            !(boundary.circuit_breaker is Open) ==> !r,
            boundary.circuit_breaker is Open ==> exists|since: nat|
                #[trigger] before_reset(since, duration_nanos(self.config().circuit_breaker_reset_timeout), r),
    {
        match &boundary.circuit_breaker {
            CircuitBreakerState::Open { opened_at } => {
                let since = match system_elapsed(opened_at) {
                    Some(d) => d,
                    None => duration_from_nanos(0),
                };
                let r = circuit_blocks(&boundary.circuit_breaker, since, self.config.circuit_breaker_reset_timeout);
                assert(before_reset(
                    duration_nanos(since),
                    duration_nanos(self.config().circuit_breaker_reset_timeout),
                    r,
                ));
                r
            },
            _ => false,
        }
    }

    /// The statistics.
    pub fn get_statistics(&self) -> (r: &ErrorStats)
        ensures
            *r == self.stats(),
    {
        &self.stats
    }

    /// Forget the statistics.
    pub fn reset_statistics(&mut self)
        requires
            old(self).wf(),
        ensures
            final(self).wf(),
            final(self).stats().total_errors == 0,
            final(self).stats().errors_by_type@.len() == 0,
            final(self).stats().successful_recoveries == 0,
            final(self).stats().failed_recoveries == 0,
            final(self).stats().fallbacks_triggered == 0,
            final(self).boundaries() == old(self).boundaries(),
            final(self).priorities() == old(self).priorities(),
            final(self).strategies() == old(self).strategies(),
    {
        self.stats = ErrorStats::new();
    }

    /// Try the strategies that handle `error` in order of priority: the first
    /// success is a recovery, a request for fallback gives the fallback with
    /// its reason, and when none decides the fallback is given as all having
    /// failed.
    fn attempt_recovery(&self, error: &HotReloadError, context: &RecoveryContext, protected_id: &str) -> (r:
        RecoveryOutcome)
        requires
            self.wf(),
        ensures
            r@ == search(self.strategies(), 0, *error, *context),
    {
        let ghost ss = self.strategies();
        let mut i: usize = 0;
        while i < self.recovery_strategies.len()
            invariant
                self.wf(),
                ss == self.strategies(),
                ss.len() == self.recovery_strategies@.len(),
                i <= ss.len(),
                search(ss, 0, *error, *context) == search(ss, i as int, *error, *context),
            decreases self.recovery_strategies@.len() - i,
        {
            let strategy = &self.recovery_strategies[i].1;
            assert(ss[i as int] == *strategy);
            if strategy.can_handle(error) {
                let result = strategy.attempt_recovery(error, context);
                match recovery_step(strategy.priority(), result) {
                    StepDecision::Recovered { strategy, message, new_content } => {
                        return RecoveryOutcome::Recovered { strategy, message, new_content };
                    },
                    StepDecision::Fallback { reason } => {
                        return fallback_outcome(reason, self.fallback_manager.get_fallback_content(protected_id));
                    },
                    StepDecision::Continue => {},
                }
            }
            i = i + 1;
        }
        fallback_outcome(strategies_exhausted(), self.fallback_manager.get_fallback_content(protected_id))
    }

    /// Handle an error: count it; find the boundary of the template (made
    /// when there is none); if its circuit is open and the reset timeout has
    /// not passed since it opened, give the fallback; otherwise record the
    /// error in the boundary, try the strategies in order of priority, and
    /// update the boundary and the counts by the outcome. Whether the reset
    /// timeout has passed is the clock's: what is stated is that the choice
    /// is that comparison for some span.
    pub fn handle_error(&mut self, error: HotReloadError, context: RecoveryContext) -> (r: RecoveryOutcome)
        requires
            old(self).wf(),
            old(self).stats().total_errors < usize::MAX,
            old(self).stats().successful_recoveries < usize::MAX,
            old(self).stats().fallbacks_triggered < usize::MAX,
        ensures
            final(self).wf(),
            final(self).priorities() == old(self).priorities(),
            final(self).strategies() == old(self).strategies(),
            final(self).config() == old(self).config(),
            !(r is Failed),
            final(self).stats().total_errors == old(self).stats().total_errors + 1,
            forall|u: ErrorType|
                type_count(final(self).stats().errors_by_type@, u) == type_count(old(self).stats().errors_by_type@, u)
                    + if u == error_category(error) {
                    1nat
                } else {
                    0nat
                },
            final(self).stats().failed_recoveries == old(self).stats().failed_recoveries,
            has_key(final(self).boundaries(), blake3_hex_digest(context.template_id.id_bytes())),
            ({
                let key = blake3_hex_digest(context.template_id.id_bytes());
                let before = value_of(old(self).boundaries(), key);
                if before is Some && before.unwrap().circuit_breaker is Open {
                    exists|since: nat, blocked: bool|
                        #[trigger] before_reset(
                            since,
                            duration_nanos(old(self).config().circuit_breaker_reset_timeout),
                            blocked,
                        ) && if blocked {
                            old(self).circuit_blocked(*final(self), r@)
                        } else {
                            old(self).strategies_tried(*final(self), key, error, context, r@)
                        }
                } else {
                    old(self).strategies_tried(*final(self), key, error, context, r@)
                }
            }),
    {
        let ghost pre = *self;
        let error_type = categorize_error(&error);
        self.stats.count_error(error_type);
        let boundary_id = context.template_id.hash();
        let ghost key = boundary_id@;
        let ghost before = value_of(pre.boundaries(), key);
        let mut boundary = match self.find_boundary(boundary_id.as_str()) {
            Some(i) => {
                proof {
                    lemma_key_pos(self.boundaries(), i as int);
                    assert(self.boundaries()[i as int].0 == self.boundaries@[i as int].id@);
                }
                duplicate_boundary(&self.boundaries[i])
            },
            None => {
                let b = ErrorBoundary::new(boundary_id.clone(), boundary_id.clone());
                let copy = duplicate_boundary(&b);
                proof {
                    lemma_put(self.boundaries(), key, copy);
                }
                self.register_boundary(copy);
                b
            },
        };
        let ghost registered = self.boundaries();
        assert(has_key(self.boundaries(), key));
        assert(boundary.id@ == key);
        let blocked = self.is_circuit_open(&boundary);
        proof {
            if before is Some && before.unwrap().circuit_breaker is Open {
                let since = choose|since: nat|
                    #[trigger] before_reset(
                        since,
                        duration_nanos(self.config().circuit_breaker_reset_timeout),
                        blocked,
                    );
                assert(before_reset(since, duration_nanos(pre.config().circuit_breaker_reset_timeout), blocked));
            }
        }
        if blocked {
            let content = self.fallback_manager.get_fallback_content(boundary.protected_id.as_str());
            let r = fallback_outcome(circuit_open_reason(), content);
            assert(r@ == fallback_with("Circuit breaker open"@));
            return r;
        }
        let record = ErrorRecord {
            error: error.message(),
            error_type,
            timestamp: system_now(),
            template_id: Some(context.template_id.duplicate()),
            recovery_action: None,
            recovery_successful: None,
        };
        boundary.record_error(record);
        let outcome = self.attempt_recovery(&error, &context, boundary.protected_id.as_str());
        proof {
            lemma_search_not_failed(pre.strategies(), 0, error, context);
        }
        boundary.apply_outcome(&outcome, self.config.circuit_breaker_threshold);
        match &outcome {
            RecoveryOutcome::Recovered { .. } => {
                self.stats.successful_recoveries = self.stats.successful_recoveries + 1;
            },
            RecoveryOutcome::FallbackTriggered { .. } => {
                self.stats.fallbacks_triggered = self.stats.fallbacks_triggered + 1;
            },
            RecoveryOutcome::Failed { .. } => {},
        }
        let ghost stored = boundary;
        proof {
            lemma_put(self.boundaries(), key, stored);
            if before is None {
                lemma_put_twice(pre.boundaries(), key, registered[key_pos(registered, key)].1, stored);
            }
            assert(stored.error_history@.drop_last() =~= match before {
                Some(p) => p.error_history@,
                None => Seq::empty(),
            });
        }
        self.register_boundary(boundary);
        assert(value_of(self.boundaries(), key) == Some(stored));
        assert(pre.strategies_tried(*self, key, error, context, outcome@));
        outcome
    }
}

/// A copy of an error record.
pub fn duplicate_record(r: &ErrorRecord) -> (c: ErrorRecord)
    ensures
        c == *r,
{
    ErrorRecord {
        error: r.error.clone(),
        error_type: r.error_type,
        timestamp: r.timestamp,
        template_id: match &r.template_id {
            Some(t) => Some(t.duplicate()),
            None => None,
        },
        recovery_action: match &r.recovery_action {
            Some(a) => Some(a.clone()),
            None => None,
        },
        recovery_successful: r.recovery_successful,
    }
}

/// A copy of an error boundary.
pub fn duplicate_boundary(b: &ErrorBoundary) -> (c: ErrorBoundary)
    ensures
        c.id == b.id,
        c.protected_id == b.protected_id,
        c.error_history@ == b.error_history@,
        c.recovery_attempts == b.recovery_attempts,
        c.circuit_breaker == b.circuit_breaker,
        c.last_recovery_attempt == b.last_recovery_attempt,
        c.fallback_content == b.fallback_content,
        (c.error_state is Healthy) == (b.error_state is Healthy),
{
    let mut history: Vec<ErrorRecord> = Vec::new();
    let mut i: usize = 0;
    while i < b.error_history.len()
        invariant
            i <= b.error_history@.len(),
            history@ == b.error_history@.take(i as int),
        decreases b.error_history@.len() - i,
    {
        history.push(duplicate_record(&b.error_history[i]));
        assert(history@ =~= b.error_history@.take(i + 1));
        i = i + 1;
    }
    assert(b.error_history@.take(i as int) =~= b.error_history@);
    ErrorBoundary {
        id: b.id.clone(),
        protected_id: b.protected_id.clone(),
        error_state: match &b.error_state {
            ErrorState::Healthy => ErrorState::Healthy,
            ErrorState::RecoverableError { error, timestamp } => ErrorState::RecoverableError {
                error: error.clone(),
                timestamp: *timestamp,
            },
            ErrorState::CriticalError { error, timestamp } => ErrorState::CriticalError {
                error: error.clone(),
                timestamp: *timestamp,
            },
            ErrorState::UsingFallback { reason, timestamp } => ErrorState::UsingFallback {
                reason: reason.clone(),
                timestamp: *timestamp,
            },
            ErrorState::Failed { error, timestamp } => ErrorState::Failed { error: error.clone(), timestamp: *timestamp },
        },
        error_history: history,
        recovery_attempts: b.recovery_attempts,
        last_recovery_attempt: b.last_recovery_attempt,
        circuit_breaker: match &b.circuit_breaker {
            CircuitBreakerState::Closed => CircuitBreakerState::Closed,
            CircuitBreakerState::Open { opened_at } => CircuitBreakerState::Open { opened_at: *opened_at },
            CircuitBreakerState::HalfOpen => CircuitBreakerState::HalfOpen,
        },
        fallback_content: match &b.fallback_content {
            Some(f) => Some(f.clone()),
            None => None,
        },
    }
}

} // verus!
