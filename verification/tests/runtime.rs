use shipwright::error_recovery::{
    circuit_blocks, recovery_step, CircuitBreakerState, ErrorBoundary, ErrorRecord, ErrorRecoveryConfig, ErrorType,
    FallbackManager, PreviousVersionStrategy, RecoveryOutcome, RecoveryResult, RetryStrategy, StepDecision,
    FallbackAction, ErrorRecoverySystem, RecoveryContext, RecoveryStrategy,
};
use shipwright::dom_diff::HotReloadError;
use shipwright::logging::{EventLog, LogEvent, add_breakpoint, breakpoint_hit, ConsoleSubscriber, DebugBreakpoint, DebugSession, LogEventType, LogLevel, LoggingConfig};
use shipwright::protocol::{HotReloadMessage, TemplateId, TemplateUpdate};
use shipwright::runtime::{template_changes, HotReloadClient, RegisteredTemplate, TemplateRegistry};
use shipwright::watcher::{should_process_path, should_process_path_lenient};
use std::time::{Duration, SystemTime};

#[test]
fn test_template_registry() {
    let mut reg = TemplateRegistry::new();

    let template = RegisteredTemplate {
        id: TemplateId::new("test.rs".to_string(), 10, 5),
        component_type: "TestComponent".to_string(),
        function_name: "render".to_string(),
    };

    reg.register(template.duplicate());

    let found = reg.find(&template.id);
    assert!(found.is_some());
    assert_eq!(found.unwrap().component_type, "TestComponent");
}

#[test]
fn registering_twice_keeps_the_first() {
    let mut reg = TemplateRegistry::new();
    let id = TemplateId::new("a.rs".to_string(), 1, 2);
    reg.register(RegisteredTemplate { id: id.duplicate(), component_type: "First".to_string(), function_name: "f".to_string() });
    reg.register(RegisteredTemplate { id: id.duplicate(), component_type: "Second".to_string(), function_name: "g".to_string() });
    assert_eq!(reg.get_all().len(), 1);
    assert_eq!(reg.find(&id).unwrap().component_type, "First");
    reg.clear();
    assert!(reg.find(&id).is_none());
}

fn update(file: &str, html: &str) -> TemplateUpdate {
    TemplateUpdate {
        id: TemplateId::new(file.to_string(), 1, 1),
        hash: "h".to_string(),
        content_hash: "c".to_string(),
        html: html.to_string(),
        dynamic_parts: vec![],
    }
}

#[test]
fn client_hands_updates_to_handler() {
    let seen = std::cell::RefCell::new(Vec::new());
    let client = HotReloadClient::new("ws://localhost:3001".to_string(), |id: TemplateId, html: String| {
        seen.borrow_mut().push((id.file, html));
    });
    client.handle_message(HotReloadMessage::BatchUpdate { updates: vec![update("a.rs", "<a/>"), update("b.rs", "<b/>")] });
    client.handle_message(HotReloadMessage::Ping);
    assert_eq!(
        *seen.borrow(),
        vec![("a.rs".to_string(), "<a/>".to_string()), ("b.rs".to_string(), "<b/>".to_string())]
    );
    assert_eq!(template_changes(HotReloadMessage::TemplateUpdated(update("c.rs", "<c/>"))).len(), 1);
}

#[test]
fn watcher_test_should_process_file() {
    let exts = vec!["rs".to_string()];
    // Should process valid .rs files
    assert!(should_process_path("test.rs", &exts));
    assert!(should_process_path("src/main.rs", &exts));

    // Should not process non-.rs files
    assert!(!should_process_path("test.txt", &exts));
    assert!(!should_process_path("test", &exts));

    // Should not process temporary files ending with ~
    assert!(!should_process_path("main.rs~", &exts));
    assert!(!should_process_path("src/lib.rs~", &exts));

    // Should not process numbered temporary files
    assert!(!should_process_path("4913", &exts));
    assert!(!should_process_path("1234", &exts));

    // Should not process files in target/ directory
    assert!(!should_process_path("target/debug/main.rs", &exts));
    assert!(!should_process_path("target/release/lib.rs", &exts));

    // Should not process common temporary file extensions
    assert!(!should_process_path("test.tmp", &exts));
    assert!(!should_process_path("main.swp", &exts));
    assert!(!should_process_path("backup.bak", &exts));
    assert!(!should_process_path("file.swo", &exts));
    assert!(!should_process_path("patch.orig", &exts));
    assert!(!should_process_path("conflict.rej", &exts));

    // Should not process editor temporary files
    assert!(!should_process_path(".#main.rs", &exts));
    assert!(!should_process_path("#main.rs#", &exts));
    assert!(!should_process_path(".DS_Store", &exts));
    assert!(!should_process_path("main.rs.autosave", &exts));
}

#[test]
fn lenient_filter_keeps_digits_and_temp_extensions() {
    let exts = vec!["tmp".to_string(), "rs".to_string()];
    assert!(should_process_path_lenient("test.tmp", &exts));
    assert!(!should_process_path("test.tmp", &exts));
    assert!(!should_process_path_lenient("main.rs~", &exts));
    assert!(!should_process_path_lenient("target/x.rs", &exts));
}

#[test]
fn test_error_boundary_creation() {
    let boundary = ErrorBoundary::new("test-boundary".to_string(), "test-component".to_string());
    assert!(boundary.is_healthy());
    assert_eq!(boundary.recovery_attempts, 0);
}

fn record(msg: &str) -> ErrorRecord {
    ErrorRecord {
        error: msg.to_string(),
        error_type: ErrorType::DiffError,
        timestamp: SystemTime::now(),
        template_id: None,
        recovery_action: None,
        recovery_successful: None,
    }
}

#[test]
fn boundary_follows_recovery_outcomes() {
    let mut b = ErrorBoundary::new("b".to_string(), "p".to_string());
    assert!(b.last_error().is_none());
    b.record_error(record("boom"));
    assert!(!b.is_healthy());
    assert_eq!(b.last_error().unwrap().error, "boom");
    let failed = RecoveryOutcome::Failed { error: "x".to_string(), requires_manual_intervention: false };
    b.apply_outcome(&failed, 2);
    assert_eq!(b.recovery_attempts, 1);
    assert!(matches!(b.circuit_breaker, CircuitBreakerState::Closed));
    b.apply_outcome(&failed, 2);
    assert!(matches!(b.circuit_breaker, CircuitBreakerState::Open { .. }));
    assert!(circuit_blocks(&b.circuit_breaker, Duration::from_secs(1), Duration::from_secs(30)));
    assert!(!circuit_blocks(&b.circuit_breaker, Duration::from_secs(31), Duration::from_secs(30)));
    let recovered = RecoveryOutcome::Recovered { strategy: "s".to_string(), message: "m".to_string(), new_content: None };
    b.apply_outcome(&recovered, 2);
    assert!(b.is_healthy());
    assert_eq!(b.recovery_attempts, 0);
    assert!(!circuit_blocks(&b.circuit_breaker, Duration::from_secs(1), Duration::from_secs(30)));
    let fallback = RecoveryOutcome::FallbackTriggered { reason: "r".to_string(), fallback_content: None, action: FallbackAction::ShowFallbackContent };
    b.apply_outcome(&fallback, 2);
    assert!(!b.is_healthy());
}

#[test]
fn recovery_strategies_decide() {
    let config = ErrorRecoveryConfig::default();
    assert_eq!(config.max_retries, 3);
    assert_eq!(config.retry_delay, Duration::from_millis(500));
    assert_eq!(config.circuit_breaker_reset_timeout, Duration::from_secs(30));
    let retry = RetryStrategy::new(3, Duration::from_millis(100));
    let error = HotReloadError::DomDiffingFailed { reason: "e".to_string() };
    let fresh = context_with(0);
    let worn = context_with(3);
    assert_eq!(retry.priority(), 100);
    assert!(retry.can_handle(&HotReloadError::IoError("x".to_string())));
    assert!(matches!(retry.attempt_recovery(&error, &fresh), RecoveryResult::Success { .. }));
    match retry.attempt_recovery(&error, &worn) {
        RecoveryResult::Failed { error, retry_recommended } => {
            assert_eq!(error, "Max retry attempts exceeded");
            assert!(!retry_recommended);
        }
        _ => panic!("expected failure"),
    }
    assert_eq!(PreviousVersionStrategy.priority(), 50);
    assert!(PreviousVersionStrategy.can_handle(&error));
    assert!(!PreviousVersionStrategy.can_handle(&HotReloadError::ParseError("p".to_string())));
    match recovery_step(100, retry.attempt_recovery(&error, &fresh)) {
        StepDecision::Recovered { strategy, message, .. } => {
            assert_eq!(strategy, "Strategy 100");
            assert_eq!(message, "Retry successful");
        }
        _ => panic!("expected recovery"),
    }
    assert!(matches!(
        recovery_step(1, RecoveryResult::Failed { error: "e".to_string(), retry_recommended: true }),
        StepDecision::Continue
    ));
}

#[test]
fn fallback_manager_custom_content() {
    let mut m = FallbackManager::new();
    let id = TemplateId::new("a.rs".to_string(), 1, 1);
    m.set_custom_fallback(id.duplicate(), "one".to_string());
    m.set_custom_fallback(id, "two".to_string());
    assert!(m.get_fallback_content("x").unwrap().contains("Hot reload temporarily unavailable"));
}

#[test]
fn breakpoints_match_template_and_type() {
    let id = TemplateId::new("a.rs".to_string(), 1, 1);
    let bp = DebugBreakpoint { id: "b".to_string(), template_id: None, event_type: Some(LogEventType::ComponentUpdate), condition: None, enabled: true };
    assert!(breakpoint_hit(&bp, &None, LogEventType::ComponentUpdate));
    assert!(!breakpoint_hit(&bp, &None, LogEventType::Error));
    let bp2 = DebugBreakpoint { id: "c".to_string(), template_id: Some(id.duplicate()), event_type: None, condition: None, enabled: true };
    assert!(breakpoint_hit(&bp2, &Some(id.duplicate()), LogEventType::Error));
    assert!(!breakpoint_hit(&bp2, &None, LogEventType::Error));
    let off = DebugBreakpoint { id: "d".to_string(), template_id: None, event_type: None, condition: None, enabled: false };
    assert!(!breakpoint_hit(&off, &None, LogEventType::Error));
}

#[test]
fn debug_sessions_take_breakpoints() {
    let mut session: Option<DebugSession> = None;
    assert_eq!(
        add_breakpoint(&mut session, "b1".to_string(), None, Some(LogEventType::ComponentUpdate), None).unwrap_err(),
        "No active debug session"
    );
    session = Some(DebugSession::new(
        "s".to_string(),
        SystemTime::now(),
        vec![TemplateId::new("test.rs".to_string(), 10, 5)],
        vec!["TestComponent".to_string()],
    ));
    assert_eq!(add_breakpoint(&mut session, "b1".to_string(), None, Some(LogEventType::ComponentUpdate), None).unwrap(), "b1");
    assert_eq!(session.as_ref().unwrap().breakpoints.len(), 1);
}

#[test]
fn console_shows_info_and_above() {
    let quiet = ConsoleSubscriber::new(false);
    assert!(!quiet.shows(LogLevel::Debug));
    assert!(quiet.shows(LogLevel::Info));
    assert!(quiet.shows(LogLevel::Error));
    assert!(ConsoleSubscriber::new(true).shows(LogLevel::Trace));
    let config = LoggingConfig::defaults(false);
    assert_eq!(config.max_events, 1000);
    assert_eq!(config.level, LogLevel::Info);
}

#[test]
fn event_log_keeps_the_most_recent_events() {
    let event = |id: &str| LogEvent {
        id: id.to_string(),
        timestamp: std::time::SystemTime::UNIX_EPOCH,
        event_type: LogEventType::FileChange,
        level: LogLevel::Info,
        message: format!("event {}", id),
        context: vec![],
        template_id: None,
        duration: None,
        related_events: vec![],
    };
    let mut log = EventLog::new(2);
    log.push(event("1"));
    log.push(event("2"));
    log.push(event("3"));
    let recent = log.recent(10);
    assert_eq!(recent.iter().map(|e| e.id.as_str()).collect::<Vec<_>>(), vec!["3", "2"]);
    assert_eq!(log.recent(1)[0].message, "event 3");
    log.clear();
    assert!(log.recent(5).is_empty());
    let mut none = EventLog::new(0);
    none.push(event("x"));
    assert!(none.recent(1).is_empty());
}

fn context_with(previous_errors: usize) -> RecoveryContext {
    let template_id = TemplateId::new("test.rs".to_string(), 10, 5);
    let error_history = (0..previous_errors)
        .map(|_| ErrorRecord {
            error: "earlier".to_string(),
            error_type: ErrorType::Unknown,
            timestamp: SystemTime::UNIX_EPOCH,
            template_id: None,
            recovery_action: None,
            recovery_successful: None,
        })
        .collect();
    RecoveryContext {
        template_id,
        template_update: None,
        liveview_instance: None,
        error_history,
        config: ErrorRecoveryConfig::default(),
    }
}

#[test]
fn test_error_recovery_system_creation() {
    let config = ErrorRecoveryConfig::default();
    let system: ErrorRecoverySystem<RetryStrategy> = ErrorRecoverySystem::new(config);

    let stats = system.get_statistics();
    assert_eq!(stats.total_errors, 0);
}

#[test]
fn error_recovery_test_error_handling() {
    let config = ErrorRecoveryConfig::default();
    let mut system = ErrorRecoverySystem::new(config);

    // Add a retry strategy
    system.add_recovery_strategy(RetryStrategy::new(3, Duration::from_millis(100)));

    let context = context_with(0);

    let error = HotReloadError::DomDiffingFailed { reason: "Test error".to_string() };

    let outcome = system.handle_error(error, context);
    assert!(matches!(outcome, RecoveryOutcome::Recovered { .. }));

    let stats = system.get_statistics();
    assert_eq!(stats.total_errors, 1);
    assert_eq!(stats.successful_recoveries, 1);
}

#[test]
fn without_strategies_errors_fall_back_and_are_counted_by_type() {
    let mut system: ErrorRecoverySystem<RetryStrategy> = ErrorRecoverySystem::new(ErrorRecoveryConfig::default());
    match system.handle_error(HotReloadError::ParseError("bad".to_string()), context_with(0)) {
        RecoveryOutcome::FallbackTriggered { reason, fallback_content, .. } => {
            assert_eq!(reason, "All recovery strategies failed");
            assert!(fallback_content.is_some());
        }
        _ => panic!("expected a fallback"),
    }
    let stats = system.get_statistics();
    assert_eq!(stats.fallbacks_triggered, 1);
    assert_eq!(stats.errors_by_type, vec![(ErrorType::ParseError, 1)]);
    system.add_recovery_strategy(RetryStrategy::new(0, Duration::from_millis(1)));
    system.handle_error(HotReloadError::ParseError("again".to_string()), context_with(0));
    assert_eq!(system.get_statistics().errors_by_type, vec![(ErrorType::ParseError, 2)]);
    system.reset_statistics();
    assert_eq!(system.get_statistics().total_errors, 0);
}

#[test]
fn open_circuit_gives_the_fallback_without_trying_strategies() {
    let mut system = ErrorRecoverySystem::new(ErrorRecoveryConfig::default());
    system.add_recovery_strategy(RetryStrategy::new(3, Duration::from_millis(1)));
    let context = context_with(0);
    let id = context.template_id.hash();
    let mut boundary = ErrorBoundary::new(id.clone(), id);
    boundary.circuit_breaker = CircuitBreakerState::Open { opened_at: SystemTime::now() };
    system.register_boundary(boundary);
    match system.handle_error(HotReloadError::DomDiffingFailed { reason: "x".to_string() }, context) {
        RecoveryOutcome::FallbackTriggered { reason, fallback_content, action } => {
            assert_eq!(reason, "Circuit breaker open");
            assert_eq!(
                fallback_content,
                Some("<div class=\"hot-reload-error\">Hot reload temporarily unavailable</div>".to_string())
            );
            assert!(matches!(action, FallbackAction::ShowFallbackContent));
        }
        _ => panic!("expected the circuit to block"),
    }
    let stats = system.get_statistics();
    assert_eq!(stats.total_errors, 1);
    assert_eq!(stats.successful_recoveries, 0);
    assert_eq!(stats.fallbacks_triggered, 0);
}

#[test]
fn open_circuit_past_its_reset_timeout_lets_strategies_run() {
    let mut config = ErrorRecoveryConfig::default();
    config.circuit_breaker_reset_timeout = Duration::from_secs(0);
    let mut system = ErrorRecoverySystem::new(config);
    system.add_recovery_strategy(RetryStrategy::new(3, Duration::from_millis(1)));
    let context = context_with(0);
    let id = context.template_id.hash();
    let mut boundary = ErrorBoundary::new(id.clone(), id);
    boundary.circuit_breaker = CircuitBreakerState::Open { opened_at: SystemTime::now() };
    system.register_boundary(boundary);
    let outcome = system.handle_error(HotReloadError::DomDiffingFailed { reason: "x".to_string() }, context);
    match outcome {
        RecoveryOutcome::Recovered { strategy, message, new_content } => {
            assert_eq!(strategy, "Strategy 100");
            assert_eq!(message, "Retry successful");
            assert!(new_content.is_none());
        }
        _ => panic!("expected a recovery"),
    }
    assert_eq!(system.get_statistics().successful_recoveries, 1);
}

#[test]
fn exhausted_retries_fall_back_as_all_strategies_failed() {
    let mut system = ErrorRecoverySystem::new(ErrorRecoveryConfig::default());
    system.add_recovery_strategy(RetryStrategy::new(1, Duration::from_millis(1)));
    match system.handle_error(HotReloadError::IoError("disk".to_string()), context_with(1)) {
        RecoveryOutcome::FallbackTriggered { reason, .. } => {
            assert_eq!(reason, "All recovery strategies failed");
        }
        _ => panic!("expected a fallback"),
    }
    let stats = system.get_statistics();
    assert_eq!(stats.fallbacks_triggered, 1);
    assert_eq!(stats.successful_recoveries, 0);
    assert_eq!(stats.failed_recoveries, 0);
}

#[test]
fn strategies_are_tried_by_priority() {
    let mut system = ErrorRecoverySystem::new(ErrorRecoveryConfig::default());
    system.add_recovery_strategy(PreviousVersionStrategy);
    system.add_recovery_strategy(PreviousVersionStrategy);
    match system.handle_error(HotReloadError::TemplateUpdateFailed { reason: "t".to_string() }, context_with(0)) {
        RecoveryOutcome::Recovered { strategy, message, new_content } => {
            assert_eq!(strategy, "Strategy 50");
            assert_eq!(message, "Restored previous version");
            assert_eq!(new_content, Some("<div>Previous version restored</div>".to_string()));
        }
        _ => panic!("expected a recovery"),
    }
    match system.handle_error(HotReloadError::ParseError("p".to_string()), context_with(0)) {
        RecoveryOutcome::FallbackTriggered { reason, .. } => {
            assert_eq!(reason, "All recovery strategies failed");
        }
        _ => panic!("a parse error is not handled by this strategy"),
    }
}
