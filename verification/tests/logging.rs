use shipwright::liveview_integration::HotReloadResult;
use shipwright::logging::{
    ContextValue, DebugBreakpoint, DebugCommand, DebugReply, FileSubscriber, HotReloadLogger, LogEvent, LogEventSubscriber,
    LogEventType, LogLevel, LoggingConfig, PerformanceMetrics,
};
use shipwright::dom_diff::HotReloadError;
use shipwright::protocol::TemplateId;
use std::time::Duration;

#[test]
fn test_logger_creation() {
    let config = LoggingConfig::defaults(false);
    let logger = HotReloadLogger::<FileSubscriber>::new(config);

    let metrics = logger.get_metrics();
    assert_eq!(metrics.total_updates, 0);
}

#[test]
fn test_event_logging() {
    let config = LoggingConfig::defaults(false);
    let mut logger = HotReloadLogger::<FileSubscriber>::new(config);

    let (event_id, _) = logger.log_event(
        LogEventType::Debug,
        LogLevel::Info,
        "Test event".to_string(),
        None,
        None,
        Some(Duration::from_millis(100)),
    );

    assert!(!event_id.is_empty());

    let events = logger.get_recent_events(10);
    assert_eq!(events.len(), 1);
    assert_eq!(events[0].message, "Test event");
}

#[test]
fn test_metrics_update() {
    let config = LoggingConfig::defaults(false);
    let mut logger = HotReloadLogger::<FileSubscriber>::new(config);

    // Log a few events with timing
    for i in 1..=5 {
        logger.log_event(
            LogEventType::Performance,
            LogLevel::Info,
            format!("Update {}", i),
            None,
            None,
            Some(Duration::from_millis(i * 100)),
        );
    }

    let metrics = logger.get_metrics();
    assert_eq!(metrics.total_updates, 5);
    assert_eq!(metrics.fastest_update_ms, Some(100));
    assert_eq!(metrics.slowest_update_ms, Some(500));
    assert_eq!(metrics.total_update_time_ms, 1500);
    assert_eq!(metrics.updates_by_hour.iter().map(|(_, n)| *n).sum::<usize>(), 5);
}

#[test]
fn test_debug_commands() {
    let config = LoggingConfig::defaults(false);
    let mut logger = HotReloadLogger::<FileSubscriber>::new(config);

    let template_id = TemplateId::new("test.rs".to_string(), 10, 5);

    // Start debug session
    let result = logger.handle_debug_command(DebugCommand::StartSession {
        templates: vec![template_id],
        components: vec!["TestComponent".to_string()],
    });

    assert!(result.is_ok());

    // Add breakpoint
    let result = logger.handle_debug_command(DebugCommand::AddBreakpoint {
        template_id: None,
        event_type: Some(LogEventType::ComponentUpdate),
        condition: None,
    });

    assert!(result.is_ok());

    // Stop session
    let result = logger.handle_debug_command(DebugCommand::StopSession);
    assert!(result.is_ok());
}

#[test]
fn breakpoints_need_a_session_and_are_hit_by_matching_events() {
    let mut logger = HotReloadLogger::<FileSubscriber>::new(LoggingConfig::defaults(false));
    let refused = logger.handle_debug_command(DebugCommand::AddBreakpoint {
        template_id: None,
        event_type: None,
        condition: None,
    });
    assert_eq!(refused.err(), Some("No active debug session".to_string()));
    match logger.apply_debug_command(
        DebugCommand::StartSession { templates: vec![], components: vec![] },
        "session-1".to_string(),
        std::time::SystemTime::UNIX_EPOCH,
    ) {
        Ok(DebugReply::SessionStarted { session_id }) => assert_eq!(session_id, "session-1"),
        _ => panic!("Expected a session"),
    }
    logger
        .apply_debug_command(
            DebugCommand::AddBreakpoint { template_id: None, event_type: Some(LogEventType::Error), condition: None },
            "bp-1".to_string(),
            std::time::SystemTime::UNIX_EPOCH,
        )
        .unwrap();
    let (_, hits) = logger.log_event(LogEventType::Error, LogLevel::Error, "boom".to_string(), None, None, None);
    assert_eq!(hits, vec![0]);
    let (_, hits) = logger.log_event(LogEventType::Debug, LogLevel::Debug, "calm".to_string(), None, None, None);
    assert!(hits.is_empty());
    assert!(matches!(logger.handle_debug_command(DebugCommand::Step), Ok(DebugReply::NotImplemented)));
}

#[test]
fn event_history_is_newest_first_and_limited() {
    let mut logger = HotReloadLogger::<FileSubscriber>::new(LoggingConfig::defaults(false));
    for i in 0..3 {
        logger.log_event(LogEventType::Debug, LogLevel::Info, format!("e{}", i), None, None, None);
    }
    match logger.handle_debug_command(DebugCommand::GetEventHistory { limit: Some(2) }) {
        Ok(DebugReply::EventHistory(events)) => {
            let messages: Vec<&str> = events.iter().map(|e| e.message.as_str()).collect();
            assert_eq!(messages, vec!["e2", "e1"]);
        }
        _ => panic!("Expected the history"),
    }
    logger.clear_events();
    assert!(logger.get_recent_events(10).is_empty());
    assert_eq!(logger.get_metrics().total_updates, 0);
}

#[test]
fn helper_events_carry_their_messages_and_context() {
    let mut logger = HotReloadLogger::<FileSubscriber>::new(LoggingConfig::defaults(false));
    logger.log_file_change("src/main.rs", "modified");
    let id = TemplateId::new("app.rs".to_string(), 3, 7);
    logger.log_template_parsing(&id, Duration::from_millis(12), false);
    logger.log_component_update(
        "view-1",
        &HotReloadResult::Updated { instance_id: "view-1".to_string(), patch_size: 4, state_preserved: true },
    );
    let events = logger.get_recent_events(3);
    assert_eq!(events[2].message, "File changed: src/main.rs (modified)");
    assert_eq!(events[2].level, LogLevel::Debug);
    assert!(matches!(&events[2].context[0].1, ContextValue::Text(t) if t == "src/main.rs"));
    assert_eq!(
        events[1].message,
        "Template parsing failed: TemplateId { file: \"app.rs\", line: 3, column: 7 }"
    );
    assert_eq!(events[1].level, LogLevel::Error);
    assert_eq!(events[0].message, "Component updated: view-1 (patch size: 4)");
    assert!(matches!(events[0].context[1].1, ContextValue::Number(4)));
    assert_eq!(logger.get_metrics().fastest_update_ms, Some(12));
}

#[test]
fn log_error_records_the_error_and_its_context() {
    let mut logger = HotReloadLogger::<FileSubscriber>::new(LoggingConfig::defaults(false));
    let id = logger.log_error(&HotReloadError::ParseError("bad token".to_string()), Some("parsing"));
    assert_eq!(id.len(), 36);
    let events = logger.get_recent_events(10);
    assert_eq!(events.len(), 1);
    assert_eq!(events[0].id, id);
    assert_eq!(events[0].message, "Hot reload error: bad token");
    assert_eq!(events[0].event_type, LogEventType::Error);
    assert_eq!(events[0].level, LogLevel::Error);
    assert_eq!(events[0].context.len(), 3);
    assert_eq!(events[0].context[0].0, "error_type");
    match &events[0].context[0].1 {
        ContextValue::Text(t) => assert_eq!(t, "ParseError(\"bad token\")"),
        _ => panic!("expected text"),
    }
    assert_eq!(events[0].context[1].0, "context");
    assert_eq!(events[0].context[2].0, "stack_trace");
}

struct Recorder {
    seen: std::rc::Rc<std::cell::RefCell<Vec<String>>>,
}

impl LogEventSubscriber for Recorder {
    fn on_log_event(&self, event: &LogEvent) {
        self.seen.borrow_mut().push(format!("event {}", event.message));
    }

    fn on_metrics_update(&self, _metrics: &PerformanceMetrics) {
        self.seen.borrow_mut().push("metrics".to_string());
    }

    fn on_breakpoint_hit(&self, _breakpoint: &DebugBreakpoint, event: &LogEvent) {
        self.seen.borrow_mut().push(format!("breakpoint {}", event.message));
    }
}

#[test]
fn subscribers_are_told_of_breakpoints_and_events() {
    let seen = std::rc::Rc::new(std::cell::RefCell::new(Vec::new()));
    let mut logger = HotReloadLogger::new(LoggingConfig::defaults(false));
    logger.add_subscriber(Recorder { seen: seen.clone() });
    logger.log_event(LogEventType::Debug, LogLevel::Info, "first".to_string(), None, None, None);
    assert_eq!(*seen.borrow(), vec!["event first".to_string()]);

    assert!(logger.handle_debug_command(DebugCommand::StartSession { templates: vec![], components: vec![] }).is_ok());
    assert!(logger
        .handle_debug_command(DebugCommand::AddBreakpoint {
            template_id: None,
            event_type: Some(LogEventType::FileChange),
            condition: None,
        })
        .is_ok());
    logger.log_event(LogEventType::FileChange, LogLevel::Debug, "second".to_string(), None, None, None);
    logger.log_event(LogEventType::Debug, LogLevel::Debug, "third".to_string(), None, None, None);
    assert_eq!(
        *seen.borrow(),
        vec![
            "event first".to_string(),
            "breakpoint second".to_string(),
            "event second".to_string(),
            "event third".to_string(),
        ]
    );
}
