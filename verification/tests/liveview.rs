use shipwright::dom_diff::HotReloadError;
use shipwright::integration::{integration_statistics, process_event};
use shipwright::liveview_integration::{
    ActiveLiveView, HotReloadEvent, HotReloadResult, LiveViewHotReloadConfig, LiveViewHotReloadManager,
    EMPTY_STATE_JSON,
};
use shipwright::protocol::{TemplateId, TemplateUpdate};

fn test_view() -> ActiveLiveView {
    let template_id = TemplateId::new("test.rs".to_string(), 10, 5);
    ActiveLiveView::new(
        "test-view".to_string(),
        template_id,
        "<div>Hello</div>".to_string(),
        "TestComponent".to_string(),
    )
}

#[test]
fn test_liveview_manager_creation() {
    let config = LiveViewHotReloadConfig::defaults(false);
    let manager = LiveViewHotReloadManager::new(config);

    let stats = manager.get_statistics();
    assert_eq!(stats.active_views, 0);
}

#[test]
fn test_view_registration() {
    let config = LiveViewHotReloadConfig::defaults(false);
    let mut manager = LiveViewHotReloadManager::new(config);

    manager.register_liveview_instance(test_view()).unwrap();

    let stats = manager.get_statistics();
    assert_eq!(stats.active_views, 1);
    assert_eq!(stats.hot_reload_enabled_views, 1);
}

#[test]
fn test_view_unregistration() {
    let config = LiveViewHotReloadConfig::defaults(false);
    let mut manager = LiveViewHotReloadManager::new(config);

    manager.register_liveview_instance(test_view()).unwrap();
    manager.unregister_liveview_instance("test-view");

    let stats = manager.get_statistics();
    assert_eq!(stats.active_views, 0);
}

#[test]
fn views_of_a_changed_template_are_updated() {
    let mut manager = LiveViewHotReloadManager::new(LiveViewHotReloadConfig::defaults(false));
    manager.register_liveview_instance(test_view()).unwrap();
    let mut other = test_view();
    other.instance_id = "other".to_string();
    other.set_hot_reload_enabled(false);
    manager.register_liveview_instance(other).unwrap();
    let id = TemplateId::new("test.rs".to_string(), 10, 5);
    assert_eq!(manager.affected_views(&id), vec!["test-view".to_string()]);
    assert_eq!(manager.get_statistics().hot_reload_enabled_views, 1);

    let update = TemplateUpdate {
        id: id.clone(),
        hash: id.hash(),
        content_hash: "c".to_string(),
        html: "<div>Bye</div>".to_string(),
        dynamic_parts: vec![],
    };
    match manager.state_request("test-view") {
        HotReloadEvent::StatePreservationRequest { instance_id, timeout_ms } => {
            assert_eq!(instance_id, "test-view");
            assert_eq!(timeout_ms, 1000);
        }
        _ => panic!("Expected a state request"),
    }
    let view = manager.get_view("test-view").unwrap();
    let (result, event) = manager.update_single_view(&view, &update, true).unwrap();
    match result {
        HotReloadResult::Updated { instance_id, patch_size, state_preserved } => {
            assert_eq!(instance_id, "test-view");
            assert_eq!(patch_size, 0);
            assert!(state_preserved);
        }
        _ => panic!("Expected an update"),
    }
    assert!(matches!(event, Some(HotReloadEvent::ComponentUpdate { preserve_state: true, .. })));
    let stored = manager.get_view("test-view").unwrap();
    assert_eq!(stored.current_html, "<div>Bye</div>");
    assert_eq!(stored.preserved_state.as_deref(), Some(EMPTY_STATE_JSON));

    let (result, _) = manager.update_single_view(&stored, &update, false).unwrap();
    assert!(matches!(result, HotReloadResult::Updated { state_preserved: false, .. }));
}

#[test]
fn client_state_is_kept_only_for_known_views() {
    let mut manager = LiveViewHotReloadManager::new(LiveViewHotReloadConfig::defaults(false));
    manager.register_liveview_instance(test_view()).unwrap();
    manager.handle_state_preservation_response("test-view", "{\"x\":1}".to_string()).unwrap();
    assert_eq!(manager.get_view("test-view").unwrap().preserved_state.as_deref(), Some("{\"x\":1}"));
    match manager.handle_state_preservation_response("ghost", "{}".to_string()) {
        Err(HotReloadError::ComponentInstanceNotFound { instance_id }) => assert_eq!(instance_id, "ghost"),
        _ => panic!("Expected an unknown instance"),
    }
    assert_eq!(manager.get_active_views().len(), 1);
    manager.reset();
    assert!(manager.get_view("test-view").is_none());
}

#[test]
fn the_event_loop_keeps_reported_state() {
    let mut manager = LiveViewHotReloadManager::new(LiveViewHotReloadConfig::defaults(false));
    manager.register_liveview_instance(test_view()).unwrap();
    process_event(
        &mut manager,
        HotReloadEvent::StatePreservationResponse {
            instance_id: "test-view".to_string(),
            state: "{}".to_string(),
            success: false,
        },
    )
    .unwrap();
    assert!(manager.get_view("test-view").unwrap().preserved_state.is_none());
    process_event(
        &mut manager,
        HotReloadEvent::StatePreservationResponse {
            instance_id: "test-view".to_string(),
            state: "{\"a\":2}".to_string(),
            success: true,
        },
    )
    .unwrap();
    assert_eq!(manager.get_view("test-view").unwrap().preserved_state.as_deref(), Some("{\"a\":2}"));
    assert!(process_event(&mut manager, HotReloadEvent::FullRefresh { reason: "x".to_string() }).is_ok());
    assert_eq!(integration_statistics(&manager).active_liveviews, 1);
}
