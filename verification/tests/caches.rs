use shipwright::build_cache::{BuildCache, RebuildDecision, RebuildReason};
use shipwright::diff_integration::DiffAwareTemplateCache;
use shipwright::enhanced_cache::EnhancedCache;
use shipwright::dom_diff::{ComponentBoundary, HotReloadDomDiffer, HotReloadError, HotReloadPatch, HotReloadPatchOp, Patch, PatchOp};
use shipwright::protocol::{HotReloadMessage, TemplateId, TemplateUpdate};
use shipwright::server::{client_reply, connected_message, server_stats};
use shipwright::template_cache::TemplateCache;
use std::time::Duration;

fn create_test_update(id: &str, html: &str) -> TemplateUpdate {
    TemplateUpdate {
        id: TemplateId::new("test.rs".to_string(), 1, 1),
        hash: id.to_string(),
        content_hash: format!("{}_content", id),
        html: html.to_string(),
        dynamic_parts: vec![],
    }
}

fn update_for(id: &TemplateId, html: &str) -> TemplateUpdate {
    let dynamic_parts = vec![];
    TemplateUpdate {
        id: id.clone(),
        hash: id.hash(),
        content_hash: TemplateUpdate::compute_content_hash(html, &dynamic_parts),
        html: html.to_string(),
        dynamic_parts,
    }
}

#[test]
fn test_build_cache_basic() {
    let mut cache = BuildCache::new();
    let template_id = TemplateId::new("test.rs".to_string(), 10, 5);
    let source_hash = "hash123".to_string();
    let deps = Vec::new();

    cache.record_build(template_id.clone(), source_hash.clone(), deps, Duration::from_millis(100));

    assert_eq!(cache.needs_rebuild(&template_id, &source_hash), RebuildDecision::NotRequired);

    assert!(matches!(
        cache.needs_rebuild(&template_id, "different_hash"),
        RebuildDecision::Required(RebuildReason::SourceChanged)
    ));
}

#[test]
fn test_dependency_tracking() {
    let mut cache = BuildCache::new();
    let template_id = TemplateId::new("test.rs".to_string(), 10, 5);
    let dep_path = "dep.rs".to_string();

    let deps = vec![dep_path.clone()];

    cache.record_build(template_id.clone(), "hash123".to_string(), deps, Duration::from_millis(100));

    let affected = cache.get_affected_templates(&dep_path);
    assert_eq!(affected.len(), 1);
    assert_eq!(affected[0], template_id);
}

#[test]
fn build_cache_test_error_handling() {
    let mut cache = BuildCache::new();
    let template_id = TemplateId::new("test.rs".to_string(), 10, 5);

    cache.record_error(template_id.clone(), "Compilation failed".to_string(), Duration::from_millis(50));

    assert!(matches!(
        cache.needs_rebuild(&template_id, "any_hash"),
        RebuildDecision::Required(RebuildReason::PreviousError)
    ));
}

#[test]
fn unknown_template_needs_first_build() {
    let mut cache = BuildCache::new();
    let id = TemplateId::new("a.rs".to_string(), 1, 2);
    assert_eq!(cache.needs_rebuild(&id, "h"), RebuildDecision::Required(RebuildReason::NoCacheEntry));
    assert_eq!(cache.stats().cache_hits, 0);
}

#[test]
fn rebuilding_moves_dependencies() {
    let mut cache = BuildCache::new();
    let id = TemplateId::new("page.rs".to_string(), 3, 1);
    cache.record_build(id.clone(), "h1".to_string(), vec!["old.rs".to_string()], Duration::from_millis(10));
    cache.record_build(id.clone(), "h2".to_string(), vec!["new.rs".to_string()], Duration::from_millis(30));
    assert!(cache.get_affected_templates("old.rs").is_empty());
    assert_eq!(cache.get_affected_templates("new.rs"), vec![id.clone()]);
    let stats = cache.stats();
    assert_eq!(stats.total_builds, 2);
    assert_eq!(stats.average_build_time, Duration::from_millis(20));
    assert_eq!(stats.total_entries, 1);
    assert_eq!(stats.error_entries, 0);
}

#[test]
fn failure_keeps_dependencies_and_counts() {
    let mut cache = BuildCache::new();
    let id = TemplateId::new("page.rs".to_string(), 3, 1);
    cache.record_build(id.clone(), "h1".to_string(), vec!["dep.rs".to_string()], Duration::from_millis(10));
    cache.record_error(id.clone(), "boom".to_string(), Duration::from_millis(5));
    assert_eq!(cache.get_affected_templates("dep.rs"), vec![id.clone()]);
    let stats = cache.stats();
    assert_eq!(stats.error_entries, 1);
    assert_eq!(stats.total_builds, 2);
    assert_eq!(stats.average_build_time, Duration::from_micros(7500));
}

#[test]
fn rebuild_set_separates_direct_and_dependent_templates() {
    let mut cache = BuildCache::new();
    let a = TemplateId::new("a.rs".to_string(), 1, 1);
    let b = TemplateId::new("b.rs".to_string(), 1, 1);
    let c = TemplateId::new("c.rs".to_string(), 1, 1);
    cache.record_build(a.clone(), "ha".to_string(), vec!["shared.rs".to_string()], Duration::from_millis(1));
    cache.record_build(b.clone(), "hb".to_string(), vec!["shared.rs".to_string(), "a.rs".to_string()], Duration::from_millis(1));
    cache.record_build(c.clone(), "hc".to_string(), vec![], Duration::from_millis(1));

    let set = cache.get_rebuild_set(&["a.rs".to_string(), "shared.rs".to_string()]);
    assert_eq!(set.direct_changes, vec![a.clone()]);
    assert_eq!(set.dependency_changes, vec![b.clone()]);
    assert_eq!(set.total_affected, 2);
    assert_eq!(cache.stats().incremental_rebuilds, 1);

    let none = cache.get_rebuild_set(&["unrelated.rs".to_string()]);
    assert_eq!(none.total_affected, 0);
    assert_eq!(cache.stats().incremental_rebuilds, 1);
}

#[test]
fn clearing_forgets_builds_but_not_counts() {
    let mut cache = BuildCache::new();
    let id = TemplateId::new("x.rs".to_string(), 2, 2);
    cache.record_build(id.clone(), "h".to_string(), vec!["d.rs".to_string()], Duration::from_millis(4));
    cache.clear();
    assert_eq!(cache.needs_rebuild(&id, "h"), RebuildDecision::Required(RebuildReason::NoCacheEntry));
    assert!(cache.get_affected_templates("d.rs").is_empty());
    assert_eq!(cache.stats().total_builds, 1);
}

#[test]
fn pruning_keeps_fresh_builds() {
    let mut cache = BuildCache::new();
    let id = TemplateId::new("x.rs".to_string(), 2, 2);
    cache.record_build(id.clone(), "h".to_string(), vec![], Duration::from_millis(4));
    cache.prune_old_entries(Duration::from_secs(3600));
    assert_eq!(cache.needs_rebuild(&id, "h"), RebuildDecision::NotRequired);
    cache.prune_old_entries(Duration::from_secs(0));
    assert_eq!(cache.needs_rebuild(&id, "h"), RebuildDecision::Required(RebuildReason::NoCacheEntry));
}

#[test]
fn test_cache_operations() {
    let mut cache = TemplateCache::new();
    let id = TemplateId::new("test.rs".to_string(), 10, 5);
    let update = update_for(&id, "<div>Test</div>");

    let (version, content_changed) = cache.insert(update.clone());
    assert_eq!(version, 1);
    assert!(content_changed);

    let retrieved = cache.get(&id);
    assert!(retrieved.is_some());
    assert_eq!(retrieved.unwrap().html, "<div>Test</div>");

    assert!(cache.contains(&id));

    let removed = cache.remove(&id);
    assert!(removed.is_some());
    assert!(!cache.contains(&id));
}

#[test]
fn test_cache_versioning() {
    let mut cache = TemplateCache::new();
    let id = TemplateId::new("test.rs".to_string(), 10, 5);

    let mut update = update_for(&id, "<div>v1</div>");
    let (v1, changed1) = cache.insert(update.clone());
    assert_eq!(v1, 1);
    assert!(changed1);

    let html = "<div>v2</div>".to_string();
    update.html = html.clone();
    update.content_hash = TemplateUpdate::compute_content_hash(&html, &update.dynamic_parts);
    let (v2, changed2) = cache.insert(update);
    assert_eq!(v2, 2);
    assert!(changed2);
}

#[test]
fn test_content_hash_change_detection() {
    let mut cache = TemplateCache::new();
    let id = TemplateId::new("test.rs".to_string(), 10, 5);
    let update = update_for(&id, "<div>Same content</div>");

    let (v1, changed1) = cache.insert(update.clone());
    assert_eq!(v1, 1);
    assert!(changed1);

    let (v2, changed2) = cache.insert(update);
    assert_eq!(v2, 2);
    assert!(!changed2);
}

#[test]
fn cache_statistics_and_listing() {
    let mut cache = TemplateCache::new();
    assert!(cache.is_empty());
    let a = TemplateId::new("a.rs".to_string(), 1, 1);
    let b = TemplateId::new("b.rs".to_string(), 2, 2);
    cache.insert(update_for(&a, "<p>a</p>"));
    cache.insert(update_for(&b, "<p>b</p>"));
    assert_eq!(cache.len(), 2);
    assert_eq!(cache.get_all_ids(), vec![a.clone(), b.clone()]);
    let stats = cache.stats();
    assert_eq!(stats.total_entries, 2);
    assert!(stats.oldest_entry.is_some());
    cache.cleanup();
    assert_eq!(cache.len(), 2);
    cache.clear();
    assert_eq!(cache.len(), 0);
    assert!(cache.stats().newest_entry.is_none());
}

#[test]
fn diff_integration_test_diff_aware_cache() {
    let mut cache = DiffAwareTemplateCache::new(100);

    let update1 = create_test_update("template1", "<div>Hello</div>");
    let update2 = create_test_update("template2", "<span>World</span>");

    let analysis = cache.insert_with_analysis(vec![update1.clone(), update2.clone()]).unwrap();

    assert_eq!(analysis.hot_reloadable.len(), 2);
    assert!(cache.get(&update1.id).is_some());
    assert!(cache.get(&update2.id).is_some());
}

#[test]
fn template_diff_tests_test_diff_aware_cache() {
    let mut cache = DiffAwareTemplateCache::new(100);

    let update1 = create_test_update("t1", "<div>Hello</div>");
    let update2 = create_test_update("t2", "<span>World</span>");

    let analysis = cache.insert_with_analysis(vec![update1.clone(), update2.clone()]).unwrap();

    assert_eq!(analysis.hot_reloadable.len(), 2);
    assert_eq!(analysis.require_rebuild.len(), 0);

    assert!(cache.get(&update1.id).is_some());
    assert!(cache.get(&update2.id).is_some());

    let (cache_stats, decision_stats) = cache.stats();
    assert_eq!(cache_stats.total_entries, 2);
    assert_eq!(decision_stats.cached_templates, 2);
}

#[test]
fn test_dom_differ_creation() {
    let differ = HotReloadDomDiffer::new();
    assert_eq!(differ.cached_diff_count(), 0);
    assert_eq!(differ.component_count(), 0);
}

#[test]
fn test_component_boundary_registration() {
    let mut differ = HotReloadDomDiffer::new();

    let boundary = ComponentBoundary {
        component_id: "test-component".to_string(),
        root_selector: "#test-component".to_string(),
        isolated: true,
        children: vec![],
        state_data: None,
    };

    differ.register_component_boundary(boundary);
    assert_eq!(differ.component_count(), 1);
    assert!(differ.has_component_boundary("test-component"));
}

#[test]
fn test_path_to_selector() {
    let differ = HotReloadDomDiffer::new();

    assert_eq!(differ.path_to_selector(&[], None), "body");
    assert_eq!(differ.path_to_selector(&[0], None), ":nth-child(1)");
    assert_eq!(differ.path_to_selector(&[0, 1, 2], None), ":nth-child(1) > :nth-child(2) > :nth-child(3)");
}

#[test]
fn selector_is_scoped_to_registered_component() {
    let mut differ = HotReloadDomDiffer::new();
    differ.register_component_boundary(ComponentBoundary {
        component_id: "counter".to_string(),
        root_selector: "#counter".to_string(),
        isolated: false,
        children: vec![],
        state_data: None,
    });
    assert_eq!(differ.path_to_selector(&[1], Some("counter")), "#counter :nth-child(2)");
    assert_eq!(differ.path_to_selector(&[1], Some("other")), ":nth-child(2)");
}

#[test]
fn test_cache_key_generation() {
    let differ = HotReloadDomDiffer::new();

    let key1 = differ.compute_cache_key("<div>a</div>", "<div>b</div>", None);
    let key2 = differ.compute_cache_key("<div>a</div>", "<div>b</div>", None);
    let key3 = differ.compute_cache_key("<div>a</div>", "<div>c</div>", None);

    assert_eq!(key1, key2);
    assert_ne!(key1, key3);
}

#[test]
fn test_template_id_hashing() {
    let id1 = TemplateId::new("test.rs".to_string(), 10, 5);
    let id2 = TemplateId::new("test.rs".to_string(), 10, 5);
    let id3 = TemplateId::new("other.rs".to_string(), 10, 5);

    assert_eq!(id1.hash(), id2.hash());
    assert_ne!(id1.hash(), id3.hash());
}

#[test]
fn test_enhanced_cache_operations() {
    let mut cache = EnhancedCache::new();
    let template_id = TemplateId::new("test.rs".to_string(), 10, 5);
    let update = update_for(&template_id, "<div>Test</div>");

    let result = cache.store_template(
        update.clone(),
        Duration::from_millis(100),
        "source_hash123".to_string(),
        vec!["dep.rs".to_string()],
    );

    assert_eq!(result.version, 1);
    assert!(result.content_changed);

    let retrieved = cache.get_template(&template_id);
    assert!(retrieved.is_some());

    let rebuild = cache.needs_rebuild(&template_id, "source_hash123");
    assert_eq!(rebuild, RebuildDecision::NotRequired);

    let stats = cache.get_statistics();
    assert_eq!(stats.template_cache.total_entries, 1);
}

#[test]
fn test_invalidation() {
    let mut cache = EnhancedCache::new();
    let template_id = TemplateId::new("test.rs".to_string(), 10, 5);
    let update = update_for(&template_id, "<div>Test</div>");

    cache.store_template(update, Duration::from_millis(100), "source_hash123".to_string(), vec![]);

    let result = cache.invalidate_templates(&[template_id.clone()]);
    assert_eq!(result.templates_removed, 1);

    assert!(cache.get_template(&template_id).is_none());
}

#[test]
fn enhanced_cache_counts_what_it_does() {
    let mut cache = EnhancedCache::new();
    let id = TemplateId::new("page.rs".to_string(), 4, 2);
    let update = update_for(&id, "<p>x</p>");
    let first = cache.store_template(update.clone(), Duration::from_millis(3), "s".to_string(), vec!["lib.rs".to_string()]);
    let second = cache.store_template(update, Duration::from_millis(5), "s".to_string(), vec!["lib.rs".to_string()]);
    assert!(first.content_changed);
    assert!(!second.content_changed);
    assert_eq!(second.version, 2);
    assert!(!second.cache_hit);
    let monitor = cache.performance_monitor();
    assert_eq!(monitor.get_counter("templates_stored"), 2);
    assert_eq!(monitor.get_counter("content_changes"), 1);
    assert_eq!(monitor.get_counter("no_change_updates"), 1);
    assert_eq!(monitor.timing_stats("template_compilation").unwrap().count, 2);

    let set = cache.get_affected_templates(&["lib.rs".to_string()]);
    assert_eq!(set.dependency_changes, vec![id.clone()]);
    assert_eq!(cache.performance_monitor().get_counter("affected_templates"), 1);

    let missing = TemplateId::new("gone.rs".to_string(), 1, 1);
    let result = cache.invalidate_templates(&[missing, id.clone()]);
    assert_eq!(result.templates_removed, 1);
    assert_eq!(result.dependents_removed, 0);

    cache.reset();
    assert_eq!(cache.performance_monitor().get_counter("cache_resets"), 1);
    assert_eq!(cache.performance_monitor().get_counter("templates_stored"), 0);
    assert!(cache.get_template(&id).is_none());
}

#[test]
fn server_answers_clients() {
    let mut cache = TemplateCache::new();
    let id = TemplateId::new("page.rs".to_string(), 3, 4);
    match connected_message() {
        HotReloadMessage::Connected { version } => assert_eq!(version, "1.0.0"),
        _ => panic!("Expected a greeting"),
    }
    assert!(matches!(client_reply(&HotReloadMessage::Ping, &mut cache), Some(HotReloadMessage::Pong)));
    assert!(client_reply(&HotReloadMessage::Pong, &mut cache).is_none());
    match client_reply(&HotReloadMessage::ReloadRequest { template_id: id.clone() }, &mut cache) {
        Some(HotReloadMessage::Error { message, code, suggestions }) => {
            assert_eq!(message, "Template not found in cache");
            assert_eq!(code, Some("TEMPLATE_NOT_FOUND".to_string()));
            assert_eq!(suggestions, Some(vec!["Try saving the file again".to_string()]));
        }
        _ => panic!("Expected an error"),
    }
    cache.insert(update_for(&id, "<p>hi</p>"));
    match client_reply(&HotReloadMessage::ReloadRequest { template_id: id.clone() }, &mut cache) {
        Some(HotReloadMessage::TemplateUpdated(u)) => assert_eq!(u.html, "<p>hi</p>"),
        _ => panic!("Expected the template"),
    }
    let stats = server_stats(2, &cache.stats(), 10, 5);
    assert_eq!(stats.cached_templates, 1);
    assert_eq!(stats.connected_clients, 2);
    assert_eq!(stats.watched_files, 0);
}

fn boundary(id: &str, root: &str) -> ComponentBoundary {
    ComponentBoundary {
        component_id: id.to_string(),
        root_selector: root.to_string(),
        isolated: true,
        children: vec![],
        state_data: None,
    }
}

fn target_of(op: &HotReloadPatchOp) -> String {
    HotReloadDomDiffer::new().get_operation_target(op)
}

#[test]
fn patch_operations_are_addressed_by_selector() {
    let mut differ = HotReloadDomDiffer::new();
    differ.register_component_boundary(boundary("counter", "#counter"));
    let op = PatchOp::UpdateText { path: vec![0, 2], new_text: "5".to_string() };
    match differ.convert_patch_operation(&op, Some("counter")) {
        Ok(HotReloadPatchOp::UpdateText { selector, text }) => {
            assert_eq!(selector, "#counter :nth-child(1) > :nth-child(3)");
            assert_eq!(text, "5");
        }
        _ => panic!("Expected a text update"),
    }
    let op = PatchOp::MoveChild { parent_path: vec![], from_index: 1, to_index: 0 };
    match differ.convert_patch_operation(&op, None) {
        Ok(HotReloadPatchOp::MoveChild { parent_selector, from_index, to_index }) => {
            assert_eq!(parent_selector, "body");
            assert_eq!((from_index, to_index), (1, 0));
        }
        _ => panic!("Expected a move"),
    }
}

#[test]
fn replacing_a_preserved_element_is_refused() {
    let differ = HotReloadDomDiffer::new();
    let mut options = shipwright::dom_diff::HotReloadDiffOptions::default();
    options.preserve_selectors.push(":nth-child(2)".to_string());
    let picky = HotReloadDomDiffer::with_options(options);
    let op = PatchOp::Replace { path: vec![1], new_html: "<p>x</p>".to_string() };
    match picky.convert_patch_operation(&op, None) {
        Err(HotReloadError::DomDiffingFailed { reason }) => assert_eq!(reason, "Element marked for preservation"),
        _ => panic!("Expected a refusal"),
    }
    assert!(differ.convert_patch_operation(&op, None).is_ok());
    let patch = Patch {
        ops: vec![op, PatchOp::RemoveChild { parent_path: vec![1], index: 0 }],
    };
    let converted = picky.convert_patch_to_hot_reload(&patch, None);
    assert_eq!(converted.operations.len(), 1);
    assert!(matches!(converted.operations[0], HotReloadPatchOp::RemoveChild { index: 0, .. }));
}

#[test]
fn optimizing_groups_edits_by_target_and_names_components() {
    let mut differ = HotReloadDomDiffer::new();
    differ.register_component_boundary(boundary("nav", "#nav"));
    let patch = HotReloadPatch {
        operations: vec![
            HotReloadPatchOp::UpdateText { selector: "#nav a".to_string(), text: "1".to_string() },
            HotReloadPatchOp::RemoveAttribute { selector: "#main".to_string(), name: "hidden".to_string() },
            HotReloadPatchOp::SetAttribute {
                selector: "#nav a".to_string(),
                name: "href".to_string(),
                value: "/".to_string(),
            },
            HotReloadPatchOp::RemoveChild { parent_selector: "#nav".to_string(), index: 2 },
        ],
    };
    let optimized = differ.optimize_patch(patch, None).unwrap();
    let targets: Vec<String> = optimized.patch.operations.iter().map(target_of).collect();
    assert_eq!(targets, vec!["#nav a", "#nav a", "#main", "#nav"]);
    assert!(matches!(optimized.patch.operations[0], HotReloadPatchOp::UpdateText { .. }));
    assert!(matches!(optimized.patch.operations[1], HotReloadPatchOp::SetAttribute { .. }));
    assert_eq!(optimized.component_boundaries, vec!["nav".to_string()]);
    assert!(!optimized.requires_full_refresh);
    assert_eq!(
        differ.extract_component_id_from_operation(&optimized.patch.operations[2]),
        None
    );
}

#[test]
fn more_than_a_hundred_edits_call_for_a_full_refresh() {
    let differ = HotReloadDomDiffer::new();
    let operations: Vec<HotReloadPatchOp> = (0..101)
        .map(|i| HotReloadPatchOp::RemoveChild { parent_selector: "body".to_string(), index: i })
        .collect();
    let optimized = differ.optimize_patch(HotReloadPatch { operations }, None).unwrap();
    assert!(optimized.requires_full_refresh);
    assert_eq!(optimized.patch.operations.len(), 101);
}

#[test]
fn generated_patches_are_kept_and_forgotten() {
    let mut differ = HotReloadDomDiffer::new();
    let patch = differ.generate_hot_reload_patch("<div>a</div>", "<div>b</div>", None).unwrap();
    assert!(patch.patch.operations.is_empty());
    assert!(!patch.requires_full_refresh);
    assert_eq!(differ.cached_diff_count(), 1);
    differ.generate_hot_reload_patch("<div>a</div>", "<div>b</div>", None).unwrap();
    assert_eq!(differ.cached_diff_count(), 1);
    differ.generate_hot_reload_patch("<div>a</div>", "<div>c</div>", None).unwrap();
    assert_eq!(differ.cached_diff_count(), 2);
    differ.clear_cache();
    assert_eq!(differ.cached_diff_count(), 0);
}

#[test]
fn the_diff_cache_drops_its_oldest_beyond_a_hundred() {
    let mut differ = HotReloadDomDiffer::new();
    for i in 0..101 {
        differ.generate_hot_reload_patch("<p></p>", &format!("<p>{}</p>", i), None).unwrap();
    }
    assert_eq!(differ.cached_diff_count(), 81);
}

#[test]
fn try_record_build_records_only_what_fits() {
    let mut cache = BuildCache::new();
    let id = TemplateId::new("t.rs".to_string(), 1, 1);
    assert!(cache.fits_build_time(&Duration::MAX));
    assert!(cache.try_record_build(id.clone(), "h".to_string(), vec![], Duration::from_millis(5)));
    assert_eq!(cache.needs_rebuild(&id, "h"), RebuildDecision::NotRequired);
    assert!(!cache.fits_build_time(&Duration::MAX));
    assert!(!cache.try_record_build(id.clone(), "h2".to_string(), vec![], Duration::MAX));
    assert!(!cache.try_record_error(id.clone(), "late".to_string(), Duration::MAX));
    assert_eq!(cache.stats().total_builds, 1);
    assert!(cache.try_record_error(id.clone(), "boom".to_string(), Duration::from_millis(1)));
    assert_eq!(cache.stats().total_builds, 2);
    assert_eq!(cache.stats().error_entries, 1);
}

#[test]
fn try_store_template_stores_only_what_fits() {
    let mut cache = EnhancedCache::new();
    let id = TemplateId::new("test.rs".to_string(), 3, 4);
    let stored = cache.try_store_template(update_for(&id, "<p>a</p>"), Duration::from_millis(2), "s".to_string(), vec![]);
    let result = stored.unwrap();
    assert_eq!(result.version, 1);
    assert!(result.content_changed);
    assert!(!result.cache_hit);
    let refused = cache.try_store_template(update_for(&id, "<p>b</p>"), Duration::MAX, "s".to_string(), vec![]);
    assert!(refused.is_none());
    assert_eq!(cache.get_statistics().template_cache.total_entries, 1);
    assert_eq!(cache.get_statistics().build_cache.total_builds, 1);
}
