//! Settings of the integrated hot reload system.

use vstd::prelude::*;

use crate::dom_diff::HotReloadError;
use crate::keyed::has_key;
use crate::liveview_integration::{ActiveLiveView, HotReloadEvent, LiveViewHotReloadConfig, LiveViewHotReloadManager};
use crate::text::texts;

verus! {

/// Configuration for the integration system
pub struct HotReloadIntegrationConfig {
    /// Server host
    pub server_host: String,
    /// Server port
    pub server_port: u16,
    /// Watch directory
    pub watch_directory: String,
    /// File patterns to watch
    pub watch_patterns: Vec<String>,
    /// LiveView hot reload config
    pub liveview_config: LiveViewHotReloadConfig,
    /// Whether to enable debug mode
    pub debug_mode: bool,
}

impl HotReloadIntegrationConfig {
    /// The default configuration: the server on `localhost:3001` watching
    /// Rust files under `src`; debug mode in builds with debug assertions,
    /// which `debug_build` tells.
    pub fn defaults(debug_build: bool) -> (r: Self)
        ensures
            r.server_host@ == "localhost"@,
            r.server_port == 3001,
            r.watch_directory@ == "src"@,
            texts(r.watch_patterns@) == seq!["**/*.rs"@],
            r.liveview_config.preserve_state,
            r.liveview_config.state_preservation_timeout == 1000,
            r.liveview_config.debug_mode == debug_build,
            r.debug_mode == debug_build,
    {
        let mut watch_patterns: Vec<String> = Vec::new();
        watch_patterns.push("**/*.rs".to_owned());
        assert(texts(watch_patterns@) =~= seq!["**/*.rs"@]);
        HotReloadIntegrationConfig {
            server_host: "localhost".to_owned(),
            server_port: 3001,
            watch_directory: "src".to_owned(),
            watch_patterns,
            liveview_config: LiveViewHotReloadConfig::defaults(debug_build),
            debug_mode: debug_build,
        }
    }
}


/// What the event loop does with an event: a successful state report from a
/// client is kept for its view; every other event leaves the views as they
/// are.
pub fn process_event(manager: &mut LiveViewHotReloadManager, event: HotReloadEvent) -> (r: Result<(), HotReloadError>)
    requires
        old(manager).wf(),
    ensures
        final(manager).wf(),
        final(manager).roots() == old(manager).roots(),
        match event {
            HotReloadEvent::StatePreservationResponse { instance_id, state, success } => if success {
                &&& (r is Ok <==> has_key(old(manager).views(), instance_id@))
                &&& final(manager).views().len() == old(manager).views().len()
                &&& forall|i: int|
                    0 <= i < old(manager).views().len() ==> {
                        let (k, v) = #[trigger] old(manager).views()[i];
                        let (k2, w) = final(manager).views()[i];
                        &&& k2 == k
                        &&& if k == instance_id@ {
                            w == ActiveLiveView { preserved_state: Some(state), ..v }
                        } else {
                            w == v
                        }
                    }
            } else {
                r is Ok && final(manager).views() == old(manager).views()
            },
            _ => r is Ok && final(manager).views() == old(manager).views(),
        },
{
    match event {
        HotReloadEvent::StatePreservationResponse { instance_id, state, success } => {
            if success {
                manager.handle_state_preservation_response(instance_id.as_str(), state)
            } else {
                Ok(())
            }
        },
        _ => Ok(()),
    }
}

/// Statistics about the integration system; the server side is not counted.
pub struct IntegrationStatistics {
    pub server_connected_clients: usize,
    pub total_file_changes: usize,
    pub total_template_updates: usize,
    pub active_liveviews: usize,
    pub successful_updates: usize,
    pub failed_updates: usize,
}

/// The statistics of the integration: the manager's views and updates.
pub fn integration_statistics(manager: &LiveViewHotReloadManager) -> (r: IntegrationStatistics)
    ensures
        r.server_connected_clients == 0,
        r.total_file_changes == 0,
        r.total_template_updates == 0,
        r.active_liveviews == manager.views().len(),
        r.successful_updates == 0,
        r.failed_updates == 0,
{
    let stats = manager.get_statistics();
    IntegrationStatistics {
        server_connected_clients: 0,
        total_file_changes: 0,
        total_template_updates: 0,
        active_liveviews: stats.active_views,
        successful_updates: stats.successful_updates,
        failed_updates: stats.failed_updates,
    }
}

} // verus!
