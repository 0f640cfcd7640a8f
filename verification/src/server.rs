//! What the hot reload server says: its greeting, its answers to clients'
//! messages, and its statistics. Sockets and the HTTP routes are left to the
//! caller.

use vstd::prelude::*;

use crate::protocol::{blake3_hex_digest, HotReloadMessage, MessageModel, ServerStats, TemplateUpdate};
use crate::template_cache::{CacheStats, TemplateCache};
use crate::keyed::value_of;

verus! {

/// The protocol version the server speaks.
pub open spec fn protocol_version() -> Seq<char> {
    "1.0.0"@
}

/// The first message a client receives.
pub fn connected_message() -> (r: HotReloadMessage)
    ensures
        r@ == (MessageModel::Connected { version: protocol_version() }),
{
    HotReloadMessage::Connected { version: "1.0.0".to_owned() }
}

/// The error sent when a requested template is not cached.
pub open spec fn not_found_error() -> MessageModel {
    MessageModel::Error {
        message: "Template not found in cache"@,
        code: Some("TEMPLATE_NOT_FOUND"@),
        suggestions: Some(seq!["Try saving the file again"@]),
    }
}

/// The server's answer to a client's message: a requested template from the
/// cache, or an error where it is not cached; a pong for a ping; nothing for
/// anything else.
pub fn client_reply(msg: &HotReloadMessage, cache: &mut TemplateCache) -> (r: Option<HotReloadMessage>)
    requires
        old(cache).wf(),
    ensures
        final(cache).wf(),
        final(cache).entries() == old(cache).entries(),
        match msg@ {
            MessageModel::ReloadRequest { template_id } => match value_of(
                old(cache).entries(),
                blake3_hex_digest(template_id.id_bytes()),
            ) {
                Some(e) => r matches Some(m) && m@ == MessageModel::TemplateUpdated(e.0),
                None => r matches Some(m) && m@ == not_found_error(),
            },
            MessageModel::Ping => r matches Some(m) && m@ == MessageModel::Pong,
            _ => r is None,
        },
{
    match msg {
        HotReloadMessage::ReloadRequest { template_id } => match cache.get(template_id) {
            Some(update) => Some(HotReloadMessage::TemplateUpdated(update)),
            None => {
                let mut suggestions: Vec<String> = Vec::new();
                suggestions.push("Try saving the file again".to_owned());
                assert(suggestions@.map_values(|t: String| t@) =~= seq!["Try saving the file again"@]);
                let m = HotReloadMessage::Error {
                    message: "Template not found in cache".to_owned(),
                    code: Some("TEMPLATE_NOT_FOUND".to_owned()),
                    suggestions: Some(suggestions),
                };
                assert(m@ == not_found_error());
                Some(m)
            },
        },
        HotReloadMessage::Ping => Some(HotReloadMessage::Pong),
        _ => None,
    }
}

/// The statistics the server reports: the clients, the cached templates,
/// no watched files counted, the uptime and the updates sent.
pub fn server_stats(connected_clients: usize, cache: &CacheStats, uptime_seconds: u64, updates_sent: u64) -> (r: ServerStats)
    ensures
        r.connected_clients == connected_clients,
        r.cached_templates == cache.total_entries,
        r.watched_files == 0,
        r.uptime_seconds == uptime_seconds,
        r.updates_sent == updates_sent,
{
    ServerStats {
        connected_clients,
        cached_templates: cache.total_entries,
        watched_files: 0,
        uptime_seconds,
        updates_sent,
    }
}

/// The message that announces one changed template.
pub fn update_message(update: TemplateUpdate) -> (r: HotReloadMessage)
    ensures
        r@ == MessageModel::TemplateUpdated(update@),
{
    HotReloadMessage::TemplateUpdated(update)
}

} // verus!
