//! Hot reload support for Shipwright LiveView templates, and the pieces of the
//! Shipwright command line tool that decide rather than perform.

pub mod clock;
pub mod text;
pub mod compression;
pub mod keyed;
pub mod protocol;
pub mod template_diff;
pub mod diff_integration;
pub mod performance_monitor;
pub mod config;
pub mod paths;
pub mod watcher;
pub mod commands;
pub mod runtime;
pub mod error_recovery;
pub mod logging;
pub mod state_serialization;
pub mod parser;
pub mod dom_diff;
pub mod template_cache;
pub mod enhanced_watcher;
pub mod liveview_integration;
pub mod integration;
pub mod enhanced_cache;
pub mod build_cache;
pub mod benchmarks;
pub mod text_order;
pub mod build_command;
pub mod workspace;
pub mod server;
