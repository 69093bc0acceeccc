//! A reverse proxy whose requests and responses pass WebAssembly plugins.
//!
//! `proxy` says what becomes of a request, `plugin` how plugins are loaded and run,
//! `sandbox` what is asked of the interpreter, `config` and `hot_reload` where
//! routes and plugins come from, `server` when connections are taken. `guest` and
//! the modules named after plugins are what the example plugins are made of.
//! The modules named after laws state what holds across functions: `laws` and
//! `shared_laws` of the course of requests, `step_laws` of each step, `call_laws` and
//! `file_laws` of plugins, `header_laws`, `text_laws`, `json_laws` and `render_laws`
//! of what is read and written, `guest_laws` and `plugin_laws` of the example plugins,
//! `lifecycle_laws` of reloads and of the end.
pub mod admin_blocker;
pub mod admin_guard;
pub mod call_laws;
pub mod config;
pub mod error_masker;
pub mod file_laws;
pub mod guest;
pub mod guest_laws;
pub mod header_laws;
pub mod headers;
pub mod hot_reload;
pub mod json;
pub mod json_laws;
pub mod laws;
pub mod lifecycle_laws;
pub mod metrics;
pub mod plugin;
pub mod plugin_laws;
pub mod proxy;
pub mod render_laws;
pub mod sandbox;
pub mod server;
pub mod shared_laws;
pub mod step_laws;
pub mod string_map;
pub mod text;
pub mod text_laws;
