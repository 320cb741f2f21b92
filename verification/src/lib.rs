//! Orchestration logic for a single-host LLM server: configuration rules, API
//! keys, port and GPU placement, instance scheduling, request routing and
//! stream forwarding, all as verified functions over plain values.
#![allow(unused_imports)]

use vstd::prelude::*;

pub mod acquire;
pub mod apikeys;
pub mod autoscale;
pub mod backend;
pub mod config;
pub mod debug_log;
pub mod exchange;
pub mod fingerprint;
pub mod forwarding;
pub mod gpu;
pub mod handlers;
pub mod instance;
pub mod json;
pub mod keepalive;
pub mod laws;
pub mod metrics;
pub mod multipart;
pub mod names;
pub mod numbers;
pub mod nvidia;
pub mod placement;
pub mod port_alloc;
pub mod reconcile;
pub mod reload;
pub mod scheduler;
pub mod server;
pub mod settings;
pub mod spawning;
pub mod sse;
pub mod stub;
pub mod text;
pub mod types;
pub mod unload;
pub mod watcher;
