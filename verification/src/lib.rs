//! ghr-stats: the rules behind a monitor for a fleet of self-hosted GitHub runners.

pub mod collectors;
pub mod config;
pub mod error;
pub mod github;
pub mod hooks;
pub mod ipc;
pub mod json;
pub mod metrics;
pub mod models;
pub mod path;
pub mod paths;
pub mod privileged;
pub mod scan;
pub mod serve;
pub mod server;
pub mod setup;
pub mod store;
pub mod systemd;
pub mod text;
pub mod util;
