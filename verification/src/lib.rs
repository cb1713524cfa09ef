//! Verified core of the Skirk desktop client: profile and settings rules,
//! one-line config extraction, listener and route computation, the VPN
//! tunnel configuration document and the connection state machine.
pub mod text;
pub mod inline_config;
pub mod performance;
pub mod ip;
pub mod ipv6;
pub mod net;
pub mod profile;
pub mod config_json;
pub mod platform;
pub mod paths;
pub mod sidecar;
pub mod json;
pub mod tunnel;

pub mod runtime;
