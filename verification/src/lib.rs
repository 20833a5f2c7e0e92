//! MQTT protocol core and broker engine: packet codecs for MQTT 3.1.1 and 5.0,
//! topic matching, the subscription tree, authentication and ACL rules, and
//! the broker's per-packet decisions.

pub mod text;
pub mod common;
pub mod subscription;
pub mod v3;
pub mod v5;
pub mod codec;
pub mod config;
pub mod auth;
pub mod metrics;
pub mod session;
pub mod retention;
pub mod will;
pub mod persistence;
pub mod broker;
pub mod server;
pub mod client;
pub mod web;
