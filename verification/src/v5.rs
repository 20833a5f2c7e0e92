//! MQTT 5.0 packets, their properties, and their codec.

pub mod properties;
pub mod types;
pub mod codec;
