//! MQTT 3.1.1 packets and their codec.

pub mod types;
pub mod codec;
