//! Will message management.

use vstd::prelude::*;
use std::time::Instant;
use crate::common::QoS;

verus! {

/// A will message that should be published when a client disconnects unexpectedly.
#[derive(Debug)]
pub struct WillMessage {
    /// Client that set this will.
    pub client_id: String,
    /// Will topic.
    pub topic: String,
    /// Will payload.
    pub payload: Vec<u8>,
    /// Will QoS.
    pub qos: QoS,
    /// Will retain flag.
    pub retain: bool,
    /// Delay interval (MQTT 5.0).
    pub delay_interval: u32,
    /// Timestamp when the will was set.
    pub created_at: Instant,
}

} // verus!
