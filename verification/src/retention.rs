//! Retained message management.

use vstd::prelude::*;
use std::time::Instant;
use crate::common::QoS;
use crate::session::now;

verus! {

/// A retained message stored for a topic.
#[derive(Debug)]
pub struct RetainedMessage {
    /// Topic name.
    pub topic: String,
    /// Message payload.
    pub payload: Vec<u8>,
    /// QoS level of the published message.
    pub qos: QoS,
    /// Timestamp when the message was retained.
    pub timestamp: Instant,
}

impl RetainedMessage {
    /// A message retained now.
    pub fn new(topic: String, payload: Vec<u8>, qos: QoS) -> (m: Self)
        ensures
            m.topic == topic,
            m.payload == payload,
            m.qos == qos,
    {
        RetainedMessage { topic, payload, qos, timestamp: now() }
    }
}

} // verus!
