//! Broker metrics collection.

use vstd::prelude::*;

verus! {

/// Broker metrics for monitoring and management UI.
#[derive(Debug, Clone, Copy, PartialEq, Eq, Structural)]
pub struct BrokerMetrics {
    /// Total bytes received.
    pub bytes_received: u64,
    /// Total bytes sent.
    pub bytes_sent: u64,
    /// Total messages published.
    pub messages_published: u64,
    /// Total messages received (from clients).
    pub messages_received: u64,
    /// Total subscriptions active.
    pub subscriptions_active: u64,
    /// Total clients connected currently.
    pub clients_connected: u64,
    /// Total clients connected (cumulative).
    pub clients_total: u64,
    /// Total packets received.
    pub packets_received: u64,
    /// Total packets sent.
    pub packets_sent: u64,
    /// Number of rejected connections.
    pub rejected_connections: u64,
    /// Uptime seconds.
    pub uptime_seconds: u64,
}

impl BrokerMetrics {
    /// All counters at zero.
    pub open spec fn new_spec() -> BrokerMetrics {
        BrokerMetrics {
            bytes_received: 0,
            bytes_sent: 0,
            messages_published: 0,
            messages_received: 0,
            subscriptions_active: 0,
            clients_connected: 0,
            clients_total: 0,
            packets_received: 0,
            packets_sent: 0,
            rejected_connections: 0,
            uptime_seconds: 0,
        }
    }

    /// All counters at zero.
    pub fn new() -> (m: Self)
        ensures
            m.bytes_received == 0,
            m.bytes_sent == 0,
            m.messages_published == 0,
            m.messages_received == 0,
            m.subscriptions_active == 0,
            m.clients_connected == 0,
            m.clients_total == 0,
            m.packets_received == 0,
            m.packets_sent == 0,
            m.rejected_connections == 0,
            m.uptime_seconds == 0,
    {
        BrokerMetrics { bytes_received: 0, bytes_sent: 0, messages_published: 0, messages_received: 0, subscriptions_active: 0, clients_connected: 0, clients_total: 0, packets_received: 0, packets_sent: 0, rejected_connections: 0, uptime_seconds: 0 }
    }

    /// Count `n` more bytes received.
    pub fn increment_bytes_received(&mut self, n: u64)
        requires
            old(self).bytes_received + n <= u64::MAX,
        ensures
            *final(self) == (BrokerMetrics { bytes_received: (old(self).bytes_received + n) as u64, ..*old(self) }),
    {
        self.bytes_received = self.bytes_received + n;
    }
    /// Count `n` more bytes sent.
    pub fn increment_bytes_sent(&mut self, n: u64)
        requires
            old(self).bytes_sent + n <= u64::MAX,
        ensures
            *final(self) == (BrokerMetrics { bytes_sent: (old(self).bytes_sent + n) as u64, ..*old(self) }),
    {
        self.bytes_sent = self.bytes_sent + n;
    }
    /// Count one more message published.
    pub fn increment_messages_published(&mut self)
        requires
            old(self).messages_published + 1 <= u64::MAX,
        ensures
            *final(self) == (BrokerMetrics { messages_published: (old(self).messages_published + 1) as u64, ..*old(self) }),
    {
        self.messages_published = self.messages_published + 1;
    }
    /// Count one more message received.
    pub fn increment_messages_received(&mut self)
        requires
            old(self).messages_received + 1 <= u64::MAX,
        ensures
            *final(self) == (BrokerMetrics { messages_received: (old(self).messages_received + 1) as u64, ..*old(self) }),
    {
        self.messages_received = self.messages_received + 1;
    }
    /// Count one more connected client, now and in total.
    pub fn increment_clients_connected(&mut self)
        requires
            old(self).clients_connected + 1 <= u64::MAX,
            old(self).clients_total + 1 <= u64::MAX,
        ensures
            *final(self) == (BrokerMetrics { clients_connected: (old(self).clients_connected + 1) as u64, clients_total: (old(self).clients_total + 1) as u64, ..*old(self) }),
    {
        self.clients_connected = self.clients_connected + 1;
        self.clients_total = self.clients_total + 1;
    }
    /// Count one client fewer connected (never below zero).
    pub fn decrement_clients_connected(&mut self)
        ensures
            *final(self) == (BrokerMetrics {
                clients_connected: if old(self).clients_connected > 0 {
                    (old(self).clients_connected - 1) as u64
                } else {
                    0
                },
                ..*old(self)
            }),
    {
        self.clients_connected = self.clients_connected.saturating_sub(1);
    }
    /// Count one more packet received.
    pub fn increment_packets_received(&mut self)
        requires
            old(self).packets_received + 1 <= u64::MAX,
        ensures
            *final(self) == (BrokerMetrics { packets_received: (old(self).packets_received + 1) as u64, ..*old(self) }),
    {
        self.packets_received = self.packets_received + 1;
    }
    /// Count one more packet sent.
    pub fn increment_packets_sent(&mut self)
        requires
            old(self).packets_sent + 1 <= u64::MAX,
        ensures
            *final(self) == (BrokerMetrics { packets_sent: (old(self).packets_sent + 1) as u64, ..*old(self) }),
    {
        self.packets_sent = self.packets_sent + 1;
    }
    /// Count one more rejected connection.
    pub fn increment_rejected_connections(&mut self)
        requires
            old(self).rejected_connections + 1 <= u64::MAX,
        ensures
            *final(self) == (BrokerMetrics { rejected_connections: (old(self).rejected_connections + 1) as u64, ..*old(self) }),
    {
        self.rejected_connections = self.rejected_connections + 1;
    }

    /// Snapshot of current metrics.
    pub fn snapshot(&self) -> (s: MetricsSnapshot)
        ensures
            s.bytes_received == self.bytes_received,
            s.bytes_sent == self.bytes_sent,
            s.messages_published == self.messages_published,
            s.messages_received == self.messages_received,
            s.subscriptions_active == self.subscriptions_active,
            s.clients_connected == self.clients_connected,
            s.clients_total == self.clients_total,
            s.packets_received == self.packets_received,
            s.packets_sent == self.packets_sent,
            s.rejected_connections == self.rejected_connections,
            s.uptime_seconds == self.uptime_seconds,
    {
        MetricsSnapshot { bytes_received: self.bytes_received, bytes_sent: self.bytes_sent, messages_published: self.messages_published, messages_received: self.messages_received, subscriptions_active: self.subscriptions_active, clients_connected: self.clients_connected, clients_total: self.clients_total, packets_received: self.packets_received, packets_sent: self.packets_sent, rejected_connections: self.rejected_connections, uptime_seconds: self.uptime_seconds }
    }
}

impl Default for BrokerMetrics {
    fn default() -> (m: Self)
        ensures
            m.bytes_received == 0,
            m.bytes_sent == 0,
            m.messages_published == 0,
            m.messages_received == 0,
            m.subscriptions_active == 0,
            m.clients_connected == 0,
            m.clients_total == 0,
            m.packets_received == 0,
            m.packets_sent == 0,
            m.rejected_connections == 0,
            m.uptime_seconds == 0,
    {
        BrokerMetrics::new()
    }
}

/// A point-in-time snapshot of broker metrics.
#[derive(Debug, Clone, Copy, PartialEq, Eq, Structural)]
pub struct MetricsSnapshot {
    /// Total bytes received.
    pub bytes_received: u64,
    /// Total bytes sent.
    pub bytes_sent: u64,
    /// Total messages published.
    pub messages_published: u64,
    /// Total messages received (from clients).
    pub messages_received: u64,
    /// Total subscriptions active.
    pub subscriptions_active: u64,
    /// Total clients connected currently.
    pub clients_connected: u64,
    /// Total clients connected (cumulative).
    pub clients_total: u64,
    /// Total packets received.
    pub packets_received: u64,
    /// Total packets sent.
    pub packets_sent: u64,
    /// Number of rejected connections.
    pub rejected_connections: u64,
    /// Uptime seconds.
    pub uptime_seconds: u64,
}

} // verus!
