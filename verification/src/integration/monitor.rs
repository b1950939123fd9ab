//! Monitoring of a server.

use crate::network::permits;
use crate::network::server::{ServerConfig, ServerView, TcpServer};
use vstd::prelude::*;
use vstd::string::*;

verus! {

/// What is counted of a server. The counters wrap round at the end of their range.
#[derive(Debug, Clone, Copy)]
pub struct ServerMetrics {
    pub connections_total: u64,
    pub active_connections: i64,
    pub messages_received_total: u64,
    pub messages_sent_total: u64,
    pub bytes_received_total: u64,
    pub bytes_sent_total: u64,
}

impl ServerMetrics {
    /// Nothing counted yet.
    pub open spec fn zero() -> ServerMetrics {
        ServerMetrics {
            connections_total: 0,
            active_connections: 0,
            messages_received_total: 0,
            messages_sent_total: 0,
            bytes_received_total: 0,
            bytes_sent_total: 0,
        }
    }

    /// After a session connected.
    pub open spec fn connected(self) -> ServerMetrics {
        ServerMetrics {
            connections_total: self.connections_total.wrapping_add(1),
            active_connections: self.active_connections.wrapping_add(1),
            ..self
        }
    }

    /// After a message of some size was received.
    pub open spec fn received(self, size: usize) -> ServerMetrics {
        ServerMetrics {
            messages_received_total: self.messages_received_total.wrapping_add(1),
            bytes_received_total: self.bytes_received_total.wrapping_add(size as u64),
            ..self
        }
    }

    /// After a message of some size was sent.
    pub open spec fn sent(self, size: usize) -> ServerMetrics {
        ServerMetrics {
            messages_sent_total: self.messages_sent_total.wrapping_add(1),
            bytes_sent_total: self.bytes_sent_total.wrapping_add(size as u64),
            ..self
        }
    }

    /// After a session disconnected.
    pub open spec fn disconnected(self) -> ServerMetrics {
        ServerMetrics { active_connections: self.active_connections.wrapping_sub(1), ..self }
    }

    /// The name under which each metric is reported, with its value.
    pub fn report(&self) -> (rows: Vec<(String, i128)>)
        ensures
            rows@.len() == 6,
            rows@[0].0@ == "network_connections_total"@ && rows@[0].1 == self.connections_total,
            rows@[1].0@ == "network_active_connections"@ && rows@[1].1 == self.active_connections,
            rows@[2].0@ == "network_messages_received_total"@ && rows@[2].1
                == self.messages_received_total,
            rows@[3].0@ == "network_messages_sent_total"@ && rows@[3].1 == self.messages_sent_total,
            rows@[4].0@ == "network_bytes_received_total"@ && rows@[4].1
                == self.bytes_received_total,
            rows@[5].0@ == "network_bytes_sent_total"@ && rows@[5].1 == self.bytes_sent_total,
    {
        let mut rows: Vec<(String, i128)> = Vec::new();
        rows.push(("network_connections_total".to_owned(), self.connections_total as i128));
        rows.push(("network_active_connections".to_owned(), self.active_connections as i128));
        rows.push(
            ("network_messages_received_total".to_owned(), self.messages_received_total as i128),
        );
        rows.push(("network_messages_sent_total".to_owned(), self.messages_sent_total as i128));
        rows.push(("network_bytes_received_total".to_owned(), self.bytes_received_total as i128));
        rows.push(("network_bytes_sent_total".to_owned(), self.bytes_sent_total as i128));
        rows
    }
}

/// What a [`MonitoredServer`] holds.
pub struct MonitoredView {
    pub server: ServerView,
    pub metrics: ServerMetrics,
}

/// Monitored TCP server with metrics.
pub struct MonitoredServer {
    server: TcpServer,
    metrics: ServerMetrics,
}

impl View for MonitoredServer {
    type V = MonitoredView;

    closed spec fn view(&self) -> MonitoredView {
        MonitoredView { server: self.server@, metrics: self.metrics }
    }
}

impl MonitoredServer {
    /// The server that is monitored.
    pub closed spec fn inner(&self) -> TcpServer {
        self.server
    }

    /// Creates a new monitored server.
    pub fn new(config: ServerConfig) -> (s: MonitoredServer)
        requires
            config.max_connections <= permits::most_permits(),
        ensures
            s.inner().wf(),
            s@ == (MonitoredView {
                server: ServerView::fresh(config),
                metrics: ServerMetrics::zero(),
            }),
    {
        MonitoredServer {
            server: TcpServer::with_config(config),
            metrics: ServerMetrics {
                connections_total: 0,
                active_connections: 0,
                messages_received_total: 0,
                messages_sent_total: 0,
                bytes_received_total: 0,
                bytes_sent_total: 0,
            },
        }
    }

    /// The server that is monitored, to be started, stopped and driven.
    pub fn server_mut(&mut self) -> (s: &mut TcpServer)
        ensures
            *s == old(self).inner(),
            s@ == old(self)@.server,
            final(self).inner() == *final(s),
            final(self)@ == (MonitoredView { server: final(s)@, ..old(self)@ }),
    {
        &mut self.server
    }

    /// Whether the server is running.
    pub fn is_running(&self) -> (b: bool)
        ensures
            b == self@.server.running,
    {
        self.server.is_running()
    }

    /// The number of active connections.
    pub fn connection_count(&self) -> (n: u64)
        ensures
            n == self@.server.connections.len(),
    {
        self.server.connection_count()
    }

    /// What was counted.
    pub fn metrics(&self) -> (m: ServerMetrics)
        ensures
            m == self@.metrics,
    {
        self.metrics
    }

    /// Records that a session connected.
    pub fn record_connected(&mut self)
        ensures
            final(self).inner() == old(self).inner(),
            final(self)@ == (MonitoredView { metrics: old(self)@.metrics.connected(), ..old(self)@ }),
    {
        self.metrics.connections_total = self.metrics.connections_total.wrapping_add(1);
        self.metrics.active_connections = self.metrics.active_connections.wrapping_add(1);
    }

    /// Records a received message.
    pub fn record_message_received(&mut self, size: usize)
        ensures
            final(self).inner() == old(self).inner(),
            final(self)@ == (MonitoredView {
                metrics: old(self)@.metrics.received(size),
                ..old(self)@
            }),
    {
        self.metrics.messages_received_total = self.metrics.messages_received_total.wrapping_add(1);
        self.metrics.bytes_received_total =
        self.metrics.bytes_received_total.wrapping_add(size as u64);
    }

    /// Records a sent message.
    pub fn record_message_sent(&mut self, size: usize)
        ensures
            final(self).inner() == old(self).inner(),
            final(self)@ == (MonitoredView {
                metrics: old(self)@.metrics.sent(size),
                ..old(self)@
            }),
    {
        self.metrics.messages_sent_total = self.metrics.messages_sent_total.wrapping_add(1);
        self.metrics.bytes_sent_total = self.metrics.bytes_sent_total.wrapping_add(size as u64);
    }

    /// Records that a session disconnected.
    pub fn record_disconnected(&mut self)
        ensures
            final(self).inner() == old(self).inner(),
            final(self)@ == (MonitoredView {
                metrics: old(self)@.metrics.disconnected(),
                ..old(self)@
            }),
    {
        self.metrics.active_connections = self.metrics.active_connections.wrapping_sub(1);
    }
}

/// A session that connects and disconnects counts once in all, and not as active any
/// more.
pub proof fn sessions_balance(m: ServerMetrics)
    ensures
        m.connected().disconnected().active_connections == m.active_connections,
        m.connected().disconnected().connections_total == m.connections_total.wrapping_add(1),
{
}

/// Each event counts where it belongs, and nowhere else: a session as one connection, a
/// message as one message of its size, received or sent.
pub proof fn events_are_counted(m: ServerMetrics, size: usize)
    requires
        m.connections_total < u64::MAX,
        m.messages_received_total < u64::MAX,
        m.messages_sent_total < u64::MAX,
        m.bytes_received_total + size <= u64::MAX,
        m.bytes_sent_total + size <= u64::MAX,
        i64::MIN < m.active_connections < i64::MAX,
    ensures
        m.connected() == (ServerMetrics {
            connections_total: (m.connections_total + 1) as u64,
            active_connections: (m.active_connections + 1) as i64,
            ..m
        }),
        m.disconnected() == (ServerMetrics {
            active_connections: (m.active_connections - 1) as i64,
            ..m
        }),
        m.received(size) == (ServerMetrics {
            messages_received_total: (m.messages_received_total + 1) as u64,
            bytes_received_total: (m.bytes_received_total + size) as u64,
            ..m
        }),
        m.sent(size) == (ServerMetrics {
            messages_sent_total: (m.messages_sent_total + 1) as u64,
            bytes_sent_total: (m.bytes_sent_total + size) as u64,
            ..m
        }),
{
}

/// A server that was just made has counted nothing.
pub proof fn nothing_is_counted_at_first()
    ensures
        ServerMetrics::zero().connections_total == 0,
        ServerMetrics::zero().active_connections == 0,
        ServerMetrics::zero().messages_received_total == 0,
        ServerMetrics::zero().messages_sent_total == 0,
        ServerMetrics::zero().bytes_received_total == 0,
        ServerMetrics::zero().bytes_sent_total == 0,
{
}

} // verus!
