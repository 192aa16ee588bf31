//! Metrics collection for WebSocket connections
//!
//! Counters of connections, messages, bytes and errors, the last 1000
//! message latencies (in microseconds) with their percentiles, and the time
//! of the last activity (nanoseconds since the collector was created).
use vstd::prelude::*;
use std::time::{Duration, Instant};
use vstd::relations::{sorted_by, total_ordering};
use crate::time::{duration_nanos, nanos_since};
use crate::text::str_eq;

verus! {

/// The number of latencies a collector keeps.
pub const LATENCY_WINDOW: usize = 1000;

/// `Duration::as_micros` is the number of whole microseconds of the duration.
pub assume_specification[ core::time::Duration::as_micros ](d: &Duration) -> (n: u128)
    ensures
        n == duration_nanos(*d) / 1000,
;

/// The counters and measurements of a collector
#[derive(Debug)]
pub struct ConnectionMetrics {
    /// Connections open
    pub active_connections: u64,
    /// Connections opened
    pub total_connections: u64,
    /// Connections closed
    pub disconnections: u64,
    /// Connection errors
    pub connection_errors: u64,
    /// Reconnections
    pub reconnections: u64,
    /// Messages sent
    pub messages_sent: u64,
    /// Messages received
    pub messages_received: u64,
    /// Bytes sent
    pub bytes_sent: u64,
    /// Bytes received
    pub bytes_received: u64,
    /// Send errors
    pub send_errors: u64,
    /// Receive errors
    pub receive_errors: u64,
    /// The last latencies, in microseconds, oldest first
    pub latencies: Vec<u64>,
    /// When the last activity happened (nanoseconds since the collector was created)
    pub last_activity: Option<u64>,
}

/// Nothing counted, no latency, no activity.
pub open spec fn zero_metrics(m: ConnectionMetrics) -> bool {
    &&& m.active_connections == 0
    &&& m.total_connections == 0
    &&& m.disconnections == 0
    &&& m.connection_errors == 0
    &&& m.reconnections == 0
    &&& m.messages_sent == 0
    &&& m.messages_received == 0
    &&& m.bytes_sent == 0
    &&& m.bytes_received == 0
    &&& m.send_errors == 0
    &&& m.receive_errors == 0
    &&& m.latencies@ == Seq::<u64>::empty()
    &&& m.last_activity is None
}

fn zeroed() -> (m: ConnectionMetrics)
    ensures
        zero_metrics(m),
{
    ConnectionMetrics {
        active_connections: 0,
        total_connections: 0,
        disconnections: 0,
        connection_errors: 0,
        reconnections: 0,
        messages_sent: 0,
        messages_received: 0,
        bytes_sent: 0,
        bytes_received: 0,
        send_errors: 0,
        receive_errors: 0,
        latencies: Vec::new(),
        last_activity: None,
    }
}

/// The latencies kept after recording `m`: the last 1000.
pub open spec fn latency_window(lat: Seq<u64>, m: u64) -> Seq<u64> {
    if lat.len() + 1 > 1000 {
        lat.push(m).drop_first()
    } else {
        lat.push(m)
    }
}

/// The order of latencies.
pub open spec fn le_u64() -> spec_fn(u64, u64) -> bool {
    |a: u64, b: u64| a <= b
}

/// The latencies in increasing order.
pub open spec fn sorted_latencies(lat: Seq<u64>) -> Seq<u64> {
    lat.sort_by(le_u64())
}

/// The percentiles of the latencies: the entries of the sorted latencies
/// at `len * 50 / 100`, `len * 95 / 100`, `len * 99 / 100` and
/// `(len - 1) * 999 / 1000`; all zero when there is none.
pub open spec fn percentiles_of(lat: Seq<u64>) -> LatencyPercentiles {
    if lat.len() == 0 {
        LatencyPercentiles { p50: 0, p95: 0, p99: 0, p999: 0 }
    } else {
        let s = sorted_latencies(lat);
        let n = lat.len() as int;
        LatencyPercentiles {
            p50: s[n * 50 / 100],
            p95: s[n * 95 / 100],
            p99: s[n * 99 / 100],
            p999: s[(n - 1) * 999 / 1000],
        }
    }
}

/// Latency percentiles (microseconds)
#[derive(Debug, Clone, Copy)]
pub struct LatencyPercentiles {
    /// 50th percentile (median)
    pub p50: u64,
    /// 95th percentile
    pub p95: u64,
    /// 99th percentile
    pub p99: u64,
    /// 99.9th percentile
    pub p999: u64,
}

impl LatencyPercentiles {
    /// The latency, in microseconds, that a percentile name selects:
    /// "p50", "p95", "p99" or "p999"; any other name selects the median.
    pub fn percentile_micros(&self, percentile: &str) -> (r: u64)
        ensures
            r == (if percentile@ == "p95"@ {
                self.p95
            } else if percentile@ == "p99"@ {
                self.p99
            } else if percentile@ == "p999"@ {
                self.p999
            } else {
                self.p50
            }),
    {
        proof {
            reveal_strlit("p50");
            reveal_strlit("p95");
            reveal_strlit("p99");
            reveal_strlit("p999");
            assert("p50"@[1] != "p95"@[1] && "p50"@[1] != "p99"@[1]);
            assert("p50"@.len() != "p999"@.len());
        }
        if str_eq(percentile, "p50") {
            self.p50
        } else if str_eq(percentile, "p95") {
            self.p95
        } else if str_eq(percentile, "p99") {
            self.p99
        } else if str_eq(percentile, "p999") {
            self.p999
        } else {
            self.p50
        }
    }
}

/// The names and values of a snapshot, in order.
pub open spec fn snapshot_of(m: ConnectionMetrics) -> Seq<(Seq<char>, u64)> {
    seq![
        ("active_connections"@, m.active_connections),
        ("total_connections"@, m.total_connections),
        ("disconnections"@, m.disconnections),
        ("connection_errors"@, m.connection_errors),
        ("reconnections"@, m.reconnections),
        ("messages_sent"@, m.messages_sent),
        ("messages_received"@, m.messages_received),
        ("bytes_sent"@, m.bytes_sent),
        ("bytes_received"@, m.bytes_received),
        ("send_errors"@, m.send_errors),
        ("receive_errors"@, m.receive_errors),
    ]
}

proof fn lemma_le_total()
    ensures
        total_ordering(le_u64()),
{
}

/// Sorts the latencies (by insertion).
fn sort_latencies(lat: &Vec<u64>) -> (r: Vec<u64>)
    ensures
        r@ == sorted_latencies(lat@),
{
    let mut out: Vec<u64> = Vec::new();
    let mut i: usize = 0;
    assert(out@ =~= lat@.take(0));
    while i < lat.len()
        invariant
            i <= lat@.len(),
            out@.len() == i,
            forall|a: int, b: int| 0 <= a < b < out@.len() ==> out@[a] <= out@[b],
            out@.to_multiset() == lat@.take(i as int).to_multiset(),
        decreases lat@.len() - i,
    {
        let x = lat[i];
        let mut p: usize = 0;
        while p < out.len() && out[p] <= x
            invariant
                p <= out@.len(),
                forall|a: int| 0 <= a < p ==> out@[a] <= x,
            decreases out@.len() - p,
        {
            p = p + 1;
        }
        let ghost before = out@;
        out.insert(p, x);
        proof {
            broadcast use vstd::seq_lib::group_to_multiset_ensures;
            assert(out@ == before.insert(p as int, x));
            assert forall|a: int, b: int| 0 <= a < b < out@.len() implies out@[a] <= out@[b] by {
                if p < before.len() {
                    assert(x < before[p as int]);
                }
                if a < p && b == p {
                } else if a < p && b > p {
                    assert(before[a] <= before[b - 1]);
                } else if a == p && b > p {
                    assert(before[p as int] <= before[b - 1]);
                } else if a > p {
                    assert(before[a - 1] <= before[b - 1]);
                } else {
                    assert(before[a] <= before[b]);
                }
            }
            vstd::seq_lib::to_multiset_insert(before, p as int, x);
            assert(lat@.take(i + 1) =~= lat@.take(i as int).push(x));
            vstd::seq_lib::to_multiset_build(lat@.take(i as int), x);
        }
        i = i + 1;
    }
    proof {
        assert(lat@.take(i as int) =~= lat@);
        lemma_le_total();
        lat@.lemma_sort_by_ensures(le_u64());
        assert(sorted_by(out@, le_u64())) by {
            assert forall|a: int, b: int| 0 <= a < b < out@.len() implies #[trigger] (le_u64())(
                out@[a],
                out@[b],
            ) by {}
        }
        vstd::seq_lib::lemma_sorted_unique(out@, sorted_latencies(lat@), le_u64());
    }
    out
}

/// Metrics collector
#[derive(Debug)]
pub struct MetricsCollector {
    metrics: ConnectionMetrics,
    epoch: Instant,
}

impl MetricsCollector {
    /// The counters and measurements.
    pub closed spec fn spec_metrics(&self) -> ConnectionMetrics {
        self.metrics
    }

    /// At most 1000 latencies are kept.
    pub open spec fn wf(&self) -> bool {
        self.spec_metrics().latencies@.len() <= 1000
    }

    /// Create a new metrics collector
    pub fn new() -> (r: Self)
        ensures
            r.wf(),
            zero_metrics(r.spec_metrics()),
    {
        MetricsCollector { metrics: zeroed(), epoch: Instant::now() }
    }

    /// Record a new connection at time `now`
    pub fn record_connection_at(&mut self, now: u64)
        requires
            old(self).spec_metrics().active_connections < u64::MAX,
            old(self).spec_metrics().total_connections < u64::MAX,
        ensures
            final(self).spec_metrics() == (ConnectionMetrics {
                active_connections: (old(self).spec_metrics().active_connections + 1) as u64,
                total_connections: (old(self).spec_metrics().total_connections + 1) as u64,
                last_activity: Some(now),
                ..old(self).spec_metrics()
            }),
    {
        self.metrics.active_connections = self.metrics.active_connections + 1;
        self.metrics.total_connections = self.metrics.total_connections + 1;
        self.metrics.last_activity = Some(now);
    }

    /// Record a new connection
    pub fn record_connection(&mut self)
        requires
            old(self).spec_metrics().active_connections < u64::MAX,
            old(self).spec_metrics().total_connections < u64::MAX,
        ensures
            final(self).spec_metrics().last_activity is Some,
            final(self).spec_metrics() == (ConnectionMetrics {
                active_connections: (old(self).spec_metrics().active_connections + 1) as u64,
                total_connections: (old(self).spec_metrics().total_connections + 1) as u64,
                last_activity: final(self).spec_metrics().last_activity,
                ..old(self).spec_metrics()
            }),
    {
        let now = nanos_since(&self.epoch);
        self.record_connection_at(now);
    }

    /// Record a disconnection at time `now` (the open connections do not go
    /// below zero)
    pub fn record_disconnection_at(&mut self, now: u64)
        requires
            old(self).spec_metrics().disconnections < u64::MAX,
        ensures
            final(self).spec_metrics() == (ConnectionMetrics {
                active_connections: (if old(self).spec_metrics().active_connections > 0 {
                    old(self).spec_metrics().active_connections - 1
                } else {
                    0
                }) as u64,
                disconnections: (old(self).spec_metrics().disconnections + 1) as u64,
                last_activity: Some(now),
                ..old(self).spec_metrics()
            }),
    {
        self.metrics.active_connections = self.metrics.active_connections.saturating_sub(1);
        self.metrics.disconnections = self.metrics.disconnections + 1;
        self.metrics.last_activity = Some(now);
    }

    /// Record a disconnection
    pub fn record_disconnection(&mut self)
        requires
            old(self).spec_metrics().disconnections < u64::MAX,
        ensures
            final(self).spec_metrics().last_activity is Some,
            final(self).spec_metrics() == (ConnectionMetrics {
                active_connections: (if old(self).spec_metrics().active_connections > 0 {
                    old(self).spec_metrics().active_connections - 1
                } else {
                    0
                }) as u64,
                disconnections: (old(self).spec_metrics().disconnections + 1) as u64,
                last_activity: final(self).spec_metrics().last_activity,
                ..old(self).spec_metrics()
            }),
    {
        let now = nanos_since(&self.epoch);
        self.record_disconnection_at(now);
    }

    /// Record a connection error
    pub fn record_connection_error(&mut self)
        requires
            old(self).spec_metrics().connection_errors < u64::MAX,
        ensures
            final(self).spec_metrics() == (ConnectionMetrics {
                connection_errors: (old(self).spec_metrics().connection_errors + 1) as u64,
                ..old(self).spec_metrics()
            }),
    {
        self.metrics.connection_errors = self.metrics.connection_errors + 1;
    }

    /// Record a reconnection
    pub fn record_reconnection(&mut self)
        requires
            old(self).spec_metrics().reconnections < u64::MAX,
        ensures
            final(self).spec_metrics() == (ConnectionMetrics {
                reconnections: (old(self).spec_metrics().reconnections + 1) as u64,
                ..old(self).spec_metrics()
            }),
    {
        self.metrics.reconnections = self.metrics.reconnections + 1;
    }

    /// Record a sent message of `size` bytes at time `now`
    pub fn record_message_sent_at(&mut self, size: usize, now: u64)
        requires
            old(self).spec_metrics().messages_sent < u64::MAX,
            old(self).spec_metrics().bytes_sent + size <= u64::MAX,
        ensures
            final(self).spec_metrics() == (ConnectionMetrics {
                messages_sent: (old(self).spec_metrics().messages_sent + 1) as u64,
                bytes_sent: (old(self).spec_metrics().bytes_sent + size) as u64,
                last_activity: Some(now),
                ..old(self).spec_metrics()
            }),
    {
        self.metrics.messages_sent = self.metrics.messages_sent + 1;
        self.metrics.bytes_sent = self.metrics.bytes_sent + size as u64;
        self.metrics.last_activity = Some(now);
    }

    /// Record a sent message
    pub fn record_message_sent(&mut self, size: usize)
        requires
            old(self).spec_metrics().messages_sent < u64::MAX,
            old(self).spec_metrics().bytes_sent + size <= u64::MAX,
        ensures
            final(self).spec_metrics().last_activity is Some,
            final(self).spec_metrics() == (ConnectionMetrics {
                messages_sent: (old(self).spec_metrics().messages_sent + 1) as u64,
                bytes_sent: (old(self).spec_metrics().bytes_sent + size) as u64,
                last_activity: final(self).spec_metrics().last_activity,
                ..old(self).spec_metrics()
            }),
    {
        let now = nanos_since(&self.epoch);
        self.record_message_sent_at(size, now);
    }

    /// Record a received message of `size` bytes at time `now`
    pub fn record_message_received_at(&mut self, size: usize, now: u64)
        requires
            old(self).spec_metrics().messages_received < u64::MAX,
            old(self).spec_metrics().bytes_received + size <= u64::MAX,
        ensures
            final(self).spec_metrics() == (ConnectionMetrics {
                messages_received: (old(self).spec_metrics().messages_received + 1) as u64,
                bytes_received: (old(self).spec_metrics().bytes_received + size) as u64,
                last_activity: Some(now),
                ..old(self).spec_metrics()
            }),
    {
        self.metrics.messages_received = self.metrics.messages_received + 1;
        self.metrics.bytes_received = self.metrics.bytes_received + size as u64;
        self.metrics.last_activity = Some(now);
    }

    /// Record a received message
    pub fn record_message_received(&mut self, size: usize)
        requires
            old(self).spec_metrics().messages_received < u64::MAX,
            old(self).spec_metrics().bytes_received + size <= u64::MAX,
        ensures
            final(self).spec_metrics().last_activity is Some,
            final(self).spec_metrics() == (ConnectionMetrics {
                messages_received: (old(self).spec_metrics().messages_received + 1) as u64,
                bytes_received: (old(self).spec_metrics().bytes_received + size) as u64,
                last_activity: final(self).spec_metrics().last_activity,
                ..old(self).spec_metrics()
            }),
    {
        let now = nanos_since(&self.epoch);
        self.record_message_received_at(size, now);
    }

    /// Record a send error
    pub fn record_send_error(&mut self)
        requires
            old(self).spec_metrics().send_errors < u64::MAX,
        ensures
            final(self).spec_metrics() == (ConnectionMetrics {
                send_errors: (old(self).spec_metrics().send_errors + 1) as u64,
                ..old(self).spec_metrics()
            }),
    {
        self.metrics.send_errors = self.metrics.send_errors + 1;
    }

    /// Record a receive error
    pub fn record_receive_error(&mut self)
        requires
            old(self).spec_metrics().receive_errors < u64::MAX,
        ensures
            final(self).spec_metrics() == (ConnectionMetrics {
                receive_errors: (old(self).spec_metrics().receive_errors + 1) as u64,
                ..old(self).spec_metrics()
            }),
    {
        self.metrics.receive_errors = self.metrics.receive_errors + 1;
    }

    /// Record a message latency, in whole microseconds (truncated to 64
    /// bits); only the last 1000 are kept.
    pub fn record_latency(&mut self, latency: Duration)
        requires
            old(self).wf(),
        ensures
            final(self).wf(),
            final(self).spec_metrics().latencies@ == latency_window(
                old(self).spec_metrics().latencies@,
                (duration_nanos(latency) / 1000) as u64,
            ),
            final(self).spec_metrics() == (ConnectionMetrics {
                latencies: final(self).spec_metrics().latencies,
                ..old(self).spec_metrics()
            }),
    {
        let micros = latency.as_micros() as u64;
        self.metrics.latencies.push(micros);
        if self.metrics.latencies.len() > LATENCY_WINDOW {
            self.metrics.latencies.remove(0);
        }
    }

    /// Get active connections count
    pub fn active_connections(&self) -> (r: u64)
        ensures
            r == self.spec_metrics().active_connections,
    {
        self.metrics.active_connections
    }

    /// Get total connections count
    pub fn total_connections(&self) -> (r: u64)
        ensures
            r == self.spec_metrics().total_connections,
    {
        self.metrics.total_connections
    }

    /// Get message statistics (sent, received)
    pub fn message_stats(&self) -> (r: (u64, u64))
        ensures
            r == (self.spec_metrics().messages_sent, self.spec_metrics().messages_received),
    {
        (self.metrics.messages_sent, self.metrics.messages_received)
    }

    /// Get byte statistics (sent, received)
    pub fn byte_stats(&self) -> (r: (u64, u64))
        ensures
            r == (self.spec_metrics().bytes_sent, self.spec_metrics().bytes_received),
    {
        (self.metrics.bytes_sent, self.metrics.bytes_received)
    }

    /// Get latency percentiles
    pub fn latency_percentiles(&self) -> (r: LatencyPercentiles)
        requires
            self.wf(),
        ensures
            r == percentiles_of(self.spec_metrics().latencies@),
    {
        let lat = &self.metrics.latencies;
        if lat.len() == 0 {
            return LatencyPercentiles { p50: 0, p95: 0, p99: 0, p999: 0 };
        }
        let sorted = sort_latencies(lat);
        let len = sorted.len();
        proof {
            broadcast use vstd::seq_lib::group_to_multiset_ensures;
            lemma_le_total();
            lat@.lemma_sort_by_ensures(le_u64());
            assert(sorted@.to_multiset().len() == lat@.to_multiset().len());
            assert(len == lat@.len());
            assert(len * 50 / 100 < len) by (nonlinear_arith)
                requires
                    len > 0,
            ;
            assert(len * 95 / 100 < len) by (nonlinear_arith)
                requires
                    len > 0,
            ;
            assert(len * 99 / 100 < len) by (nonlinear_arith)
                requires
                    len > 0,
            ;
            assert((len - 1) * 999 / 1000 < len) by (nonlinear_arith)
                requires
                    len > 0,
            ;
        }
        assert(len * 99 <= 99000) by (nonlinear_arith)
            requires
                len <= 1000,
        ;
        LatencyPercentiles {
            p50: sorted[len * 50 / 100],
            p95: sorted[len * 95 / 100],
            p99: sorted[len * 99 / 100],
            p999: sorted[(len - 1) * 999 / 1000],
        }
    }

    /// When the last activity happened (nanoseconds since the collector was created)
    pub fn last_activity(&self) -> (r: Option<u64>)
        ensures
            r == self.spec_metrics().last_activity,
    {
        self.metrics.last_activity
    }

    /// Whether there was no activity for longer than `timeout` before `now`
    /// (never idle before any activity).
    pub open spec fn idle_at(&self, timeout: Duration, now: u64) -> bool {
        match self.spec_metrics().last_activity {
            Some(t) => now > t && (now - t) > duration_nanos(timeout),
            None => false,
        }
    }

    /// Whether the collector is idle at `now` (see `idle_at`)
    pub fn is_idle_at(&self, timeout: Duration, now: u64) -> (r: bool)
        ensures
            r == self.idle_at(timeout, now),
    {
        match self.metrics.last_activity {
            Some(t) => now > t && ((now - t) as u128) > timeout.as_nanos(),
            None => false,
        }
    }

    /// Check if connection is idle (no activity for the specified duration)
    pub fn is_idle(&self, timeout: Duration) -> (r: bool)
        ensures
            exists|now: u64| r == #[trigger] self.idle_at(timeout, now),
    {
        let now = nanos_since(&self.epoch);
        self.is_idle_at(timeout, now)
    }

    /// Get error counts (connection, send, receive)
    pub fn error_counts(&self) -> (r: (u64, u64, u64))
        ensures
            r == (
                self.spec_metrics().connection_errors,
                self.spec_metrics().send_errors,
                self.spec_metrics().receive_errors,
            ),
    {
        (self.metrics.connection_errors, self.metrics.send_errors, self.metrics.receive_errors)
    }

    /// All counters, by name
    pub fn snapshot(&self) -> (r: Vec<(String, u64)>)
        ensures
            r@.map_values(|e: (String, u64)| (e.0@, e.1)) == snapshot_of(self.spec_metrics()),
    {
        let m = &self.metrics;
        let mut v: Vec<(String, u64)> = Vec::new();
        v.push((String::from_str("active_connections"), m.active_connections));
        v.push((String::from_str("total_connections"), m.total_connections));
        v.push((String::from_str("disconnections"), m.disconnections));
        v.push((String::from_str("connection_errors"), m.connection_errors));
        v.push((String::from_str("reconnections"), m.reconnections));
        v.push((String::from_str("messages_sent"), m.messages_sent));
        v.push((String::from_str("messages_received"), m.messages_received));
        v.push((String::from_str("bytes_sent"), m.bytes_sent));
        v.push((String::from_str("bytes_received"), m.bytes_received));
        v.push((String::from_str("send_errors"), m.send_errors));
        v.push((String::from_str("receive_errors"), m.receive_errors));
        assert(v@.map_values(|e: (String, u64)| (e.0@, e.1)) =~= snapshot_of(self.spec_metrics()));
        v
    }

    /// Reset all metrics
    pub fn reset(&mut self)
        ensures
            final(self).wf(),
            zero_metrics(final(self).spec_metrics()),
    {
        self.metrics = zeroed();
    }
}

impl Default for MetricsCollector {
    fn default() -> (r: Self)
        ensures
            r.wf(),
            zero_metrics(r.spec_metrics()),
    {
        Self::new()
    }
}

/// The latency window never holds more than 1000 latencies, and it keeps
/// the most recent ones in order: the new latency is last.
pub proof fn law_latency_window(lat: Seq<u64>, m: u64)
    requires
        lat.len() <= 1000,
    ensures
        latency_window(lat, m).len() <= 1000,
        latency_window(lat, m).last() == m,
        latency_window(lat, m).len() == if lat.len() == 1000 {
            1000
        } else {
            lat.len() + 1
        },
{
}

/// Every percentile is one of the recorded latencies, and p50 <= p95 <= p99.
pub proof fn law_percentiles_ordered(lat: Seq<u64>)
    requires
        lat.len() > 0,
    ensures
        lat.contains(percentiles_of(lat).p50),
        lat.contains(percentiles_of(lat).p95),
        lat.contains(percentiles_of(lat).p99),
        lat.contains(percentiles_of(lat).p999),
        percentiles_of(lat).p50 <= percentiles_of(lat).p95,
        percentiles_of(lat).p95 <= percentiles_of(lat).p99,
{
    broadcast use vstd::seq_lib::group_to_multiset_ensures;
    lemma_le_total();
    lat.lemma_sort_by_ensures(le_u64());
    let s = sorted_latencies(lat);
    let n = lat.len() as int;
    assert(s.len() == n) by {
        assert(s.to_multiset().len() == lat.to_multiset().len());
    }
    let i50 = n * 50 / 100;
    let i95 = n * 95 / 100;
    let i99 = n * 99 / 100;
    let i999 = (n - 1) * 999 / 1000;
    assert(n * 50 <= n * 95 <= n * 99) by (nonlinear_arith)
        requires
            n > 0,
    ;
    vstd::arithmetic::div_mod::lemma_div_is_ordered(n * 50, n * 95, 100);
    vstd::arithmetic::div_mod::lemma_div_is_ordered(n * 95, n * 99, 100);
    assert(i99 < n) by (nonlinear_arith)
        requires
            n > 0,
            i99 == n * 99 / 100,
    ;
    assert(i999 < n) by (nonlinear_arith)
        requires
            n > 0,
            i999 == (n - 1) * 999 / 1000,
    ;
    assert forall|i: int| 0 <= i < n implies lat.contains(#[trigger] s[i]) by {
        assert(s.contains(s[i]));
    }
    if i50 < i95 {
        assert((le_u64())(s[i50], s[i95]));
    }
    if i95 < i99 {
        assert((le_u64())(s[i95], s[i99]));
    }
}

} // verus!
