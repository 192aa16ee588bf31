use std::collections::HashMap;
use std::time::Duration;
use websocket_fabric::metrics::MetricsCollector;

#[test]
fn test_metrics_connection_tracking() {
    let mut collector = MetricsCollector::new();

    collector.record_connection();
    assert_eq!(collector.active_connections(), 1);
    assert_eq!(collector.total_connections(), 1);

    collector.record_disconnection();
    assert_eq!(collector.active_connections(), 0);
    assert_eq!(collector.total_connections(), 1);
}

#[test]
fn test_metrics_message_tracking() {
    let mut collector = MetricsCollector::new();

    collector.record_message_sent(100);
    collector.record_message_received(50);

    let (sent, recv) = collector.message_stats();
    assert_eq!(sent, 1);
    assert_eq!(recv, 1);

    let (sent_bytes, recv_bytes) = collector.byte_stats();
    assert_eq!(sent_bytes, 100);
    assert_eq!(recv_bytes, 50);
}

#[test]
fn test_metrics_latency() {
    let mut collector = MetricsCollector::new();

    collector.record_latency(Duration::from_micros(100));
    collector.record_latency(Duration::from_micros(200));
    collector.record_latency(Duration::from_micros(300));

    let percentiles = collector.latency_percentiles();
    assert_eq!(percentiles.p50, 200);
    assert!(percentiles.p95 >= 200);
    assert!(percentiles.p99 <= 300);
}

#[test]
fn test_metrics_reset() {
    let mut collector = MetricsCollector::new();

    collector.record_connection();
    collector.record_message_sent(100);

    collector.reset();

    assert_eq!(collector.active_connections(), 0);
    assert_eq!(collector.total_connections(), 0);
}

#[test]
fn test_metrics_idle_detection() {
    let mut collector = MetricsCollector::new();

    // No activity yet
    assert!(!collector.is_idle_at(Duration::from_secs(1), 0));

    // Record activity
    collector.record_message_sent_at(100, 0);
    assert!(!collector.is_idle_at(Duration::from_secs(1), 0));

    // Ten seconds later
    let now = 10_000_000_000;
    assert!(collector.is_idle_at(Duration::from_secs(5), now));
    assert!(!collector.is_idle_at(Duration::from_secs(15), now));
}

#[test]
fn test_metrics_snapshot() {
    let mut collector = MetricsCollector::new();

    collector.record_connection();
    collector.record_message_sent(100);

    let snapshot: HashMap<String, u64> = collector.snapshot().into_iter().collect();
    assert_eq!(snapshot.get("active_connections"), Some(&1));
    assert_eq!(snapshot.get("messages_sent"), Some(&1));
}

#[test]
fn percentiles_index_the_sorted_window() {
    let mut collector = MetricsCollector::new();
    // Recorded out of order: 1..=100 microseconds.
    for i in (1..=100u64).rev() {
        collector.record_latency(Duration::from_micros(i));
    }
    let p = collector.latency_percentiles();
    assert_eq!(p.p50, 51);
    assert_eq!(p.p95, 96);
    assert_eq!(p.p99, 100);
    assert_eq!(p.p999, 99);
    assert!(p.p50 <= p.p95 && p.p95 <= p.p99);
}

#[test]
fn latency_window_keeps_the_last_thousand() {
    let mut collector = MetricsCollector::new();
    for i in 1..=1005u64 {
        collector.record_latency(Duration::from_micros(i));
    }
    let p = collector.latency_percentiles();
    // The window holds 6..=1005: the median is its 501st value.
    assert_eq!(p.p50, 506);
    assert_eq!(p.p99, 996);
}

#[test]
fn percentiles_of_no_latency_are_zero() {
    let collector = MetricsCollector::new();
    let p = collector.latency_percentiles();
    assert_eq!((p.p50, p.p95, p.p99, p.p999), (0, 0, 0, 0));
}

#[test]
fn percentile_names_select_their_latency() {
    let p = websocket_fabric::metrics::LatencyPercentiles { p50: 1, p95: 2, p99: 3, p999: 4 };
    assert_eq!(p.percentile_micros("p50"), 1);
    assert_eq!(p.percentile_micros("p95"), 2);
    assert_eq!(p.percentile_micros("p99"), 3);
    assert_eq!(p.percentile_micros("p999"), 4);
    assert_eq!(p.percentile_micros("p42"), 1);
}
