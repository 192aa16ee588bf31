use websocket_fabric::backpressure::BufferGauge;

#[test]
fn gauge_counts_bytes_and_saturates_at_empty() {
    let mut g = BufferGauge::new(80, 60);
    g.record_send(100);
    g.record_recv(30);
    assert_eq!(g.current_size(), 70);
    g.record_recv(500);
    assert_eq!(g.current_size(), 0);
}

#[test]
fn gauge_full_at_max() {
    let mut g = BufferGauge::new(80, 60);
    assert!(!g.is_full(100));
    g.record_send(100);
    assert!(g.is_full(100));
}

#[test]
fn backpressure_turns_off_only_at_release_limit() {
    // 100-byte buffer, on above 80, off at 60 or below.
    let mut g = BufferGauge::new(80, 60);
    assert!(!g.is_active());
    g.record_send(80); // 80: not above the activation limit
    assert!(!g.is_active());
    g.record_send(1); // 81: on
    assert!(g.is_active());
    g.record_recv(11); // 70: between the limits, stays on
    assert!(g.is_active());
    g.record_recv(10); // 60: at the release limit, off
    assert!(!g.is_active());
    g.record_send(10); // 70: stays off
    assert!(!g.is_active());
}

#[test]
fn backpressure_state_follows_every_change() {
    // The state is updated when the bytes change, with no separate query
    // in between: on at 81, off at 50, still off on the way back to 70.
    let mut g = BufferGauge::new(80, 60);
    g.record_send(81);
    g.record_recv(31);
    g.record_send(20);
    assert_eq!(g.current_size(), 70);
    assert!(!g.is_active());
}
