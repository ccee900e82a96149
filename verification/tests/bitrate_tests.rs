use srtla_send::connection::bitrate::BitrateTracker;

fn bps(t: &BitrateTracker) -> f64 {
    if t.rate_window_ms == 0 {
        0.0
    } else {
        t.rate_bits as f64 * 1000.0 / t.rate_window_ms as f64
    }
}

const NOW: u64 = 1_000_000;

#[test]
fn bitrate_send_updates_ewma() {
    let mut t = BitrateTracker::new(NOW);
    assert_eq!(bps(&t), 0.0);
    t.last_rate_update_ms = NOW - 2_500;
    t.update_on_send(500_000);
    assert_eq!(t.bytes_sent_total, 500_000);
    t.calculate(NOW);
    assert!(bps(&t) > 0.0);
}

#[test]
fn bitrate_idle_decay() {
    let mut t = BitrateTracker::new(NOW);
    t.last_rate_update_ms = NOW - 2_500;
    t.update_on_send(500_000);
    t.calculate(NOW);
    assert!(bps(&t) > 0.0);
    t.last_rate_update_ms = NOW + 100 - 2_500;
    t.calculate(NOW + 100);
    assert_eq!(bps(&t), 0.0);
}

#[test]
fn bitrate_wire_bytes_basis() {
    let mut t = BitrateTracker::new(NOW);
    let before = NOW - 4_000;
    t.last_rate_update_ms = before;
    t.bytes_sent_window = 0;
    t.update_on_send(1_000_000);
    t.calculate(NOW);
    let elapsed = t.last_rate_update_ms.saturating_sub(before);
    let expected = (1_000_000u64 * 8) as f64 * 1000.0 / elapsed as f64;
    assert!((bps(&t) - expected).abs() < 1.0);
    assert_eq!(bps(&t), 2_000_000.0);
}

#[test]
fn reset_preserves_cumulative_total() {
    let mut t = BitrateTracker::new(NOW);
    t.update_on_send(1_000_000);
    t.reset(NOW);
    assert_eq!(t.bytes_sent_total, 1_000_000);
    assert_eq!(t.bytes_sent_window, t.bytes_sent_total);
    assert_eq!(bps(&t), 0.0);
}

#[test]
fn reset_does_not_spike_the_next_rate_window() {
    let mut t = BitrateTracker::new(NOW);
    t.update_on_send(10_000_000);
    t.reset(NOW);
    t.last_rate_update_ms = NOW - 2_500;
    t.calculate(NOW);
    assert_eq!(bps(&t), 0.0);
}

#[test]
fn cumulative_total_accrues_across_a_reset() {
    let mut t = BitrateTracker::new(NOW);
    t.update_on_send(400);
    t.reset(NOW);
    t.update_on_send(600);
    assert_eq!(t.bytes_sent_total, 1_000);
}

#[test]
fn window_shorter_than_two_seconds_keeps_the_rate() {
    let mut t = BitrateTracker::new(0);
    t.update_on_send(250);
    t.calculate(1999);
    assert_eq!(t.rate_window_ms, 0);
    assert_eq!(t.last_rate_update_ms, 0);
    t.calculate(2000);
    assert_eq!(t.rate_bits, 2000);
    assert_eq!(t.rate_window_ms, 2000);
    assert_eq!(bps(&t), 1000.0);
}

#[test]
fn sent_total_saturates() {
    let mut t = BitrateTracker::new(0);
    t.update_on_send(u64::MAX - 1);
    t.update_on_send(5);
    assert_eq!(t.bytes_sent_total, u64::MAX);
}
