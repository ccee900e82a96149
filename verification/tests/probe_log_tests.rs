use srtla_send::connection::probe::{ProbeTrain, PROBE_LOG_CAPACITY};
use srtla_send::connection::probe_log::ProbeLog;

fn train(id: u64, start: u64) -> ProbeTrain {
    ProbeTrain {
        id,
        started_ms: start,
        deadline_ms: start + 4100,
    }
}

/// Loss over the newest two finished trains, as the sender computes it from
/// their acknowledged counts.
fn probe_loss(log: &ProbeLog) -> Option<f64> {
    let (a, b) = log.last_two_finished_acks()?;
    Some(f64::from(20 - a - b) / 20.0)
}

#[test]
fn probe_five_of_ten_is_ok_but_partial_train_is_not() {
    let mut log = ProbeLog::default();
    for seq in 0..9 {
        log.record_sent(seq, train(1, 0), 0);
    }
    for seq in 0..5 {
        assert!(log.acknowledge(seq, 100));
    }
    assert_eq!(log.rounds_ok(), (0, None));
    log.record_sent(9, train(1, 0), 100);
    assert_eq!(log.rounds_ok(), (1, Some(0)));
    assert_eq!(probe_loss(&log), None);
}

#[test]
fn probe_expired_trains_count_as_failed_in_loss() {
    let mut log = ProbeLog::default();
    for seq in 0..20 {
        log.record_sent(seq, train(if seq < 10 { 1 } else { 2 }, 0), 0);
    }
    assert!(log.acknowledge(0, 100));
    log.advance(4101);
    assert_eq!(probe_loss(&log), Some(0.95));
    assert_eq!(log.rounds_ok(), (0, None));
    assert!(log.is_empty());
}

#[test]
fn probe_rounds_and_loss_expire_after_idle() {
    let mut log = ProbeLog::default();
    for seq in 0..20 {
        log.record_sent(seq, train(if seq < 10 { 1 } else { 2 }, 0), 0);
    }
    for seq in 0..20 {
        assert!(log.acknowledge(seq, 100));
    }
    assert_eq!(probe_loss(&log), Some(0.0));
    assert_eq!(log.rounds_ok(), (2, Some(0)));
    log.advance(8201);
    assert_eq!(probe_loss(&log), None);
    assert_eq!(log.rounds_ok(), (0, None));
}

#[test]
fn probe_log_is_bounded_and_lru_refreshed() {
    let mut log = ProbeLog::default();
    for seq in 0..256 {
        log.record_sent(seq, train(u64::try_from(seq / 10).unwrap(), 0), 0);
    }
    log.record_sent(0, train(0, 0), 1);
    log.record_sent(256, train(25, 0), 2);
    assert_eq!(log.pending_count(), PROBE_LOG_CAPACITY);
    assert!(log.sent_at(0).is_some());
    assert!(log.sent_at(1).is_none());
    assert!(log.sent_at(256).is_some());
}

#[test]
fn probe_ack_deadline_is_inclusive_and_replays_are_inert() {
    let mut log = ProbeLog::default();
    log.record_sent(1, train(1, 0), 0);
    assert!(log.acknowledge(1, 4100));
    assert!(!log.acknowledge(1, 4100));
    assert!(!log.acknowledge(1, 4101));
}

#[test]
fn probe_reused_sequence_cannot_double_credit_a_train() {
    let mut log = ProbeLog::default();
    log.record_sent(1, train(1, 0), 0);
    assert!(log.acknowledge(1, 100));
    log.record_sent(1, train(1, 0), 200);
    assert!(!log.acknowledge(1, 300));
}

#[test]
fn probe_partial_expired_train_cannot_be_ok() {
    let mut log = ProbeLog::default();
    for seq in 0..5 {
        log.record_sent(seq, train(1, 0), 0);
    }
    for seq in 0..5 {
        assert!(log.acknowledge(seq, 100));
    }
    log.advance(4101);
    assert_eq!(log.rounds_ok(), (0, None));
}

#[test]
fn probe_loss_exactly_five_percent_meets_clear_threshold() {
    let mut log = ProbeLog::default();
    for seq in 0..20 {
        log.record_sent(seq, train(if seq < 10 { 1 } else { 2 }, 0), 0);
    }
    for seq in 0..19 {
        assert!(log.acknowledge(seq, 100));
    }
    log.advance(4101);
    assert_eq!(probe_loss(&log), Some(0.05));
}

#[test]
fn probe_log_tracks_sent_count_and_send_time() {
    let mut log = ProbeLog::default();
    log.record_sent(7, train(3, 1000), 1000);
    log.record_sent(8, train(3, 1000), 1200);
    assert_eq!(log.probes_sent(), 2);
    assert_eq!(log.sent_at(7), Some(1000));
    assert_eq!(log.sent_at(8), Some(1200));
    assert!(log.has_seen(8));
    assert!(!log.has_seen(9));
}

#[test]
fn probe_copy_after_its_deadline_is_counted_but_not_logged() {
    let mut log = ProbeLog::default();
    log.record_sent(4, train(1, 0), 5000);
    assert_eq!(log.probes_sent(), 1);
    assert!(log.is_empty());
    assert!(!log.has_seen(4));
}

#[test]
fn probe_ack_before_send_time_is_refused() {
    let mut log = ProbeLog::default();
    log.record_sent(2, train(1, 0), 300);
    assert!(!log.acknowledge(2, 200));
    assert!(log.acknowledge(2, 300));
}

#[test]
fn probe_unknown_ack_is_refused() {
    let mut log = ProbeLog::default();
    assert!(!log.acknowledge(42, 0));
    assert_eq!(log.last_two_finished_acks(), None);
}

#[test]
fn probe_only_two_finished_trains_are_kept() {
    let mut log = ProbeLog::default();
    for t in 0..3u64 {
        for i in 0..10i32 {
            let seq = i32::try_from(t).unwrap() * 10 + i;
            log.record_sent(seq, train(t + 1, 0), 0);
            assert!(log.acknowledge(seq, 10));
        }
    }
    log.advance(20);
    // The first train (sequences 0..10) was the oldest finished one.
    assert!(!log.has_seen(0));
    assert!(log.has_seen(10));
    assert!(log.has_seen(29));
    assert_eq!(log.last_two_finished_acks(), Some((10, 10)));
}

#[test]
fn probe_reset_forgets_evidence_but_keeps_count() {
    let mut log = ProbeLog::default();
    log.record_sent(1, train(1, 0), 0);
    log.reset();
    assert!(log.is_empty());
    assert!(!log.has_seen(1));
    assert_eq!(log.probes_sent(), 1);
}
