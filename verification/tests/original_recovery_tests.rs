use srtla_send::connection::original_recovery::{OriginalRecovery, RecoveryWindow};

fn window(epoch_ms: u64) -> RecoveryWindow {
    RecoveryWindow {
        epoch_ms,
        timeout_ms: 2100,
    }
}

#[test]
fn recovery_counts_two_acknowledged_original_trains() {
    let mut r = OriginalRecovery::default();
    for seq in 0..20 {
        r.record_sent(seq, 1000, window(500));
    }
    for seq in 0..20 {
        r.acknowledge(seq, 1100);
    }
    let rounds = r.rounds(1200);
    assert_eq!(rounds.count, 2);
    assert_eq!(rounds.started_ms, Some(1000));
}

#[test]
fn recovery_ignores_originals_beyond_two_trains() {
    let mut r = OriginalRecovery::default();
    for seq in 0..25 {
        r.record_sent(seq, 1000, window(500));
    }
    for seq in 20..25 {
        r.acknowledge(seq, 1100);
    }
    assert_eq!(r.rounds(1200).count, 0);
}

#[test]
fn recovery_with_half_acked_train_counts_one_round() {
    let mut r = OriginalRecovery::default();
    for seq in 0..10 {
        r.record_sent(seq, 0, window(0));
    }
    for seq in 0..5 {
        r.acknowledge(seq, 50);
    }
    let rounds = r.rounds(60);
    assert_eq!(rounds.count, 1);
    assert_eq!(rounds.started_ms, Some(0));
}

#[test]
fn recovery_restarts_on_a_new_epoch() {
    let mut r = OriginalRecovery::default();
    for seq in 0..10 {
        r.record_sent(seq, 0, window(0));
    }
    for seq in 0..10 {
        r.acknowledge(seq, 50);
    }
    assert_eq!(r.rounds(60).count, 1);
    r.record_sent(100, 70, window(65));
    let rounds = r.rounds(80);
    assert_eq!(rounds.count, 0);
    assert_eq!(rounds.started_ms, None);
}

#[test]
fn recovery_ack_of_unseen_original_changes_nothing() {
    let mut r = OriginalRecovery::default();
    r.acknowledge(9, 10);
    assert_eq!(r.rounds(20).count, 0);
}
