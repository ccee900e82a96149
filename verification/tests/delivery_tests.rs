use srtla_send::connection::delivery::{DataSend, DeliveryAck, DeliveryLedger, DELIVERY_CAPACITY};

fn send(sent_ms: u64, len: u16) -> DataSend {
    DataSend { sent_ms, len }
}

fn ack(seq: i32, socket_generation: u32) -> DeliveryAck {
    DeliveryAck {
        seq,
        socket_generation,
    }
}

#[test]
fn probe_proof_is_data_proof_but_not_an_attempt() {
    let mut ledger = DeliveryLedger::default();
    assert_eq!(ledger.latest_data_proof_ms(), None);
    ledger.record_probe_proof(1000);
    assert_eq!(ledger.latest_data_proof_ms(), Some(1000));
    assert_eq!(ledger.proof_age_ms(1500), Some(500));
    assert_eq!(ledger.attempts_since_proof(), 0);
    assert!(ledger.delivered_window().is_empty());
}

#[test]
fn proof_age_starts_at_first_attempt() {
    let mut ledger = DeliveryLedger::default();
    assert_eq!(ledger.proof_age_ms(10), None);
    ledger.record_sent(1, send(100, 1200));
    ledger.record_sent(2, send(150, 1200));
    assert_eq!(ledger.proof_age_ms(400), Some(300));
    assert_eq!(ledger.proof_age_ms(50), Some(0));
    assert_eq!(ledger.latest_data_proof_ms(), None);
    assert_eq!(ledger.attempts_since_proof(), 2);
}

#[test]
fn ack_of_sent_data_is_proof_and_counts_bytes() {
    let mut ledger = DeliveryLedger::default();
    ledger.record_sent(7, send(1000, 1332));
    assert!(ledger.contains(7));
    assert!(ledger.acknowledge(ack(7, 0), 1040));
    assert!(!ledger.contains(7));
    assert_eq!(ledger.latest_data_proof_ms(), Some(1040));
    assert_eq!(ledger.attempts_since_proof(), 0);
    assert_eq!(ledger.delivered_window(), &[(1040, 1332)]);
    // A replayed ACK proves nothing more.
    assert!(!ledger.acknowledge(ack(7, 0), 1041));
}

#[test]
fn acks_in_one_millisecond_share_a_bucket() {
    let mut ledger = DeliveryLedger::default();
    ledger.record_sent(1, send(0, 100));
    ledger.record_sent(2, send(0, 200));
    ledger.record_sent(3, send(0, 300));
    assert!(ledger.acknowledge(ack(1, 0), 10));
    assert!(ledger.acknowledge(ack(2, 0), 10));
    assert!(ledger.acknowledge(ack(3, 0), 11));
    assert_eq!(ledger.delivered_window(), &[(10, 300), (11, 300)]);
}

#[test]
fn delivered_window_drops_buckets_two_seconds_old() {
    let mut ledger = DeliveryLedger::default();
    ledger.record_sent(1, send(0, 100));
    ledger.record_sent(2, send(0, 200));
    assert!(ledger.acknowledge(ack(1, 0), 10));
    assert!(ledger.acknowledge(ack(2, 0), 2010));
    assert_eq!(ledger.delivered_window(), &[(2010, 200)]);
}

#[test]
fn stale_generation_ack_is_refused() {
    let mut ledger = DeliveryLedger::default();
    ledger.record_sent(7, send(1000, 1332));
    assert!(!ledger.acknowledge(ack(7, 1), 1040));
    assert!(ledger.contains(7));
    ledger.reset();
    assert_eq!(ledger.socket_generation(), 1);
    assert!(!ledger.contains(7));
    assert!(!ledger.acknowledge(ack(7, 0), 1040));
}

#[test]
fn ack_before_send_time_is_refused() {
    let mut ledger = DeliveryLedger::default();
    ledger.record_sent(3, send(500, 10));
    assert!(!ledger.acknowledge(ack(3, 0), 400));
    assert!(ledger.acknowledge(ack(3, 0), 500));
}

#[test]
fn old_sends_expire_after_six_seconds() {
    let mut ledger = DeliveryLedger::default();
    ledger.record_sent(1, send(0, 10));
    ledger.record_sent(2, send(6001, 10));
    assert!(!ledger.contains(1));
    assert!(ledger.contains(2));
    assert!(!ledger.acknowledge(ack(1, 0), 6001));
}

#[test]
fn reset_clears_evidence_and_bumps_generation() {
    let mut ledger = DeliveryLedger::default();
    ledger.record_sent(7, send(1000, 1332));
    assert!(ledger.acknowledge(ack(7, 0), 1040));
    ledger.reset();
    assert_eq!(ledger.latest_data_proof_ms(), None);
    assert_eq!(ledger.proof_age_ms(2000), None);
    assert_eq!(ledger.attempts_since_proof(), 0);
    assert!(ledger.delivered_window().is_empty());
    assert_eq!(ledger.socket_generation(), 1);
}

#[test]
fn full_ledger_evicts_the_oldest_send() {
    let mut ledger = DeliveryLedger::default();
    let cap = i32::try_from(DELIVERY_CAPACITY).unwrap();
    for seq in 0..cap {
        ledger.record_sent(seq, send(0, 1));
    }
    assert!(ledger.contains(0));
    ledger.record_sent(cap, send(1, 1));
    assert!(!ledger.contains(0));
    assert!(ledger.contains(1));
    assert!(ledger.contains(cap));
}

#[test]
fn resending_a_sequence_refreshes_it() {
    let mut ledger = DeliveryLedger::default();
    ledger.record_sent(5, send(100, 10));
    ledger.record_sent(5, send(200, 10));
    assert!(!ledger.acknowledge(ack(5, 0), 150));
    assert!(ledger.acknowledge(ack(5, 0), 200));
}

#[test]
fn delivered_bytes_cover_the_last_two_seconds() {
    let mut ledger = DeliveryLedger::default();
    ledger.record_sent(1, send(0, 100));
    ledger.record_sent(2, send(0, 200));
    ledger.record_sent(3, send(0, 400));
    assert!(ledger.acknowledge(ack(1, 0), 100));
    assert!(ledger.acknowledge(ack(2, 0), 1500));
    assert!(ledger.acknowledge(ack(3, 0), 2000));
    assert_eq!(ledger.delivered_bytes(2000), 700);
    assert_eq!(ledger.delivered_bytes(2099), 700);
    assert_eq!(ledger.delivered_bytes(2100), 600);
    assert_eq!(ledger.delivered_bytes(1500), 300);
    assert_eq!(ledger.delivered_bytes(3500), 400);
    assert_eq!(ledger.delivered_bytes(4000), 0);
}
