use srtla_send::connection::batch_send::{BatchSender, BATCH_SEND_SIZE, BATCH_SIZE_THRESHOLD};

#[test]
fn test_batch_sender_queue() {
    let mut sender = BatchSender::new(0);
    let data = [0u8; 100];
    for i in 0..BATCH_SIZE_THRESHOLD - 1 {
        assert!(!sender.queue_packet(&data, Some(i as u32), 0));
        assert_eq!(sender.queued_count(), i32::try_from(i + 1).unwrap());
    }
    assert!(sender.queue_packet(&data, Some(15), 0));
    assert_eq!(sender.queued_count(), 16);
}

#[test]
fn test_batch_sender_time_flush() {
    let mut sender = BatchSender::new(1000);
    let data = [0u8; 100];
    sender.queue_packet(&data, Some(1), 1000);
    assert!(!sender.needs_time_flush(1000));
    assert!(!sender.needs_time_flush(1014));
    assert!(sender.needs_time_flush(1020));
}

#[test]
fn test_batch_sender_reset() {
    let mut sender = BatchSender::new(0);
    let data = [0u8; 100];
    sender.queue_packet(&data, Some(1), 0);
    sender.queue_packet(&data, Some(2), 0);
    sender.reset(5);
    assert!(!sender.has_queued_packets());
}

#[test]
fn empty_queue_never_needs_a_time_flush() {
    let sender = BatchSender::new(0);
    assert!(!sender.needs_time_flush(1_000_000));
    assert!(sender.candidates().is_empty());
}

#[test]
fn flush_submits_at_most_thirty_two_oldest_packets() {
    let mut sender = BatchSender::new(0);
    for i in 0..40u8 {
        sender.queue_packet(&[i, i], Some(u32::from(i)), u64::from(i));
    }
    let c = sender.candidates();
    assert_eq!(c.len(), BATCH_SEND_SIZE);
    assert_eq!(c[0], &[0u8, 0]);
    assert_eq!(c[31], &[31u8, 31]);
}

#[test]
fn commit_removes_only_the_accepted_prefix() {
    let mut sender = BatchSender::new(0);
    sender.queue_packet(&[1], Some(10), 100);
    sender.queue_packet(&[2], None, 101);
    sender.queue_packet(&[3], Some(u32::MAX), 102);
    let accepted = sender.commit(2, 200);
    assert_eq!(accepted, vec![(Some(10), 100), (None, 101)]);
    assert_eq!(sender.queued_count(), 1);
    assert_eq!(sender.candidates()[0], &[3u8]);
    assert!(!sender.needs_time_flush(214));
    assert!(sender.needs_time_flush(215));
    let accepted = sender.commit(1, 300);
    assert_eq!(accepted, vec![(Some(-1), 102)]);
    assert!(!sender.has_queued_packets());
}

#[test]
fn commit_of_nothing_keeps_the_queue() {
    let mut sender = BatchSender::new(0);
    sender.queue_packet(&[9, 9, 9], Some(4), 7);
    assert!(sender.commit(0, 50).is_empty());
    assert_eq!(sender.queued_count(), 1);
}
