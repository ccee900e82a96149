use srtla_send::connection::keepalive::{
    extract_keepalive_timestamp, KeepaliveLiveness, SRTLA_TYPE_KEEPALIVE,
};

fn echo(sent: u64) -> [u8; 10] {
    let mut packet = [0; 10];
    packet[..2].copy_from_slice(&SRTLA_TYPE_KEEPALIVE.to_be_bytes());
    packet[2..].copy_from_slice(&sent.to_be_bytes());
    packet
}

#[test]
fn same_millisecond_and_bare_replies_are_liveness_without_rtt() {
    // Given: a sent keepalive with either interoperable reply shape.
    for packet in [&echo(100)[..], &SRTLA_TYPE_KEEPALIVE.to_be_bytes()[..]] {
        let mut liveness = KeepaliveLiveness::default();
        liveness.record_sent(100);
        // When: it is echoed in the same millisecond.
        liveness.record_reply(packet, 100);
        // Then: it is real liveness even though RTT sampling rejects zero.
        assert_eq!(liveness.confirmed_sent_ms(), Some(100));
        assert_eq!(liveness.silence_age_ms(200), Some(100));
    }
}

#[test]
fn replay_reordering_unsent_and_future_echoes_cannot_refresh_liveness() {
    // Given: two outstanding sends, the newer already acknowledged.
    let mut liveness = KeepaliveLiveness::default();
    liveness.record_sent(100);
    liveness.record_sent(200);
    liveness.record_reply(&echo(200), 240);
    // When: old, duplicate, unsent, future, or truncated replies arrive.
    for packet in [
        &echo(100)[..],
        &echo(200),
        &echo(250),
        &echo(1000),
        &[0x90, 0, 0],
    ] {
        liveness.record_reply(packet, 500);
    }
    // Then: none renews the original reply's deadline.
    assert_eq!(liveness.silence_age_ms(500), Some(260));
}

#[test]
fn repeated_sends_do_not_extend_an_unanswered_deadline() {
    // Given: the first successful send at monotonic zero.
    let mut liveness = KeepaliveLiveness::default();
    assert_eq!(liveness.silence_age_ms(0), None);
    // When: the bounded pending ring wraps without any reply.
    for now in 0..100 {
        liveness.record_sent(now);
    }
    // Then: send traffic never fabricates receive evidence.
    assert_eq!(liveness.silence_age_ms(100), Some(100));
    assert_eq!(liveness.pending_count(), 16);
}

#[test]
fn an_echo_clears_every_older_outstanding_send() {
    let mut liveness = KeepaliveLiveness::default();
    for sent in [10, 20, 30, 40] {
        liveness.record_sent(sent);
    }
    liveness.record_reply(&echo(30), 50);
    assert_eq!(liveness.pending_count(), 1);
    assert_eq!(liveness.confirmed_sent_ms(), Some(30));
    assert_eq!(liveness.silence_age_ms(80), Some(30));
    // The newest is still accepted afterwards.
    liveness.record_reply(&echo(40), 60);
    assert_eq!(liveness.confirmed_sent_ms(), Some(40));
    assert_eq!(liveness.pending_count(), 0);
}

#[test]
fn an_implausibly_old_echo_is_ignored() {
    let mut liveness = KeepaliveLiveness::default();
    liveness.record_sent(0);
    liveness.record_reply(&echo(0), 20_000);
    assert_eq!(liveness.confirmed_sent_ms(), None);
    assert_eq!(liveness.silence_age_ms(20_000), Some(20_000));
}

#[test]
fn a_bare_reply_without_an_outstanding_send_is_inert() {
    let mut liveness = KeepaliveLiveness::default();
    liveness.record_reply(&SRTLA_TYPE_KEEPALIVE.to_be_bytes(), 10);
    assert_eq!(liveness.silence_age_ms(10), None);
}

#[test]
fn keepalive_timestamps_are_big_endian_after_the_type() {
    assert_eq!(extract_keepalive_timestamp(&echo(0x0102_0304_0506_0708)), Some(0x0102_0304_0506_0708));
    assert_eq!(extract_keepalive_timestamp(&echo(u64::MAX)), Some(u64::MAX));
    assert_eq!(extract_keepalive_timestamp(&echo(1)[..9]), None);
    let mut other = echo(5);
    other[0] = 0x80;
    assert_eq!(extract_keepalive_timestamp(&other), None);
    let mut longer = echo(7).to_vec();
    longer.extend_from_slice(&[1, 2, 3]);
    assert_eq!(extract_keepalive_timestamp(&longer), Some(7));
}
