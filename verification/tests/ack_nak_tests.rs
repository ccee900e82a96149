use srtla_send::connection::ack_nak::{
    RoundTrip, SrtSeq, SrtlaConnection, WINDOW_DEF, WINDOW_MAX, WINDOW_MULT,
};

fn live() -> SrtlaConnection {
    let mut conn = SrtlaConnection::new();
    conn.connected = true;
    conn.last_received_ms = Some(0);
    conn
}

#[test]
fn registered_packets_are_in_flight() {
    let mut conn = SrtlaConnection::new();
    conn.register_packet(10, 100);
    conn.register_packet(11, 110);
    conn.register_packet(10, 120);
    assert_eq!(conn.in_flight_packets(), 2);
    assert_eq!(conn.sent_at(10), Some(120));
    assert_eq!(conn.sent_at(12), None);
}

#[test]
fn a_cumulative_ack_prunes_everything_it_covers() {
    let mut conn = SrtlaConnection::new();
    for seq in 0..10 {
        conn.register_packet(seq, 1000 + seq as u64);
    }
    conn.handle_srt_ack(4, 2000, true);
    assert_eq!(conn.in_flight_packets(), 5);
    assert_eq!(conn.sent_at(4), None);
    assert_eq!(conn.sent_at(5), Some(1005));
    assert_eq!(
        conn.last_round_trip,
        Some(RoundTrip {
            sent_ms: 1004,
            acked_ms: 2000
        })
    );
    // A short forward step prunes the newly covered range.
    conn.handle_srt_ack(7, 2100, false);
    assert_eq!(conn.in_flight_packets(), 2);
    assert_eq!(conn.sent_at(8), Some(1008));
    // Only the owner measures.
    assert_eq!(conn.last_round_trip.unwrap().acked_ms, 2000);
}

#[test]
fn duplicate_and_reordered_acks_are_ignored() {
    let mut conn = SrtlaConnection::new();
    for seq in 0..10 {
        conn.register_packet(seq, 0);
    }
    conn.handle_srt_ack(5, 10, true);
    conn.register_packet(3, 20);
    conn.handle_srt_ack(5, 30, true);
    conn.handle_srt_ack(4, 30, true);
    assert_eq!(conn.sent_at(3), Some(20));
    assert_eq!(conn.in_flight_packets(), 5);
}

#[test]
fn acks_are_ordered_across_the_sequence_wrap() {
    let mut conn = SrtlaConnection::new();
    let top = 0x7FFF_FFFE;
    conn.register_packet(top, 1);
    conn.register_packet(top + 1, 2);
    conn.register_packet(0, 3);
    conn.register_packet(1, 4);
    conn.handle_srt_ack(top - 1, 5, false);
    assert_eq!(conn.in_flight_packets(), 4);
    // 0x7FFF_FFFD -> 0 is a forward step of three.
    conn.handle_srt_ack(0, 6, true);
    assert_eq!(conn.in_flight_packets(), 1);
    assert_eq!(conn.sent_at(1), Some(4));
}

#[test]
fn a_later_ack_prunes_a_packet_registered_behind_the_highest_ack() {
    let mut conn = SrtlaConnection::new();
    conn.handle_srt_ack(10, 0, false);
    // A retransmission of 5 enters the log after 10 was acknowledged.
    conn.register_packet(5, 1);
    conn.register_packet(11, 2);
    conn.register_packet(13, 3);
    conn.handle_srt_ack(12, 4, false);
    assert_eq!(conn.sent_at(5), None);
    assert_eq!(conn.sent_at(11), None);
    assert_eq!(conn.sent_at(13), Some(3));
    assert_eq!(conn.in_flight_packets(), 1);
}

#[test]
fn a_missed_nak_or_specific_ack_leaves_the_link_as_it_was() {
    let mut conn = live();
    conn.register_packet(7, 70);
    conn.last_ack_or_rtt_sample_ms = 5;
    assert!(!conn.handle_nak(8));
    assert!(!conn.handle_srtla_ack_specific(9, 100));
    assert_eq!(conn.in_flight_packets(), 1);
    assert_eq!(conn.last_ack_or_rtt_sample_ms, 5);
    assert_eq!(conn.last_round_trip, None);
    assert_eq!(conn.window, WINDOW_DEF * WINDOW_MULT);
}

#[test]
fn the_antipodal_ack_is_ignored() {
    let mut conn = SrtlaConnection::new();
    conn.register_packet(1, 0);
    conn.handle_srt_ack(0, 1, false);
    conn.handle_srt_ack(0x4000_0000, 2, false);
    assert_eq!(conn.sent_at(1), Some(0));
}

#[test]
fn a_large_jump_scans_the_log() {
    let mut conn = SrtlaConnection::new();
    conn.handle_srt_ack(0, 0, false);
    conn.register_packet(500, 1);
    conn.register_packet(1500, 2);
    conn.register_packet(-5, 3);
    conn.handle_srt_ack(1000, 4, false);
    assert_eq!(conn.in_flight_packets(), 1);
    assert_eq!(conn.sent_at(1500), Some(2));
}

#[test]
fn naks_and_specific_acks_remove_one_packet() {
    let mut conn = SrtlaConnection::new();
    conn.register_packet(1, 10);
    conn.register_packet(2, 20);
    assert!(conn.handle_nak(1));
    assert!(!conn.handle_nak(1));
    assert!(conn.handle_srtla_ack_specific(2, 50));
    assert_eq!(
        conn.last_round_trip,
        Some(RoundTrip {
            sent_ms: 20,
            acked_ms: 50
        })
    );
    assert_eq!(conn.last_ack_or_rtt_sample_ms, 50);
    assert!(!conn.handle_srtla_ack_specific(2, 60));
    assert_eq!(conn.last_ack_or_rtt_sample_ms, 50);
    assert_eq!(conn.in_flight_packets(), 0);
}

#[test]
fn the_global_ack_grows_only_live_links_up_to_the_ceiling() {
    let mut idle = SrtlaConnection::new();
    idle.handle_srtla_ack_global();
    assert_eq!(idle.window, WINDOW_DEF * WINDOW_MULT);
    let mut conn = live();
    conn.handle_srtla_ack_global();
    assert_eq!(conn.window, WINDOW_DEF * WINDOW_MULT + 1);
    conn.window = WINDOW_MAX * WINDOW_MULT;
    conn.handle_srtla_ack_global();
    assert_eq!(conn.window, WINDOW_MAX * WINDOW_MULT);
}

#[test]
fn the_earned_ack_valve_rate_limits_non_earners() {
    let mut earner = live();
    earner.handle_srtla_ack_earned(true, 10);
    assert_eq!(earner.window, WINDOW_DEF * WINDOW_MULT + 1);
    let mut other = live();
    other.handle_srtla_ack_earned(false, 1000);
    assert_eq!(other.window, WINDOW_DEF * WINDOW_MULT + 1);
    assert_eq!(other.last_probe_growth_ms, 1000);
    other.handle_srtla_ack_earned(false, 1500);
    assert_eq!(other.window, WINDOW_DEF * WINDOW_MULT + 1);
    other.handle_srtla_ack_earned(false, 2000);
    assert_eq!(other.window, WINDOW_DEF * WINDOW_MULT + 2);
}

#[test]
fn serial_order_is_modular() {
    let a = SrtSeq::new(0x7FFF_FFFF);
    let b = SrtSeq::new(0);
    assert!(a.serial_lt(b));
    assert!(b.serial_gt(a));
    assert_eq!(a.next().value(), 0);
    assert_eq!(a.distance(b), 1);
    assert_eq!(SrtSeq::new(0xFFFF_FFFF).value(), 0x7FFF_FFFF);
}
