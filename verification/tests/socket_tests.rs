use srtla_send::bind_map::ip::IpAddress;
use srtla_send::connection::socket::{
    judge_dns_answers, remote_drift, DeviceBinder, DriftVerdict, ForeignSourceLog, PeerAddr,
    ReceiverDnsDiagnostics, SourceIpBinder, DNS_DRIFT_WARN_INTERVAL_MS,
};

fn peer(last: u8, port: u16) -> PeerAddr {
    PeerAddr {
        ip: IpAddress::V4(u32::from_be_bytes([127, 0, 0, last])),
        port,
    }
}

#[test]
fn remote_drift_is_false_when_current_peer_is_resolved() {
    let current = peer(1, 8080);
    let drifted = remote_drift(&[current, peer(2, 8080)], &current);
    assert!(!drifted);
}

#[test]
fn remote_drift_is_true_when_current_peer_is_absent() {
    let current = peer(1, 8080);
    let drifted = remote_drift(&[peer(2, 8080)], &current);
    assert!(drifted);
}

#[test]
fn remote_drift_is_false_when_dns_returns_no_answers() {
    let current = peer(1, 8080);
    assert!(
        !remote_drift(&[], &current),
        "an empty answer is inconclusive, not evidence that the receiver moved"
    );
}

#[test]
fn dns_drift_warning_is_shared_and_rate_limited() {
    let mut state = ReceiverDnsDiagnostics::new();
    let first = 1_000;

    assert!(state.claim_warning(first), "the first drift must warn");
    assert!(
        !state.claim_warning(first + DNS_DRIFT_WARN_INTERVAL_MS - 1),
        "another uplink inside the process-wide interval must stay quiet"
    );
    assert!(
        state.claim_warning(first + DNS_DRIFT_WARN_INTERVAL_MS),
        "the warning becomes eligible at the interval boundary"
    );
}

#[test]
fn a_warning_at_time_zero_still_rate_limits() {
    let mut state = ReceiverDnsDiagnostics::new();
    assert!(state.claim_warning(0));
    assert!(!state.claim_warning(1));
    assert!(state.claim_warning(1 + DNS_DRIFT_WARN_INTERVAL_MS));
}

#[test]
fn only_one_resolution_is_in_flight() {
    let mut state = ReceiverDnsDiagnostics::new();
    assert!(!state.is_check_in_flight());
    assert!(state.try_acquire());
    assert!(state.is_check_in_flight());
    assert!(!state.try_acquire(), "a second check must not overlap");
    state.release();
    assert!(!state.is_check_in_flight());
    assert!(state.try_acquire());
}

#[test]
fn dns_answers_are_judged_without_moving_the_peer() {
    let mut state = ReceiverDnsDiagnostics::new();
    let current = peer(1, 8080);
    assert_eq!(
        judge_dns_answers(&mut state, &[], &current, 5_000),
        DriftVerdict::NoAnswer
    );
    assert_eq!(
        judge_dns_answers(&mut state, &[current], &current, 5_000),
        DriftVerdict::Unchanged
    );
    assert_eq!(
        judge_dns_answers(&mut state, &[peer(9, 8080)], &current, 5_000),
        DriftVerdict::Warn
    );
    assert_eq!(
        judge_dns_answers(&mut state, &[peer(1, 9090)], &current, 6_000),
        DriftVerdict::Suppressed
    );
}

#[test]
fn a_drift_warning_is_recorded_and_rate_limits_the_next_ones() {
    let mut state = ReceiverDnsDiagnostics::new();
    let current = peer(1, 8080);
    let moved = [peer(9, 8080)];
    assert_eq!(judge_dns_answers(&mut state, &moved, &current, 10_000), DriftVerdict::Warn);
    assert_eq!(judge_dns_answers(&mut state, &moved, &current, 10_001), DriftVerdict::Suppressed);
    assert_eq!(judge_dns_answers(&mut state, &moved, &current, 69_999), DriftVerdict::Suppressed);
    // Suppressed lookups do not move the interval: it runs from the warning.
    assert_eq!(judge_dns_answers(&mut state, &moved, &current, 70_000), DriftVerdict::Warn);
    assert_eq!(judge_dns_answers(&mut state, &moved, &current, 70_001), DriftVerdict::Suppressed);
    // A claim taken directly is shared with the lookups.
    assert!(!state.claim_warning(100_000));
    assert!(state.claim_warning(130_000));
    assert_eq!(judge_dns_answers(&mut state, &moved, &current, 130_500), DriftVerdict::Suppressed);
}

#[test]
fn binders_describe_their_egress() {
    assert_eq!(SourceIpBinder::new(0).port, 0);
    let binder = DeviceBinder {
        ifname: String::from("lo"),
        port: 0,
    };
    assert_eq!(binder.ifname, "lo");
}

#[test]
fn foreign_source_datagrams_are_counted_and_logged_once_a_second() {
    let current = peer(1, 8080);
    let mut log = ForeignSourceLog::new();
    assert_eq!(log.observe_source(Some(current), &current, 5000), None);
    assert_eq!(log.observe_source(None, &current, 5000), None);
    assert_eq!(log.count, 0);
    assert_eq!(log.observe_source(Some(peer(2, 8080)), &current, 5000), Some(1));
    assert_eq!(log.observe_source(Some(peer(1, 9000)), &current, 5500), None);
    assert_eq!(log.count, 2);
    assert_eq!(log.observe_source(Some(peer(3, 8080)), &current, 6000), Some(3));
    assert_eq!(log.last_log_ms, 6000);
}
