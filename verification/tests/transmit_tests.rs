use srtla_send::bind_map::types::IfaceName;
use srtla_send::connection::ack_nak::SrtlaConnection;
use srtla_send::connection::bitrate::BitrateTracker;
use srtla_send::connection::delivery::DeliveryLedger;
use srtla_send::connection::egress::{EgressFault, EgressLifecycle, LinkState};
use srtla_send::connection::loss::LossTracker;
use srtla_send::connection::original_recovery::{OriginalRecovery, RecoveryWindow};
use srtla_send::connection::probe::ProbeTrain;
use srtla_send::connection::probe_log::ProbeLog;
use srtla_send::connection::transmit::{commit_flush, FlushFailure, SendFailure};

struct Link {
    log: SrtlaConnection,
    delivery: DeliveryLedger,
    loss: LossTracker,
    recovery: OriginalRecovery,
    probes: ProbeLog,
    bitrate: BitrateTracker,
    egress: EgressLifecycle,
}

fn link(egress: EgressLifecycle) -> Link {
    Link {
        log: SrtlaConnection::new(),
        delivery: DeliveryLedger::new(),
        loss: LossTracker::new(0),
        recovery: OriginalRecovery::default(),
        probes: ProbeLog::default(),
        bitrate: BitrateTracker::new(0),
        egress,
    }
}

fn commit(
    l: &mut Link,
    accepted: &[(Option<i32>, u64, usize)],
    probes: &[(i32, ProbeTrain, usize)],
    at: u64,
    stalled: Option<RecoveryWindow>,
    error: Option<SendFailure>,
) -> Result<(), FlushFailure> {
    commit_flush(
        &mut l.log,
        &mut l.delivery,
        &mut l.loss,
        &mut l.recovery,
        &mut l.probes,
        &mut l.bitrate,
        &mut l.egress,
        accepted,
        probes,
        at,
        stalled,
        error,
    )
}

#[test]
fn a_flush_puts_every_accepted_send_in_flight() {
    let mut l = link(EgressLifecycle::unmapped());
    let accepted = [(Some(1), 900, 1316), (None, 901, 40), (Some(2), 902, 1316)];
    assert_eq!(commit(&mut l, &accepted, &[], 1000, None, None), Ok(()));
    assert_eq!(l.log.in_flight_packets(), 2);
    // The in-flight log keeps the queue time; the ledger the acceptance time.
    assert_eq!(l.log.sent_at(1), Some(900));
    assert_eq!(l.log.sent_at(2), Some(902));
    assert!(l.delivery.contains(1));
    assert!(l.delivery.contains(2));
    assert_eq!(l.delivery.attempts_since_proof(), 2);
    assert_eq!(l.delivery.proof_age_ms(1500), Some(500));
}

#[test]
fn a_failed_flush_still_commits_what_went_out_and_reports_the_fault() {
    let mut l = link(EgressLifecycle::for_iface(IfaceName::parse("wwan0").unwrap()));
    let r = commit(
        &mut l,
        &[(Some(7), 10, 100)],
        &[],
        20,
        None,
        Some(SendFailure {
            fault: Some(EgressFault::InterfaceGone),
        }),
    );
    assert_eq!(r, Err(FlushFailure::SendFailed(Some(EgressFault::InterfaceGone))));
    assert_eq!(l.log.in_flight_packets(), 1);
    assert!(l.delivery.contains(7));
    assert_eq!(l.egress.state(), LinkState::Removed);
}

#[test]
fn an_ordinary_send_error_leaves_the_egress_binding_alone() {
    let mut l = link(EgressLifecycle::unmapped());
    let r = commit(&mut l, &[], &[], 20, None, Some(SendFailure { fault: None }));
    assert_eq!(r, Err(FlushFailure::SendFailed(None)));
    assert_eq!(l.egress.state(), LinkState::Active);
    assert!(!l.egress.needs_rebind());
}

#[test]
fn an_oversized_datagram_stops_the_commit_after_registering_it() {
    let mut l = link(EgressLifecycle::unmapped());
    let train = ProbeTrain {
        id: 1,
        started_ms: 0,
        deadline_ms: 5000,
    };
    let accepted = [(Some(1), 5, 100), (Some(2), 6, 70_000), (Some(3), 7, 100)];
    let r = commit(&mut l, &accepted, &[(40, train, 100)], 10, None, None);
    assert_eq!(r, Err(FlushFailure::LengthTooLarge));
    assert_eq!(l.log.sent_at(2), Some(6));
    assert_eq!(l.log.sent_at(3), None);
    assert!(l.delivery.contains(1));
    assert!(!l.delivery.contains(2));
    assert_eq!(l.probes.probes_sent(), 0);
    assert_eq!(l.bitrate.bytes_sent_total, 0);
}

#[test]
fn probe_copies_enter_the_probe_log_and_the_byte_count() {
    let mut l = link(EgressLifecycle::unmapped());
    let train = ProbeTrain {
        id: 3,
        started_ms: 100,
        deadline_ms: 2100,
    };
    let r = commit(&mut l, &[], &[(50, train, 1316), (51, train, 1316)], 100, None, None);
    assert_eq!(r, Ok(()));
    assert_eq!(l.probes.probes_sent(), 2);
    assert_eq!(l.probes.sent_at(50), Some(100));
    assert_eq!(l.bitrate.bytes_sent_total, 2632);
    // Probe copies are not in-flight DATA.
    assert_eq!(l.log.in_flight_packets(), 0);
    assert!(!l.delivery.contains(50));
}

#[test]
fn only_a_stalled_link_records_originals_for_recovery() {
    let window = RecoveryWindow {
        epoch_ms: 500,
        timeout_ms: 2100,
    };
    let accepted: Vec<(Option<i32>, u64, usize)> = (0..20).map(|s| (Some(s), 990, 200)).collect();

    let mut stalled = link(EgressLifecycle::unmapped());
    assert_eq!(commit(&mut stalled, &accepted, &[], 1000, Some(window), None), Ok(()));
    let mut healthy = link(EgressLifecycle::unmapped());
    assert_eq!(commit(&mut healthy, &accepted, &[], 1000, None, None), Ok(()));
    for seq in 0..20 {
        stalled.recovery.acknowledge(seq, 1100);
        healthy.recovery.acknowledge(seq, 1100);
    }
    assert_eq!(stalled.recovery.rounds(1200).count, 2);
    assert_eq!(healthy.recovery.rounds(1200).count, 0);
}
