use srtla_send::connection::health::HealthState;
use srtla_send::connection::probe::{
    is_probe_copyable, ProbeOpportunity, ProbeScheduler, ProbeTarget, PROBE_MAX_PPS,
};

fn held(conn_id: u64) -> ProbeTarget {
    ProbeTarget {
        conn_id,
        socket_generation: 0,
        health: HealthState::Stalled,
        deadline_held: true,
        sole_carrier: false,
        srtt_ms: 100,
    }
}

#[test]
fn probe_token_bucket() {
    // Given a bond-wide scheduler and two held links.
    let mut scheduler = ProbeScheduler::default();
    let targets = [held(1), held(2)];
    // When every millisecond offers DATA over five seconds.
    let count = (0..5000)
        .filter(|&now| scheduler.next(&targets, now).is_some())
        .count();
    // Then the global limit, not a per-link limit, applies.
    assert_eq!(count, usize::try_from(PROBE_MAX_PPS * 5).unwrap());
}

#[test]
fn probe_train_rotation_across_two_held_links() {
    // Given two held links.
    let mut scheduler = ProbeScheduler::default();
    let targets = [held(1), held(2)];
    // When three ten-packet trains are scheduled.
    let selected: Vec<_> = (0..30)
        .map(|i| scheduler.next(&targets, i * 100).unwrap().conn_id)
        .collect();
    // Then whole trains rotate, without electing a new DATA carrier.
    assert_eq!(selected, [vec![1; 10], vec![2; 10], vec![1; 10]].concat());
}

#[test]
fn probe_zero_rate_emits_nothing_over_five_seconds() {
    // Given the failure-QA rate override at the same bucket construction seam.
    let mut scheduler = ProbeScheduler::with_rate(0);
    // When DATA is offered throughout five seconds, then no probe is permitted.
    for now in 0..=5000 {
        assert!(scheduler.next(&[held(1)], now).is_none());
    }
}

#[test]
fn probe_targeting_accepts_health_or_deadline_hold_but_never_down_or_sole() {
    // Given every health state and an independent deadline hold.
    for health in [
        HealthState::Healthy,
        HealthState::Stalled,
        HealthState::Degraded,
        HealthState::Down,
        HealthState::Rejoining,
    ] {
        for deadline_held in [false, true] {
            for sole_carrier in [false, true] {
                let target = ProbeTarget {
                    health,
                    deadline_held,
                    sole_carrier,
                    ..held(1)
                };
                let expected = match health {
                    HealthState::Down => false,
                    HealthState::Stalled | HealthState::Degraded => !sole_carrier,
                    HealthState::Healthy | HealthState::Rejoining => deadline_held && !sole_carrier,
                };
                // When scheduled, then either hold qualifies, with hard/sole vetoes.
                assert_eq!(
                    ProbeScheduler::default().next(&[target], 0).is_some(),
                    expected
                );
            }
        }
    }
}

#[test]
fn an_idle_bucket_holds_one_token_not_a_burst() {
    let mut scheduler = ProbeScheduler::default();
    let targets = [held(1)];
    assert!(scheduler.next(&targets, 0).is_some());
    // A long idle period refills exactly one token.
    assert!(scheduler.next(&targets, 1_000_000).is_some());
    assert!(scheduler.next(&targets, 1_000_001).is_none());
    assert!(scheduler.next(&targets, 1_000_099).is_none());
    assert!(scheduler.next(&targets, 1_000_100).is_some());
}

#[test]
fn the_rate_is_capped_at_the_bond_wide_ceiling() {
    let mut scheduler = ProbeScheduler::with_rate(1000);
    let targets = [held(1)];
    let count = (0..1000)
        .filter(|&now| scheduler.next(&targets, now).is_some())
        .count();
    assert_eq!(count, 10);
}

#[test]
fn a_train_keeps_its_deadline_and_id() {
    let mut scheduler = ProbeScheduler::default();
    let targets = [held(1), held(2), held(3)];
    let first = scheduler.next(&targets, 0).unwrap();
    assert_eq!(first.conn_id, 1);
    assert_eq!(first.train.id, 1);
    assert_eq!(first.train.started_ms, 0);
    // Three held links: two seconds each, plus the link's smoothed RTT.
    assert_eq!(first.train.deadline_ms, 6100);
    let second = scheduler.next(&targets, 100).unwrap();
    assert_eq!(second.train, first.train);
}

#[test]
fn a_train_ends_when_its_link_stops_being_eligible() {
    let mut scheduler = ProbeScheduler::default();
    let both = [held(1), held(2)];
    assert_eq!(scheduler.next(&both, 0).unwrap().conn_id, 1);
    let mut recovered = held(1);
    recovered.health = HealthState::Healthy;
    recovered.deadline_held = false;
    let next = scheduler.next(&[recovered, held(2)], 100).unwrap();
    assert_eq!(next.conn_id, 2);
    assert_eq!(next.train.id, 2);
}

#[test]
fn no_eligible_link_means_no_probe() {
    let mut scheduler = ProbeScheduler::default();
    let mut sole = held(1);
    sole.sole_carrier = true;
    assert!(scheduler.next(&[sole], 0).is_none());
    assert!(scheduler.next(&[], 10).is_none());
}

#[test]
fn only_data_packets_of_full_header_length_are_copied() {
    assert!(is_probe_copyable(&[0u8; 16]));
    assert!(!is_probe_copyable(&[0u8; 15]));
    let mut control = [0u8; 32];
    control[0] = 0x80;
    assert!(!is_probe_copyable(&control));
}

#[test]
fn an_offer_is_due_only_with_a_token_and_another_eligible_link() {
    let scheduler = ProbeScheduler::default();
    let packet = [0u8; 20];
    let targets = [held(1), held(2)];
    let offer = ProbeOpportunity {
        primary_conn_id: 1,
        packet: &packet,
        targets: &targets,
    };
    assert!(scheduler.wants_probe(&offer, 0));
    let only_primary = [held(1)];
    let offer = ProbeOpportunity {
        primary_conn_id: 1,
        packet: &packet,
        targets: &only_primary,
    };
    assert!(!scheduler.wants_probe(&offer, 0));
    let mut spent = ProbeScheduler::default();
    assert!(spent.next(&targets, 0).is_some());
    let offer = ProbeOpportunity {
        primary_conn_id: 1,
        packet: &packet,
        targets: &targets,
    };
    assert!(!spent.wants_probe(&offer, 50));
    assert!(spent.wants_probe(&offer, 100));
    assert!(!ProbeScheduler::with_rate(0).wants_probe(&offer, 100));
}

#[test]
fn refused_offers_between_probes_do_not_shorten_the_pace() {
    // Given a probe at 0 and a stream of refused offers after it.
    let mut scheduler = ProbeScheduler::with_rate(4);
    let targets = [held(1), held(2)];
    assert!(scheduler.next(&targets, 0).is_some());
    for now in [1, 50, 100, 200, 249] {
        assert!(scheduler.next(&targets, now).is_none());
        assert!(scheduler.next(&[], now).is_none());
    }
    // Then the next probe waits for a whole token: 1000 / 4 = 250 ms.
    assert!(scheduler.next(&targets, 250).is_some());
}

#[test]
fn a_new_train_starts_on_the_link_after_the_previous_one() {
    // Given three held links and a finished train on the second one.
    let mut scheduler = ProbeScheduler::default();
    let targets = [held(1), held(2), held(3)];
    let mut first = Vec::new();
    for i in 0..30 {
        first.push(scheduler.next(&targets, i * 100).unwrap().conn_id);
    }
    assert_eq!(first, [vec![1; 10], vec![2; 10], vec![3; 10]].concat());
    // When the offered order changes, the link after the last one's position
    // gets the next train, wrapping around.
    let reordered = [held(3), held(1), held(2)];
    assert_eq!(scheduler.next(&reordered, 3000).unwrap().conn_id, 1);
}
