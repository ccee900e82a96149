use srtla_send::connection::health::{next_health, HealthFlags, HealthState, Transition};

fn quiet(now_ms: u64) -> HealthFlags {
    HealthFlags {
        down: false,
        stalled: false,
        degraded: false,
        rejoin_evidence: false,
        clear_elapsed: false,
        ramp_done: false,
        now_ms,
    }
}

#[test]
fn hard_failure_outranks_stall_which_outranks_degradation() {
    let f = HealthFlags {
        down: true,
        stalled: true,
        degraded: true,
        ..quiet(5)
    };
    assert_eq!(next_health(HealthState::Healthy, 1, 16, f).0, HealthState::Down);
    let f = HealthFlags {
        stalled: true,
        degraded: true,
        ..quiet(5)
    };
    assert_eq!(next_health(HealthState::Healthy, 1, 16, f).0, HealthState::Stalled);
    assert_eq!(next_health(HealthState::Degraded, 1, 16, f).0, HealthState::Stalled);
    let f = HealthFlags {
        degraded: true,
        ..quiet(5)
    };
    assert_eq!(
        next_health(HealthState::Healthy, 1, 16, f),
        (
            HealthState::Degraded,
            1,
            Some(Transition {
                from: HealthState::Healthy,
                to: HealthState::Degraded,
                at_ms: 5
            })
        )
    );
}

#[test]
fn links_rejoin_before_they_are_healthy() {
    assert_eq!(next_health(HealthState::Down, 1, 16, quiet(1)).0, HealthState::Rejoining);
    assert_eq!(next_health(HealthState::Stalled, 1, 16, quiet(1)), (HealthState::Stalled, 1, None));
    let evidence = HealthFlags {
        rejoin_evidence: true,
        ..quiet(1)
    };
    assert_eq!(next_health(HealthState::Stalled, 1, 16, evidence).0, HealthState::Rejoining);
    let clear = HealthFlags {
        clear_elapsed: true,
        ..quiet(1)
    };
    assert_eq!(next_health(HealthState::Degraded, 1, 16, clear).0, HealthState::Rejoining);
    let ramped = HealthFlags {
        ramp_done: true,
        ..quiet(1)
    };
    assert_eq!(next_health(HealthState::Rejoining, 8, 16, ramped), (
        HealthState::Healthy,
        1,
        Some(Transition {
            from: HealthState::Rejoining,
            to: HealthState::Healthy,
            at_ms: 1
        })
    ));
}

#[test]
fn a_failed_rejoin_doubles_the_dwell_up_to_its_cap() {
    let stalled = HealthFlags {
        stalled: true,
        ..quiet(1)
    };
    assert_eq!(next_health(HealthState::Rejoining, 1, 16, stalled).1, 2);
    assert_eq!(next_health(HealthState::Rejoining, 8, 16, stalled).1, 16);
    assert_eq!(next_health(HealthState::Rejoining, 16, 16, stalled).1, 16);
    assert_eq!(next_health(HealthState::Rejoining, 4, 6, stalled).1, 6);
    assert_eq!(next_health(HealthState::Rejoining, 4, 100, stalled).1, 8);
    assert_eq!(next_health(HealthState::Rejoining, 1, 0, stalled).1, 1);
    // A stall from healthy does not touch the dwell.
    assert_eq!(next_health(HealthState::Healthy, 4, 16, stalled).1, 4);
}
