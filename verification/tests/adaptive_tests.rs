use srtla_send::connection::adaptive::{AdaptiveLinkState, DeadlineGate};

#[test]
fn new_generation_resets_the_admission_history() {
    let mut state = AdaptiveLinkState::default();
    state.observe(0, Some(10));
    state.deadline = DeadlineGate::Held {
        clear_since_ms: Some(5),
    };
    state.sole_failed_until_proof = true;
    state.last_sole_election_ms = Some(7);
    state.observe(1, Some(10));
    assert_eq!(state.generation(), 1);
    assert_eq!(state.deadline, DeadlineGate::Admitted);
    assert!(!state.sole_failed_until_proof);
    assert_eq!(state.last_sole_election_ms, None);
    assert_eq!(state.observed_proof_ms(), Some(10));
}

#[test]
fn fresh_proof_lifts_a_sole_link_failure() {
    let mut state = AdaptiveLinkState::default();
    state.observe(0, Some(10));
    state.sole_failed_until_proof = true;
    state.observe(0, Some(10));
    assert!(state.sole_failed_until_proof);
    state.observe(0, Some(20));
    assert!(!state.sole_failed_until_proof);
    assert_eq!(state.observed_proof_ms(), Some(20));
}

#[test]
fn same_generation_keeps_the_deadline_gate() {
    let mut state = AdaptiveLinkState::default();
    state.deadline = DeadlineGate::Held {
        clear_since_ms: None,
    };
    state.last_sole_election_ms = Some(3);
    state.observe(0, None);
    assert_eq!(
        state.deadline,
        DeadlineGate::Held {
            clear_since_ms: None
        }
    );
    assert_eq!(state.last_sole_election_ms, Some(3));
}
