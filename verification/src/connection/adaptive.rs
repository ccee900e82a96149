//! Socket-scoped admission state of a link: the deadline gate and the
//! sole-link election history, reset with each new socket generation.
use vstd::prelude::*;

verus! {

/// Whether the predicted delivery time keeps a link admitted for DATA.
#[derive(Clone, Copy, Debug, PartialEq, Eq, Structural)]
pub enum DeadlineGate {
    Admitted,
    /// Held back; `clear_since_ms` is when the prediction last fell below the
    /// release threshold, if it has stayed there since.
    Held { clear_since_ms: Option<u64> },
}

impl Default for DeadlineGate {
    fn default() -> (g: Self)
        ensures
            g == DeadlineGate::Admitted,
    {
        DeadlineGate::Admitted
    }
}

/// Socket-scoped admission history: it follows the connection, never an
/// index into the ips file.
#[derive(Debug)]
pub struct AdaptiveLinkState {
    pub deadline: DeadlineGate,
    pub sole_failed_until_proof: bool,
    pub last_sole_election_ms: Option<u64>,
    generation: u32,
    observed_proof_ms: Option<u64>,
}

/// Abstract value of the admission history.
pub struct AdaptiveView {
    pub deadline: DeadlineGate,
    pub sole_failed_until_proof: bool,
    pub last_sole_election_ms: Option<u64>,
    /// The socket generation the history belongs to.
    pub generation: u32,
    /// The delivery proof time last seen.
    pub observed_proof_ms: Option<u64>,
}

impl View for AdaptiveLinkState {
    type V = AdaptiveView;

    closed spec fn view(&self) -> AdaptiveView {
        AdaptiveView {
            deadline: self.deadline,
            sole_failed_until_proof: self.sole_failed_until_proof,
            last_sole_election_ms: self.last_sole_election_ms,
            generation: self.generation,
            observed_proof_ms: self.observed_proof_ms,
        }
    }
}

/// History of a fresh socket of generation `generation`.
pub open spec fn fresh_history(generation: u32) -> AdaptiveView {
    AdaptiveView {
        deadline: DeadlineGate::Admitted,
        sole_failed_until_proof: false,
        last_sole_election_ms: None,
        generation,
        observed_proof_ms: None,
    }
}

/// A new socket generation starts a fresh history; a changed delivery proof
/// lifts a sole-link failure.
pub open spec fn observed(v: AdaptiveView, generation: u32, proof_ms: Option<u64>) -> AdaptiveView {
    let w = if v.generation != generation {
        fresh_history(generation)
    } else {
        v
    };
    if w.observed_proof_ms != proof_ms {
        AdaptiveView { sole_failed_until_proof: false, observed_proof_ms: proof_ms, ..w }
    } else {
        w
    }
}

impl Default for AdaptiveLinkState {
    fn default() -> (s: Self)
        ensures
            s@ == fresh_history(0),
    {
        AdaptiveLinkState {
            deadline: DeadlineGate::Admitted,
            sole_failed_until_proof: false,
            last_sole_election_ms: None,
            generation: 0,
            observed_proof_ms: None,
        }
    }
}

impl AdaptiveLinkState {
    /// Follow the link's socket generation and latest delivery proof.
    pub fn observe(&mut self, generation: u32, proof_ms: Option<u64>)
        ensures
            final(self)@ == observed(old(self)@, generation, proof_ms),
    {
        if self.generation != generation {
            *self = AdaptiveLinkState { generation, ..AdaptiveLinkState::default() };
        }
        if self.observed_proof_ms != proof_ms {
            self.sole_failed_until_proof = false;
            self.observed_proof_ms = proof_ms;
        }
    }

    /// The socket generation the history belongs to.
    pub fn generation(&self) -> (g: u32)
        ensures
            g == self@.generation,
    {
        self.generation
    }

    /// The delivery proof time last seen.
    pub fn observed_proof_ms(&self) -> (p: Option<u64>)
        ensures
            p == self@.observed_proof_ms,
    {
        self.observed_proof_ms
    }
}

} // verus!
