//! Phases of the wire-rate estimator.
use vstd::prelude::*;

verus! {

/// What the wire-rate estimator is doing.
#[derive(Clone, Copy, Debug, PartialEq, Eq, Structural)]
pub enum WireRatePhase {
    Searching,
    Draining,
    DemandLimited,
    CapacityHeld,
}

} // verus!
