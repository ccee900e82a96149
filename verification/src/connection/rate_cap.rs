//! States of the per-link delivered-rate policy.
use vstd::prelude::*;

verus! {

/// How a climbing rate cap grows.
#[derive(Clone, Copy, Debug, PartialEq, Eq, Structural)]
pub enum ClimbMode {
    Normal,
    Hai,
    /// Remaining growth ticks after the tick reported by this state.
    FastRecovery { ticks_left: u32 },
}

/// Phase of the per-link rate cap.
#[derive(Clone, Copy, Debug, PartialEq, Eq, Structural)]
pub enum RateState {
    Bootstrap,
    Climbing { sub: ClimbMode },
    Holding,
    BackingOff,
    Drain,
}

} // verus!
