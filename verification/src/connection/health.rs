//! Per-link health vocabulary shared by the probe scheduler and telemetry.
use vstd::prelude::*;

verus! {

/// The health a link is judged to be in.
#[derive(Clone, Copy, Debug, PartialEq, Eq, Structural)]
pub enum HealthState {
    Healthy,
    Degraded,
    Stalled,
    Rejoining,
    Down,
}

pub open spec fn health_token(s: HealthState) -> Seq<char> {
    match s {
        HealthState::Healthy => "healthy"@,
        HealthState::Degraded => "degraded"@,
        HealthState::Stalled => "stalled"@,
        HealthState::Rejoining => "rejoining"@,
        HealthState::Down => "down"@,
    }
}

impl HealthState {
    /// The lower-case token published for this state.
    pub fn as_str(self) -> (s: &'static str)
        ensures
            s@ == health_token(self),
    {
        match self {
            HealthState::Healthy => "healthy",
            HealthState::Degraded => "degraded",
            HealthState::Stalled => "stalled",
            HealthState::Rejoining => "rejoining",
            HealthState::Down => "down",
        }
    }
}

/// One change of health state and when it happened.
#[derive(Clone, Copy, Debug, PartialEq, Eq, Structural)]
pub struct Transition {
    pub from: HealthState,
    pub to: HealthState,
    pub at_ms: u64,
}

/// Consecutive qualifying recovery trains and the start of the oldest one.
#[derive(Clone, Copy, Debug, PartialEq, Eq, Structural)]
pub struct RecoveryRounds {
    pub count: u32,
    pub started_ms: Option<u64>,
}

impl Default for RecoveryRounds {
    fn default() -> (r: Self)
        ensures
            r.count == 0,
            r.started_ms is None,
    {
        RecoveryRounds { count: 0, started_ms: None }
    }
}

/// What one health observation shows, each threshold already judged by the
/// caller.
#[derive(Clone, Copy, Debug, PartialEq, Eq, Structural)]
pub struct HealthFlags {
    /// Not connected, no valid socket, or the egress interface is gone.
    pub down: bool,
    /// Delivery is overdue: data attempts without proof past the stall time,
    /// or keepalive silence with no recent proof.
    pub stalled: bool,
    /// A degradation signal holds: no default route, loss above the entry
    /// level, or a queue held above the entry delay.
    pub degraded: bool,
    /// Stalled: enough recent probe or original trains succeeded.
    pub rejoin_evidence: bool,
    /// Degraded: every signal has been clear for the stall time.
    pub clear_elapsed: bool,
    /// Rejoining: the ramp span has elapsed.
    pub ramp_done: bool,
    pub now_ms: u64,
}

/// The state after one observation. A hard failure outranks a stall, which
/// outranks degradation; a down link starts rejoining as soon as it is up,
/// a stalled one on recovery evidence, a degraded one once clear long
/// enough, and a rejoining one becomes healthy when its ramp is done.
pub open spec fn next_state(state: HealthState, f: HealthFlags) -> HealthState {
    if f.down {
        HealthState::Down
    } else if f.stalled && (state == HealthState::Healthy || state == HealthState::Degraded || state
        == HealthState::Rejoining) {
        HealthState::Stalled
    } else if f.degraded && (state == HealthState::Healthy || state == HealthState::Rejoining) {
        HealthState::Degraded
    } else {
        match state {
            HealthState::Healthy => HealthState::Healthy,
            HealthState::Down => HealthState::Rejoining,
            HealthState::Stalled => if f.rejoin_evidence {
                HealthState::Rejoining
            } else {
                HealthState::Stalled
            },
            HealthState::Degraded => if f.clear_elapsed {
                HealthState::Rejoining
            } else {
                HealthState::Degraded
            },
            HealthState::Rejoining => if f.ramp_done {
                HealthState::Healthy
            } else {
                HealthState::Rejoining
            },
        }
    }
}

/// The backoff cap, `max` clamped to `1..=16`.
pub open spec fn dwell_cap(max: u32) -> u32 {
    if max < 1 {
        1
    } else if max > 16 {
        16
    } else {
        max
    }
}

/// The ramp-dwell multiplier after moving from `state` to `next`: a rejoin
/// that falls back to stalled or degraded doubles it up to the cap; reaching
/// healthy resets it to one.
pub open spec fn next_dwell(state: HealthState, next: HealthState, dwell: u32, max: u32) -> u32 {
    if next == state {
        dwell
    } else if next == HealthState::Healthy {
        1
    } else if state == HealthState::Rejoining && (next == HealthState::Stalled || next
        == HealthState::Degraded) {
        if dwell * 2 < dwell_cap(max) {
            (dwell * 2) as u32
        } else {
            dwell_cap(max)
        }
    } else {
        dwell
    }
}

/// One health step: the new state, the new dwell multiplier, and the
/// transition when the state changed.
pub fn next_health(state: HealthState, dwell: u32, dwell_backoff_max: u32, f: HealthFlags) -> (r: (
    HealthState,
    u32,
    Option<Transition>,
))
    ensures
        r.0 == next_state(state, f),
        r.1 == next_dwell(state, r.0, dwell, dwell_backoff_max),
        r.2 == (if r.0 == state {
            None
        } else {
            Some(Transition { from: state, to: r.0, at_ms: f.now_ms })
        }),
{
    let next = if f.down {
        HealthState::Down
    } else {
        match state {
            HealthState::Healthy => if f.stalled {
                HealthState::Stalled
            } else if f.degraded {
                HealthState::Degraded
            } else {
                HealthState::Healthy
            },
            HealthState::Degraded => if f.stalled {
                HealthState::Stalled
            } else if f.clear_elapsed {
                HealthState::Rejoining
            } else {
                HealthState::Degraded
            },
            HealthState::Rejoining => if f.stalled {
                HealthState::Stalled
            } else if f.degraded {
                HealthState::Degraded
            } else if f.ramp_done {
                HealthState::Healthy
            } else {
                HealthState::Rejoining
            },
            HealthState::Down => HealthState::Rejoining,
            HealthState::Stalled => if f.rejoin_evidence {
                HealthState::Rejoining
            } else {
                HealthState::Stalled
            },
        }
    };
    if next == state {
        return (state, dwell, None);
    }
    let cap: u32 = if dwell_backoff_max < 1 {
        1
    } else if dwell_backoff_max > 16 {
        16
    } else {
        dwell_backoff_max
    };
    let fell_back = match (state, next) {
        (HealthState::Rejoining, HealthState::Stalled) => true,
        (HealthState::Rejoining, HealthState::Degraded) => true,
        _ => false,
    };
    let new_dwell: u32 = match next {
        HealthState::Healthy => 1,
        _ => if fell_back {
            let doubled: u64 = dwell as u64 * 2;
            if doubled < cap as u64 {
                doubled as u32
            } else {
                cap
            }
        } else {
            dwell
        },
    };
    (next, new_dwell, Some(Transition { from: state, to: next, at_ms: f.now_ms }))
}

/// A hard failure always takes the link down, and a link never passes from
/// down, stalled or degraded straight to healthy: it rejoins first.
pub proof fn lemma_health_rejoins_before_healthy(state: HealthState, f: HealthFlags)
    ensures
        f.down ==> next_state(state, f) == HealthState::Down,
        next_state(state, f) == HealthState::Healthy ==> state == HealthState::Healthy || state
            == HealthState::Rejoining,
{
}

/// The dwell multiplier stays within `1..=16` once it starts there.
pub proof fn lemma_dwell_bounded(state: HealthState, next: HealthState, dwell: u32, max: u32)
    requires
        1 <= dwell <= 16,
    ensures
        1 <= next_dwell(state, next, dwell, max) <= 16,
{
}

/// What outranks what: a hard failure always takes the link down; a stall
/// takes down any healthy, degraded or rejoining link that is up; and a
/// degradation signal, with no failure or stall to outrank it, takes a
/// healthy or rejoining link to degraded, whatever its recovery flags say.
pub proof fn lemma_health_precedence(state: HealthState, f: HealthFlags)
    ensures
        f.down ==> next_state(state, f) == HealthState::Down,
        !f.down && f.stalled && (state == HealthState::Healthy || state == HealthState::Degraded
            || state == HealthState::Rejoining) ==> next_state(state, f) == HealthState::Stalled,
        !f.down && !f.stalled && f.degraded && (state == HealthState::Healthy || state
            == HealthState::Rejoining) ==> next_state(state, f) == HealthState::Degraded,
{
}

/// How a link that is up and shows no outranking signal moves on: a down
/// link starts rejoining; a stalled link rejoins exactly on recovery
/// evidence (a stall signal does not hold it back); a degraded link rejoins
/// exactly once clear for long enough; a rejoining link becomes healthy
/// exactly when its ramp is done; a healthy link stays healthy.
pub proof fn lemma_health_recovery(state: HealthState, f: HealthFlags)
    requires
        !f.down,
    ensures
        state == HealthState::Down ==> next_state(state, f) == HealthState::Rejoining,
        state == HealthState::Stalled ==> (next_state(state, f) == HealthState::Rejoining
            <==> f.rejoin_evidence),
        state == HealthState::Stalled ==> (next_state(state, f) == HealthState::Rejoining
            || next_state(state, f) == HealthState::Stalled),
        state == HealthState::Degraded && !f.stalled ==> (next_state(state, f)
            == HealthState::Rejoining <==> f.clear_elapsed),
        state == HealthState::Degraded && !f.stalled ==> (next_state(state, f)
            == HealthState::Rejoining || next_state(state, f) == HealthState::Degraded),
        state == HealthState::Rejoining && !f.stalled && !f.degraded ==> (next_state(state, f)
            == HealthState::Healthy <==> f.ramp_done),
        state == HealthState::Rejoining && !f.stalled && !f.degraded ==> (next_state(state, f)
            == HealthState::Healthy || next_state(state, f) == HealthState::Rejoining),
        state == HealthState::Healthy && !f.stalled && !f.degraded ==> next_state(state, f)
            == HealthState::Healthy,
{
}

/// The dwell multiplier: a rejoin that falls back to stalled or degraded
/// doubles it, up to `max` clamped to `1..=16`; reaching healthy resets it to
/// one; no other step changes it.
pub proof fn lemma_dwell_backoff(state: HealthState, next: HealthState, dwell: u32, max: u32)
    ensures
        state == HealthState::Rejoining && (next == HealthState::Stalled || next
            == HealthState::Degraded) ==> next_dwell(state, next, dwell, max) == ({
            let cap: int = if max < 1 {
                1
            } else if max > 16 {
                16
            } else {
                max as int
            };
            if 2 * dwell < cap {
                2 * dwell
            } else {
                cap
            }
        }),
        next != state && next == HealthState::Healthy ==> next_dwell(state, next, dwell, max) == 1,
        !(state == HealthState::Rejoining && (next == HealthState::Stalled || next
            == HealthState::Degraded)) && next != HealthState::Healthy ==> next_dwell(
            state,
            next,
            dwell,
            max,
        ) == dwell,
        next == state ==> next_dwell(state, next, dwell, max) == dwell,
{
}

} // verus!
