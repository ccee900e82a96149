//! Link-selection strategies the sender can run.
use vstd::prelude::*;

verus! {

/// How the scheduler picks the link for the next packet.
#[derive(Debug, Clone, Copy, PartialEq, Eq, Structural)]
pub enum SchedulingMode {
    /// The C `srtla_send` window/in-flight score.
    Classic,
    /// Classic scoring refined by link quality (the default).
    Enhanced,
    /// Prefer links within `min_rtt + delta`.
    RttThreshold,
    /// Earliest-delivery-path-first.
    Edpf,
}

/// The numeric code a mode is stored under.
pub open spec fn mode_code(m: SchedulingMode) -> u8 {
    match m {
        SchedulingMode::Classic => 0,
        SchedulingMode::Enhanced => 1,
        SchedulingMode::RttThreshold => 2,
        SchedulingMode::Edpf => 3,
    }
}

/// The mode a stored code denotes; an unknown code reads as the default.
pub open spec fn mode_of_code(v: u8) -> SchedulingMode {
    if v == 0 {
        SchedulingMode::Classic
    } else if v == 2 {
        SchedulingMode::RttThreshold
    } else if v == 3 {
        SchedulingMode::Edpf
    } else {
        SchedulingMode::Enhanced
    }
}

/// The operator-facing spelling of each mode (`--mode`, `mode <name>`).
pub open spec fn mode_name(m: SchedulingMode) -> Seq<char> {
    match m {
        SchedulingMode::Classic => "classic"@,
        SchedulingMode::Enhanced => "enhanced"@,
        SchedulingMode::RttThreshold => "rtt-threshold"@,
        SchedulingMode::Edpf => "edpf"@,
    }
}

impl SchedulingMode {
    pub fn as_u8(self) -> (v: u8)
        ensures
            v == mode_code(self),
    {
        match self {
            SchedulingMode::Classic => 0,
            SchedulingMode::Enhanced => 1,
            SchedulingMode::RttThreshold => 2,
            SchedulingMode::Edpf => 3,
        }
    }

    pub fn from_u8(v: u8) -> (m: SchedulingMode)
        ensures
            m == mode_of_code(v),
    {
        if v == 0 {
            SchedulingMode::Classic
        } else if v == 2 {
            SchedulingMode::RttThreshold
        } else if v == 3 {
            SchedulingMode::Edpf
        } else {
            SchedulingMode::Enhanced
        }
    }

    pub fn is_classic(self) -> (b: bool)
        ensures
            b <==> self == SchedulingMode::Classic,
    {
        match self {
            SchedulingMode::Classic => true,
            _ => false,
        }
    }

    pub fn is_enhanced(self) -> (b: bool)
        ensures
            b <==> self == SchedulingMode::Enhanced,
    {
        match self {
            SchedulingMode::Enhanced => true,
            _ => false,
        }
    }

    /// The name this mode is printed and selected by.
    pub fn name(self) -> (s: &'static str)
        ensures
            s@ == mode_name(self),
    {
        match self {
            SchedulingMode::Classic => "classic",
            SchedulingMode::Enhanced => "enhanced",
            SchedulingMode::RttThreshold => "rtt-threshold",
            SchedulingMode::Edpf => "edpf",
        }
    }
}

/// Storing a mode as its code and reading the code back gives the same mode.
pub proof fn lemma_mode_code_round_trip(m: SchedulingMode)
    ensures
        mode_of_code(mode_code(m)) == m,
{
}

} // verus!
