//! Monotonic counters for the switch-cooldown / flush-on-switch A/B
//! evaluation: connection switches, NAKed sequences observed, and switches
//! the cooldown held back. They are incremented on the production path and
//! never reset, so a reader gates on deltas between two queries.
use vstd::prelude::*;

use crate::text::{push_decimal, push_str, string_of, decimal};

verus! {

/// The three A/B evaluation counters.
#[derive(Debug)]
pub struct AbMetrics {
    switch_count: u64,
    nak_count: u64,
    cooldown_hold_count: u64,
}

/// Abstract value: the three counts.
pub struct AbCounts {
    pub switches: u64,
    pub naks: u64,
    pub cooldown_holds: u64,
}

impl View for AbMetrics {
    type V = AbCounts;

    closed spec fn view(&self) -> AbCounts {
        AbCounts {
            switches: self.switch_count,
            naks: self.nak_count,
            cooldown_holds: self.cooldown_hold_count,
        }
    }
}

/// One step of a counter, wrapping at `u64::MAX` as an atomic fetch-add does.
pub open spec fn bumped(n: u64) -> u64 {
    if n == u64::MAX {
        0
    } else {
        (n + 1) as u64
    }
}

/// The one-line JSON reply of the `metrics` runtime command.
pub open spec fn metrics_json(c: AbCounts) -> Seq<char> {
    "{\"switch_count\":"@ + decimal(c.switches as nat) + ",\"nak_count\":"@ + decimal(
        c.naks as nat,
    ) + ",\"cooldown_hold_count\":"@ + decimal(c.cooldown_holds as nat) + "}"@
}

impl Default for AbMetrics {
    fn default() -> (m: Self)
        ensures
            m@.switches == 0,
            m@.naks == 0,
            m@.cooldown_holds == 0,
    {
        AbMetrics::new()
    }
}

impl AbMetrics {
    pub fn new() -> (m: Self)
        ensures
            m@.switches == 0,
            m@.naks == 0,
            m@.cooldown_holds == 0,
    {
        AbMetrics { switch_count: 0, nak_count: 0, cooldown_hold_count: 0 }
    }

    /// A switch from one connection to a different one (not the initial
    /// selection).
    pub fn record_switch(&mut self)
        ensures
            final(self)@.switches == bumped(old(self)@.switches),
            final(self)@.naks == old(self)@.naks,
            final(self)@.cooldown_holds == old(self)@.cooldown_holds,
    {
        self.switch_count = self.switch_count.wrapping_add(1);
    }

    /// One NAKed sequence number observed on the uplink receive path.
    pub fn record_nak(&mut self)
        ensures
            final(self)@.naks == bumped(old(self)@.naks),
            final(self)@.switches == old(self)@.switches,
            final(self)@.cooldown_holds == old(self)@.cooldown_holds,
    {
        self.nak_count = self.nak_count.wrapping_add(1);
    }

    /// The cooldown kept the current link against a proposed switch.
    pub fn record_cooldown_hold(&mut self)
        ensures
            final(self)@.cooldown_holds == bumped(old(self)@.cooldown_holds),
            final(self)@.switches == old(self)@.switches,
            final(self)@.naks == old(self)@.naks,
    {
        self.cooldown_hold_count = self.cooldown_hold_count.wrapping_add(1);
    }

    pub fn switch_count(&self) -> (n: u64)
        ensures
            n == self@.switches,
    {
        self.switch_count
    }

    pub fn nak_count(&self) -> (n: u64)
        ensures
            n == self@.naks,
    {
        self.nak_count
    }

    pub fn cooldown_hold_count(&self) -> (n: u64)
        ensures
            n == self@.cooldown_holds,
    {
        self.cooldown_hold_count
    }

    /// One newline-free JSON object with the three counts.
    pub fn to_json(&self) -> (s: String)
        ensures
            s@ == metrics_json(self@),
    {
        let mut out: Vec<char> = Vec::new();
        push_str(&mut out, "{\"switch_count\":");
        push_decimal(&mut out, self.switch_count);
        push_str(&mut out, ",\"nak_count\":");
        push_decimal(&mut out, self.nak_count);
        push_str(&mut out, ",\"cooldown_hold_count\":");
        push_decimal(&mut out, self.cooldown_hold_count);
        push_str(&mut out, "}");
        string_of(&out)
    }
}

/// Record a connection switch. The shipped build carries no counters, so
/// this records nothing.
pub fn record_switch() {
}

/// Record a NAKed sequence. The shipped build carries no counters, so this
/// records nothing.
pub fn record_nak() {
}

/// Record a cooldown hold. The shipped build carries no counters, so this
/// records nothing.
pub fn record_cooldown_hold() {
}

} // verus!
