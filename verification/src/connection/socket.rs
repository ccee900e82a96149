//! Uplink socket policy that does not touch a socket: egress-binder
//! descriptions and the receiver DNS drift diagnostic's single-flight slot and
//! warning rate limit.
use vstd::prelude::*;

use crate::bind_map::ip::IpAddress;

verus! {

/// Minimum interval between two receiver DNS drift warnings, process-wide.
pub const DNS_DRIFT_WARN_INTERVAL_MS: u64 = 60_000;

/// A UDP peer: address and port.
#[derive(Debug, Clone, Copy, PartialEq, Eq, Structural)]
pub struct PeerAddr {
    pub ip: IpAddress,
    pub port: u16,
}

/// DNS drift: the receiver name now resolves, and none of its answers is the
/// peer the bond is registered against. An empty answer is inconclusive.
pub open spec fn drifted(answers: Seq<PeerAddr>, current: PeerAddr) -> bool {
    answers.len() > 0 && !answers.contains(current)
}

pub fn remote_drift(answers: &[PeerAddr], current: &PeerAddr) -> (b: bool)
    ensures
        b == drifted(answers@, *current),
{
    if answers.len() == 0 {
        return false;
    }
    let mut i: usize = 0;
    while i < answers.len()
        invariant
            i <= answers@.len(),
            forall|k: int| 0 <= k < i ==> answers@[k] != *current,
        decreases answers@.len() - i,
    {
        if answers[i] == *current {
            proof {
                assert(answers@[i as int] == *current);
            }
            return false;
        }
        i += 1;
    }
    true
}

/// Process-wide state of the receiver DNS drift diagnostic: at most one
/// resolution in flight, and at most one warning per interval.
#[derive(Debug)]
pub struct ReceiverDnsDiagnostics {
    check_in_flight: bool,
    last_warning_ms: u64,
}

/// Abstract value of the diagnostic state.
pub struct DnsDiagnosticsView {
    pub check_in_flight: bool,
    /// When the last warning was claimed; zero before any.
    pub last_warning_ms: u64,
}

impl View for ReceiverDnsDiagnostics {
    type V = DnsDiagnosticsView;

    closed spec fn view(&self) -> DnsDiagnosticsView {
        DnsDiagnosticsView {
            check_in_flight: self.check_in_flight,
            last_warning_ms: self.last_warning_ms,
        }
    }
}

/// A warning may be claimed at `now` unless one was claimed less than the
/// interval before.
pub open spec fn warning_due(last: u64, now: u64) -> bool {
    !(last != 0 && (if now >= last {
        now - last
    } else {
        0
    }) < DNS_DRIFT_WARN_INTERVAL_MS)
}

impl ReceiverDnsDiagnostics {
    pub fn new() -> (s: Self)
        ensures
            !s@.check_in_flight,
            s@.last_warning_ms == 0,
    {
        ReceiverDnsDiagnostics { check_in_flight: false, last_warning_ms: 0 }
    }

    /// Take the single-flight slot; false when a resolution is already in
    /// flight.
    pub fn try_acquire(&mut self) -> (acquired: bool)
        ensures
            acquired == !old(self)@.check_in_flight,
            final(self)@.check_in_flight,
            final(self)@.last_warning_ms == old(self)@.last_warning_ms,
    {
        if self.check_in_flight {
            false
        } else {
            self.check_in_flight = true;
            true
        }
    }

    /// Give the slot back once the resolver has really returned.
    pub fn release(&mut self)
        ensures
            !final(self)@.check_in_flight,
            final(self)@.last_warning_ms == old(self)@.last_warning_ms,
    {
        self.check_in_flight = false;
    }

    /// Claim the right to print a drift warning at `now_ms`. The first claim
    /// always succeeds; later ones only once the interval has passed.
    pub fn claim_warning(&mut self, now_ms: u64) -> (claimed: bool)
        ensures
            claimed == warning_due(old(self)@.last_warning_ms, now_ms),
            final(self)@.check_in_flight == old(self)@.check_in_flight,
            final(self)@.last_warning_ms == (if claimed {
                if now_ms == 0 {
                    1
                } else {
                    now_ms
                }
            } else {
                old(self)@.last_warning_ms
            }),
    {
        let last = self.last_warning_ms;
        if last != 0 && now_ms.saturating_sub(last) < DNS_DRIFT_WARN_INTERVAL_MS {
            return false;
        }
        self.last_warning_ms = if now_ms == 0 {
            1
        } else {
            now_ms
        };
        true
    }

    pub fn is_check_in_flight(&self) -> (b: bool)
        ensures
            b == self@.check_in_flight,
    {
        self.check_in_flight
    }
}

/// Two drift warnings are never claimed less than the interval apart.
pub proof fn lemma_warnings_are_rate_limited(last: u64, t1: u64, t2: u64)
    requires
        warning_due(last, t1),
        t1 <= t2,
        warning_due(if t1 == 0 { 1 } else { t1 }, t2),
    ensures
        t2 - t1 >= DNS_DRIFT_WARN_INTERVAL_MS || t1 == 0,
{
}

/// What a finished receiver DNS check reports.
#[derive(Debug, Clone, Copy, PartialEq, Eq, Structural)]
pub enum DriftVerdict {
    /// The receiver moved and this is the first report of the interval.
    Warn,
    /// The receiver moved, but a warning was printed recently.
    Suppressed,
    /// The lookup returned no address: inconclusive.
    NoAnswer,
    /// The current peer is still among the answers.
    Unchanged,
}

/// Judge a successful receiver lookup: drift is warned about at most once per
/// interval; the current peer is never replaced.
pub fn judge_dns_answers(
    state: &mut ReceiverDnsDiagnostics,
    answers: &[PeerAddr],
    current: &PeerAddr,
    now_ms: u64,
) -> (v: DriftVerdict)
    ensures
        v == DriftVerdict::NoAnswer <==> answers@.len() == 0,
        v == DriftVerdict::Unchanged <==> answers@.len() > 0 && answers@.contains(*current),
        v == DriftVerdict::Warn <==> drifted(answers@, *current) && warning_due(
            old(state)@.last_warning_ms,
            now_ms,
        ),
        !drifted(answers@, *current) ==> final(state)@ == old(state)@,
        drifted(answers@, *current) ==> final(state)@.last_warning_ms == (if v == DriftVerdict::Warn {
            if now_ms == 0 {
                1
            } else {
                now_ms
            }
        } else {
            old(state)@.last_warning_ms
        }),
        drifted(answers@, *current) ==> (v == DriftVerdict::Warn || v == DriftVerdict::Suppressed),
        final(state)@.check_in_flight == old(state)@.check_in_flight,
{
    if remote_drift(answers, current) {
        if state.claim_warning(now_ms) {
            DriftVerdict::Warn
        } else {
            DriftVerdict::Suppressed
        }
    } else if answers.len() == 0 {
        DriftVerdict::NoAnswer
    } else {
        DriftVerdict::Unchanged
    }
}

/// Default egress steering: bind the socket to a local source IP on `port`
/// (always `0`, ephemeral, on the live bind path).
#[derive(Debug, Clone)]
pub struct SourceIpBinder {
    pub port: u16,
}

impl SourceIpBinder {
    pub fn new(port: u16) -> (b: Self)
        ensures
            b.port == port,
    {
        SourceIpBinder { port }
    }
}

/// Linux egress steering: pin the socket to the interface `ifname`
/// (`SO_BINDTODEVICE`) and then bind the source address, so both the egress
/// device and the source address on the wire are fixed.
#[derive(Debug, Clone)]
pub struct DeviceBinder {
    pub ifname: String,
    /// Requested local port; always `0`, ephemeral, on the live bind path.
    pub port: u16,
}

/// Minimum gap between foreign-source diagnostic lines on one socket.
pub const FOREIGN_SOURCE_LOG_INTERVAL_MS: u64 = 1000;

/// Datagrams received from an address other than the resolved peer. They are
/// processed normally (multi-homed or NATed receivers reply from other
/// addresses) but counted, and reported at most once a second.
#[derive(Debug, Clone, Copy, PartialEq, Eq, Structural)]
pub struct ForeignSourceLog {
    pub count: u64,
    pub last_log_ms: u64,
}

/// The log after a datagram from `src` arrived at `now` on a socket whose peer
/// is `peer`, and the running count when a diagnostic line is due.
pub open spec fn after_datagram(l: ForeignSourceLog, src: Option<PeerAddr>, peer: PeerAddr, now: u64) -> (
    ForeignSourceLog,
    Option<u64>,
) {
    match src {
        Some(a) if a != peer => {
            let count = if l.count == u64::MAX {
                u64::MAX
            } else {
                (l.count + 1) as u64
            };
            let since_log = if now >= l.last_log_ms {
                now - l.last_log_ms
            } else {
                0
            };
            if since_log >= FOREIGN_SOURCE_LOG_INTERVAL_MS {
                (ForeignSourceLog { count, last_log_ms: now }, Some(count))
            } else {
                (ForeignSourceLog { count, ..l }, None)
            }
        },
        _ => (l, None),
    }
}

impl ForeignSourceLog {
    pub fn new() -> (l: Self)
        ensures
            l == (ForeignSourceLog { count: 0, last_log_ms: 0 }),
    {
        ForeignSourceLog { count: 0, last_log_ms: 0 }
    }

    /// Note a datagram from `src` at `now_ms`; the running count of foreign
    /// datagrams comes back when a diagnostic line is due.
    pub fn observe_source(&mut self, src: Option<PeerAddr>, peer: &PeerAddr, now_ms: u64) -> (r: Option<u64>)
        ensures
            (*final(self), r) == after_datagram(*old(self), src, *peer, now_ms),
    {
        let foreign = match src {
            Some(a) => a != *peer,
            None => false,
        };
        if !foreign {
            return None;
        }
        self.count = self.count.saturating_add(1);
        if now_ms.saturating_sub(self.last_log_ms) < FOREIGN_SOURCE_LOG_INTERVAL_MS {
            return None;
        }
        self.last_log_ms = now_ms;
        Some(self.count)
    }
}

} // verus!
