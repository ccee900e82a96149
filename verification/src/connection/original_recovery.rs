//! Recovery evidence taken from original DATA while a link is stalled: the
//! first twenty originals of a stall epoch are grouped into two ten-packet
//! trains and qualified exactly as probe trains are, without sending copies.
use vstd::prelude::*;

use super::health::RecoveryRounds;
use super::probe::{ProbeTrain, PROBE_TRAIN_LEN};
use super::probe_log::{
    advanced, after_probe_ack, after_probe_sent, first_train, rounds_from, ProbeLog,
    ProbeLogView, TrainView,
};

verus! {

/// Originals observed per stall epoch at most: two trains.
pub const RECOVERY_SAMPLES: u8 = 20;

/// The stall epoch an original belongs to and how long its train waits for ACKs.
#[derive(Clone, Copy, Debug, PartialEq, Eq, Structural)]
pub struct RecoveryWindow {
    pub epoch_ms: u64,
    pub timeout_ms: u64,
}

/// Train bookkeeping over the originals of the current stall epoch.
#[derive(Debug)]
pub struct OriginalRecovery {
    log: ProbeLog,
    epoch: Option<u64>,
    samples: u8,
    active: Option<ProbeTrain>,
}

/// Abstract value of the recovery observer.
pub struct RecoveryView {
    pub log: ProbeLogView,
    pub epoch: Option<u64>,
    /// Originals taken into trains in this epoch.
    pub samples: u8,
    /// The train new originals join.
    pub active: Option<ProbeTrain>,
}

impl View for OriginalRecovery {
    type V = RecoveryView;

    closed spec fn view(&self) -> RecoveryView {
        RecoveryView {
            log: self.log@,
            epoch: self.epoch,
            samples: self.samples,
            active: self.active,
        }
    }
}

pub open spec fn sat_add(a: u64, b: u64) -> u64 {
    if a + b > u64::MAX {
        u64::MAX
    } else {
        (a + b) as u64
    }
}

/// A new stall epoch, or an active train past its deadline, starts over.
pub open spec fn recovery_restarted(r: RecoveryView, now: u64, w: RecoveryWindow) -> RecoveryView {
    if r.epoch != Some(w.epoch_ms) || (r.active matches Some(t) && now > t.deadline_ms) {
        RecoveryView {
            log: ProbeLogView { entries: seq![], trains: seq![], ..r.log },
            epoch: Some(w.epoch_ms),
            samples: 0,
            active: None,
        }
    } else {
        r
    }
}

/// The observer after original `seq` was accepted at `now` in window `w`.
pub open spec fn recovery_after_send(r: RecoveryView, seq: i32, now: u64, w: RecoveryWindow) -> RecoveryView {
    let r1 = recovery_restarted(r, now, w);
    if r1.samples == RECOVERY_SAMPLES || first_train(
        r1.log.trains,
        |t: TrainView| t.sequences.contains(seq),
        0,
    ) is Some {
        r1
    } else {
        let r2 = if r1.samples % PROBE_TRAIN_LEN == 0 {
            RecoveryView {
                active: Some(
                    ProbeTrain {
                        id: (r1.samples / PROBE_TRAIN_LEN) as u64,
                        started_ms: now,
                        deadline_ms: sat_add(now, w.timeout_ms),
                    },
                ),
                ..r1
            }
        } else {
            r1
        };
        match r2.active {
            Some(t) => RecoveryView {
                log: after_probe_sent(r2.log, seq, t, now),
                samples: (r2.samples + 1) as u8,
                ..r2
            },
            None => r2,
        }
    }
}

impl Default for OriginalRecovery {
    fn default() -> (r: Self)
        ensures
            r.wf(),
            r@.log.entries.len() == 0,
            r@.log.trains.len() == 0,
            r@.log.probes_sent == 0,
            r@.epoch is None,
            r@.samples == 0,
            r@.active is None,
    {
        OriginalRecovery { log: ProbeLog::default(), epoch: None, samples: 0, active: None }
    }
}

impl OriginalRecovery {
    /// At most two trains' worth of originals are taken per epoch, and the
    /// train log is well formed.
    pub closed spec fn wf(&self) -> bool {
        &&& self@.samples <= RECOVERY_SAMPLES
        &&& self.log.wf()
    }

    /// Observe original `seq` accepted at `now` during the stall of `window`.
    pub fn record_sent(&mut self, seq: i32, now: u64, window: RecoveryWindow)
        requires
            old(self).wf(),
        ensures
            final(self).wf(),
            final(self)@ == recovery_after_send(old(self)@, seq, now, window),
    {
        let stale = match self.active {
            Some(t) => now > t.deadline_ms,
            None => false,
        };
        if self.epoch != Some(window.epoch_ms) || stale {
            self.log.reset();
            self.samples = 0;
            self.active = None;
            self.epoch = Some(window.epoch_ms);
        }
        if self.samples == RECOVERY_SAMPLES || self.log.has_seen(seq) {
            return ;
        }
        if self.samples % PROBE_TRAIN_LEN == 0 {
            self.active = Some(
                ProbeTrain {
                    id: (self.samples / PROBE_TRAIN_LEN) as u64,
                    started_ms: now,
                    deadline_ms: now.saturating_add(window.timeout_ms),
                },
            );
        }
        match self.active {
            Some(train) => {
                self.log.record_sent(seq, train, now);
                self.samples += 1;
            },
            None => {},
        }
    }

    /// Credit an ACK of original `seq` at `now`.
    pub fn acknowledge(&mut self, seq: i32, now: u64)
        requires
            old(self).wf(),
        ensures
            final(self)@ == (RecoveryView { log: after_probe_ack(old(self)@.log, seq, now).0, ..old(self)@ }),
            final(self).wf(),
    {
        self.log.acknowledge(seq, now);
    }

    /// Consecutive qualifying recovery trains as of `now`.
    pub fn rounds(&mut self, now: u64) -> (r: RecoveryRounds)
        requires
            old(self).wf(),
        ensures
            final(self)@ == (RecoveryView { log: advanced(old(self)@.log, now), ..old(self)@ }),
            final(self).wf(),
            (r.count, r.started_ms) == rounds_from(
                advanced(old(self)@.log, now).trains,
                advanced(old(self)@.log, now).trains.len() as int,
                0,
                None,
            ),
    {
        self.log.advance(now);
        let (count, started_ms) = self.log.rounds_ok();
        RecoveryRounds { count, started_ms }
    }
}

} // verus!
