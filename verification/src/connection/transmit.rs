//! Committing a batch flush: every datagram the kernel accepted enters the
//! link's in-flight tracking, its delivery ledger and its loss cohorts, and
//! every probe copy that went out enters the probe log.
use vstd::prelude::*;

use super::ack_nak::{conn_wf, highest_acked, packet_log, SrtlaConnection};
use super::bitrate::BitrateTracker;
use super::delivery::{after_send, DataSend, DeliveryLedger, LedgerView};
use super::egress::{send_error_outcome, EgressFault, EgressLifecycle};
use super::loss::{after_accepted_send, loss_wf, LossTracker, LossView};
use super::loss_debit::LOSS_COHORT_MS;
use super::original_recovery::{
    recovery_after_send, sat_add, OriginalRecovery, RecoveryView, RecoveryWindow,
};
use super::probe::ProbeTrain;
use super::probe_log::{advanced, after_probe_sent, ProbeLog, ProbeLogView};

verus! {

/// The send error that ended a flush, as classified for the egress
/// lifecycle (`None`: an ordinary send error).
#[derive(Clone, Copy, Debug, PartialEq, Eq, Structural)]
pub struct SendFailure {
    pub fault: Option<EgressFault>,
}

/// Why a flush is reported as failed. Either way the caller recovers the
/// link; the unsent suffix stays queued until that reset.
#[derive(Clone, Copy, Debug, PartialEq, Eq, Structural)]
pub enum FlushFailure {
    /// An accepted datagram is longer than a ledger entry can record.
    LengthTooLarge,
    /// The socket reported a send error; the fault the egress lifecycle
    /// drew from it, if any.
    SendFailed(Option<EgressFault>),
}

/// The per-link state a flush commits to.
pub struct CommitView {
    /// In-flight packets: sequence to queue time.
    pub log: Map<i32, u64>,
    pub delivery: LedgerView,
    pub loss: LossView,
    pub recovery: RecoveryView,
}

pub open spec fn commit_start(
    log: Map<i32, u64>,
    delivery: LedgerView,
    loss: LossView,
    recovery: RecoveryView,
) -> CommitView {
    CommitView { log, delivery, loss, recovery }
}

/// One accepted datagram `(sequence, queue time, length)` committed at `at`.
/// A sequenced datagram enters the in-flight log with its queue time; when
/// its length fits a ledger entry it also enters the delivery ledger (sent
/// at `at`), the loss cohorts and, while the link is stalled, original
/// recovery. `false` when the length does not fit: the flush stops there.
pub open spec fn commit_one(
    v: CommitView,
    a: (Option<i32>, u64, usize),
    at: u64,
    stalled: Option<RecoveryWindow>,
) -> (CommitView, bool) {
    match a.0 {
        None => (v, true),
        Some(s) => {
            let log = v.log.insert(s, a.1);
            if a.2 > u16::MAX {
                (CommitView { log, ..v }, false)
            } else {
                (
                    CommitView {
                        log,
                        delivery: after_send(v.delivery, s, DataSend { sent_ms: at, len: a.2 as u16 }),
                        loss: after_accepted_send(v.loss, at).0,
                        recovery: match stalled {
                            Some(w) => recovery_after_send(v.recovery, s, at, w),
                            None => v.recovery,
                        },
                    },
                    true,
                )
            }
        },
    }
}

/// The first `n` accepted datagrams committed in order, stopping at the
/// first whose length does not fit (`false` then).
pub open spec fn commit_prefix(
    v: CommitView,
    acc: Seq<(Option<i32>, u64, usize)>,
    n: int,
    at: u64,
    stalled: Option<RecoveryWindow>,
) -> (CommitView, bool)
    decreases n,
{
    if n <= 0 {
        (v, true)
    } else {
        let p = commit_prefix(v, acc, n - 1, at, stalled);
        if p.1 {
            commit_one(p.0, acc[n - 1], at, stalled)
        } else {
            p
        }
    }
}

/// The probe log after the first `n` probe copies `(sequence, train,
/// length)` were recorded as sent at `at`, in order.
pub open spec fn probes_prefix(
    v: ProbeLogView,
    ps: Seq<(i32, ProbeTrain, usize)>,
    n: int,
    at: u64,
) -> ProbeLogView
    decreases n,
{
    if n <= 0 {
        v
    } else {
        after_probe_sent(probes_prefix(v, ps, n - 1, at), ps[n - 1].0, ps[n - 1].1, at)
    }
}

/// Wire bytes counted after the first `n` probe copies (saturating).
pub open spec fn probe_bytes_prefix(total: u64, ps: Seq<(i32, ProbeTrain, usize)>, n: int) -> u64
    decreases n,
{
    if n <= 0 {
        total
    } else {
        sat_add(probe_bytes_prefix(total, ps, n - 1), ps[n - 1].2 as u64)
    }
}

/// Commit a flush at `accepted_at_ms`: exactly the datagrams the kernel
/// accepted (`accepted`, in queue order) and the probe copies that went out
/// (`sent_probes`). The accepted prefix is committed even when the transmit
/// ended in `error`: those packets are on the wire. `stalled` is the
/// recovery window while the link is stalled. A datagram too long for a
/// ledger entry stops the commit right after entering the in-flight log.
/// Otherwise the probe copies are recorded, probe time moves to
/// `accepted_at_ms`, and a send error is noted on the egress lifecycle and
/// reported.
pub fn commit_flush(
    log: &mut SrtlaConnection,
    delivery: &mut DeliveryLedger,
    loss: &mut LossTracker,
    recovery: &mut OriginalRecovery,
    probes: &mut ProbeLog,
    bitrate: &mut BitrateTracker,
    egress: &mut EgressLifecycle,
    accepted: &[(Option<i32>, u64, usize)],
    sent_probes: &[(i32, ProbeTrain, usize)],
    accepted_at_ms: u64,
    stalled: Option<RecoveryWindow>,
    error: Option<SendFailure>,
) -> (r: Result<(), FlushFailure>)
    requires
        conn_wf(*old(log)),
        packet_log(*old(log)).len() + accepted@.len() + 1 < i32::MAX,
        old(delivery).wf(),
        loss_wf(old(loss)@),
        accepted_at_ms + LOSS_COHORT_MS <= u64::MAX,
        old(recovery).wf(),
        old(probes).wf(),
    ensures
        ({
            let c = commit_prefix(
                commit_start(packet_log(*old(log)), old(delivery)@, old(loss)@, old(recovery)@),
                accepted@,
                accepted@.len() as int,
                accepted_at_ms,
                stalled,
            );
            &&& packet_log(*final(log)) == c.0.log
            &&& final(delivery)@ == c.0.delivery
            &&& final(loss)@ == c.0.loss
            &&& final(recovery)@ == c.0.recovery
            &&& !c.1 ==> {
                &&& r == Err::<(), FlushFailure>(FlushFailure::LengthTooLarge)
                &&& final(probes)@ == old(probes)@
                &&& *final(bitrate) == *old(bitrate)
                &&& final(egress)@ == old(egress)@
            }
            &&& c.1 ==> {
                &&& final(probes)@ == advanced(
                    probes_prefix(old(probes)@, sent_probes@, sent_probes@.len() as int, accepted_at_ms),
                    accepted_at_ms,
                )
                &&& final(bitrate).bytes_sent_total == probe_bytes_prefix(
                    old(bitrate).bytes_sent_total,
                    sent_probes@,
                    sent_probes@.len() as int,
                )
                &&& final(bitrate).bytes_sent_window == old(bitrate).bytes_sent_window
                &&& final(bitrate).last_rate_update_ms == old(bitrate).last_rate_update_ms
                &&& final(bitrate).rate_bits == old(bitrate).rate_bits
                &&& final(bitrate).rate_window_ms == old(bitrate).rate_window_ms
                &&& match error {
                    None => final(egress)@ == old(egress)@ && r == Ok::<(), FlushFailure>(()),
                    Some(e) => final(egress)@ == send_error_outcome(old(egress)@, e.fault).0 && r
                        == Err::<(), FlushFailure>(
                        FlushFailure::SendFailed(send_error_outcome(old(egress)@, e.fault).1),
                    ),
                }
            }
        }),
        conn_wf(*final(log)),
        highest_acked(*final(log)) == highest_acked(*old(log)),
        final(log).window == old(log).window,
        final(log).connected == old(log).connected,
        final(log).last_received_ms == old(log).last_received_ms,
        final(log).last_probe_growth_ms == old(log).last_probe_growth_ms,
        final(log).last_ack_or_rtt_sample_ms == old(log).last_ack_or_rtt_sample_ms,
        final(log).last_round_trip == old(log).last_round_trip,
        final(delivery).wf(),
        loss_wf(final(loss)@),
        final(recovery).wf(),
        final(probes).wf(),
{
    let ghost start = commit_start(packet_log(*log), delivery@, loss@, recovery@);
    let ghost log0 = *log;
    let mut i: usize = 0;
    while i < accepted.len()
        invariant
            i <= accepted@.len(),
            log0 == *old(log),
            start == commit_start(packet_log(*old(log)), old(delivery)@, old(loss)@, old(recovery)@),
            commit_prefix(start, accepted@, i as int, accepted_at_ms, stalled) == (
            commit_start(packet_log(*log), delivery@, loss@, recovery@),
            true,
            ),
            conn_wf(*log),
            packet_log(*log).len() <= packet_log(log0).len() + i,
            packet_log(log0).len() + accepted@.len() + 1 < i32::MAX,
            highest_acked(*log) == highest_acked(log0),
            log.window == log0.window,
            log.connected == log0.connected,
            log.last_received_ms == log0.last_received_ms,
            log.last_probe_growth_ms == log0.last_probe_growth_ms,
            log.last_ack_or_rtt_sample_ms == log0.last_ack_or_rtt_sample_ms,
            log.last_round_trip == log0.last_round_trip,
            delivery.wf(),
            loss_wf(loss@),
            accepted_at_ms + LOSS_COHORT_MS <= u64::MAX,
            recovery.wf(),
            probes.wf(),
        decreases accepted@.len() - i,
    {
        let (seq, queued_ms, len) = accepted[i];
        proof {
            assert(accepted@[i as int] == (seq, queued_ms, len));
        }
        let ghost before = commit_start(packet_log(*log), delivery@, loss@, recovery@);
        if let Some(s) = seq {
            log.register_packet(s, queued_ms);
            proof {
                assert(packet_log(*log).dom() == before.log.dom().insert(s));
                vstd::set_lib::lemma_len_subset(
                    packet_log(*log).dom(),
                    before.log.dom().insert(s),
                );
            }
            if len > 65535 {
                proof {
                    assert(accepted@[i as int] == (seq, queued_ms, len));
                    assert(commit_prefix(start, accepted@, i + 1, accepted_at_ms, stalled) == (
                    commit_start(packet_log(*log), delivery@, loss@, recovery@),
                    false,
                    ));
                    assert(commit_prefix(start, accepted@, accepted@.len() as int, accepted_at_ms, stalled)
                        == commit_prefix(start, accepted@, i + 1, accepted_at_ms, stalled)) by {
                        lemma_stopped_stays(start, accepted@, i + 1, accepted@.len() as int, accepted_at_ms, stalled);
                    }
                }
                return Err(FlushFailure::LengthTooLarge);
            }
            delivery.record_sent(s, DataSend { sent_ms: accepted_at_ms, len: len as u16 });
            let _ = loss.record_accepted_send(accepted_at_ms);
            match stalled {
                Some(w) => recovery.record_sent(s, accepted_at_ms, w),
                None => {},
            }
        }
        i += 1;
    }
    let ghost pv0 = probes@;
    let ghost b0 = *bitrate;
    let mut k: usize = 0;
    while k < sent_probes.len()
        invariant
            k <= sent_probes@.len(),
            probes.wf(),
            probes@ == probes_prefix(pv0, sent_probes@, k as int, accepted_at_ms),
            bitrate.bytes_sent_total == probe_bytes_prefix(b0.bytes_sent_total, sent_probes@, k as int),
            bitrate.bytes_sent_window == b0.bytes_sent_window,
            bitrate.last_rate_update_ms == b0.last_rate_update_ms,
            bitrate.rate_bits == b0.rate_bits,
            bitrate.rate_window_ms == b0.rate_window_ms,
        decreases sent_probes@.len() - k,
    {
        let (seq, train, len) = sent_probes[k];
        probes.record_sent(seq, train, accepted_at_ms);
        bitrate.update_on_send(len as u64);
        k += 1;
    }
    probes.advance(accepted_at_ms);
    match error {
        None => Ok(()),
        Some(e) => {
            let fault = egress.note_send_error(e.fault);
            Err(FlushFailure::SendFailed(fault))
        },
    }
}

/// Once a commit has stopped, later datagrams change nothing.
proof fn lemma_stopped_stays(
    v: CommitView,
    acc: Seq<(Option<i32>, u64, usize)>,
    n: int,
    m: int,
    at: u64,
    stalled: Option<RecoveryWindow>,
)
    requires
        0 <= n <= m,
        !commit_prefix(v, acc, n, at, stalled).1,
    ensures
        commit_prefix(v, acc, m, at, stalled) == commit_prefix(v, acc, n, at, stalled),
    decreases m - n,
{
    if m > n {
        lemma_stopped_stays(v, acc, n, m - 1, at, stalled);
    }
}

/// A commit that went through in full leaves every accepted sequenced
/// datagram in flight, and no other sequence enters the log: sends are
/// tracked exactly as they went out.
pub proof fn lemma_commit_tracks_in_flight(
    v: CommitView,
    acc: Seq<(Option<i32>, u64, usize)>,
    n: int,
    at: u64,
    stalled: Option<RecoveryWindow>,
)
    requires
        0 <= n <= acc.len(),
        commit_prefix(v, acc, n, at, stalled).1,
    ensures
        forall|k: int|
            0 <= k < n && (#[trigger] acc[k]).0 is Some ==> commit_prefix(
                v,
                acc,
                n,
                at,
                stalled,
            ).0.log.contains_key(acc[k].0.unwrap()),
        forall|s: i32|
            #[trigger] commit_prefix(v, acc, n, at, stalled).0.log.contains_key(s) ==> v.log.contains_key(
                s,
            ) || exists|k: int| 0 <= k < n && (#[trigger] acc[k]).0 == Some(s),
    decreases n,
{
    if n > 0 {
        let p = commit_prefix(v, acc, n - 1, at, stalled);
        assert(p.1);
        lemma_commit_tracks_in_flight(v, acc, n - 1, at, stalled);
        let c = commit_prefix(v, acc, n, at, stalled);
        assert(c == commit_one(p.0, acc[n - 1], at, stalled));
        assert forall|s: i32| #[trigger] c.0.log.contains_key(s) implies v.log.contains_key(s)
            || exists|k: int| 0 <= k < n && (#[trigger] acc[k]).0 == Some(s) by {
            if !p.0.log.contains_key(s) {
                assert(acc[n - 1].0 == Some(s));
            } else if !v.log.contains_key(s) {
                let k = choose|k: int| 0 <= k < n - 1 && (#[trigger] acc[k]).0 == Some(s);
                assert(acc[k].0 == Some(s));
            }
        }
    }
}

} // verus!
