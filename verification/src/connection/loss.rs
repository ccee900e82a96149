//! Attributed normal-DATA loss evidence. Accepted sends and the NAKs charged
//! to them are counted per one-second send cohort; a closed cohort settles once
//! every send in it passed its latency deadline, and settled cohorts with at
//! least a hundred sends qualify as loss samples. Cohorts older than ten
//! seconds leave the history; the qualifying ones among them are handed out
//! as `(naks, sends)` for the smoothed loss value the caller keeps.
use std::collections::VecDeque;

use vstd::prelude::*;

use super::loss_debit::{debit_pending, LossDebit, LossSend, LOSS_COHORT_MS, LOSS_HISTORY_MS};

verus! {

/// Sends a cohort needs before its loss ratio counts.
pub const LOSS_COHORT_MIN_SENDS: u32 = 100;
/// Deadline latency assumed until the link's latency is known.
pub const UNKNOWN_LATENCY_MS: u32 = 500;
/// Closed cohorts retained at most.
pub const LOSS_HISTORY_COHORTS: usize = 10;

/// One closed one-second send cohort.
#[derive(Clone, Copy, Debug, PartialEq, Eq, Structural)]
pub struct SendCohort {
    pub start_ms: u64,
    pub sends: u32,
    pub naks: u32,
    /// When every send of the cohort passed its deadline.
    pub settle_at_ms: u64,
    pub settled: bool,
}

/// Integer loss evidence of one link.
#[derive(Debug, Clone)]
pub struct LossTracker {
    recovery_epoch: u64,
    cohort_start_ms: u64,
    cohort_sends: u32,
    cohort_naks: u32,
    latency_ms: u32,
    cohort_settle_at_ms: u64,
    closed: VecDeque<SendCohort>,
    prior_last_cohort_ms: Option<u64>,
    last_settlement_ms: Option<u64>,
    retired: Vec<(u32, u32)>,
}

/// Abstract value of the loss evidence.
pub struct LossView {
    /// Bumped by each qualified recovery; debits of older epochs are void.
    pub recovery_epoch: u64,
    /// The open cohort.
    pub cohort_start_ms: u64,
    pub cohort_sends: u32,
    pub cohort_naks: u32,
    pub latency_ms: u32,
    pub cohort_settle_at_ms: u64,
    /// Closed cohorts, oldest first.
    pub closed: Seq<SendCohort>,
    /// End of the newest qualifying cohort that already left the history.
    pub prior_last_cohort_ms: Option<u64>,
    /// Latest settlement time of a cohort with enough sends.
    pub last_settlement_ms: Option<u64>,
    /// `(naks, sends)` of qualifying cohorts that left the history and were
    /// not yet taken by the caller, oldest first.
    pub retired: Seq<(u32, u32)>,
}

impl View for LossTracker {
    type V = LossView;

    closed spec fn view(&self) -> LossView {
        LossView {
            recovery_epoch: self.recovery_epoch,
            cohort_start_ms: self.cohort_start_ms,
            cohort_sends: self.cohort_sends,
            cohort_naks: self.cohort_naks,
            latency_ms: self.latency_ms,
            cohort_settle_at_ms: self.cohort_settle_at_ms,
            closed: self.closed@,
            prior_last_cohort_ms: self.prior_last_cohort_ms,
            last_settlement_ms: self.last_settlement_ms,
            retired: self.retired@,
        }
    }
}

pub open spec fn sub_or_zero(a: u64, b: int) -> int {
    if a >= b {
        a - b
    } else {
        0
    }
}

pub open spec fn max_u64(a: u64, b: u64) -> u64 {
    if a >= b {
        a
    } else {
        b
    }
}

pub open spec fn add_sat(a: u64, b: u64) -> u64 {
    if a + b > u64::MAX {
        u64::MAX
    } else {
        (a + b) as u64
    }
}

pub open spec fn inc_sat(a: u32) -> u32 {
    if a == u32::MAX {
        u32::MAX
    } else {
        (a + 1) as u32
    }
}

/// A settled cohort with enough sends is a loss sample.
pub open spec fn qualified(c: SendCohort) -> bool {
    c.settled && c.sends >= LOSS_COHORT_MIN_SENDS
}

/// Close the open cohort once a full second of it elapsed (an empty one is
/// dropped) and open the cohort that `now` falls in.
pub open spec fn rolled(v: LossView, now: u64) -> LossView {
    let elapsed = sub_or_zero(now, v.cohort_start_ms as int);
    if elapsed >= LOSS_COHORT_MS {
        let closed = if v.cohort_sends > 0 {
            v.closed.push(
                SendCohort {
                    start_ms: v.cohort_start_ms,
                    sends: v.cohort_sends,
                    naks: v.cohort_naks,
                    settle_at_ms: max_u64(
                        v.cohort_settle_at_ms,
                        (v.cohort_start_ms + LOSS_COHORT_MS) as u64,
                    ),
                    settled: false,
                },
            )
        } else {
            v.closed
        };
        let start = (now - elapsed % (LOSS_COHORT_MS as int)) as u64;
        LossView {
            closed,
            cohort_start_ms: start,
            cohort_sends: 0,
            cohort_naks: 0,
            cohort_settle_at_ms: start,
            ..v
        }
    } else {
        v
    }
}

pub open spec fn settles(c: SendCohort, now: u64) -> bool {
    !c.settled && now >= c.settle_at_ms
}

pub open spec fn settle(c: SendCohort, now: u64) -> SendCohort {
    if settles(c, now) {
        SendCohort { settled: true, ..c }
    } else {
        c
    }
}

pub open spec fn settled_all(cs: Seq<SendCohort>, now: u64) -> Seq<SendCohort> {
    Seq::new(cs.len(), |i: int| settle(cs[i], now))
}

/// The latest settlement time after the cohorts of `cs` that settle at `now`
/// and have enough sends are counted.
pub open spec fn latest_settlement(cs: Seq<SendCohort>, now: u64, last: Option<u64>) -> Option<u64>
    decreases cs.len(),
{
    if cs.len() == 0 {
        last
    } else {
        let c = cs[0];
        let next = if settles(c, now) && c.sends >= LOSS_COHORT_MIN_SENDS {
            Some(
                match last {
                    Some(l) => max_u64(l, c.settle_at_ms),
                    None => c.settle_at_ms,
                },
            )
        } else {
            last
        };
        latest_settlement(cs.drop_first(), now, next)
    }
}

/// A cohort ten seconds past its end leaves the history.
pub open spec fn aged_out(c: SendCohort, now: u64) -> bool {
    sub_or_zero(now, c.start_ms + LOSS_COHORT_MS) >= LOSS_HISTORY_MS
}

/// How many of the oldest cohorts leave the history at `now`.
pub open spec fn aged_prefix(cs: Seq<SendCohort>, now: u64) -> nat
    decreases cs.len(),
{
    if cs.len() > 0 && aged_out(cs[0], now) {
        1 + aged_prefix(cs.drop_first(), now)
    } else {
        0
    }
}

/// End of the newest qualifying cohort of `cs`, else `prior`.
pub open spec fn last_qualified_end(cs: Seq<SendCohort>, prior: Option<u64>) -> Option<u64>
    decreases cs.len(),
{
    if cs.len() == 0 {
        prior
    } else if qualified(cs.last()) {
        Some((cs.last().start_ms + LOSS_COHORT_MS) as u64)
    } else {
        last_qualified_end(cs.drop_last(), prior)
    }
}

/// `(naks, sends)` of the qualifying cohorts of `cs`, oldest first.
pub open spec fn qualified_samples(cs: Seq<SendCohort>) -> Seq<(u32, u32)>
    decreases cs.len(),
{
    if cs.len() == 0 {
        seq![]
    } else if qualified(cs.last()) {
        qualified_samples(cs.drop_last()).push((cs.last().naks, cs.last().sends))
    } else {
        qualified_samples(cs.drop_last())
    }
}

/// The evidence after time moved to `now`: the open cohort rolls over, due
/// cohorts settle, and aged cohorts leave the history.
pub open spec fn advanced(v: LossView, now: u64) -> LossView {
    let r = rolled(v, now);
    let s = settled_all(r.closed, now);
    let n = aged_prefix(s, now) as int;
    let gone = s.take(n);
    LossView {
        closed: s.skip(n),
        last_settlement_ms: latest_settlement(r.closed, now, r.last_settlement_ms),
        prior_last_cohort_ms: last_qualified_end(gone, r.prior_last_cohort_ms),
        retired: r.retired + qualified_samples(gone),
        ..r
    }
}

/// End of the newest qualifying cohort, retained or retired.
pub open spec fn last_cohort_end(v: LossView) -> Option<u64> {
    last_qualified_end(v.closed, v.prior_last_cohort_ms)
}

/// Cohort starts fit below the end of time, closed cohorts are a second or
/// more apart and older than the open one, and at most ten are kept.
pub open spec fn loss_wf(v: LossView) -> bool {
    &&& v.cohort_start_ms + LOSS_COHORT_MS <= u64::MAX
    &&& v.closed.len() <= LOSS_HISTORY_COHORTS
    &&& forall|i: int|
        0 <= i < v.closed.len() ==> (#[trigger] v.closed[i]).start_ms + LOSS_COHORT_MS
            <= v.cohort_start_ms
    &&& spaced(v.closed)
}

/// Cohort starts a second or more apart, oldest first.
pub open spec fn spaced(cs: Seq<SendCohort>) -> bool {
    forall|i: int, j: int|
        #![trigger cs[i], cs[j]]
        0 <= i < j < cs.len() ==> cs[i].start_ms + LOSS_COHORT_MS <= cs[j].start_ms
}

proof fn lemma_spaced_span(cs: Seq<SendCohort>, k: int)
    requires
        spaced(cs),
        0 <= k < cs.len(),
    ensures
        cs[k].start_ms >= cs[0].start_ms + LOSS_COHORT_MS * k,
    decreases k,
{
    if k > 0 {
        lemma_spaced_span(cs, k - 1);
        assert(cs[k - 1].start_ms + LOSS_COHORT_MS <= cs[k].start_ms);
    }
}

/// Spaced cohorts whose starts lie in `(lo, lo + 10 s]` are at most ten.
proof fn lemma_spaced_count(cs: Seq<SendCohort>, lo: int)
    requires
        spaced(cs),
        forall|i: int|
            0 <= i < cs.len() ==> lo < (#[trigger] cs[i]).start_ms <= lo + LOSS_HISTORY_MS,
    ensures
        cs.len() <= LOSS_HISTORY_COHORTS,
{
    if cs.len() > 0 {
        let k = cs.len() - 1;
        lemma_spaced_span(cs, k);
        assert(cs[k].start_ms <= lo + LOSS_HISTORY_MS);
        assert(cs[0].start_ms > lo);
    }
}

proof fn lemma_aged_prefix(cs: Seq<SendCohort>, now: u64, k: int)
    requires
        0 <= k <= aged_prefix(cs, now),
    ensures
        aged_prefix(cs, now) == k + aged_prefix(cs.skip(k), now),
        k < aged_prefix(cs, now) ==> aged_out(cs[k], now),
    decreases k,
{
    lemma_aged_prefix_bound(cs, now);
    if k > 0 {
        lemma_aged_prefix(cs.drop_first(), now, k - 1);
        assert(cs.drop_first().skip(k - 1) =~= cs.skip(k));
        if k < aged_prefix(cs, now) {
            assert(cs.drop_first()[k - 1] == cs[k]);
        }
    } else {
        assert(cs.skip(0) =~= cs);
    }
}

proof fn lemma_take_step(cs: Seq<SendCohort>, k: int, prior: Option<u64>)
    requires
        0 <= k < cs.len(),
    ensures
        qualified_samples(cs.take(k + 1)) == if qualified(cs[k]) {
            qualified_samples(cs.take(k)).push((cs[k].naks, cs[k].sends))
        } else {
            qualified_samples(cs.take(k))
        },
        last_qualified_end(cs.take(k + 1), prior) == if qualified(cs[k]) {
            Some((cs[k].start_ms + LOSS_COHORT_MS) as u64)
        } else {
            last_qualified_end(cs.take(k), prior)
        },
{
    assert(cs.take(k + 1).drop_last() =~= cs.take(k));
    assert(cs.take(k + 1).last() == cs[k]);
}


/// The first cohort of `cs` from index `k` on that satisfies `p`.
pub open spec fn first_cohort(cs: Seq<SendCohort>, p: spec_fn(SendCohort) -> bool, k: int) -> Option<int>
    decreases cs.len() - k,
{
    if k < 0 || k >= cs.len() {
        None
    } else if p(cs[k]) {
        Some(k)
    } else {
        first_cohort(cs, p, k + 1)
    }
}

/// Fresh evidence whose first cohort opens at `now`.
pub open spec fn fresh_loss(now: u64) -> LossView {
    LossView {
        recovery_epoch: 0,
        cohort_start_ms: now,
        cohort_sends: 0,
        cohort_naks: 0,
        latency_ms: UNKNOWN_LATENCY_MS,
        cohort_settle_at_ms: now,
        closed: seq![],
        prior_last_cohort_ms: None,
        last_settlement_ms: None,
        retired: seq![],
    }
}

/// A kernel-accepted send at `now` joins the open cohort, whose settlement
/// waits for the send's deadline; the send's identity is returned.
pub open spec fn after_accepted_send(v: LossView, now: u64) -> (LossView, LossSend) {
    let a = advanced(v, now);
    let deadline = add_sat(now, a.latency_ms as u64);
    (
        LossView {
            cohort_sends: inc_sat(a.cohort_sends),
            cohort_settle_at_ms: max_u64(a.cohort_settle_at_ms, deadline),
            ..a
        },
        LossSend { epoch: a.recovery_epoch, cohort_start_ms: a.cohort_start_ms, deadline_ms: deadline },
    )
}

/// A NAK charged to accepted send `send` at `now`: counted in the send's
/// cohort when that cohort is open or retained and the epoch is current; the
/// debit is handed back while it can still be credited.
pub open spec fn after_debit(v: LossView, send: LossSend, now: u64) -> (LossView, Option<LossDebit>) {
    let a = advanced(v, now);
    let d = LossDebit { send, count: 1 };
    let out = if debit_pending(d, now) {
        Some(d)
    } else {
        None
    };
    if send.epoch != a.recovery_epoch {
        (a, None)
    } else if send.cohort_start_ms == a.cohort_start_ms {
        (LossView { cohort_naks: inc_sat(a.cohort_naks), ..a }, out)
    } else {
        match first_cohort(a.closed, |c: SendCohort| c.start_ms == send.cohort_start_ms, 0) {
            Some(k) => (
                LossView {
                    closed: a.closed.update(k, SendCohort { naks: inc_sat(a.closed[k].naks), ..a.closed[k] }),
                    ..a
                },
                out,
            ),
            None => (a, None),
        }
    }
}

/// A NAK at `now` for DATA sent at `sent`: charged to the cohort the send
/// belonged to (the open one, or the retained closed cohort whose second
/// holds `sent`), with the deadline the send had.
pub open spec fn after_data_nak(v: LossView, sent: u64, now: u64) -> (LossView, Option<LossDebit>) {
    let a = advanced(v, now);
    if sent > now {
        (a, None)
    } else {
        let start = if sent >= a.cohort_start_ms {
            Some(a.cohort_start_ms)
        } else {
            match first_cohort(
                a.closed,
                |c: SendCohort| sent >= c.start_ms && sent - c.start_ms < LOSS_COHORT_MS,
                0,
            ) {
                Some(k) => Some(a.closed[k].start_ms),
                None => None,
            }
        };
        match start {
            Some(st) => after_debit(
                a,
                LossSend {
                    epoch: a.recovery_epoch,
                    cohort_start_ms: st,
                    deadline_ms: add_sat(sent, a.latency_ms as u64),
                },
                now,
            ),
            None => (a, None),
        }
    }
}

pub open spec fn minus_if_covered(naks: u32, count: u32) -> u32 {
    if naks >= count {
        (naks - count) as u32
    } else {
        naks
    }
}

/// A pending debit of the current epoch is taken back from its cohort while
/// that cohort is open or not yet settled (never below zero).
pub open spec fn after_credit(v: LossView, debit: LossDebit, now: u64) -> LossView {
    let a = advanced(v, now);
    if debit.send.epoch != a.recovery_epoch || !debit_pending(debit, now) {
        a
    } else if debit.send.cohort_start_ms == a.cohort_start_ms {
        LossView { cohort_naks: minus_if_covered(a.cohort_naks, debit.count), ..a }
    } else {
        match first_cohort(
            a.closed,
            |c: SendCohort| c.start_ms == debit.send.cohort_start_ms && !c.settled,
            0,
        ) {
            Some(k) => LossView {
                closed: a.closed.update(
                    k,
                    SendCohort { naks: minus_if_covered(a.closed[k].naks, debit.count), ..a.closed[k] },
                ),
                ..a
            },
            None => a,
        }
    }
}

/// A qualified recovery discards all normal evidence and starts a new epoch
/// at `now`.
pub open spec fn after_recovery(v: LossView, now: u64) -> LossView {
    LossView {
        recovery_epoch: if v.recovery_epoch == u64::MAX {
            0
        } else {
            (v.recovery_epoch + 1) as u64
        },
        cohort_start_ms: now,
        cohort_sends: 0,
        cohort_naks: 0,
        cohort_settle_at_ms: now,
        closed: seq![],
        prior_last_cohort_ms: None,
        last_settlement_ms: None,
        retired: seq![],
        ..v
    }
}

/// No qualifying cohort, or the newest ended `stale_after` or more ago.
pub open spec fn evidence_stale(v: LossView, now: u64, stale_after: u64) -> bool {
    match last_cohort_end(v) {
        None => true,
        Some(end) => sub_or_zero(now, end as int) >= stale_after,
    }
}

/// A cohort with enough sends settled within the last second, and the
/// evidence is not stale.
pub open spec fn cohort_ok(v: LossView, now: u64, stale_after: u64) -> bool {
    &&& v.last_settlement_ms matches Some(at)
    &&& sub_or_zero(now, at as int) < LOSS_COHORT_MS
    &&& !evidence_stale(v, now, stale_after)
}

proof fn lemma_first_cohort(cs: Seq<SendCohort>, p: spec_fn(SendCohort) -> bool, k: int)
    requires
        0 <= k,
    ensures
        first_cohort(cs, p, k) matches Some(i) ==> k <= i < cs.len() && p(cs[i]),
    decreases cs.len() - k,
{
    if k < cs.len() && !p(cs[k]) {
        lemma_first_cohort(cs, p, k + 1);
    }
}

/// Changing a cohort's counts keeps the evidence well formed.
proof fn lemma_counts_keep_wf(v: LossView, w: LossView)
    requires
        loss_wf(v),
        w.cohort_start_ms == v.cohort_start_ms,
        w.closed.len() == v.closed.len(),
        forall|i: int| 0 <= i < v.closed.len() ==> (#[trigger] w.closed[i]).start_ms == v.closed[i].start_ms,
    ensures
        loss_wf(w),
{
    assert forall|i: int, j: int|
        #![trigger w.closed[i], w.closed[j]]
        0 <= i < j < w.closed.len() implies w.closed[i].start_ms + LOSS_COHORT_MS
        <= w.closed[j].start_ms by {
        assert(v.closed[i].start_ms + LOSS_COHORT_MS <= v.closed[j].start_ms);
    }
    assert forall|i: int| 0 <= i < w.closed.len() implies (#[trigger] w.closed[i]).start_ms
        + LOSS_COHORT_MS <= w.cohort_start_ms by {
        assert(v.closed[i].start_ms + LOSS_COHORT_MS <= v.cohort_start_ms);
    }
}

proof fn lemma_no_settles(cs: Seq<SendCohort>, now: u64, last: Option<u64>)
    requires
        forall|i: int| 0 <= i < cs.len() ==> !settles(#[trigger] cs[i], now),
    ensures
        latest_settlement(cs, now, last) == last,
    decreases cs.len(),
{
    if cs.len() > 0 {
        assert(!settles(cs[0], now));
        assert forall|i: int| 0 <= i < cs.drop_first().len() implies !settles(
            #[trigger] cs.drop_first()[i],
            now,
        ) by {
            assert(cs.drop_first()[i] == cs[i + 1]);
        }
        lemma_no_settles(cs.drop_first(), now, last);
    }
}

/// Advancing twice to the same time is advancing once.
pub proof fn lemma_advance_idempotent(v: LossView, now: u64)
    ensures
        advanced(advanced(v, now), now) == advanced(v, now),
{
    let r = rolled(v, now);
    let a = advanced(v, now);
    let elapsed = sub_or_zero(now, v.cohort_start_ms as int);
    if elapsed >= LOSS_COHORT_MS {
        vstd::arithmetic::div_mod::lemma_fundamental_div_mod(elapsed, LOSS_COHORT_MS as int);
    }
    assert(rolled(a, now) == a);
    let s = settled_all(r.closed, now);
    let n = aged_prefix(s, now) as int;
    lemma_aged_prefix_bound(s, now);
    assert forall|i: int| 0 <= i < a.closed.len() implies !settles(#[trigger] a.closed[i], now) by {
        assert(a.closed[i] == s[i + n]);
    }
    lemma_no_settles(a.closed, now, a.last_settlement_ms);
    assert(settled_all(a.closed, now) =~= a.closed);
    if a.closed.len() > 0 {
        lemma_aged_prefix_next(s, now, n);
        assert(a.closed[0] == s[n]);
    }
    assert(aged_prefix(a.closed, now) == 0);
    assert(a.closed.take(0) =~= Seq::<SendCohort>::empty());
    assert(a.closed.skip(0) =~= a.closed);
    assert(a.retired + Seq::<(u32, u32)>::empty() =~= a.retired);
}

proof fn lemma_same_shape_same_end(cs: Seq<SendCohort>, ds: Seq<SendCohort>, prior: Option<u64>)
    requires
        cs.len() == ds.len(),
        forall|i: int|
            0 <= i < cs.len() ==> (#[trigger] cs[i]).start_ms == ds[i].start_ms && cs[i].settled
                == ds[i].settled && cs[i].sends == ds[i].sends,
    ensures
        last_qualified_end(cs, prior) == last_qualified_end(ds, prior),
    decreases cs.len(),
{
    if cs.len() > 0 {
        let n = cs.len() - 1;
        assert(cs.last() == cs[n]);
        assert(ds.last() == ds[n]);
        lemma_same_shape_same_end(cs.drop_last(), ds.drop_last(), prior);
    }
}

/// Late NAK feedback, and credits taken back, correct the counts of the
/// retained history but never move the date of the loss evidence.
pub proof fn lemma_feedback_keeps_evidence_date(v: LossView, sent: u64, debit: LossDebit, now: u64)
    ensures
        last_cohort_end(after_data_nak(v, sent, now).0) == last_cohort_end(advanced(v, now)),
        last_cohort_end(after_credit(v, debit, now)) == last_cohort_end(advanced(v, now)),
{
    let a = advanced(v, now);
    lemma_advance_idempotent(v, now);
    lemma_advance_idempotent(a, now);
    let w = after_data_nak(v, sent, now).0;
    if sent <= now {
        let start = if sent >= a.cohort_start_ms {
            Some(a.cohort_start_ms)
        } else {
            match first_cohort(
                a.closed,
                |c: SendCohort| sent >= c.start_ms && sent - c.start_ms < LOSS_COHORT_MS,
                0,
            ) {
                Some(k) => Some(a.closed[k].start_ms),
                None => None,
            }
        };
        if let Some(st) = start {
            if st != a.cohort_start_ms {
                lemma_first_cohort(a.closed, |c: SendCohort| c.start_ms == st, 0);
            }
        }
    }
    assert(w.closed.len() == a.closed.len());
    lemma_same_shape_same_end(w.closed, a.closed, a.prior_last_cohort_ms);
    let u = after_credit(v, debit, now);
    lemma_first_cohort(
        a.closed,
        |c: SendCohort| c.start_ms == debit.send.cohort_start_ms && !c.settled,
        0,
    );
    assert(u.closed.len() == a.closed.len());
    lemma_same_shape_same_end(u.closed, a.closed, a.prior_last_cohort_ms);
}

proof fn lemma_rolled_wf(v: LossView, now: u64)
    requires
        loss_wf(v),
        now + LOSS_COHORT_MS <= u64::MAX,
    ensures
        ({
            let r = rolled(v, now);
            &&& r.cohort_start_ms + LOSS_COHORT_MS <= u64::MAX
            &&& forall|i: int|
                0 <= i < r.closed.len() ==> (#[trigger] r.closed[i]).start_ms + LOSS_COHORT_MS
                    <= r.cohort_start_ms
            &&& spaced(r.closed)
            &&& (r.closed.len() > v.closed.len() ==> r.cohort_start_ms <= now)
            &&& r.closed.len() <= v.closed.len() + 1
        }),
{
    let r = rolled(v, now);
    let elapsed = sub_or_zero(now, v.cohort_start_ms as int);
    if elapsed >= LOSS_COHORT_MS {
        let e = elapsed;
        vstd::arithmetic::div_mod::lemma_fundamental_div_mod(e, LOSS_COHORT_MS as int);
        assert(e / 1000 >= 1) by (nonlinear_arith)
            requires
                e >= 1000,
        ;
        assert(1000 * (e / 1000) >= 1000) by (nonlinear_arith)
            requires
                e / 1000 >= 1,
        ;
        assert(r.cohort_start_ms >= v.cohort_start_ms + LOSS_COHORT_MS);
        if v.cohort_sends > 0 {
            let n = v.closed.len() as int;
            assert(r.closed[n].start_ms == v.cohort_start_ms);
            assert forall|i: int, j: int|
                #![trigger r.closed[i], r.closed[j]]
                0 <= i < j < r.closed.len() implies r.closed[i].start_ms + LOSS_COHORT_MS
                <= r.closed[j].start_ms by {
                if j == n {
                    assert(v.closed[i] == r.closed[i]);
                } else {
                    assert(v.closed[i] == r.closed[i]);
                    assert(v.closed[j] == r.closed[j]);
                }
            }
            assert forall|i: int|
                0 <= i < r.closed.len() implies (#[trigger] r.closed[i]).start_ms
                + LOSS_COHORT_MS <= r.cohort_start_ms by {
                if i < n {
                    assert(v.closed[i] == r.closed[i]);
                }
            }
        }
    }
}

/// The history never holds more than ten closed cohorts, and every advance
/// keeps the evidence well formed.
pub proof fn lemma_advance_wf(v: LossView, now: u64)
    requires
        loss_wf(v),
        now + LOSS_COHORT_MS <= u64::MAX,
    ensures
        loss_wf(advanced(v, now)),
        advanced(v, now).closed.len() <= LOSS_HISTORY_COHORTS,
{
    lemma_rolled_wf(v, now);
    let r = rolled(v, now);
    let s = settled_all(r.closed, now);
    let n = aged_prefix(s, now) as int;
    lemma_aged_prefix_bound(s, now);
    let out = s.skip(n);
    assert forall|i: int| 0 <= i < s.len() implies (#[trigger] s[i]).start_ms == r.closed[i].start_ms by {}
    assert forall|i: int, j: int|
        #![trigger out[i], out[j]]
        0 <= i < j < out.len() implies out[i].start_ms + LOSS_COHORT_MS <= out[j].start_ms by {
        assert(out[i] == s[i + n]);
        assert(out[j] == s[j + n]);
        assert(r.closed[i + n].start_ms + LOSS_COHORT_MS <= r.closed[j + n].start_ms);
    }
    assert forall|i: int|
        0 <= i < out.len() implies (#[trigger] out[i]).start_ms + LOSS_COHORT_MS
        <= r.cohort_start_ms by {
        assert(out[i] == s[i + n]);
        assert(r.closed[i + n].start_ms + LOSS_COHORT_MS <= r.cohort_start_ms);
    }
    if r.closed.len() > v.closed.len() {
        let lo = now - (LOSS_COHORT_MS + LOSS_HISTORY_MS);
        lemma_aged_prefix(s, now, n);
        assert forall|i: int|
            0 <= i < out.len() implies lo < (#[trigger] out[i]).start_ms <= lo
            + LOSS_HISTORY_MS by {
            assert(out[i] == s[i + n]);
            assert(r.closed[i + n].start_ms + LOSS_COHORT_MS <= r.cohort_start_ms);
            assert(out.len() > 0);
            assert(out[0] == s[n]);
            assert(!aged_out(s[n], now)) by {
                if aged_out(s[n], now) {
                    lemma_aged_prefix_next(s, now, n);
                }
            }
            if i > 0 {
                assert(r.closed[n].start_ms + LOSS_COHORT_MS <= r.closed[i + n].start_ms);
            }
        }
        lemma_spaced_count(out, lo);
    } else {
        assert(out.len() <= r.closed.len());
    }
}

proof fn lemma_aged_prefix_bound(cs: Seq<SendCohort>, now: u64)
    ensures
        aged_prefix(cs, now) <= cs.len(),
    decreases cs.len(),
{
    if cs.len() > 0 {
        lemma_aged_prefix_bound(cs.drop_first(), now);
    }
}

proof fn lemma_aged_prefix_next(cs: Seq<SendCohort>, now: u64, k: int)
    requires
        0 <= k == aged_prefix(cs, now) < cs.len(),
    ensures
        !aged_out(cs[k], now),
{
    lemma_aged_prefix(cs, now, k);
    assert(cs.skip(k)[0] == cs[k]);
}

/// Put `c` in place of the cohort at `k`.
fn replace_at(cs: &mut VecDeque<SendCohort>, k: usize, c: SendCohort)
    requires
        k < old(cs)@.len(),
    ensures
        final(cs)@ == old(cs)@.update(k as int, c),
{
    let _ = cs.remove(k);
    cs.insert(k, c);
    proof {
        assert(cs@ =~= old(cs)@.update(k as int, c));
    }
}

impl LossTracker {
    /// Move time to `now_ms`: the open cohort rolls over once a full second of
    /// it elapsed, due cohorts settle, and cohorts ten seconds past their end
    /// leave the history.
    pub fn advance(&mut self, now_ms: u64)
        requires
            loss_wf(old(self)@),
            now_ms + LOSS_COHORT_MS <= u64::MAX,
        ensures
            final(self)@ == advanced(old(self)@, now_ms),
            loss_wf(final(self)@),
    {
        let ghost v = self@;
        let elapsed = now_ms.saturating_sub(self.cohort_start_ms);
        if elapsed >= LOSS_COHORT_MS {
            if self.cohort_sends > 0 {
                let end = self.cohort_start_ms + LOSS_COHORT_MS;
                let settle_at_ms = if self.cohort_settle_at_ms >= end {
                    self.cohort_settle_at_ms
                } else {
                    end
                };
                self.closed.push_back(
                    SendCohort {
                        start_ms: self.cohort_start_ms,
                        sends: self.cohort_sends,
                        naks: self.cohort_naks,
                        settle_at_ms,
                        settled: false,
                    },
                );
            }
            let start = now_ms - elapsed % LOSS_COHORT_MS;
            proof {
                let e = elapsed as int;
                vstd::arithmetic::div_mod::lemma_fundamental_div_mod(e, LOSS_COHORT_MS as int);
                assert(e / 1000 >= 1) by (nonlinear_arith)
                    requires
                        e >= 1000,
                ;
                assert(1000 * (e / 1000) >= 1000) by (nonlinear_arith)
                    requires
                        e / 1000 >= 1,
                ;
            }
            self.cohort_start_ms = start;
            self.cohort_sends = 0;
            self.cohort_naks = 0;
            self.cohort_settle_at_ms = start;
        }
        let ghost r = self@;
        assert(r == rolled(v, now_ms));
        let mut closed: VecDeque<SendCohort> = VecDeque::new();
        std::mem::swap(&mut closed, &mut self.closed);
        // Due cohorts settle.
        let mut last = self.last_settlement_ms;
        let mut i: usize = 0;
        proof {
            assert(r.closed.skip(0) =~= r.closed);
        }
        while i < closed.len()
            invariant
                i <= closed@.len(),
                closed@.len() == r.closed.len(),
                forall|k: int| 0 <= k < i ==> closed@[k] == settle(r.closed[k], now_ms),
                forall|k: int| i <= k < r.closed.len() ==> closed@[k] == r.closed[k],
                latest_settlement(r.closed, now_ms, r.last_settlement_ms) == latest_settlement(
                    r.closed.skip(i as int),
                    now_ms,
                    last,
                ),
            decreases r.closed.len() - i,
        {
            let c = closed[i];
            proof {
                assert(r.closed.skip(i as int)[0] == c);
                assert(r.closed.skip(i as int).drop_first() =~= r.closed.skip(i + 1));
            }
            if !c.settled && now_ms >= c.settle_at_ms {
                if c.sends >= LOSS_COHORT_MIN_SENDS {
                    last = Some(
                        match last {
                            Some(l) => if l >= c.settle_at_ms {
                                l
                            } else {
                                c.settle_at_ms
                            },
                            None => c.settle_at_ms,
                        },
                    );
                }
                replace_at(&mut closed, i, SendCohort { settled: true, ..c });
            }
            i += 1;
        }
        proof {
            assert(r.closed.skip(r.closed.len() as int) =~= Seq::<SendCohort>::empty());
            assert(closed@ =~= settled_all(r.closed, now_ms));
        }
        // Aged cohorts leave the history.
        let ghost s = closed@;
        let ghost n = aged_prefix(s, now_ms) as int;
        let mut retired: Vec<(u32, u32)> = Vec::new();
        std::mem::swap(&mut retired, &mut self.retired);
        let mut prior = self.prior_last_cohort_ms;
        let mut k: usize = 0;
        proof {
            lemma_rolled_wf(v, now_ms);
            lemma_aged_prefix_bound(s, now_ms);
            assert(s.skip(0) =~= s);
            assert(s.take(0) =~= Seq::<SendCohort>::empty());
            assert forall|j: int| 0 <= j < s.len() implies (#[trigger] s[j]).start_ms
                + LOSS_COHORT_MS <= u64::MAX by {
                assert(s[j].start_ms == r.closed[j].start_ms);
            }
        }
        while closed.len() > 0 && now_ms.saturating_sub(closed[0].start_ms + LOSS_COHORT_MS)
            >= LOSS_HISTORY_MS
            invariant
                0 <= k <= n,
                n == aged_prefix(s, now_ms),
                n <= s.len(),
                s.len() <= LOSS_HISTORY_COHORTS + 1,
                closed@ == s.skip(k as int),
                forall|j: int|
                    0 <= j < closed@.len() ==> (#[trigger] closed@[j]).start_ms + LOSS_COHORT_MS
                        <= u64::MAX,
                prior == last_qualified_end(s.take(k as int), r.prior_last_cohort_ms),
                retired@ == r.retired + qualified_samples(s.take(k as int)),
            decreases s.len() - k,
        {
            proof {
                lemma_aged_prefix(s, now_ms, k as int);
                assert(s.skip(k as int)[0] == s[k as int]);
                assert(closed@[0] == s[k as int]);
                assert(aged_out(s[k as int], now_ms));
                if k == n {
                    lemma_aged_prefix_next(s, now_ms, k as int);
                }
                assert(k < n);
                lemma_take_step(s, k as int, r.prior_last_cohort_ms);
            }
            let c = closed.pop_front().unwrap();
            if c.settled && c.sends >= LOSS_COHORT_MIN_SENDS {
                retired.push((c.naks, c.sends));
                prior = Some(c.start_ms + LOSS_COHORT_MS);
            }
            proof {
                assert(s.skip(k as int).drop_first() =~= s.skip(k + 1));
                assert(r.retired + qualified_samples(s.take(k as int)).push((c.naks, c.sends))
                    =~= (r.retired + qualified_samples(s.take(k as int))).push((c.naks, c.sends)));
            }
            k += 1;
        }
        proof {
            lemma_aged_prefix(s, now_ms, k as int);
            if k < n {
                assert(s.skip(k as int)[0] == s[k as int]);
            }
            assert(k == n);
            lemma_advance_wf(v, now_ms);
        }
        self.closed = closed;
        self.last_settlement_ms = last;
        self.retired = retired;
        self.prior_last_cohort_ms = prior;
    }
}

impl LossTracker {
    /// Evidence of a link whose first cohort opens at `now_ms`.
    pub fn new(now_ms: u64) -> (l: Self)
        requires
            now_ms + LOSS_COHORT_MS <= u64::MAX,
        ensures
            l@ == fresh_loss(now_ms),
            loss_wf(l@),
    {
        LossTracker {
            recovery_epoch: 0,
            cohort_start_ms: now_ms,
            cohort_sends: 0,
            cohort_naks: 0,
            latency_ms: UNKNOWN_LATENCY_MS,
            cohort_settle_at_ms: now_ms,
            closed: VecDeque::new(),
            prior_last_cohort_ms: None,
            last_settlement_ms: None,
            retired: Vec::new(),
        }
    }

    /// The latency that later sends' deadlines are measured with.
    pub fn set_latency_ms(&mut self, latency_ms: u32)
        ensures
            final(self)@ == (LossView { latency_ms, ..old(self)@ }),
    {
        self.latency_ms = latency_ms;
    }

    /// Count a kernel-accepted normal DATA send at `now_ms`.
    pub fn record_send(&mut self, now_ms: u64)
        requires
            loss_wf(old(self)@),
            now_ms + LOSS_COHORT_MS <= u64::MAX,
        ensures
            final(self)@ == after_accepted_send(old(self)@, now_ms).0,
            loss_wf(final(self)@),
    {
        let _ = self.record_accepted_send(now_ms);
    }

    /// Count a kernel-accepted normal DATA send at `now_ms` and return its
    /// identity, for a later NAK to be charged to.
    pub fn record_accepted_send(&mut self, now_ms: u64) -> (send: LossSend)
        requires
            loss_wf(old(self)@),
            now_ms + LOSS_COHORT_MS <= u64::MAX,
        ensures
            (final(self)@, send) == after_accepted_send(old(self)@, now_ms),
            loss_wf(final(self)@),
    {
        self.advance(now_ms);
        self.cohort_sends = self.cohort_sends.saturating_add(1);
        let deadline_ms = now_ms.saturating_add(self.latency_ms as u64);
        if deadline_ms > self.cohort_settle_at_ms {
            self.cohort_settle_at_ms = deadline_ms;
        }
        LossSend { epoch: self.recovery_epoch, cohort_start_ms: self.cohort_start_ms, deadline_ms }
    }

    fn cohort_starting_at(&self, start: u64) -> (r: Option<usize>)
        ensures
            match r {
                Some(k) => first_cohort(self@.closed, |c: SendCohort| c.start_ms == start, 0)
                    == Some(k as int),
                None => first_cohort(self@.closed, |c: SendCohort| c.start_ms == start, 0) is None,
            },
    {
        let ghost cs = self@.closed;
        let ghost p = |c: SendCohort| c.start_ms == start;
        let mut k: usize = self.closed.len();
        let mut found: Option<usize> = None;
        while k > 0
            invariant
                k <= cs.len(),
                cs == self.closed@,
                p == (|c: SendCohort| c.start_ms == start),
                match found {
                    Some(i) => first_cohort(cs, p, k as int) == Some(i as int),
                    None => first_cohort(cs, p, k as int) is None,
                },
            decreases k,
        {
            k -= 1;
            proof {
                assert(first_cohort(cs, p, k as int) == if p(cs[k as int]) {
                    Some(k as int)
                } else {
                    first_cohort(cs, p, k + 1)
                });
            }
            if self.closed[k].start_ms == start {
                found = Some(k);
            }
        }
        found
    }

    fn open_cohort_starting_at(&self, start: u64) -> (r: Option<usize>)
        ensures
            match r {
                Some(k) => first_cohort(
                    self@.closed,
                    |c: SendCohort| c.start_ms == start && !c.settled,
                    0,
                ) == Some(k as int),
                None => first_cohort(
                    self@.closed,
                    |c: SendCohort| c.start_ms == start && !c.settled,
                    0,
                ) is None,
            },
    {
        let ghost cs = self@.closed;
        let ghost p = |c: SendCohort| c.start_ms == start && !c.settled;
        let mut k: usize = self.closed.len();
        let mut found: Option<usize> = None;
        while k > 0
            invariant
                k <= cs.len(),
                cs == self.closed@,
                p == (|c: SendCohort| c.start_ms == start && !c.settled),
                match found {
                    Some(i) => first_cohort(cs, p, k as int) == Some(i as int),
                    None => first_cohort(cs, p, k as int) is None,
                },
            decreases k,
        {
            k -= 1;
            proof {
                assert(first_cohort(cs, p, k as int) == if p(cs[k as int]) {
                    Some(k as int)
                } else {
                    first_cohort(cs, p, k + 1)
                });
            }
            if self.closed[k].start_ms == start && !self.closed[k].settled {
                found = Some(k);
            }
        }
        found
    }

    fn cohort_holding(&self, sent: u64) -> (r: Option<usize>)
        ensures
            match r {
                Some(k) => first_cohort(
                    self@.closed,
                    |c: SendCohort| sent >= c.start_ms && sent - c.start_ms < LOSS_COHORT_MS,
                    0,
                ) == Some(k as int),
                None => first_cohort(
                    self@.closed,
                    |c: SendCohort| sent >= c.start_ms && sent - c.start_ms < LOSS_COHORT_MS,
                    0,
                ) is None,
            },
    {
        let ghost cs = self@.closed;
        let ghost p = |c: SendCohort| sent >= c.start_ms && sent - c.start_ms < LOSS_COHORT_MS;
        let mut k: usize = self.closed.len();
        let mut found: Option<usize> = None;
        while k > 0
            invariant
                k <= cs.len(),
                cs == self.closed@,
                p == (|c: SendCohort| sent >= c.start_ms && sent - c.start_ms < LOSS_COHORT_MS),
                match found {
                    Some(i) => first_cohort(cs, p, k as int) == Some(i as int),
                    None => first_cohort(cs, p, k as int) is None,
                },
            decreases k,
        {
            k -= 1;
            proof {
                assert(first_cohort(cs, p, k as int) == if p(cs[k as int]) {
                    Some(k as int)
                } else {
                    first_cohort(cs, p, k + 1)
                });
            }
            let c = self.closed[k];
            if sent >= c.start_ms && sent - c.start_ms < LOSS_COHORT_MS {
                found = Some(k);
            }
        }
        found
    }

    /// Charge a NAK at `now_ms` to accepted send `send`; the debit comes back
    /// while it can still be credited.
    pub fn debit_accepted_send(&mut self, send: LossSend, now_ms: u64) -> (r: Option<LossDebit>)
        requires
            loss_wf(old(self)@),
            now_ms + LOSS_COHORT_MS <= u64::MAX,
            send.cohort_start_ms + LOSS_COHORT_MS <= u64::MAX,
        ensures
            (final(self)@, r) == after_debit(old(self)@, send, now_ms),
            loss_wf(final(self)@),
    {
        self.advance(now_ms);
        if send.epoch != self.recovery_epoch {
            return None;
        }
        let ghost a = self@;
        if send.cohort_start_ms == self.cohort_start_ms {
            self.cohort_naks = self.cohort_naks.saturating_add(1);
        } else {
            let k = match self.cohort_starting_at(send.cohort_start_ms) {
                Some(k) => k,
                None => return None,
            };
            proof {
                lemma_first_cohort(a.closed, |c: SendCohort| c.start_ms == send.cohort_start_ms, 0);
            }
            let c = self.closed[k];
            replace_at(&mut self.closed, k, SendCohort { naks: c.naks.saturating_add(1), ..c });
            proof {
                lemma_counts_keep_wf(a, self@);
            }
        }
        let debit = LossDebit { send, count: 1 };
        if debit.pending_at(now_ms) {
            Some(debit)
        } else {
            None
        }
    }

    /// Charge a NAK at `now_ms` of DATA sent at `sent_ms` to the cohort that
    /// send belonged to.
    pub fn debit_data_nak(&mut self, sent_ms: u64, now_ms: u64) -> (r: Option<LossDebit>)
        requires
            loss_wf(old(self)@),
            now_ms + LOSS_COHORT_MS <= u64::MAX,
        ensures
            (final(self)@, r) == after_data_nak(old(self)@, sent_ms, now_ms),
            loss_wf(final(self)@),
    {
        self.advance(now_ms);
        if sent_ms > now_ms {
            return None;
        }
        let ghost a = self@;
        let start = if sent_ms >= self.cohort_start_ms {
            self.cohort_start_ms
        } else {
            match self.cohort_holding(sent_ms) {
                Some(k) => {
                    proof {
                        lemma_first_cohort(
                            a.closed,
                            |c: SendCohort| sent_ms >= c.start_ms && sent_ms - c.start_ms < LOSS_COHORT_MS,
                            0,
                        );
                        assert(a.closed[k as int].start_ms + LOSS_COHORT_MS <= a.cohort_start_ms);
                    }
                    self.closed[k].start_ms
                },
                None => return None,
            }
        };
        let send = LossSend {
            epoch: self.recovery_epoch,
            cohort_start_ms: start,
            deadline_ms: sent_ms.saturating_add(self.latency_ms as u64),
        };
        self.debit_accepted_send(send, now_ms)
    }

    /// A NAK at `now_ms` of DATA sent at `sent_ms`.
    pub fn record_data_nak_for_send(&mut self, sent_ms: u64, now_ms: u64)
        requires
            loss_wf(old(self)@),
            now_ms + LOSS_COHORT_MS <= u64::MAX,
        ensures
            final(self)@ == after_data_nak(old(self)@, sent_ms, now_ms).0,
            loss_wf(final(self)@),
    {
        let _ = self.debit_data_nak(sent_ms, now_ms);
    }

    /// A NAK at `now_ms` of DATA sent at that same time.
    pub fn record_data_nak(&mut self, now_ms: u64)
        requires
            loss_wf(old(self)@),
            now_ms + LOSS_COHORT_MS <= u64::MAX,
        ensures
            final(self)@ == after_data_nak(old(self)@, now_ms, now_ms).0,
            loss_wf(final(self)@),
    {
        self.record_data_nak_for_send(now_ms, now_ms);
    }

    /// Take back a debit whose packet was recovered after all.
    pub fn credit_recovered(&mut self, debit: LossDebit, now_ms: u64)
        requires
            loss_wf(old(self)@),
            now_ms + LOSS_COHORT_MS <= u64::MAX,
            debit.send.cohort_start_ms + LOSS_COHORT_MS <= u64::MAX,
        ensures
            final(self)@ == after_credit(old(self)@, debit, now_ms),
            loss_wf(final(self)@),
    {
        self.advance(now_ms);
        if debit.send.epoch != self.recovery_epoch || !debit.pending_at(now_ms) {
            return ;
        }
        let ghost a = self@;
        if debit.send.cohort_start_ms == self.cohort_start_ms {
            if self.cohort_naks >= debit.count {
                self.cohort_naks = self.cohort_naks - debit.count;
            }
        } else {
            let k = match self.open_cohort_starting_at(debit.send.cohort_start_ms) {
                Some(k) => k,
                None => return ,
            };
            proof {
                lemma_first_cohort(
                    a.closed,
                    |c: SendCohort| c.start_ms == debit.send.cohort_start_ms && !c.settled,
                    0,
                );
            }
            let c = self.closed[k];
            if c.naks >= debit.count {
                replace_at(&mut self.closed, k, SendCohort { naks: c.naks - debit.count, ..c });
            }
            proof {
                assert(self@.closed =~= a.closed.update(
                    k as int,
                    SendCohort { naks: minus_if_covered(a.closed[k as int].naks, debit.count), ..a.closed[k as int] },
                ));
                lemma_counts_keep_wf(a, self@);
            }
        }
    }

    /// A qualified recovery: all normal evidence of the outage is discarded
    /// and a new epoch opens at `now_ms`.
    pub fn begin_recovered_epoch(&mut self, now_ms: u64)
        requires
            now_ms + LOSS_COHORT_MS <= u64::MAX,
        ensures
            final(self)@ == after_recovery(old(self)@, now_ms),
            loss_wf(final(self)@),
    {
        self.recovery_epoch = self.recovery_epoch.wrapping_add(1);
        self.prior_last_cohort_ms = None;
        self.closed.clear();
        self.retired.clear();
        self.last_settlement_ms = None;
        self.cohort_start_ms = now_ms;
        self.cohort_sends = 0;
        self.cohort_naks = 0;
        self.cohort_settle_at_ms = now_ms;
        proof {
            assert(self.closed@ =~= Seq::<SendCohort>::empty());
            assert(self.retired@ =~= Seq::<(u32, u32)>::empty());
        }
    }

    /// End of the newest qualifying cohort, the date of the loss evidence.
    pub fn last_cohort_ms(&self) -> (r: Option<u64>)
        requires
            loss_wf(self@),
        ensures
            r == last_cohort_end(self@),
    {
        let ghost cs = self@.closed;
        let mut n: usize = self.closed.len();
        proof {
            assert(cs.take(n as int) =~= cs);
            assert forall|i: int| 0 <= i < cs.len() implies (#[trigger] cs[i]).start_ms
                + LOSS_COHORT_MS <= u64::MAX by {
                assert(self@.closed[i].start_ms + LOSS_COHORT_MS <= self@.cohort_start_ms);
            }
        }
        while n > 0
            invariant
                n <= cs.len(),
                cs == self.closed@,
                last_cohort_end(self@) == last_qualified_end(cs.take(n as int), self.prior_last_cohort_ms),
                forall|i: int| 0 <= i < cs.len() ==> (#[trigger] cs[i]).start_ms + LOSS_COHORT_MS <= u64::MAX,
            decreases n,
        {
            let c = self.closed[n - 1];
            proof {
                let t = cs.take(n as int);
                assert(t.last() == c);
                assert(t.drop_last() =~= cs.take(n - 1));
            }
            if c.settled && c.sends >= LOSS_COHORT_MIN_SENDS {
                return Some(c.start_ms + LOSS_COHORT_MS);
            }
            n -= 1;
        }
        self.prior_last_cohort_ms
    }

    /// Whether the loss evidence is missing or `stale_after_ms` old.
    pub fn is_stale(&self, now_ms: u64, stale_after_ms: u64) -> (b: bool)
        requires
            loss_wf(self@),
        ensures
            b == evidence_stale(self@, now_ms, stale_after_ms),
    {
        match self.last_cohort_ms() {
            Some(end) => now_ms.saturating_sub(end) >= stale_after_ms,
            None => true,
        }
    }

    /// Whether fresh settled evidence may authorize a loss verdict.
    pub fn loss_cohort_ok(&self, now_ms: u64, stale_after_ms: u64) -> (b: bool)
        requires
            loss_wf(self@),
        ensures
            b == cohort_ok(self@, now_ms, stale_after_ms),
    {
        match self.last_settlement_ms {
            Some(at) => now_ms.saturating_sub(at) < LOSS_COHORT_MS && !self.is_stale(
                now_ms,
                stale_after_ms,
            ),
            None => false,
        }
    }

    /// `(naks, sends)` of the retained qualifying cohorts, oldest first.
    pub fn samples(&self) -> (r: Vec<(u32, u32)>)
        ensures
            r@ == qualified_samples(self@.closed),
    {
        let ghost cs = self@.closed;
        let mut out: Vec<(u32, u32)> = Vec::new();
        let mut i: usize = 0;
        proof {
            assert(cs.take(0) =~= Seq::<SendCohort>::empty());
        }
        while i < self.closed.len()
            invariant
                i <= cs.len(),
                cs == self.closed@,
                out@ == qualified_samples(cs.take(i as int)),
            decreases cs.len() - i,
        {
            let c = self.closed[i];
            proof {
                lemma_take_step(cs, i as int, None);
            }
            if c.settled && c.sends >= LOSS_COHORT_MIN_SENDS {
                out.push((c.naks, c.sends));
            }
            i += 1;
        }
        proof {
            assert(cs.take(cs.len() as int) =~= cs);
        }
        out
    }

    /// Hand out the qualifying cohorts that left the history since the last
    /// call, oldest first.
    pub fn take_retired(&mut self) -> (r: Vec<(u32, u32)>)
        ensures
            r@ == old(self)@.retired,
            final(self)@ == (LossView { retired: seq![], ..old(self)@ }),
    {
        let mut out: Vec<(u32, u32)> = Vec::new();
        std::mem::swap(&mut out, &mut self.retired);
        proof {
            assert(self.retired@ =~= Seq::<(u32, u32)>::empty());
        }
        out
    }

    /// Closed cohorts retained.
    pub fn history_len(&self) -> (n: usize)
        ensures
            n == self@.closed.len(),
    {
        self.closed.len()
    }
}

/// Cohorts are whole seconds and their boundary belongs to the next one:
/// before a full second has elapsed the open cohort stays as it is; from the
/// exact second on it closes (kept as closed history when it counted a
/// send) and the cohort that `now` falls in opens, a whole number of seconds
/// after the old start, with nothing counted yet.
pub proof fn lemma_cohort_boundary(v: LossView, now: u64)
    requires
        v.cohort_start_ms <= now,
    ensures
        now - v.cohort_start_ms < LOSS_COHORT_MS ==> rolled(v, now) == v,
        now - v.cohort_start_ms >= LOSS_COHORT_MS ==> {
            let r = rolled(v, now);
            &&& v.cohort_start_ms < r.cohort_start_ms <= now < r.cohort_start_ms + LOSS_COHORT_MS
            &&& (r.cohort_start_ms - v.cohort_start_ms) % (LOSS_COHORT_MS as int) == 0
            &&& r.cohort_sends == 0
            &&& r.cohort_naks == 0
            &&& (v.cohort_sends > 0 ==> r.closed == v.closed.push(
                SendCohort {
                    start_ms: v.cohort_start_ms,
                    sends: v.cohort_sends,
                    naks: v.cohort_naks,
                    settle_at_ms: max_u64(
                        v.cohort_settle_at_ms,
                        (v.cohort_start_ms + LOSS_COHORT_MS) as u64,
                    ),
                    settled: false,
                },
            ))
            &&& (v.cohort_sends == 0 ==> r.closed == v.closed)
        },
{
    let elapsed = now - v.cohort_start_ms;
    if elapsed >= LOSS_COHORT_MS {
        let m = LOSS_COHORT_MS as int;
        vstd::arithmetic::div_mod::lemma_fundamental_div_mod(elapsed, m);
        let q = elapsed / m;
        let rem = elapsed % m;
        assert(0 <= rem < m);
        assert(q >= 1) by {
            if q <= 0 {
                assert(m * q <= 0) by (nonlinear_arith)
                    requires
                        q <= 0,
                        m > 0,
                ;
            }
        }
        assert(m * q >= m) by (nonlinear_arith)
            requires
                q >= 1,
                m > 0,
        ;
        let start = now - rem;
        assert(start - v.cohort_start_ms == m * q);
        vstd::arithmetic::div_mod::lemma_mod_multiples_basic(q, m);
        assert((m * q) % m == 0) by {
            vstd::arithmetic::mul::lemma_mul_is_commutative(m, q);
        }
    }
}

} // verus!
