//! Bond-wide probe pacing: a one-token bucket that spends its token on trains
//! of copies sent over links the selector is holding back.
use vstd::prelude::*;

use super::health::HealthState;

verus! {

/// Ceiling on probe copies per second, across the whole bond.
pub const PROBE_MAX_PPS: u32 = 10;
/// Copies in one probe train.
pub const PROBE_TRAIN_LEN: u8 = 10;
/// Capacity of the per-socket probe log.
pub const PROBE_LOG_CAPACITY: usize = 256;

/// A link as the probe scheduler sees it.
#[derive(Clone, Copy, Debug)]
pub struct ProbeTarget {
    pub conn_id: u64,
    pub socket_generation: u32,
    pub health: HealthState,
    pub deadline_held: bool,
    pub sole_carrier: bool,
    pub srtt_ms: u64,
}

/// A link may be probed when it is not down and not the sole carrier, and it
/// is held back either by its health (stalled or degraded) or by the deadline
/// gate.
pub open spec fn is_eligible(t: ProbeTarget) -> bool {
    &&& !t.sole_carrier
    &&& t.health != HealthState::Down
    &&& (t.health == HealthState::Stalled || t.health == HealthState::Degraded || t.deadline_held)
}

impl ProbeTarget {
    pub fn eligible(self) -> (b: bool)
        ensures
            b == is_eligible(self),
    {
        let held_by_health = match self.health {
            HealthState::Stalled | HealthState::Degraded => true,
            HealthState::Healthy | HealthState::Rejoining | HealthState::Down => false,
        };
        let down = match self.health {
            HealthState::Down => true,
            _ => false,
        };
        !down && !self.sole_carrier && (held_by_health || self.deadline_held)
    }
}

/// One probe train: its identity, start and acknowledgement deadline.
#[derive(Clone, Copy, Debug, PartialEq, Eq, Structural)]
pub struct ProbeTrain {
    pub id: u64,
    pub started_ms: u64,
    pub deadline_ms: u64,
}

/// Where the next probe copy goes.
#[derive(Clone, Copy, Debug, PartialEq, Eq, Structural)]
pub struct ProbeDispatch {
    pub conn_id: u64,
    pub socket_generation: u32,
    pub train: ProbeTrain,
}

/// The bond-wide probe pacer. Its bucket holds one token (1000 credit units),
/// refilled at `rate` units per millisecond, so probes never burst, even
/// after a long idle period.
#[derive(Debug)]
pub struct ProbeScheduler {
    rate: u32,
    credit: u64,
    last_ms: Option<u64>,
    active: Option<(ProbeDispatch, u8)>,
    last_link: Option<u64>,
    next_train: u64,
}

/// Abstract value of the pacer.
pub struct SchedulerView {
    /// Copies per second allowed.
    pub rate: u32,
    /// Credit units in the bucket (1000 is one probe).
    pub credit: u64,
    /// When the bucket was last refilled.
    pub last_ms: Option<u64>,
    /// The running train and how many of its copies went out.
    pub active: Option<(ProbeDispatch, u8)>,
    /// The link that ran the previous train.
    pub last_link: Option<u64>,
    /// Id of the most recent train.
    pub next_train: u64,
}

impl View for ProbeScheduler {
    type V = SchedulerView;

    closed spec fn view(&self) -> SchedulerView {
        SchedulerView {
            rate: self.rate,
            credit: self.credit,
            last_ms: self.last_ms,
            active: self.active,
            last_link: self.last_link,
            next_train: self.next_train,
        }
    }
}

/// The pacer's invariant: the rate never exceeds the bond-wide ceiling, the
/// bucket never holds more than one token, and a running train has copies
/// left to send.
pub open spec fn probe_wf(s: SchedulerView) -> bool {
    &&& s.rate <= PROBE_MAX_PPS
    &&& s.credit <= 1000
    &&& (s.active matches Some((_, sent)) ==> sent < PROBE_TRAIN_LEN)
}

/// The bucket after refilling for the time since the last offer.
pub open spec fn refilled(credit: u64, last: Option<u64>, rate: u32, now: u64) -> u64 {
    match last {
        Some(l) => {
            let gained: int = if now > l { (now - l) * rate } else { 0 };
            if credit + gained >= 1000 {
                1000
            } else {
                (credit + gained) as u64
            }
        },
        None => credit,
    }
}

/// `t` is still the eligible link, on the same socket, that `d` names.
pub open spec fn serves(t: ProbeTarget, d: ProbeDispatch) -> bool {
    t.conn_id == d.conn_id && t.socket_generation == d.socket_generation && is_eligible(t)
}

/// A running train continues while its deadline has not passed and its link
/// is still offered and eligible on the same socket.
pub open spec fn train_continues(d: ProbeDispatch, ts: Seq<ProbeTarget>, now: u64) -> bool {
    now <= d.train.deadline_ms && exists|i: int| 0 <= i < ts.len() && #[trigger] serves(ts[i], d)
}

/// The first index at or after `k` whose link has id `id`.
pub open spec fn first_with_id(ts: Seq<ProbeTarget>, id: u64, k: int) -> Option<int>
    decreases ts.len() - k,
{
    if k < 0 || k >= ts.len() {
        None
    } else if ts[k].conn_id == id {
        Some(k)
    } else {
        first_with_id(ts, id, k + 1)
    }
}

/// Where the search for the next train starts: just after the link that ran
/// the previous train, so whole trains rotate over the held links.
pub open spec fn rotation_start(last_link: Option<u64>, ts: Seq<ProbeTarget>) -> int {
    match last_link {
        Some(id) => match first_with_id(ts, id, 0) {
            Some(p) => p + 1,
            None => 0,
        },
        None => 0,
    }
}

/// The first eligible link in rotation order, trying offsets `n..len`.
pub open spec fn pick_from(ts: Seq<ProbeTarget>, start: int, n: int) -> Option<int>
    decreases ts.len() - n,
{
    if n < 0 || n >= ts.len() {
        None
    } else if is_eligible(ts[(start + n) % (ts.len() as int)]) {
        Some((start + n) % (ts.len() as int))
    } else {
        pick_from(ts, start, n + 1)
    }
}

/// How many offered links are eligible.
pub open spec fn eligible_count(ts: Seq<ProbeTarget>) -> nat
    decreases ts.len(),
{
    if ts.len() == 0 {
        0
    } else {
        eligible_count(ts.drop_last()) + if is_eligible(ts.last()) {
            1nat
        } else {
            0nat
        }
    }
}

/// A new train's deadline: two seconds per held link plus the link's smoothed
/// RTT, saturating at `u64::MAX`.
pub open spec fn train_deadline(now: u64, held: nat, srtt_ms: u64) -> u64 {
    let d = now + held * 2000 + srtt_ms;
    if d > u64::MAX {
        u64::MAX
    } else {
        d as u64
    }
}

/// Spend the token on the next copy of train `d`, of which `sent` copies have
/// gone out; the train ends with its last copy.
pub open spec fn spend(s: SchedulerView, d: ProbeDispatch, sent: u8) -> (
    SchedulerView,
    Option<ProbeDispatch>,
) {
    let credit = (s.credit - 1000) as u64;
    if sent + 1 == PROBE_TRAIN_LEN {
        (SchedulerView { credit, active: None, last_link: Some(d.conn_id), ..s }, Some(d))
    } else {
        (SchedulerView { credit, active: Some((d, (sent + 1) as u8)), ..s }, Some(d))
    }
}

/// One offer of DATA at `now` over the links `ts`: the new scheduler and the
/// probe copy, if any, that the offer carries.
pub open spec fn probe_step(s: SchedulerView, ts: Seq<ProbeTarget>, now: u64) -> (
    SchedulerView,
    Option<ProbeDispatch>,
) {
    if s.rate == 0 {
        (s, None)
    } else {
        let credit = refilled(s.credit, s.last_ms, s.rate, now);
        let s1 = SchedulerView { credit, last_ms: Some(now), ..s };
        if credit < 1000 {
            (s1, None)
        } else {
            let s2 = match s1.active {
                Some((d, _)) => if train_continues(d, ts, now) {
                    s1
                } else {
                    SchedulerView { active: None, ..s1 }
                },
                None => s1,
            };
            match s2.active {
                Some((d, sent)) => spend(s2, d, sent),
                None => match pick_from(ts, rotation_start(s2.last_link, ts), 0) {
                    None => (s2, None),
                    Some(i) => {
                        let t = ts[i];
                        let id = (if s2.next_train == u64::MAX {
                            0
                        } else {
                            s2.next_train + 1
                        }) as u64;
                        let d = ProbeDispatch {
                            conn_id: t.conn_id,
                            socket_generation: t.socket_generation,
                            train: ProbeTrain {
                                id,
                                started_ms: now,
                                deadline_ms: train_deadline(now, eligible_count(ts), t.srtt_ms),
                            },
                        };
                        spend(SchedulerView { next_train: id, ..s2 }, d, 0)
                    },
                },
            }
        }
    }
}

proof fn lemma_pick_from_eligible(ts: Seq<ProbeTarget>, start: int, n: int)
    requires
        start >= 0,
    ensures
        pick_from(ts, start, n) matches Some(i) ==> 0 <= i < ts.len() && is_eligible(ts[i]),
    decreases ts.len() - n,
{
    if 0 <= n < ts.len() && !is_eligible(ts[(start + n) % (ts.len() as int)]) {
        lemma_pick_from_eligible(ts, start, n + 1);
    }
}

proof fn lemma_first_with_id_bound(ts: Seq<ProbeTarget>, id: u64, k: int)
    ensures
        first_with_id(ts, id, k) matches Some(p) ==> 0 <= p < ts.len() && ts[p].conn_id == id,
    decreases ts.len() - k,
{
    if 0 <= k < ts.len() && ts[k].conn_id != id {
        lemma_first_with_id_bound(ts, id, k + 1);
    }
}

impl Default for ProbeScheduler {
    fn default() -> (s: Self)
        ensures
            probe_wf(s@),
            s@.rate == PROBE_MAX_PPS,
            s@.credit == 1000,
            s@.last_ms is None,
            s@.active is None,
            s@.last_link is None,
            s@.next_train == 0,
    {
        Self::with_rate(PROBE_MAX_PPS)
    }
}

impl ProbeScheduler {
    /// A scheduler with a full bucket; a rate above the bond-wide ceiling is
    /// clamped to it, and a zero rate never probes.
    pub fn with_rate(rate: u32) -> (s: Self)
        ensures
            probe_wf(s@),
            s@.rate == (if rate > PROBE_MAX_PPS {
                PROBE_MAX_PPS
            } else {
                rate
            }),
            s@.credit == 1000,
            s@.last_ms is None,
            s@.active is None,
            s@.last_link is None,
            s@.next_train == 0,
    {
        ProbeScheduler {
            rate: if rate > PROBE_MAX_PPS {
                PROBE_MAX_PPS
            } else {
                rate
            },
            credit: 1000,
            last_ms: None,
            active: None,
            last_link: None,
            next_train: 0,
        }
    }

    fn find_id(targets: &[ProbeTarget], id: u64) -> (r: Option<usize>)
        ensures
            r matches Some(p) ==> first_with_id(targets@, id, 0) == Some(p as int),
            r is None ==> first_with_id(targets@, id, 0) is None,
    {
        let mut k: usize = targets.len();
        let mut found: Option<usize> = None;
        while k > 0
            invariant
                k <= targets@.len(),
                found matches Some(p) ==> first_with_id(targets@, id, k as int) == Some(p as int),
                found is None ==> first_with_id(targets@, id, k as int) is None,
            decreases k,
        {
            k -= 1;
            if targets[k].conn_id == id {
                found = Some(k);
            }
        }
        found
    }

    fn pick(targets: &[ProbeTarget], start: usize) -> (r: Option<usize>)
        requires
            targets@.len() > 0,
        ensures
            r matches Some(i) ==> pick_from(targets@, start as int, 0) == Some(i as int),
            r is None ==> pick_from(targets@, start as int, 0) is None,
    {
        let len = targets.len();
        let mut n: usize = len;
        let mut found: Option<usize> = None;
        while n > 0
            invariant
                n <= len,
                len == targets@.len(),
                len > 0,
                found matches Some(i) ==> pick_from(targets@, start as int, n as int) == Some(
                    i as int,
                ),
                found is None ==> pick_from(targets@, start as int, n as int) is None,
            decreases n,
        {
            n -= 1;
            let idx = ((start as u128 + n as u128) % (len as u128)) as usize;
            if targets[idx].eligible() {
                found = Some(idx);
            }
        }
        found
    }

    fn count_eligible(targets: &[ProbeTarget]) -> (c: u64)
        ensures
            c == eligible_count(targets@),
    {
        let mut c: u64 = 0;
        let mut i: usize = 0;
        while i < targets.len()
            invariant
                i <= targets@.len(),
                c == eligible_count(targets@.take(i as int)),
                c <= i,
            decreases targets@.len() - i,
        {
            proof {
                assert(targets@.take(i + 1).drop_last() == targets@.take(i as int));
            }
            if targets[i].eligible() {
                c += 1;
            }
            i += 1;
        }
        proof {
            assert(targets@.take(targets@.len() as int) == targets@);
        }
        c
    }

    fn continues(d: ProbeDispatch, targets: &[ProbeTarget], now_ms: u64) -> (b: bool)
        ensures
            b == train_continues(d, targets@, now_ms),
    {
        if now_ms > d.train.deadline_ms {
            return false;
        }
        let mut i: usize = 0;
        while i < targets.len()
            invariant
                i <= targets@.len(),
                now_ms <= d.train.deadline_ms,
                forall|k: int| 0 <= k < i ==> !serves(#[trigger] targets@[k], d),
            decreases targets@.len() - i,
        {
            let t = targets[i];
            if t.conn_id == d.conn_id && t.socket_generation == d.socket_generation
                && t.eligible() {
                proof {
                    assert(serves(targets@[i as int], d));
                }
                return true;
            }
            i += 1;
        }
        false
    }

    fn spend_exec(&mut self, d: ProbeDispatch, sent: u8) -> (r: Option<ProbeDispatch>)
        requires
            old(self).credit >= 1000,
            sent < PROBE_TRAIN_LEN,
        ensures
            (final(self)@, r) == spend(old(self)@, d, sent),
    {
        let sent1 = sent + 1;
        if sent1 == PROBE_TRAIN_LEN {
            self.last_link = Some(d.conn_id);
            self.active = None;
        } else {
            self.active = Some((d, sent1));
        }
        self.credit = self.credit - 1000;
        Some(d)
    }

    /// Offer one DATA packet at `now_ms`; returns where a probe copy of it
    /// goes, if the bucket holds a token and some link is eligible.
    pub fn next(&mut self, targets: &[ProbeTarget], now_ms: u64) -> (r: Option<ProbeDispatch>)
        requires
            probe_wf(old(self)@),
        ensures
            (final(self)@, r) == probe_step(old(self)@, targets@, now_ms),
            probe_wf(final(self)@),
    {
        if self.rate == 0 {
            return None;
        }
        if let Some(last) = self.last_ms {
            if now_ms > last {
                let gap = now_ms - last;
                if gap >= 1000 {
                    self.credit = 1000;
                } else {
                    let rate = self.rate as u64;
                    proof {
                        assert(gap * rate <= 10000) by (nonlinear_arith)
                            requires
                                gap < 1000,
                                rate <= 10,
                        ;
                    }
                    let gained = gap * rate;
                    if self.credit + gained >= 1000 {
                        self.credit = 1000;
                    } else {
                        self.credit = self.credit + gained;
                    }
                }
            }
        }
        proof {
            let o = old(self)@;
            if let Some(l) = o.last_ms {
                if now_ms > l && now_ms - l >= 1000 {
                    assert((now_ms - l) * o.rate >= 1000 || o.rate == 0) by (nonlinear_arith)
                        requires
                            now_ms - l >= 1000,
                    ;
                }
            }
            assert(self.credit == refilled(o.credit, o.last_ms, o.rate, now_ms));
        }
        self.last_ms = Some(now_ms);
        if self.credit < 1000 {
            return None;
        }
        if let Some((active, _)) = self.active {
            if !Self::continues(active, targets, now_ms) {
                self.active = None;
            }
        }
        match self.active {
            Some((d, sent)) => self.spend_exec(d, sent),
            None => {
                if targets.len() == 0 {
                    return None;
                }
                let start: usize = match self.last_link {
                    Some(id) => match Self::find_id(targets, id) {
                        Some(p) => {
                            proof {
                                lemma_first_with_id_bound(targets@, id, 0);
                            }
                            p + 1
                        },
                        None => 0,
                    },
                    None => 0,
                };
                match Self::pick(targets, start) {
                    None => None,
                    Some(i) => {
                        proof {
                            lemma_pick_from_eligible(targets@, start as int, 0);
                        }
                        let t = targets[i];
                        let held = Self::count_eligible(targets);
                        self.next_train = self.next_train.wrapping_add(1);
                        let deadline = match held.checked_mul(2000) {
                            Some(h) => now_ms.saturating_add(h).saturating_add(t.srtt_ms),
                            None => u64::MAX,
                        };
                        let d = ProbeDispatch {
                            conn_id: t.conn_id,
                            socket_generation: t.socket_generation,
                            train: ProbeTrain { id: self.next_train, started_ms: now_ms, deadline_ms: deadline },
                        };
                        self.active = Some((d, 0));
                        self.spend_exec(d, 0)
                    },
                }
            },
        }
    }
}

/// A zero-rate scheduler never probes and never changes.
pub proof fn lemma_zero_rate_never_probes(s: SchedulerView, ts: Seq<ProbeTarget>, now: u64)
    requires
        s.rate == 0,
    ensures
        probe_step(s, ts, now) == (s, None::<ProbeDispatch>),
{
}

/// The bucket forbids bursts: two consecutive offers that both carry a probe
/// are at least `1000 / rate` milliseconds apart, however long the
/// scheduler sat idle before them.
pub proof fn lemma_no_burst(
    s: SchedulerView,
    ts1: Seq<ProbeTarget>,
    t1: u64,
    ts2: Seq<ProbeTarget>,
    t2: u64,
)
    requires
        probe_wf(s),
        t1 <= t2,
        probe_step(s, ts1, t1).1 is Some,
        probe_step(probe_step(s, ts1, t1).0, ts2, t2).1 is Some,
    ensures
        (t2 - t1) * s.rate >= 1000,
{
    let s1 = probe_step(s, ts1, t1).0;
    assert(s1.credit == 0);
    assert(s1.last_ms == Some(t1));
    assert(s1.rate == s.rate);
}

/// The scheduler after offering `steps` in order, starting from `s`.
pub open spec fn run_steps(s: SchedulerView, steps: Seq<(Seq<ProbeTarget>, u64)>) -> SchedulerView
    decreases steps.len(),
{
    if steps.len() == 0 {
        s
    } else {
        run_steps(probe_step(s, steps[0].0, steps[0].1).0, steps.drop_first())
    }
}

/// Every offer of `steps`, made in order starting from `s`, carries no probe.
pub open spec fn all_refused(s: SchedulerView, steps: Seq<(Seq<ProbeTarget>, u64)>) -> bool
    decreases steps.len(),
{
    steps.len() == 0 || (probe_step(s, steps[0].0, steps[0].1).1 is None && all_refused(
        probe_step(s, steps[0].0, steps[0].1).0,
        steps.drop_first(),
    ))
}

/// The bucket never holds more than it has earned since `t1`.
pub open spec fn paced_since(x: SchedulerView, t1: u64) -> bool {
    &&& x.last_ms is Some
    &&& t1 <= x.last_ms.unwrap()
    &&& x.credit <= (x.last_ms.unwrap() - t1) * x.rate
}

proof fn lemma_refill_bound(c: u64, l: u64, rate: u32, t: u64, t1: u64)
    requires
        t1 <= l <= t,
        c <= (l - t1) * rate,
    ensures
        refilled(c, Some(l), rate, t) <= (t - t1) * rate,
{
    assert((l - t1) * rate + (t - l) * rate == (t - t1) * rate) by (nonlinear_arith);
    assert(0 <= (t - l) * rate) by (nonlinear_arith)
        requires
            l <= t,
    ;
}

proof fn lemma_refused_keeps_pace(x: SchedulerView, ts: Seq<ProbeTarget>, t: u64, t1: u64)
    requires
        x.rate > 0,
        paced_since(x, t1),
        x.last_ms.unwrap() <= t,
        probe_step(x, ts, t).1 is None,
    ensures
        probe_step(x, ts, t).0.rate == x.rate,
        probe_step(x, ts, t).0.last_ms == Some(t),
        paced_since(probe_step(x, ts, t).0, t1),
{
    lemma_refill_bound(x.credit, x.last_ms.unwrap(), x.rate, t, t1);
}

proof fn lemma_refusals_keep_pace(
    x: SchedulerView,
    steps: Seq<(Seq<ProbeTarget>, u64)>,
    t1: u64,
    hi: u64,
)
    requires
        x.rate > 0,
        paced_since(x, t1),
        x.last_ms.unwrap() <= hi,
        all_refused(x, steps),
        forall|i: int| 0 <= i < steps.len() ==> x.last_ms.unwrap() <= #[trigger] steps[i].1 <= hi,
        forall|i: int, j: int| 0 <= i < j < steps.len() ==> steps[i].1 <= steps[j].1,
    ensures
        run_steps(x, steps).rate == x.rate,
        paced_since(run_steps(x, steps), t1),
        run_steps(x, steps).last_ms.unwrap() <= hi,
    decreases steps.len(),
{
    if steps.len() > 0 {
        let x1 = probe_step(x, steps[0].0, steps[0].1).0;
        lemma_refused_keeps_pace(x, steps[0].0, steps[0].1, t1);
        let rest = steps.drop_first();
        assert forall|i: int| 0 <= i < rest.len() implies x1.last_ms.unwrap() <= #[trigger] rest[i].1
            <= hi by {
            assert(rest[i] == steps[i + 1]);
        }
        assert forall|i: int, j: int| 0 <= i < j < rest.len() implies rest[i].1 <= rest[j].1 by {
            assert(rest[i] == steps[i + 1]);
            assert(rest[j] == steps[j + 1]);
        }
        lemma_refusals_keep_pace(x1, rest, t1, hi);
    }
}

/// Probes keep their pace whatever lies between them: if an offer at `t1`
/// carries a probe, every later offer (at nondecreasing times up to `t2`)
/// carries none, and the offer at `t2` carries one again, then `t2` is at
/// least `1000 / rate` milliseconds after `t1`. At most one probe per token,
/// and no burst even after a long idle stretch.
pub proof fn lemma_pacing_across_refusals(
    s: SchedulerView,
    ts1: Seq<ProbeTarget>,
    t1: u64,
    steps: Seq<(Seq<ProbeTarget>, u64)>,
    ts2: Seq<ProbeTarget>,
    t2: u64,
)
    requires
        probe_wf(s),
        t1 <= t2,
        forall|i: int| 0 <= i < steps.len() ==> t1 <= #[trigger] steps[i].1 <= t2,
        forall|i: int, j: int| 0 <= i < j < steps.len() ==> steps[i].1 <= steps[j].1,
        probe_step(s, ts1, t1).1 is Some,
        all_refused(probe_step(s, ts1, t1).0, steps),
        probe_step(run_steps(probe_step(s, ts1, t1).0, steps), ts2, t2).1 is Some,
    ensures
        (t2 - t1) * s.rate >= 1000,
{
    let s1 = probe_step(s, ts1, t1).0;
    assert(s1.credit == 0);
    assert(s1.last_ms == Some(t1));
    assert(s1.rate == s.rate);
    assert(s.rate > 0);
    assert(paced_since(s1, t1)) by {
        assert(0 <= (t1 - t1) * s.rate) by (nonlinear_arith);
    }
    lemma_refusals_keep_pace(s1, steps, t1, t2);
    let y = run_steps(s1, steps);
    lemma_refill_bound(y.credit, y.last_ms.unwrap(), y.rate, t2, t1);
}

proof fn lemma_first_with_id_at(ts: Seq<ProbeTarget>, p: int, k: int)
    requires
        0 <= k <= p < ts.len(),
        forall|j: int| 0 <= j < p ==> (#[trigger] ts[j]).conn_id != ts[p].conn_id,
    ensures
        first_with_id(ts, ts[p].conn_id, k) == Some(p),
    decreases p - k,
{
    if k < p {
        lemma_first_with_id_at(ts, p, k + 1);
    }
}

/// Whole trains rotate over the held links: with no train running and a
/// token in the bucket, the next train starts on the link offered right
/// after the one that ran the previous train (wrapping around), when that
/// link is eligible.
pub proof fn lemma_trains_rotate(s: SchedulerView, ts: Seq<ProbeTarget>, now: u64, p: int)
    requires
        probe_wf(s),
        s.rate > 0,
        refilled(s.credit, s.last_ms, s.rate, now) >= 1000,
        s.active is None,
        0 <= p < ts.len(),
        forall|j: int| 0 <= j < p ==> (#[trigger] ts[j]).conn_id != ts[p].conn_id,
        s.last_link == Some(ts[p].conn_id),
        is_eligible(ts[(p + 1) % (ts.len() as int)]),
    ensures
        probe_step(s, ts, now).1 is Some,
        probe_step(s, ts, now).1.unwrap().conn_id == ts[(p + 1) % (ts.len() as int)].conn_id,
        probe_step(s, ts, now).1.unwrap().socket_generation == ts[(p + 1) % (
        ts.len() as int)].socket_generation,
        probe_step(s, ts, now).1.unwrap().train.started_ms == now,
{
    lemma_first_with_id_at(ts, p, 0);
    assert(rotation_start(s.last_link, ts) == p + 1);
    assert(pick_from(ts, p + 1, 0) == Some((p + 1) % (ts.len() as int)));
}

/// Every probe copy goes to a link that is offered, eligible (so never a
/// down link and never the sole carrier), and on the socket generation the
/// dispatch names.
pub proof fn lemma_probe_goes_to_eligible_link(s: SchedulerView, ts: Seq<ProbeTarget>, now: u64)
    requires
        probe_wf(s),
    ensures
        probe_step(s, ts, now).1 is Some ==> exists|i: int|
            0 <= i < ts.len() && #[trigger] serves(ts[i], probe_step(s, ts, now).1.unwrap()),
{
    if s.rate != 0 {
        let credit = refilled(s.credit, s.last_ms, s.rate, now);
        let s1 = SchedulerView { credit, last_ms: Some(now), ..s };
        if credit >= 1000 {
            let s2 = match s1.active {
                Some((d, _)) => if train_continues(d, ts, now) {
                    s1
                } else {
                    SchedulerView { active: None, ..s1 }
                },
                None => s1,
            };
            if let Some((d, sent)) = s2.active {
                // A running train continues only while its link still serves it.
                assert(train_continues(d, ts, now));
                assert(probe_step(s, ts, now) == spend(s2, d, sent));
                let w = choose|i: int| 0 <= i < ts.len() && #[trigger] serves(ts[i], d);
                assert(probe_step(s, ts, now).1.unwrap() == d);
                assert(serves(ts[w], probe_step(s, ts, now).1.unwrap()));
            } else {
                // A new train starts on the first eligible link in rotation order.
                let start = rotation_start(s2.last_link, ts);
                match s2.last_link {
                    Some(id) => lemma_first_with_id_bound(ts, id, 0),
                    None => {},
                }
                lemma_pick_from_eligible(ts, start, 0);
                if let Some(i) = pick_from(ts, start, 0) {
                    assert(serves(ts[i], probe_step(s, ts, now).1.unwrap()));
                }
            }
        }
    }
}

/// Every offer keeps the scheduler's invariant: the rate is unchanged and
/// capped, and the bucket never holds more than one token.
pub proof fn lemma_probe_step_keeps_rate(s: SchedulerView, ts: Seq<ProbeTarget>, now: u64)
    requires
        probe_wf(s),
    ensures
        probe_wf(probe_step(s, ts, now).0),
        probe_step(s, ts, now).0.rate == s.rate,
        probe_step(s, ts, now).0.credit <= 1000,
{
}

/// A DATA packet the primary link just forwarded, offered for a probe copy.
pub struct ProbeOpportunity<'a> {
    pub primary_conn_id: u64,
    pub packet: &'a [u8],
    pub targets: &'a [ProbeTarget],
}

/// `anyhow::Error`, the error of a failed batch flush, carried through
/// unread.
#[verifier::external_type_specification]
#[verifier::external_body]
pub struct ExAnyhowError(anyhow::Error);

/// The outcome of flushing a probe copy (or the primary ahead of it) on a
/// link. On an error the forwarding owner recovers the link `conn_id`, as for
/// every other batch-flush error.
pub struct ProbeEmission {
    pub conn_id: u64,
    pub outcome: Result<(), anyhow::Error>,
}

/// Only a DATA packet (control bit clear) of at least a full SRT header is
/// copied as a probe.
pub open spec fn probe_copyable(packet: Seq<u8>) -> bool {
    packet.len() >= 16 && packet[0] & 0x80 == 0
}

pub fn is_probe_copyable(packet: &[u8]) -> (b: bool)
    ensures
        b == probe_copyable(packet@),
{
    packet.len() >= 16 && packet[0] & 0x80 == 0
}

/// Some offered link other than the primary is eligible for a probe.
pub open spec fn has_alternate(ts: Seq<ProbeTarget>, primary: u64) -> bool {
    exists|i: int| 0 <= i < ts.len() && is_eligible(#[trigger] ts[i]) && ts[i].conn_id != primary
}

/// An offer is worth acting on when the bucket will hold a token at `now`,
/// the packet may be copied, and some other link is eligible.
pub open spec fn offer_due(s: SchedulerView, offer_packet: Seq<u8>, ts: Seq<ProbeTarget>, primary: u64, now: u64) -> bool {
    &&& s.rate != 0
    &&& refilled(s.credit, s.last_ms, s.rate, now) >= 1000
    &&& probe_copyable(offer_packet)
    &&& has_alternate(ts, primary)
}

impl ProbeScheduler {
    /// Whether `offer` is worth flushing the primary for, without spending
    /// anything: the caller then hands the offer to `next`.
    pub fn wants_probe(&self, offer: &ProbeOpportunity, now_ms: u64) -> (b: bool)
        requires
            probe_wf(self@),
        ensures
            b == offer_due(self@, offer.packet@, offer.targets@, offer.primary_conn_id, now_ms),
    {
        if self.rate == 0 || !is_probe_copyable(offer.packet) {
            return false;
        }
        let mut credit = self.credit;
        if let Some(last) = self.last_ms {
            if now_ms > last {
                let gap = now_ms - last;
                if gap >= 1000 {
                    credit = 1000;
                } else {
                    let rate = self.rate as u64;
                    proof {
                        assert(gap * rate <= 10000) by (nonlinear_arith)
                            requires
                                gap < 1000,
                                rate <= 10,
                        ;
                    }
                    credit = credit + gap * rate;
                }
            }
        }
        proof {
            if let Some(l) = self.last_ms {
                if now_ms > l && now_ms - l >= 1000 {
                    assert((now_ms - l) * self.rate >= 1000) by (nonlinear_arith)
                        requires
                            now_ms - l >= 1000,
                            self.rate >= 1,
                    ;
                }
            }
            assert((credit >= 1000) == (refilled(self.credit, self.last_ms, self.rate, now_ms)
                >= 1000));
        }
        if credit < 1000 {
            return false;
        }
        let targets = offer.targets;
        let mut i: usize = 0;
        while i < targets.len()
            invariant
                i <= targets@.len(),
                targets@ == offer.targets@,
                self.rate != 0,
                refilled(self.credit, self.last_ms, self.rate, now_ms) >= 1000,
                probe_copyable(offer.packet@),
                forall|k: int|
                    0 <= k < i ==> !(is_eligible(#[trigger] targets@[k]) && targets@[k].conn_id
                        != offer.primary_conn_id),
            decreases targets@.len() - i,
        {
            let t = targets[i];
            if t.eligible() && t.conn_id != offer.primary_conn_id {
                proof {
                    assert(is_eligible(targets@[i as int]));
                    assert(has_alternate(offer.targets@, offer.primary_conn_id));
                }
                return true;
            }
            i += 1;
        }
        false
    }
}

} // verus!
