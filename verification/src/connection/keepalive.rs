//! Socket-scoped keepalive evidence, independent of DATA selection and RTT
//! sampling.
use vstd::prelude::*;

verus! {

/// SRTLA packet type of a keepalive (first two bytes, big-endian).
pub const SRTLA_TYPE_KEEPALIVE: u16 = 0x9000;
/// Seconds between keepalives on an idle link.
pub const IDLE_TIME: u64 = 1;
/// Keepalive silence after which a link counts as silent: three intervals.
pub const SILENCE_MS: u64 = 3000;
/// Round trips longer than this are implausible and never count as evidence.
pub const MAX_PLAUSIBLE_RTT_MS: u64 = 10_000;
/// Outstanding keepalive sends remembered for matching echoes.
pub const KEEPALIVE_PENDING: usize = 16;

pub open spec fn pow256(n: nat) -> nat
    decreases n,
{
    if n == 0 {
        1
    } else {
        256 * pow256((n - 1) as nat)
    }
}

/// The unsigned big-endian number the bytes `b` spell.
pub open spec fn be_value(b: Seq<u8>) -> nat
    decreases b.len(),
{
    if b.len() == 0 {
        0
    } else {
        be_value(b.drop_last()) * 256 + b.last() as nat
    }
}

/// The send timestamp a keepalive echo carries: a keepalive type followed by
/// an eight-byte big-endian millisecond timestamp.
pub open spec fn keepalive_timestamp(data: Seq<u8>) -> Option<u64> {
    if data.len() >= 10 && data[0] == 0x90 && data[1] == 0x00 {
        Some(be_value(data.subrange(2, 10)) as u64)
    } else {
        None
    }
}

proof fn lemma_be_value_bound(b: Seq<u8>)
    ensures
        be_value(b) < pow256(b.len()),
    decreases b.len(),
{
    if b.len() > 0 {
        lemma_be_value_bound(b.drop_last());
        let v = be_value(b.drop_last());
        let p = pow256((b.len() - 1) as nat);
        assert(v * 256 + b.last() < p * 256) by (nonlinear_arith)
            requires
                v < p,
                b.last() < 256,
        ;
    }
}

/// Extract the timestamp of a keepalive echo, if `data` is one.
pub fn extract_keepalive_timestamp(data: &[u8]) -> (r: Option<u64>)
    ensures
        r == keepalive_timestamp(data@),
        r matches Some(t) ==> t as nat == be_value(data@.subrange(2, 10)),
{
    if data.len() < 10 || data[0] != 0x90 || data[1] != 0x00 {
        return None;
    }
    let mut acc: u64 = 0;
    let mut i: usize = 2;
    while i < 10
        invariant
            2 <= i <= 10,
            data@.len() >= 10,
            acc as nat == be_value(data@.subrange(2, i as int)),
        decreases 10 - i,
    {
        proof {
            let s = data@.subrange(2, i as int);
            lemma_be_value_bound(s);
            assert(pow256(7) == 72057594037927936) by {
                reveal_with_fuel(pow256, 8);
            }
            if s.len() < 7 {
                assert(pow256(s.len()) <= pow256(7)) by {
                    reveal_with_fuel(pow256, 8);
                }
            }
            assert(acc < 72057594037927936);
            assert(data@.subrange(2, i + 1).drop_last() == s);
        }
        acc = acc * 256 + data[i] as u64;
        i += 1;
    }
    proof {
        lemma_be_value_bound(data@.subrange(2, 10));
        assert(pow256(8) == 18446744073709551616) by {
            reveal_with_fuel(pow256, 9);
        }
    }
    Some(acc)
}

/// Keepalive liveness of one socket: when the link last proved it was alive,
/// and which sends are still waiting for their echo.
#[derive(Debug)]
pub struct KeepaliveLiveness {
    anchor_ms: Option<u64>,
    confirmed_sent_ms: Option<u64>,
    pending: Vec<Option<u64>>,
    next: usize,
}

/// Abstract value of keepalive liveness.
pub struct LivenessView {
    /// Since when silence is measured: the last accepted reply, or the first
    /// send before any reply.
    pub anchor_ms: Option<u64>,
    /// Send time of the newest keepalive whose echo was accepted.
    pub confirmed_sent_ms: Option<u64>,
    /// Ring of outstanding send times.
    pub pending: Seq<Option<u64>>,
    pub next: nat,
}

impl View for KeepaliveLiveness {
    type V = LivenessView;

    closed spec fn view(&self) -> LivenessView {
        LivenessView {
            anchor_ms: self.anchor_ms,
            confirmed_sent_ms: self.confirmed_sent_ms,
            pending: self.pending@,
            next: self.next as nat,
        }
    }
}

/// The ring holds exactly `KEEPALIVE_PENDING` slots and `next` indexes one.
pub open spec fn liveness_wf(l: LivenessView) -> bool {
    l.pending.len() == KEEPALIVE_PENDING && l.next < KEEPALIVE_PENDING
}

/// The newest outstanding send time.
pub open spec fn newest_pending(p: Seq<Option<u64>>) -> Option<u64>
    decreases p.len(),
{
    if p.len() == 0 {
        None
    } else {
        let rest = newest_pending(p.drop_last());
        match (p.last(), rest) {
            (Some(a), Some(b)) => Some(if a >= b {
                a
            } else {
                b
            }),
            (Some(a), None) => Some(a),
            (None, r) => r,
        }
    }
}

/// How many slots hold an outstanding send.
pub open spec fn outstanding(p: Seq<Option<u64>>) -> nat
    decreases p.len(),
{
    if p.len() == 0 {
        0
    } else {
        outstanding(p.drop_last()) + if p.last() is Some {
            1nat
        } else {
            0nat
        }
    }
}

/// The send an echo claims to answer: a bare two-byte reply answers the
/// newest outstanding send; a full echo names its own timestamp.
pub open spec fn claimed_send(l: LivenessView, data: Seq<u8>) -> Option<u64> {
    if data.len() == 2 {
        newest_pending(l.pending)
    } else {
        keepalive_timestamp(data)
    }
}

/// An echo is accepted when it answers an outstanding send that is newer than
/// every send already confirmed, from neither the future nor an implausibly
/// distant past.
pub open spec fn accepts(l: LivenessView, sent: u64, now: u64) -> bool {
    &&& sent <= now
    &&& now - sent <= MAX_PLAUSIBLE_RTT_MS
    &&& !(l.confirmed_sent_ms matches Some(prior) && sent <= prior)
    &&& l.pending.contains(Some(sent))
}

pub open spec fn after_sent(l: LivenessView, sent: u64) -> LivenessView {
    LivenessView {
        anchor_ms: if l.anchor_ms is Some {
            l.anchor_ms
        } else {
            Some(sent)
        },
        pending: l.pending.update(l.next as int, Some(sent)),
        next: (l.next + 1) % (KEEPALIVE_PENDING as nat),
        ..l
    }
}

pub open spec fn after_reply(l: LivenessView, data: Seq<u8>, now: u64) -> LivenessView {
    match claimed_send(l, data) {
        Some(sent) => if accepts(l, sent, now) {
            LivenessView {
                anchor_ms: Some(now),
                confirmed_sent_ms: Some(sent),
                pending: Seq::new(
                    l.pending.len(),
                    |i: int|
                        if l.pending[i] matches Some(at) && at <= sent {
                            None
                        } else {
                            l.pending[i]
                        },
                ),
                ..l
            }
        } else {
            l
        },
        None => l,
    }
}

impl Default for KeepaliveLiveness {
    fn default() -> (k: Self)
        ensures
            liveness_wf(k@),
            k@.anchor_ms is None,
            k@.confirmed_sent_ms is None,
            k@.pending == Seq::new(KEEPALIVE_PENDING as nat, |i: int| None::<u64>),
            k@.next == 0,
    {
        let mut pending: Vec<Option<u64>> = Vec::new();
        let mut i: usize = 0;
        while i < KEEPALIVE_PENDING
            invariant
                i <= KEEPALIVE_PENDING,
                pending@ == Seq::new(i as nat, |k: int| None::<u64>),
            decreases KEEPALIVE_PENDING - i,
        {
            pending.push(None);
            i += 1;
        }
        KeepaliveLiveness { anchor_ms: None, confirmed_sent_ms: None, pending, next: 0 }
    }
}

impl KeepaliveLiveness {
    /// Record a keepalive accepted by the kernel at `sent_ms`. Sending never
    /// counts as evidence: only the first send anchors the silence clock.
    pub fn record_sent(&mut self, sent_ms: u64)
        requires
            liveness_wf(old(self)@),
        ensures
            liveness_wf(final(self)@),
            final(self)@ == after_sent(old(self)@, sent_ms),
    {
        if self.anchor_ms.is_none() {
            self.anchor_ms = Some(sent_ms);
        }
        self.pending.set(self.next, Some(sent_ms));
        self.next = (self.next + 1) % KEEPALIVE_PENDING;
    }

    fn newest(&self) -> (r: Option<u64>)
        ensures
            r == newest_pending(self.pending@),
    {
        let mut best: Option<u64> = None;
        let mut i: usize = 0;
        while i < self.pending.len()
            invariant
                i <= self.pending@.len(),
                best == newest_pending(self.pending@.take(i as int)),
            decreases self.pending@.len() - i,
        {
            proof {
                assert(self.pending@.take(i + 1).drop_last() == self.pending@.take(i as int));
            }
            if let Some(a) = self.pending[i] {
                best = match best {
                    Some(b) => Some(if a >= b {
                        a
                    } else {
                        b
                    }),
                    None => Some(a),
                };
            }
            i += 1;
        }
        proof {
            assert(self.pending@.take(self.pending@.len() as int) == self.pending@);
        }
        best
    }

    fn is_pending(&self, sent: u64) -> (b: bool)
        ensures
            b == self.pending@.contains(Some(sent)),
    {
        let mut i: usize = 0;
        while i < self.pending.len()
            invariant
                i <= self.pending@.len(),
                forall|k: int| 0 <= k < i ==> self.pending@[k] != Some(sent),
            decreases self.pending@.len() - i,
        {
            if let Some(a) = self.pending[i] {
                if a == sent {
                    proof {
                        assert(self.pending@[i as int] == Some(sent));
                    }
                    return true;
                }
            }
            i += 1;
        }
        false
    }

    /// Record a keepalive reply received at `now_ms`. Only an echo of an
    /// outstanding send newer than every confirmed one refreshes liveness:
    /// replays, reordered, unsent, future and truncated echoes are inert.
    pub fn record_reply(&mut self, data: &[u8], now_ms: u64)
        requires
            liveness_wf(old(self)@),
        ensures
            liveness_wf(final(self)@),
            final(self)@ == after_reply(old(self)@, data@, now_ms),
    {
        let claimed = if data.len() == 2 {
            self.newest()
        } else {
            extract_keepalive_timestamp(data)
        };
        let sent = match claimed {
            Some(s) => s,
            None => return ,
        };
        let stale = match self.confirmed_sent_ms {
            Some(prior) => sent <= prior,
            None => false,
        };
        if sent > now_ms || now_ms - sent > MAX_PLAUSIBLE_RTT_MS || stale || !self.is_pending(sent) {
            return ;
        }
        self.anchor_ms = Some(now_ms);
        self.confirmed_sent_ms = Some(sent);
        let ghost before = self.pending@;
        let mut i: usize = 0;
        while i < self.pending.len()
            invariant
                i <= self.pending@.len(),
                self.pending@.len() == before.len(),
                before == old(self)@.pending,
                self.next == old(self).next,
                self.anchor_ms == Some(now_ms),
                self.confirmed_sent_ms == Some(sent),
                forall|k: int|
                    0 <= k < i ==> #[trigger] self.pending@[k] == (if before[k] matches Some(at)
                        && at <= sent {
                        None
                    } else {
                        before[k]
                    }),
                forall|k: int| i <= k < before.len() ==> #[trigger] self.pending@[k] == before[k],
            decreases self.pending@.len() - i,
        {
            let clear = match self.pending[i] {
                Some(at) => at <= sent,
                None => false,
            };
            if clear {
                self.pending.set(i, None);
            }
            i += 1;
        }
        proof {
            let o = old(self)@;
            assert(self.pending@ =~= Seq::new(
                o.pending.len(),
                |k: int|
                    if o.pending[k] matches Some(at) && at <= sent {
                        None
                    } else {
                        o.pending[k]
                    },
            ));
        }
    }

    /// Milliseconds of silence at `now_ms`, or `None` before the first send.
    pub fn silence_age_ms(&self, now_ms: u64) -> (r: Option<u64>)
        ensures
            r == (match self@.anchor_ms {
                Some(at) => Some(if now_ms >= at {
                    (now_ms - at) as u64
                } else {
                    0
                }),
                None => None,
            }),
    {
        match self.anchor_ms {
            Some(at) => Some(now_ms.saturating_sub(at)),
            None => None,
        }
    }

    /// Send time of the newest keepalive whose echo was accepted.
    pub fn confirmed_sent_ms(&self) -> (r: Option<u64>)
        ensures
            r == self@.confirmed_sent_ms,
    {
        self.confirmed_sent_ms
    }

    /// How many sends are still waiting for their echo.
    pub fn pending_count(&self) -> (n: usize)
        ensures
            n == outstanding(self@.pending),
    {
        let mut n: usize = 0;
        let mut i: usize = 0;
        while i < self.pending.len()
            invariant
                i <= self.pending@.len(),
                n == outstanding(self.pending@.take(i as int)),
                n <= i,
            decreases self.pending@.len() - i,
        {
            proof {
                assert(self.pending@.take(i + 1).drop_last() == self.pending@.take(i as int));
            }
            if self.pending[i].is_some() {
                n += 1;
            }
            i += 1;
        }
        proof {
            assert(self.pending@.take(self.pending@.len() as int) == self.pending@);
        }
        n
    }
}

/// Sending never fabricates receive evidence: the confirmed echo is
/// untouched, and the silence anchor moves only from "never sent" to the
/// first send.
pub proof fn lemma_sends_are_not_evidence(l: LivenessView, sent: u64)
    ensures
        after_sent(l, sent).confirmed_sent_ms == l.confirmed_sent_ms,
        l.anchor_ms is Some ==> after_sent(l, sent).anchor_ms == l.anchor_ms,
{
}

/// The confirmed echo only moves forward, and liveness is refreshed only by
/// an echo of a send that is still outstanding.
pub proof fn lemma_replies_only_move_forward(l: LivenessView, data: Seq<u8>, now: u64)
    ensures
        after_reply(l, data, now).confirmed_sent_ms != l.confirmed_sent_ms ==> (
        after_reply(l, data, now).confirmed_sent_ms matches Some(s) && l.pending.contains(Some(s))
            && s <= now && (l.confirmed_sent_ms matches Some(p) ==> p < s)),
        after_reply(l, data, now).anchor_ms != l.anchor_ms ==> after_reply(l, data, now).anchor_ms
            == Some(now),
{
}

} // verus!
