//! DATA delivery evidence of one socket lifetime, independent of destructive
//! congestion packet-log pruning: which accepted DATA sends still await an
//! ACK (oldest first), when the link last proved delivery, and the bytes
//! ACKed per millisecond over the last two seconds.
use std::collections::VecDeque;

use rustc_hash::FxHashMap;
use vstd::prelude::*;

verus! {

/// Retained delivery entries per socket lifetime.
pub const DELIVERY_CAPACITY: usize = 4096;
/// Oldest delivery evidence kept.
pub const DELIVERY_MAX_AGE_MS: u64 = 6000;
/// Window over which delivered bytes are summed.
pub const DELIVERY_WINDOW_MS: u64 = 2000;

/// One accepted DATA send: when, and how many bytes.
#[derive(Clone, Copy, Debug, PartialEq, Eq, Structural)]
pub struct DataSend {
    pub sent_ms: u64,
    pub len: u16,
}

/// An acknowledgement of a sequence, fenced by the socket generation that
/// carried it.
#[derive(Clone, Copy, Debug, PartialEq, Eq, Structural)]
pub struct DeliveryAck {
    pub seq: i32,
    pub socket_generation: u32,
}

/// One send awaiting its ACK.
#[derive(Clone, Copy, Debug, PartialEq, Eq, Structural)]
pub struct LedgerEntry {
    pub seq: i32,
    pub send: DataSend,
    pub generation: u32,
}


/// The sends awaiting an ACK, keyed by sequence: what was sent and under
/// which socket generation.
#[verifier::external_body]
#[derive(Debug)]
pub struct SendsBySeq {
    map: FxHashMap<i32, (DataSend, u32)>,
}

/// The send and generation recorded for each outstanding sequence.
pub uninterp spec fn sends_by_seq(m: SendsBySeq) -> Map<i32, (DataSend, u32)>;

/// An empty map sized for a full ledger (`FxHashMap::with_capacity_and_hasher`).
#[verifier::external_body]
fn sends_new() -> (m: SendsBySeq)
    ensures
        sends_by_seq(m).dom() == Set::<i32>::empty(),
{
    SendsBySeq { map: FxHashMap::with_capacity_and_hasher(DELIVERY_CAPACITY, Default::default()) }
}

/// Record `send` of `generation` for `seq` (`HashMap::insert`).
#[verifier::external_body]
fn sends_insert(m: &mut SendsBySeq, seq: i32, send: DataSend, generation: u32)
    ensures
        sends_by_seq(*final(m)) == sends_by_seq(*old(m)).insert(seq, (send, generation)),
{
    m.map.insert(seq, (send, generation));
}

/// Forget `seq` (`HashMap::remove`).
#[verifier::external_body]
fn sends_remove(m: &mut SendsBySeq, seq: i32)
    ensures
        sends_by_seq(*final(m)) == sends_by_seq(*old(m)).remove(seq),
{
    m.map.remove(&seq);
}

/// The send recorded for `seq`, which is outstanding (indexing a `HashMap`).
#[verifier::external_body]
fn sends_index(m: &SendsBySeq, seq: i32) -> (r: (DataSend, u32))
    requires
        sends_by_seq(*m).dom().contains(seq),
    ensures
        r == sends_by_seq(*m)[seq],
{
    m.map[&seq]
}

/// Forget every sequence (`HashMap::clear`).
#[verifier::external_body]
fn sends_clear(m: &mut SendsBySeq)
    ensures
        sends_by_seq(*final(m)).dom() == Set::<i32>::empty(),
{
    m.map.clear();
}

/// The outstanding sends: their sequences oldest first, and what each was.
#[derive(Debug)]
struct Outstanding {
    order: VecDeque<i32>,
    sends: SendsBySeq,
}

spec fn ledger_entries(order: Seq<i32>, m: Map<i32, (DataSend, u32)>) -> Seq<LedgerEntry> {
    Seq::new(order.len(), |i: int| LedgerEntry { seq: order[i], send: m[order[i]].0, generation: m[order[i]].1 })
}

impl View for Outstanding {
    type V = Seq<LedgerEntry>;

    closed spec fn view(&self) -> Seq<LedgerEntry> {
        ledger_entries(self.order@, sends_by_seq(self.sends))
    }
}

impl Outstanding {
    /// No sequence twice, and a send recorded for exactly the listed ones.
    spec fn wf(&self) -> bool {
        &&& self.order@.no_duplicates()
        &&& forall|s: i32|
            #![trigger sends_by_seq(self.sends).dom().contains(s)]
            #![trigger self.order@.contains(s)]
            sends_by_seq(self.sends).dom().contains(s) <==> self.order@.contains(s)
    }

    fn new() -> (o: Self)
        ensures
            o.wf(),
            o@ == Seq::<LedgerEntry>::empty(),
    {
        let o = Outstanding { order: VecDeque::new(), sends: sends_new() };
        proof {
            assert(o@ =~= Seq::<LedgerEntry>::empty());
        }
        o
    }

    fn len(&self) -> (n: usize)
        ensures
            n == self@.len(),
    {
        self.order.len()
    }

    fn at(&self, i: usize) -> (e: LedgerEntry)
        requires
            self.wf(),
            i < self@.len(),
        ensures
            e == self@[i as int],
    {
        let seq = self.order[i];
        proof {
            assert(self.order@.contains(seq));
        }
        let (send, generation) = sends_index(&self.sends, seq);
        LedgerEntry { seq, send, generation }
    }

    fn remove_at(&mut self, i: usize)
        requires
            old(self).wf(),
            i < old(self)@.len(),
        ensures
            final(self).wf(),
            final(self)@ == old(self)@.remove(i as int),
    {
        let ghost o0 = self.order@;
        let ghost m0 = sends_by_seq(self.sends);
        let seq = self.order.remove(i).unwrap();
        sends_remove(&mut self.sends, seq);
        proof {
            let o1 = self.order@;
            let m1 = sends_by_seq(self.sends);
            assert(o1 =~= o0.remove(i as int));
            assert forall|k: int| 0 <= k < o1.len() implies o1[k] != seq && m1[o1[k]] == m0[o1[k]] by {
                let kk = if k < i { k } else { k + 1 };
                assert(o1[k] == o0[kk]);
                assert(kk != i);
            }
            assert(ledger_entries(o1, m1) =~= ledger_entries(o0, m0).remove(i as int)) by {
                assert forall|k: int| 0 <= k < o1.len() implies ledger_entries(o1, m1)[k]
                    == ledger_entries(o0, m0).remove(i as int)[k] by {
                    let kk = if k < i { k } else { k + 1 };
                    assert(o1[k] == o0[kk]);
                }
            }
            assert forall|s: i32| o1.contains(s) <==> (o0.contains(s) && s != seq) by {
                if o1.contains(s) {
                    let k = choose|k: int| 0 <= k < o1.len() && o1[k] == s;
                    let kk = if k < i { k } else { k + 1 };
                    assert(o0[kk] == s);
                }
                if o0.contains(s) && s != seq {
                    let k = choose|k: int| 0 <= k < o0.len() && o0[k] == s;
                    assert(k != i);
                    let kk = if k < i { k } else { k - 1 };
                    assert(o1[kk] == s);
                }
            }
            assert forall|a: int, b: int| 0 <= a < o1.len() && 0 <= b < o1.len() && a != b implies o1[a]
                != o1[b] by {
                let aa = if a < i { a } else { a + 1 };
                let bb = if b < i { b } else { b + 1 };
                assert(o1[a] == o0[aa] && o1[b] == o0[bb]);
            }
        }
    }

    fn push(&mut self, e: LedgerEntry)
        requires
            old(self).wf(),
            forall|j: int| 0 <= j < old(self)@.len() ==> old(self)@[j].seq != e.seq,
        ensures
            final(self).wf(),
            final(self)@ == old(self)@.push(e),
    {
        let ghost o0 = self.order@;
        let ghost m0 = sends_by_seq(self.sends);
        proof {
            assert(!o0.contains(e.seq)) by {
                if o0.contains(e.seq) {
                    let k = choose|k: int| 0 <= k < o0.len() && o0[k] == e.seq;
                    assert(self@[k].seq == e.seq);
                }
            }
        }
        sends_insert(&mut self.sends, e.seq, e.send, e.generation);
        self.order.push_back(e.seq);
        proof {
            let o1 = self.order@;
            let m1 = sends_by_seq(self.sends);
            assert(ledger_entries(o1, m1) =~= ledger_entries(o0, m0).push(e)) by {
                assert forall|k: int| 0 <= k < o0.len() implies m1[o0[k]] == m0[o0[k]] by {
                    assert(o0.contains(o0[k]));
                }
            }
            assert forall|s: i32| o1.contains(s) <==> (o0.contains(s) || s == e.seq) by {
                if o1.contains(s) && s != e.seq {
                    let k = choose|k: int| 0 <= k < o1.len() && o1[k] == s;
                    assert(o0[k] == s);
                }
                if o0.contains(s) {
                    let k = choose|k: int| 0 <= k < o0.len() && o0[k] == s;
                    assert(o1[k] == s);
                }
                if s == e.seq {
                    assert(o1[o0.len() as int] == s);
                }
            }
            assert forall|a: int, b: int| 0 <= a < o1.len() && 0 <= b < o1.len() && a != b implies o1[a]
                != o1[b] by {
                if a == o0.len() {
                    assert(o0.contains(o1[b]));
                } else if b == o0.len() {
                    assert(o0.contains(o1[a]));
                }
            }
        }
    }

    fn clear(&mut self)
        ensures
            final(self).wf(),
            final(self)@ == Seq::<LedgerEntry>::empty(),
    {
        self.order.clear();
        sends_clear(&mut self.sends);
        proof {
            assert(self@ =~= Seq::<LedgerEntry>::empty());
        }
    }
}

/// The delivery evidence of one socket lifetime. Only accepted DATA belongs
/// here, never probe copies.
#[derive(Debug)]
pub struct DeliveryLedger {
    entries: Outstanding,
    attempts_since_proof: u32,
    last_data_proof_ms: u64,
    has_data_proof: bool,
    proof_anchor_ms: Option<u64>,
    delivered_bytes_window: VecDeque<(u64, u64)>,
    socket_generation: u32,
}

/// Abstract value of a ledger.
pub struct LedgerView {
    /// Outstanding sends, oldest first.
    pub entries: Seq<LedgerEntry>,
    /// Sends accepted since the last delivery proof.
    pub attempts_since_proof: u32,
    pub last_data_proof_ms: u64,
    pub has_data_proof: bool,
    /// Where proof age is measured from: the last proof, or the first attempt
    /// before any.
    pub proof_anchor_ms: Option<u64>,
    /// `(millisecond, bytes ACKed in it)`, oldest first.
    pub window: Seq<(u64, u64)>,
    pub socket_generation: u32,
}

impl View for DeliveryLedger {
    type V = LedgerView;

    closed spec fn view(&self) -> LedgerView {
        LedgerView {
            entries: self.entries@,
            attempts_since_proof: self.attempts_since_proof,
            last_data_proof_ms: self.last_data_proof_ms,
            has_data_proof: self.has_data_proof,
            proof_anchor_ms: self.proof_anchor_ms,
            window: self.delivered_bytes_window@,
            socket_generation: self.socket_generation,
        }
    }
}

/// No sequence is outstanding twice, and the ledger never exceeds its
/// capacity.
pub open spec fn ledger_wf(v: LedgerView) -> bool {
    &&& v.entries.len() <= DELIVERY_CAPACITY
    &&& forall|i: int, j: int|
        0 <= i < j < v.entries.len() ==> v.entries[i].seq != v.entries[j].seq
}

/// `now - then`, or zero when `then` is later.
pub open spec fn age(now: u64, then: u64) -> int {
    if now >= then {
        now - then
    } else {
        0
    }
}

/// The outstanding sends after dropping, oldest first, every one older than
/// the retention horizon.
pub open spec fn expired(es: Seq<LedgerEntry>, now: u64) -> Seq<LedgerEntry>
    decreases es.len(),
{
    if es.len() > 0 && age(now, es[0].send.sent_ms) > DELIVERY_MAX_AGE_MS {
        expired(es.drop_first(), now)
    } else {
        es
    }
}

/// Position of the send of `seq`.
pub open spec fn seq_index(es: Seq<LedgerEntry>, seq: i32, k: int) -> Option<int>
    decreases es.len() - k,
{
    if k < 0 || k >= es.len() {
        None
    } else if es[k].seq == seq {
        Some(k)
    } else {
        seq_index(es, seq, k + 1)
    }
}

/// The outstanding sends without the one of `seq`.
pub open spec fn without(es: Seq<LedgerEntry>, seq: i32) -> Seq<LedgerEntry> {
    match seq_index(es, seq, 0) {
        Some(i) => es.remove(i),
        None => es,
    }
}

/// The outstanding sends after `seq` was accepted as `send`: expired ones
/// dropped, an earlier send of `seq` replaced, the oldest evicted at
/// capacity, and the new one appended as the newest.
pub open spec fn entries_after_send(
    es: Seq<LedgerEntry>,
    generation: u32,
    seq: i32,
    send: DataSend,
) -> Seq<LedgerEntry> {
    let a = without(expired(es, send.sent_ms), seq);
    let b = if a.len() == DELIVERY_CAPACITY {
        a.drop_first()
    } else {
        a
    };
    b.push(LedgerEntry { seq, send, generation })
}

pub open spec fn after_send(v: LedgerView, seq: i32, send: DataSend) -> LedgerView {
    LedgerView {
        entries: entries_after_send(v.entries, v.socket_generation, seq, send),
        attempts_since_proof: if v.attempts_since_proof == u32::MAX {
            u32::MAX
        } else {
            (v.attempts_since_proof + 1) as u32
        },
        proof_anchor_ms: if v.proof_anchor_ms is Some {
            v.proof_anchor_ms
        } else {
            Some(send.sent_ms)
        },
        ..v
    }
}

/// Delivery proved at `now`.
pub open spec fn proved(v: LedgerView, now: u64) -> LedgerView {
    LedgerView {
        has_data_proof: true,
        last_data_proof_ms: now,
        proof_anchor_ms: Some(now),
        attempts_since_proof: 0,
        ..v
    }
}

/// Bytes ACKed over `(now - 2 s, now]`.
pub open spec fn window_bytes(w: Seq<(u64, u64)>, now: u64) -> int
    decreases w.len(),
{
    if w.len() == 0 {
        0
    } else {
        let (ms, bytes) = w.last();
        window_bytes(w.drop_last(), now) + if ms <= now && now - ms < DELIVERY_WINDOW_MS {
            bytes as int
        } else {
            0
        }
    }
}

/// The window after dropping, oldest first, every bucket two seconds old.
pub open spec fn trimmed(w: Seq<(u64, u64)>, now: u64) -> Seq<(u64, u64)>
    decreases w.len(),
{
    if w.len() > 0 && age(now, w[0].0) >= DELIVERY_WINDOW_MS {
        trimmed(w.drop_first(), now)
    } else {
        w
    }
}

/// The window after crediting `len` bytes at `now`: equal milliseconds share
/// one bucket.
pub open spec fn credited(w: Seq<(u64, u64)>, now: u64, len: u16) -> Seq<(u64, u64)> {
    if w.len() > 0 && w.last().0 == now {
        w.update(
            w.len() - 1,
            (
                now,
                if w.last().1 + len > u64::MAX {
                    u64::MAX
                } else {
                    (w.last().1 + len) as u64
                },
            ),
        )
    } else {
        w.push((now, len as u64))
    }
}

/// An ACK of the current socket generation for a send of that generation,
/// not from the future, credits the send; every other ACK is refused.
pub open spec fn after_ack(v: LedgerView, ack: DeliveryAck, now: u64) -> (LedgerView, bool) {
    if ack.socket_generation != v.socket_generation {
        (v, false)
    } else {
        let es = expired(v.entries, now);
        let v1 = LedgerView { entries: es, ..v };
        match seq_index(es, ack.seq, 0) {
            None => (v1, false),
            Some(i) => {
                let e = es[i];
                if e.generation != v.socket_generation || e.send.sent_ms > now {
                    (v1, false)
                } else {
                    let v2 = proved(LedgerView { entries: es.remove(i), ..v1 }, now);
                    (
                        LedgerView {
                            window: credited(trimmed(v2.window, now), now, e.send.len),
                            ..v2
                        },
                        true,
                    )
                }
            },
        }
    }
}

proof fn lemma_expired_suffix(es: Seq<LedgerEntry>, now: u64)
    ensures
        exists|k: int| 0 <= k <= es.len() && expired(es, now) == es.skip(k),
    decreases es.len(),
{
    if es.len() > 0 && age(now, es[0].send.sent_ms) > DELIVERY_MAX_AGE_MS {
        lemma_expired_suffix(es.drop_first(), now);
        let k = choose|k: int|
            0 <= k <= es.drop_first().len() && expired(es.drop_first(), now) == es.drop_first().skip(
                k,
            );
        assert(es.drop_first().skip(k) == es.skip(k + 1));
    } else {
        assert(es.skip(0) == es);
    }
}

proof fn lemma_seq_index(es: Seq<LedgerEntry>, seq: i32, k: int)
    requires
        0 <= k,
    ensures
        seq_index(es, seq, k) matches Some(i) ==> k <= i < es.len() && es[i].seq == seq,
        seq_index(es, seq, k) is None ==> forall|j: int| k <= j < es.len() ==> es[j].seq != seq,
    decreases es.len() - k,
{
    if k < es.len() && es[k].seq != seq {
        lemma_seq_index(es, seq, k + 1);
    }
}

impl DeliveryLedger {
    /// The outstanding sends are distinct, within capacity, and consistently
    /// recorded.
    pub closed spec fn wf(&self) -> bool {
        ledger_wf(self@) && self.entries.wf()
    }

    pub fn new() -> (l: Self)
        ensures
            l@.entries.len() == 0,
            l@.attempts_since_proof == 0,
            l@.last_data_proof_ms == 0,
            !l@.has_data_proof,
            l@.proof_anchor_ms is None,
            l@.window.len() == 0,
            l@.socket_generation == 0,
            l.wf(),
    {
        DeliveryLedger {
            entries: Outstanding::new(),
            attempts_since_proof: 0,
            last_data_proof_ms: 0,
            has_data_proof: false,
            proof_anchor_ms: None,
            delivered_bytes_window: VecDeque::with_capacity(2000),
            socket_generation: 0,
        }
    }

    fn expire(&mut self, now_ms: u64)
        requires
            old(self).wf(),
        ensures
            final(self)@ == (LedgerView { entries: expired(old(self)@.entries, now_ms), ..old(self)@ }),
            final(self).wf(),
    {
        let ghost start = self.entries@;
        while self.entries.len() > 0 && now_ms.saturating_sub(self.entries.at(0).send.sent_ms)
            > DELIVERY_MAX_AGE_MS
            invariant
                expired(self.entries@, now_ms) == expired(start, now_ms),
                self.wf(),
                start == old(self)@.entries,
                self.attempts_since_proof == old(self).attempts_since_proof,
                self.last_data_proof_ms == old(self).last_data_proof_ms,
                self.has_data_proof == old(self).has_data_proof,
                self.proof_anchor_ms == old(self).proof_anchor_ms,
                self.delivered_bytes_window == old(self).delivered_bytes_window,
                self.socket_generation == old(self).socket_generation,
            decreases self.entries@.len(),
        {
            proof {
                assert(self.entries@.remove(0) == self.entries@.drop_first());
            }
            self.entries.remove_at(0);
        }
    }

    fn position(&self, seq: i32) -> (r: Option<usize>)
        ensures
            match r {
                Some(i) => seq_index(self.entries@, seq, 0) == Some(i as int),
                None => seq_index(self.entries@, seq, 0) is None,
            },
    {
        let mut k: usize = self.entries.len();
        let mut found: Option<usize> = None;
        while k > 0
            invariant
                k <= self.entries@.len(),
                match found {
                    Some(i) => seq_index(self.entries@, seq, k as int) == Some(i as int),
                    None => seq_index(self.entries@, seq, k as int) is None,
                },
            decreases k,
        {
            k -= 1;
            if self.entries.order[k] == seq {
                found = Some(k);
            }
        }
        found
    }

    proof fn lemma_without_wf(es: Seq<LedgerEntry>, seq: i32)
        requires
            forall|i: int, j: int| 0 <= i < j < es.len() ==> es[i].seq != es[j].seq,
        ensures
            forall|i: int, j: int|
                0 <= i < j < without(es, seq).len() ==> without(es, seq)[i].seq != without(
                    es,
                    seq,
                )[j].seq,
            forall|j: int| 0 <= j < without(es, seq).len() ==> without(es, seq)[j].seq != seq,
            without(es, seq).len() <= es.len(),
    {
        lemma_seq_index(es, seq, 0);
        match seq_index(es, seq, 0) {
            Some(p) => {
                let r = es.remove(p);
                assert forall|j: int| 0 <= j < r.len() implies r[j].seq != seq by {
                    if j < p {
                        assert(r[j] == es[j]);
                    } else {
                        assert(r[j] == es[j + 1]);
                    }
                }
                assert forall|i: int, j: int| 0 <= i < j < r.len() implies r[i].seq != r[j].seq by {
                    let ii = if i < p { i } else { i + 1 };
                    let jj = if j < p { j } else { j + 1 };
                    assert(r[i] == es[ii]);
                    assert(r[j] == es[jj]);
                }
            },
            None => {},
        }
    }

    /// Record an accepted DATA send of `seq` at `send.sent_ms` (the
    /// acceptance time, not the queue timestamp).
    pub fn record_sent(&mut self, seq: i32, send: DataSend)
        requires
            old(self).wf(),
        ensures
            final(self)@ == after_send(old(self)@, seq, send),
            final(self).wf(),
    {
        self.expire(send.sent_ms);
        let ghost a_es = self.entries@;
        proof {
            lemma_expired_suffix(old(self)@.entries, send.sent_ms);
            Self::lemma_without_wf(a_es, seq);
            lemma_seq_index(a_es, seq, 0);
        }
        match self.position(seq) {
            Some(i) => {
                self.entries.remove_at(i);
            },
            None => {},
        }
        let ghost a = self.entries@;
        assert(a == without(a_es, seq));
        if self.entries.len() == DELIVERY_CAPACITY {
            self.entries.remove_at(0);
            proof {
                assert(a.remove(0) == a.drop_first());
            }
        }
        let ghost b = self.entries@;
        proof {
            assert forall|j: int| 0 <= j < b.len() implies b[j].seq != seq by {
                if a.len() == DELIVERY_CAPACITY {
                    assert(b[j] == a[j + 1]);
                }
            }
            assert forall|i: int, j: int| 0 <= i < j < b.len() implies b[i].seq != b[j].seq by {
                if a.len() == DELIVERY_CAPACITY {
                    assert(b[i] == a[i + 1]);
                    assert(b[j] == a[j + 1]);
                }
            }
        }
        self.entries.push(LedgerEntry { seq, send, generation: self.socket_generation });
        proof {
            assert(ledger_wf(self@)) by {
                assert forall|i: int, j: int| 0 <= i < j < self@.entries.len() implies self@.entries[i].seq
                    != self@.entries[j].seq by {
                    if j == b.len() {
                        assert(self@.entries[i] == b[i]);
                    } else {
                        assert(self@.entries[i] == b[i] && self@.entries[j] == b[j]);
                    }
                }
            }
        }
        self.attempts_since_proof = self.attempts_since_proof.saturating_add(1);
        if self.proof_anchor_ms.is_none() {
            self.proof_anchor_ms = Some(send.sent_ms);
        }
    }

    /// Delivery proved at `now_ms` (an ACKed send or probe).
    pub fn record_probe_proof(&mut self, now_ms: u64)
        ensures
            final(self)@ == proved(old(self)@, now_ms),
            final(self).wf() == old(self).wf(),
    {
        self.has_data_proof = true;
        self.last_data_proof_ms = now_ms;
        self.proof_anchor_ms = Some(now_ms);
        self.attempts_since_proof = 0;
    }

    fn trim_window(&mut self, now_ms: u64)
        ensures
            final(self)@ == (LedgerView { window: trimmed(old(self)@.window, now_ms), ..old(self)@ }),
            final(self).wf() == old(self).wf(),
    {
        while self.delivered_bytes_window.len() > 0 && now_ms.saturating_sub(
            self.delivered_bytes_window[0].0,
        ) >= DELIVERY_WINDOW_MS
            invariant
                trimmed(self.delivered_bytes_window@, now_ms) == trimmed(
                    old(self)@.window,
                    now_ms,
                ),
                self.entries == old(self).entries,
                self.attempts_since_proof == old(self).attempts_since_proof,
                self.last_data_proof_ms == old(self).last_data_proof_ms,
                self.has_data_proof == old(self).has_data_proof,
                self.proof_anchor_ms == old(self).proof_anchor_ms,
                self.socket_generation == old(self).socket_generation,
            decreases self.delivered_bytes_window@.len(),
        {
            let _ = self.delivered_bytes_window.pop_front();
        }
    }

    /// Credit an ACK received at `now_ms`. A stale reader generation, an
    /// unknown or expired sequence, a send of an older generation and a send
    /// from the future are all refused.
    pub fn acknowledge(&mut self, ack: DeliveryAck, now_ms: u64) -> (credited_ack: bool)
        requires
            old(self).wf(),
        ensures
            (final(self)@, credited_ack) == after_ack(old(self)@, ack, now_ms),
            final(self).wf(),
    {
        if ack.socket_generation != self.socket_generation {
            return false;
        }
        self.expire(now_ms);
        let i = match self.position(ack.seq) {
            Some(i) => i,
            None => return false,
        };
        proof {
            lemma_seq_index(self.entries@, ack.seq, 0);
        }
        let e = self.entries.at(i);
        if e.generation != self.socket_generation || e.send.sent_ms > now_ms {
            return false;
        }
        let ghost es = self.entries@;
        self.entries.remove_at(i);
        proof {
            assert forall|a: int, b: int|
                0 <= a < b < self.entries@.len() implies self.entries@[a].seq
                != self.entries@[b].seq by {
                let aa = if a < i { a } else { a + 1 };
                let bb = if b < i { b } else { b + 1 };
                assert(self.entries@[a] == es[aa]);
                assert(self.entries@[b] == es[bb]);
            }
        }
        self.record_probe_proof(now_ms);
        self.trim_window(now_ms);
        let n = self.delivered_bytes_window.len();
        if n > 0 && self.delivered_bytes_window[n - 1].0 == now_ms {
            let bytes = self.delivered_bytes_window[n - 1].1.saturating_add(e.send.len as u64);
            let ghost w0 = self.delivered_bytes_window@;
            let _ = self.delivered_bytes_window.pop_back();
            self.delivered_bytes_window.push_back((now_ms, bytes));
            proof {
                assert(self.delivered_bytes_window@ =~= w0.update(n - 1, (now_ms, bytes)));
            }
        } else {
            self.delivered_bytes_window.push_back((now_ms, e.send.len as u64));
        }
        true
    }

    /// Milliseconds since the last proof, or since the first accepted
    /// attempt before any; `None` while idle since the socket began.
    pub fn proof_age_ms(&self, now_ms: u64) -> (r: Option<u64>)
        ensures
            r == (match self@.proof_anchor_ms {
                Some(a) => Some(age(now_ms, a) as u64),
                None => None,
            }),
    {
        match self.proof_anchor_ms {
            Some(anchor) => Some(now_ms.saturating_sub(anchor)),
            None => None,
        }
    }

    /// When DATA delivery was last proved; never mistakes an initial attempt
    /// for proof.
    pub fn latest_data_proof_ms(&self) -> (r: Option<u64>)
        ensures
            r == (if self@.has_data_proof {
                Some(self@.last_data_proof_ms)
            } else {
                None
            }),
    {
        if self.has_data_proof {
            Some(self.last_data_proof_ms)
        } else {
            None
        }
    }

    /// The ACKed-bytes buckets, oldest first.
    /// Bytes ACKed over the two seconds up to `now_ms`; the delivered rate is
    /// this many bytes per two seconds.
    pub fn delivered_bytes(&self, now_ms: u64) -> (r: u128)
        ensures
            r == window_bytes(self@.window, now_ms),
    {
        let ghost w = self@.window;
        let mut sum: u128 = 0;
        let mut i: usize = 0;
        while i < self.delivered_bytes_window.len()
            invariant
                i <= w.len(),
                w == self.delivered_bytes_window@,
                sum == window_bytes(w.take(i as int), now_ms),
                sum <= i * 0xffff_ffff_ffff_ffffu64,
            decreases w.len() - i,
        {
            let (ms, bytes) = self.delivered_bytes_window[i];
            proof {
                assert(w.take(i + 1).drop_last() =~= w.take(i as int));
                assert(w.take(i + 1).last() == w[i as int]);
            }
            if ms <= now_ms && now_ms - ms < DELIVERY_WINDOW_MS {
                sum = sum + bytes as u128;
            }
            i += 1;
        }
        proof {
            assert(w.take(w.len() as int) =~= w);
        }
        sum
    }

    /// The delivered-bytes buckets `(millisecond, bytes)`, oldest first.
    pub fn delivered_window(&self) -> (w: Vec<(u64, u64)>)
        ensures
            w@ == self@.window,
    {
        let mut w: Vec<(u64, u64)> = Vec::new();
        let mut i: usize = 0;
        while i < self.delivered_bytes_window.len()
            invariant
                i <= self.delivered_bytes_window@.len(),
                w@ == self.delivered_bytes_window@.take(i as int),
            decreases self.delivered_bytes_window@.len() - i,
        {
            w.push(self.delivered_bytes_window[i]);
            proof {
                assert(self.delivered_bytes_window@.take(i + 1) =~= self.delivered_bytes_window@.take(
                    i as int,
                ).push(self.delivered_bytes_window@[i as int]));
            }
            i += 1;
        }
        proof {
            assert(self.delivered_bytes_window@.take(i as int) =~= self.delivered_bytes_window@);
        }
        w
    }

    pub fn attempts_since_proof(&self) -> (n: u32)
        ensures
            n == self@.attempts_since_proof,
    {
        self.attempts_since_proof
    }

    pub fn socket_generation(&self) -> (g: u32)
        ensures
            g == self@.socket_generation,
    {
        self.socket_generation
    }

    /// Whether a send of `seq` is outstanding.
    pub fn contains(&self, seq: i32) -> (b: bool)
        ensures
            b == (seq_index(self@.entries, seq, 0) is Some),
    {
        self.position(seq).is_some()
    }

    /// Start a new socket lifetime: all evidence is dropped and the
    /// generation advances, so ACKs of the old socket are refused.
    pub fn reset(&mut self)
        ensures
            final(self)@.entries.len() == 0,
            final(self)@.attempts_since_proof == 0,
            final(self)@.last_data_proof_ms == 0,
            !final(self)@.has_data_proof,
            final(self)@.proof_anchor_ms is None,
            final(self)@.window.len() == 0,
            final(self)@.socket_generation == (if old(self)@.socket_generation == u32::MAX {
                0
            } else {
                old(self)@.socket_generation + 1
            }),
            final(self).wf(),
    {
        self.entries.clear();
        self.attempts_since_proof = 0;
        self.last_data_proof_ms = 0;
        self.has_data_proof = false;
        self.proof_anchor_ms = None;
        self.delivered_bytes_window.clear();
        self.socket_generation = self.socket_generation.wrapping_add(1);
    }
}

impl Default for DeliveryLedger {
    fn default() -> (l: Self)
        ensures
            l@.entries.len() == 0,
            l@.socket_generation == 0,
            l.wf(),
    {
        DeliveryLedger::new()
    }
}

/// An ACK fenced by another socket generation never credits anything, and
/// only a credited ACK proves delivery.
pub proof fn lemma_stale_generation_is_refused(v: LedgerView, ack: DeliveryAck, now: u64)
    ensures
        ack.socket_generation != v.socket_generation ==> after_ack(v, ack, now) == (v, false),
        after_ack(v, ack, now).1 ==> after_ack(v, ack, now).0.has_data_proof
            && after_ack(v, ack, now).0.attempts_since_proof == 0,
        !after_ack(v, ack, now).1 ==> after_ack(v, ack, now).0.attempts_since_proof
            == v.attempts_since_proof,
{
}

/// A credited ACK cannot be credited again: the acknowledged send leaves the
/// ledger, so a replay of the same ACK, at any later time, proves nothing.
pub proof fn lemma_ack_replay_is_inert(v: LedgerView, ack: DeliveryAck, first_ms: u64, later_ms: u64)
    requires
        ledger_wf(v),
        after_ack(v, ack, first_ms).1,
    ensures
        !after_ack(after_ack(v, ack, first_ms).0, ack, later_ms).1,
{
    let es = expired(v.entries, first_ms);
    lemma_expired_suffix(v.entries, first_ms);
    let k = choose|k: int| 0 <= k <= v.entries.len() && expired(v.entries, first_ms) == v.entries.skip(k);
    lemma_seq_index(es, ack.seq, 0);
    let i = seq_index(es, ack.seq, 0)->0;
    let rest = es.remove(i);
    assert forall|j: int| 0 <= j < rest.len() implies rest[j].seq != ack.seq by {
        let jj = if j < i { j } else { j + 1 };
        assert(rest[j] == es[jj]);
        assert(es[jj] == v.entries[jj + k]);
        assert(es[i] == v.entries[i + k]);
    }
    let w = after_ack(v, ack, first_ms).0;
    assert(w.entries == rest);
    let es2 = expired(rest, later_ms);
    lemma_expired_suffix(rest, later_ms);
    let k2 = choose|k2: int| 0 <= k2 <= rest.len() && expired(rest, later_ms) == rest.skip(k2);
    lemma_seq_index(es2, ack.seq, 0);
    if seq_index(es2, ack.seq, 0) is Some {
        let j = seq_index(es2, ack.seq, 0)->0;
        assert(es2[j] == rest[j + k2]);
    }
}

/// Sending is never proof: it only counts an attempt, and the proof anchor
/// moves only from "never" to the first attempt.
pub proof fn lemma_sends_are_not_proof(v: LedgerView, seq: i32, send: DataSend)
    ensures
        after_send(v, seq, send).has_data_proof == v.has_data_proof,
        after_send(v, seq, send).last_data_proof_ms == v.last_data_proof_ms,
        v.proof_anchor_ms is Some ==> after_send(v, seq, send).proof_anchor_ms == v.proof_anchor_ms,
{
}

} // verus!
