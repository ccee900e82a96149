//! Socket-lifetime probe evidence: which probe copies are still awaiting an
//! ACK (least recently sent first, bounded), and the trains they belong to.
//! A train is finished once it expired or all ten copies were acknowledged;
//! only the newest finished trains are kept.
use vstd::prelude::*;

use std::collections::VecDeque;

use rustc_hash::FxHashMap;
use smallvec::SmallVec;

use super::probe::{ProbeTrain, PROBE_LOG_CAPACITY, PROBE_TRAIN_LEN};

verus! {

/// Trains retained at most.
pub const PROBE_TRAINS_KEPT: usize = 32;
/// Acknowledged copies out of ten that make a train a successful round.
pub const ROUND_OK_ACKS: u8 = 5;

/// The sequences of one probe train, held inline: a train has ten copies.
#[verifier::external_body]
#[derive(Debug)]
pub struct TrainSeqs {
    inner: SmallVec<[i32; 10]>,
}

/// The sequences a train holds, in the order they were added.
pub uninterp spec fn train_seqs(s: TrainSeqs) -> Seq<i32>;

/// An empty sequence list (`SmallVec::new`).
#[verifier::external_body]
fn seqs_new() -> (s: TrainSeqs)
    ensures
        train_seqs(s) == Seq::<i32>::empty(),
{
    TrainSeqs { inner: SmallVec::new() }
}

/// Append `seq` (`SmallVec::push`).
#[verifier::external_body]
fn seqs_push(s: &mut TrainSeqs, seq: i32)
    ensures
        train_seqs(*final(s)) == train_seqs(*old(s)).push(seq),
{
    s.inner.push(seq);
}

/// How many sequences are held (`SmallVec::len`).
#[verifier::external_body]
fn seqs_len(s: &TrainSeqs) -> (n: usize)
    ensures
        n == train_seqs(*s).len(),
{
    s.inner.len()
}

/// The sequence at index `i` (indexing a `SmallVec`).
#[verifier::external_body]
fn seqs_get(s: &TrainSeqs, i: usize) -> (seq: i32)
    requires
        i < train_seqs(*s).len(),
    ensures
        seq == train_seqs(*s)[i as int],
{
    s.inner[i]
}


/// Send times of the probe copies awaiting their ACK, keyed by sequence.
#[verifier::external_body]
#[derive(Debug)]
pub struct SentTimes {
    map: FxHashMap<i32, u64>,
}

/// The send time of each pending sequence.
pub uninterp spec fn sent_times(t: SentTimes) -> Map<i32, u64>;

/// An empty map sized for a full log (`FxHashMap::with_capacity_and_hasher`).
#[verifier::external_body]
fn times_new() -> (t: SentTimes)
    ensures
        sent_times(t).dom() == Set::<i32>::empty(),
{
    SentTimes { map: FxHashMap::with_capacity_and_hasher(PROBE_LOG_CAPACITY, Default::default()) }
}

/// Record `ms` for `seq` (`HashMap::insert`).
#[verifier::external_body]
fn times_insert(t: &mut SentTimes, seq: i32, ms: u64)
    ensures
        sent_times(*final(t)) == sent_times(*old(t)).insert(seq, ms),
{
    t.map.insert(seq, ms);
}

/// Forget `seq` (`HashMap::remove`).
#[verifier::external_body]
fn times_remove(t: &mut SentTimes, seq: i32)
    ensures
        sent_times(*final(t)) == sent_times(*old(t)).remove(seq),
{
    t.map.remove(&seq);
}

/// The time recorded for `seq` (`HashMap::get`).
#[verifier::external_body]
fn times_get(t: &SentTimes, seq: i32) -> (r: Option<u64>)
    ensures
        r == (if sent_times(*t).dom().contains(seq) {
            Some(sent_times(*t)[seq])
        } else {
            None
        }),
{
    t.map.get(&seq).copied()
}

/// Forget every sequence (`HashMap::clear`).
#[verifier::external_body]
fn times_clear(t: &mut SentTimes)
    ensures
        sent_times(*final(t)).dom() == Set::<i32>::empty(),
{
    t.map.clear();
}

/// The pending probe copies: their sequences least recently sent first, and
/// their send times by sequence.
#[derive(Debug)]
struct PendingLog {
    lru: VecDeque<i32>,
    times: SentTimes,
}

/// `(sequence, send time)` of each sequence of `lru`, in order.
spec fn entries_of(lru: Seq<i32>, m: Map<i32, u64>) -> Seq<(i32, u64)> {
    Seq::new(lru.len(), |i: int| (lru[i], m[lru[i]]))
}

/// The sequences of `lru` that `keep` accepts, in order.
spec fn kept_seqs(lru: Seq<i32>, keep: spec_fn(i32) -> bool) -> Seq<i32>
    decreases lru.len(),
{
    if lru.len() == 0 {
        lru
    } else if keep(lru[0]) {
        seq![lru[0]] + kept_seqs(lru.drop_first(), keep)
    } else {
        kept_seqs(lru.drop_first(), keep)
    }
}

/// The entries of `es` whose sequence `keep` accepts, in order.
spec fn kept_entries(es: Seq<(i32, u64)>, keep: spec_fn(i32) -> bool) -> Seq<(i32, u64)>
    decreases es.len(),
{
    if es.len() == 0 {
        es
    } else if keep(es[0].0) {
        seq![es[0]] + kept_entries(es.drop_first(), keep)
    } else {
        kept_entries(es.drop_first(), keep)
    }
}

impl View for PendingLog {
    type V = Seq<(i32, u64)>;

    closed spec fn view(&self) -> Seq<(i32, u64)> {
        entries_of(self.lru@, sent_times(self.times))
    }
}

impl PendingLog {
    /// No sequence twice, and a send time for exactly the listed sequences.
    spec fn wf(&self) -> bool {
        &&& self.lru@.no_duplicates()
        &&& forall|s: i32|
            #![trigger sent_times(self.times).dom().contains(s)]
            #![trigger self.lru@.contains(s)]
            sent_times(self.times).dom().contains(s) <==> self.lru@.contains(s)
    }
}

proof fn lemma_entries_drop_first(lru: Seq<i32>, m: Map<i32, u64>)
    requires
        lru.len() > 0,
    ensures
        entries_of(lru, m).drop_first() == entries_of(lru.drop_first(), m),
        entries_of(lru, m)[0] == (lru[0], m[lru[0]]),
{
    assert(entries_of(lru, m).drop_first() =~= entries_of(lru.drop_first(), m));
}

/// Filtering the sequences filters the entries, when the kept sequences'
/// times did not change.
proof fn lemma_kept(lru: Seq<i32>, m: Map<i32, u64>, m2: Map<i32, u64>, keep: spec_fn(i32) -> bool)
    requires
        forall|s: i32| lru.contains(s) && keep(s) ==> m2[s] == m[s],
    ensures
        entries_of(kept_seqs(lru, keep), m2) == kept_entries(entries_of(lru, m), keep),
    decreases lru.len(),
{
    if lru.len() == 0 {
        assert(entries_of(kept_seqs(lru, keep), m2) =~= Seq::<(i32, u64)>::empty());
    } else {
        lemma_entries_drop_first(lru, m);
        assert forall|s: i32| lru.drop_first().contains(s) && keep(s) implies m2[s] == m[s] by {
            let j = choose|j: int| 0 <= j < lru.drop_first().len() && lru.drop_first()[j] == s;
            assert(lru[j + 1] == s);
        }
        lemma_kept(lru.drop_first(), m, m2, keep);
        if keep(lru[0]) {
            assert(lru.contains(lru[0]));
            let r = kept_seqs(lru, keep);
            assert(r == seq![lru[0]] + kept_seqs(lru.drop_first(), keep));
            assert(entries_of(r, m2) =~= seq![(lru[0], m2[lru[0]])] + entries_of(
                kept_seqs(lru.drop_first(), keep),
                m2,
            ));
        }
    }
}

proof fn lemma_kept_subset(lru: Seq<i32>, keep: spec_fn(i32) -> bool)
    requires
        lru.no_duplicates(),
    ensures
        kept_seqs(lru, keep).no_duplicates(),
        forall|s: i32| kept_seqs(lru, keep).contains(s) <==> lru.contains(s) && keep(s),
    decreases lru.len(),
{
    if lru.len() > 0 {
        let rest = lru.drop_first();
        assert(rest.no_duplicates()) by {
            assert forall|i: int, j: int| 0 <= i < rest.len() && 0 <= j < rest.len() && i != j implies rest[i]
                != rest[j] by {
                assert(lru[i + 1] != lru[j + 1]);
            }
        }
        lemma_kept_subset(rest, keep);
        assert forall|s: i32| lru.contains(s) <==> (s == lru[0] || rest.contains(s)) by {
            if lru.contains(s) && s != lru[0] {
                let j = choose|j: int| 0 <= j < lru.len() && lru[j] == s;
                assert(rest[j - 1] == s);
            }
            if rest.contains(s) {
                let j = choose|j: int| 0 <= j < rest.len() && rest[j] == s;
                assert(lru[j + 1] == s);
            }
        }
        assert(!rest.contains(lru[0])) by {
            if rest.contains(lru[0]) {
                let j = choose|j: int| 0 <= j < rest.len() && rest[j] == lru[0];
                assert(lru[j + 1] == lru[0]);
            }
        }
        if keep(lru[0]) {
            let k = kept_seqs(rest, keep);
            let r = seq![lru[0]] + k;
            assert(kept_seqs(lru, keep) == r);
            assert forall|s: i32| r.contains(s) <==> (s == lru[0] || k.contains(s)) by {
                if r.contains(s) && s != lru[0] {
                    let j = choose|j: int| 0 <= j < r.len() && r[j] == s;
                    assert(k[j - 1] == s);
                }
                if k.contains(s) {
                    let j = choose|j: int| 0 <= j < k.len() && k[j] == s;
                    assert(r[j + 1] == s);
                }
                if s == lru[0] {
                    assert(r[0] == s);
                }
            }
            assert forall|i: int, j: int| 0 <= i < r.len() && 0 <= j < r.len() && i != j implies r[i]
                != r[j] by {
                if i > 0 && j > 0 {
                    assert(r[i] == k[i - 1] && r[j] == k[j - 1]);
                } else if i == 0 {
                    assert(k.contains(r[j]));
                } else {
                    assert(k.contains(r[i]));
                }
            }
        }
    }
}

proof fn lemma_log_without_kept(es: Seq<(i32, u64)>, seq: i32)
    ensures
        log_without(es, seq) == kept_entries(es, |s: i32| s != seq),
    decreases es.len(),
{
    if es.len() > 0 {
        lemma_log_without_kept(es.drop_first(), seq);
    }
}

proof fn lemma_doomed_kept(es: Seq<(i32, u64)>, ts: Seq<TrainView>, now: u64)
    ensures
        log_without_doomed(es, ts, now) == kept_entries(es, |s: i32| !doomed(ts, now, s)),
    decreases es.len(),
{
    if es.len() > 0 {
        lemma_doomed_kept(es.drop_first(), ts, now);
    }
}

proof fn lemma_logged_entries(lru: Seq<i32>, m: Map<i32, u64>, seq: i32)
    ensures
        logged(entries_of(lru, m), seq) == (if lru.contains(seq) {
            Some(m[seq])
        } else {
            None
        }),
    decreases lru.len(),
{
    if lru.len() > 0 {
        lemma_entries_drop_first(lru, m);
        lemma_logged_entries(lru.drop_first(), m, seq);
        assert forall|s: i32| lru.contains(s) <==> (s == lru[0] || lru.drop_first().contains(s)) by {
            if lru.contains(s) && s != lru[0] {
                let j = choose|j: int| 0 <= j < lru.len() && lru[j] == s;
                assert(lru.drop_first()[j - 1] == s);
            }
            if lru.drop_first().contains(s) {
                let j = choose|j: int| 0 <= j < lru.drop_first().len() && lru.drop_first()[j] == s;
                assert(lru[j + 1] == s);
            }
            if s == lru[0] {
                assert(lru[0] == s);
            }
        }
    }
}

fn is_doomed(trains: &VecDeque<Train>, s: i32, now_ms: u64) -> (b: bool)
    ensures
        b == doomed(trains_view(trains@), now_ms, s),
{
    let mut i: usize = 0;
    while i < trains.len()
        invariant
            i <= trains@.len(),
            forall|k: int|
                0 <= k < i ==> !(now_ms > trains_view(trains@)[k].spec.deadline_ms
                    && #[trigger] trains_view(trains@)[k].sequences.contains(s)),
        decreases trains@.len() - i,
    {
        if now_ms > trains[i].spec.deadline_ms && trains[i].contains(s) {
            proof {
                assert(trains_view(trains@)[i as int].sequences.contains(s));
            }
            return true;
        }
        i += 1;
    }
    false
}

impl PendingLog {
    fn new() -> (l: Self)
        ensures
            l.wf(),
            l@ == Seq::<(i32, u64)>::empty(),
    {
        let l = PendingLog { lru: VecDeque::new(), times: times_new() };
        proof {
            assert(l@ =~= Seq::<(i32, u64)>::empty());
        }
        l
    }

    fn len(&self) -> (n: usize)
        ensures
            n == self@.len(),
    {
        self.lru.len()
    }

    /// When `seq` was sent, if it is pending.
    fn get(&self, seq: i32) -> (r: Option<u64>)
        requires
            self.wf(),
        ensures
            r == logged(self@, seq),
    {
        proof {
            lemma_logged_entries(self.lru@, sent_times(self.times), seq);
        }
        times_get(&self.times, seq)
    }

    /// Drop the pending copy of `seq`, if any.
    fn remove(&mut self, seq: i32)
        requires
            old(self).wf(),
        ensures
            final(self).wf(),
            final(self)@ == log_without(old(self)@, seq),
    {
        let ghost lru0 = self.lru@;
        let ghost m0 = sent_times(self.times);
        let ghost keep = |s: i32| s != seq;
        let mut out: VecDeque<i32> = VecDeque::new();
        let mut i: usize = 0;
        proof {
            assert(lru0.skip(0) =~= lru0);
        }
        while i < self.lru.len()
            invariant
                i <= self.lru@.len(),
                self.lru@ == lru0,
                keep == (|s: i32| s != seq),
                kept_seqs(lru0, keep) == out@ + kept_seqs(lru0.skip(i as int), keep),
            decreases self.lru@.len() - i,
        {
            let s = self.lru[i];
            proof {
                let r = lru0.skip(i as int);
                assert(r[0] == s);
                assert(r.drop_first() =~= lru0.skip(i + 1));
            }
            if s != seq {
                proof {
                    let o = out@;
                    assert(o + (seq![s] + kept_seqs(lru0.skip(i + 1), keep)) =~= o.push(s) + kept_seqs(
                        lru0.skip(i + 1),
                        keep,
                    ));
                }
                out.push_back(s);
            }
            i += 1;
        }
        proof {
            assert(lru0.skip(lru0.len() as int) =~= Seq::<i32>::empty());
            assert(out@ + Seq::<i32>::empty() =~= out@);
        }
        times_remove(&mut self.times, seq);
        self.lru = out;
        proof {
            let m1 = sent_times(self.times);
            lemma_kept(lru0, m0, m1, keep);
            lemma_log_without_kept(entries_of(lru0, m0), seq);
            lemma_kept_subset(lru0, keep);
            assert forall|x: i32| sent_times(self.times).dom().contains(x) <==> self.lru@.contains(x) by {
                assert(self.lru@.contains(x) <==> lru0.contains(x) && keep(x));
                assert(m0.dom().contains(x) <==> lru0.contains(x));
            }
        }
    }

    /// Drop the copies of trains whose deadline passed at `now_ms`.
    fn drop_doomed(&mut self, trains: &VecDeque<Train>, now_ms: u64)
        requires
            old(self).wf(),
        ensures
            final(self).wf(),
            final(self)@ == log_without_doomed(old(self)@, trains_view(trains@), now_ms),
    {
        let ghost lru0 = self.lru@;
        let ghost m0 = sent_times(self.times);
        let ghost tv = trains_view(trains@);
        let ghost keep = |s: i32| !doomed(tv, now_ms, s);
        let mut out: VecDeque<i32> = VecDeque::new();
        let mut i: usize = 0;
        proof {
            assert(lru0.skip(0) =~= lru0);
            assert(lru0.take(0) =~= Seq::<i32>::empty());
        }
        while i < self.lru.len()
            invariant
                i <= self.lru@.len(),
                self.lru@ == lru0,
                tv == trains_view(trains@),
                keep == (|s: i32| !doomed(tv, now_ms, s)),
                kept_seqs(lru0, keep) == out@ + kept_seqs(lru0.skip(i as int), keep),
                forall|s: i32|
                    sent_times(self.times).dom().contains(s) <==> (m0.dom().contains(s) && !(
                    lru0.take(i as int).contains(s) && !keep(s))),
                forall|s: i32|
                    sent_times(self.times).dom().contains(s) ==> sent_times(self.times)[s] == m0[s],
            decreases self.lru@.len() - i,
        {
            let s = self.lru[i];
            proof {
                let r = lru0.skip(i as int);
                assert(r[0] == s);
                assert(r.drop_first() =~= lru0.skip(i + 1));
                assert forall|x: i32| lru0.take(i + 1).contains(x) <==> (lru0.take(i as int).contains(x)
                    || x == s) by {
                    let t1 = lru0.take(i + 1);
                    let t0 = lru0.take(i as int);
                    if t1.contains(x) && x != s {
                        let j = choose|j: int| 0 <= j < t1.len() && t1[j] == x;
                        assert(t0[j] == x);
                    }
                    if t0.contains(x) {
                        let j = choose|j: int| 0 <= j < t0.len() && t0[j] == x;
                        assert(t1[j] == x);
                    }
                    if x == s {
                        assert(lru0.take(i + 1)[i as int] == x);
                    }
                }
            }
            let ghost before = sent_times(self.times);
            let ghost t0 = lru0.take(i as int);
            let ghost t1 = lru0.take(i + 1);
            proof {
                assert forall|x: i32|
                    before.dom().contains(x) <==> (m0.dom().contains(x) && !(t0.contains(x) && !keep(x))) by {}
            }
            let gone = is_doomed(trains, s, now_ms);
            if gone {
                times_remove(&mut self.times, s);
            } else {
                proof {
                    let o = out@;
                    assert(o + (seq![s] + kept_seqs(lru0.skip(i + 1), keep)) =~= o.push(s) + kept_seqs(
                        lru0.skip(i + 1),
                        keep,
                    ));
                }
                out.push_back(s);
            }
            proof {
                assert(gone == !keep(s));
                assert forall|x: i32|
                    sent_times(self.times).dom().contains(x) <==> (m0.dom().contains(x) && !(t1.contains(x)
                        && !keep(x))) by {
                    assert(t1.contains(x) <==> (t0.contains(x) || x == s));
                    if x != s {
                        assert(sent_times(self.times).dom().contains(x) == before.dom().contains(x));
                    }
                }
                assert forall|x: i32| sent_times(self.times).dom().contains(x) implies sent_times(self.times)[x]
                    == m0[x] by {
                    assert(before.dom().contains(x));
                }
            }
            i += 1;
        }
        proof {
            assert(lru0.skip(lru0.len() as int) =~= Seq::<i32>::empty());
            assert(out@ + Seq::<i32>::empty() =~= out@);
            assert(lru0.take(lru0.len() as int) =~= lru0);
        }
        self.lru = out;
        proof {
            let m1 = sent_times(self.times);
            lemma_kept(lru0, m0, m1, keep);
            lemma_doomed_kept(entries_of(lru0, m0), tv, now_ms);
            lemma_kept_subset(lru0, keep);
            assert forall|x: i32| sent_times(self.times).dom().contains(x) <==> self.lru@.contains(x) by {
                assert(self.lru@.contains(x) <==> lru0.contains(x) && keep(x));
                assert(m0.dom().contains(x) <==> lru0.contains(x));
            }
        }
    }

    /// Log `seq`, which is not pending, as sent at `now_ms`.
    fn push(&mut self, seq: i32, now_ms: u64)
        requires
            old(self).wf(),
            logged(old(self)@, seq) is None,
        ensures
            final(self).wf(),
            final(self)@ == old(self)@.push((seq, now_ms)),
    {
        let ghost lru0 = self.lru@;
        let ghost m0 = sent_times(self.times);
        proof {
            lemma_logged_entries(lru0, m0, seq);
        }
        times_insert(&mut self.times, seq, now_ms);
        self.lru.push_back(seq);
        proof {
            let m1 = sent_times(self.times);
            assert(entries_of(self.lru@, m1) =~= entries_of(lru0, m0).push((seq, now_ms))) by {
                assert forall|i: int| 0 <= i < lru0.len() implies m1[lru0[i]] == m0[lru0[i]] by {
                    assert(lru0.contains(lru0[i]));
                }
            }
            assert forall|s: i32| self.lru@.contains(s) <==> (lru0.contains(s) || s == seq) by {
                if self.lru@.contains(s) && s != seq {
                    let j = choose|j: int| 0 <= j < self.lru@.len() && self.lru@[j] == s;
                    assert(lru0[j] == s);
                }
                if lru0.contains(s) {
                    let j = choose|j: int| 0 <= j < lru0.len() && lru0[j] == s;
                    assert(self.lru@[j] == s);
                }
                if s == seq {
                    assert(self.lru@[lru0.len() as int] == s);
                }
            }
            assert forall|i: int, j: int|
                0 <= i < self.lru@.len() && 0 <= j < self.lru@.len() && i != j implies self.lru@[i]
                != self.lru@[j] by {
                if i == lru0.len() {
                    assert(lru0.contains(self.lru@[j]));
                } else if j == lru0.len() {
                    assert(lru0.contains(self.lru@[i]));
                }
            }
        }
    }

    /// Evict the least recently sent copy.
    fn evict_oldest(&mut self)
        requires
            old(self).wf(),
            old(self)@.len() > 0,
        ensures
            final(self).wf(),
            final(self)@ == old(self)@.drop_first(),
    {
        let ghost lru0 = self.lru@;
        let ghost m0 = sent_times(self.times);
        let oldest = self.lru[0];
        times_remove(&mut self.times, oldest);
        let _ = self.lru.pop_front();
        proof {
            let m1 = sent_times(self.times);
            assert(self.lru@ =~= lru0.drop_first());
            lemma_entries_drop_first(lru0, m0);
            assert(entries_of(self.lru@, m1) =~= entries_of(lru0.drop_first(), m0)) by {
                assert forall|i: int| 0 <= i < self.lru@.len() implies m1[self.lru@[i]] == m0[self.lru@[i]] by {
                    assert(lru0[i + 1] != lru0[0]);
                }
            }
            assert forall|s: i32| self.lru@.contains(s) <==> (lru0.contains(s) && s != oldest) by {
                if self.lru@.contains(s) {
                    let j = choose|j: int| 0 <= j < self.lru@.len() && self.lru@[j] == s;
                    assert(lru0[j + 1] == s);
                    assert(lru0[j + 1] != lru0[0]);
                }
                if lru0.contains(s) && s != oldest {
                    let j = choose|j: int| 0 <= j < lru0.len() && lru0[j] == s;
                    assert(j != 0);
                    assert(self.lru@[j - 1] == s);
                }
            }
            assert forall|i: int, j: int|
                0 <= i < self.lru@.len() && 0 <= j < self.lru@.len() && i != j implies self.lru@[i]
                != self.lru@[j] by {
                assert(lru0[i + 1] != lru0[j + 1]);
            }
        }
    }

    /// Forget every pending copy.
    fn clear(&mut self)
        ensures
            final(self).wf(),
            final(self)@ == Seq::<(i32, u64)>::empty(),
    {
        self.lru.clear();
        times_clear(&mut self.times);
        proof {
            assert(self@ =~= Seq::<(i32, u64)>::empty());
        }
    }
}

/// One probe train and what became of its copies.
#[derive(Debug)]
struct Train {
    spec: ProbeTrain,
    sequences: TrainSeqs,
    acknowledged: u8,
    expired: bool,
}

/// Abstract value of a train.
pub struct TrainView {
    pub spec: ProbeTrain,
    pub sequences: Seq<i32>,
    pub acknowledged: u8,
    pub expired: bool,
}

impl View for Train {
    type V = TrainView;

    closed spec fn view(&self) -> TrainView {
        TrainView {
            spec: self.spec,
            sequences: train_seqs(self.sequences),
            acknowledged: self.acknowledged,
            expired: self.expired,
        }
    }
}

/// The probe evidence of one socket lifetime.
#[derive(Debug)]
pub struct ProbeLog {
    entries: PendingLog,
    trains: VecDeque<Train>,
    probes_sent: u64,
}

/// Abstract value of a probe log.
pub struct ProbeLogView {
    /// `(sequence, send time)` of every copy awaiting its ACK, least recently
    /// sent first.
    pub entries: Seq<(i32, u64)>,
    pub trains: Seq<TrainView>,
    /// Probe copies accepted over the socket's life.
    pub probes_sent: u64,
}

spec fn trains_view(ts: Seq<Train>) -> Seq<TrainView> {
    Seq::new(ts.len(), |i: int| ts[i]@)
}

impl View for ProbeLog {
    type V = ProbeLogView;

    closed spec fn view(&self) -> ProbeLogView {
        ProbeLogView {
            entries: self.entries@,
            trains: trains_view(self.trains@),
            probes_sent: self.probes_sent,
        }
    }
}

pub open spec fn sat_sub(a: u64, b: u64) -> int {
    if a >= b {
        a - b
    } else {
        0
    }
}

/// The log without the copy of `seq`.
pub open spec fn log_without(es: Seq<(i32, u64)>, seq: i32) -> Seq<(i32, u64)>
    decreases es.len(),
{
    if es.len() == 0 {
        es
    } else if es[0].0 == seq {
        log_without(es.drop_first(), seq)
    } else {
        seq![es[0]] + log_without(es.drop_first(), seq)
    }
}

/// A train whose deadline passed at `now` takes its copies out of the log.
pub open spec fn doomed(ts: Seq<TrainView>, now: u64, s: i32) -> bool {
    exists|i: int| 0 <= i < ts.len() && now > ts[i].spec.deadline_ms && #[trigger] ts[i].sequences.contains(s)
}

pub open spec fn log_without_doomed(es: Seq<(i32, u64)>, ts: Seq<TrainView>, now: u64) -> Seq<(i32, u64)>
    decreases es.len(),
{
    if es.len() == 0 {
        es
    } else if doomed(ts, now, es[0].0) {
        log_without_doomed(es.drop_first(), ts, now)
    } else {
        seq![es[0]] + log_without_doomed(es.drop_first(), ts, now)
    }
}

pub open spec fn expire_train(t: TrainView, now: u64) -> TrainView {
    if now > t.spec.deadline_ms {
        TrainView { expired: true, ..t }
    } else {
        t
    }
}

/// A train is kept until twice its acknowledgement span has passed.
pub open spec fn young(t: TrainView, now: u64) -> bool {
    let span = sat_sub(t.spec.deadline_ms, t.spec.started_ms);
    let twice = if span * 2 > u64::MAX {
        u64::MAX as int
    } else {
        span * 2
    };
    sat_sub(now, t.spec.started_ms) <= twice
}

/// The trains that survive an advance to `now`, each marked expired once its
/// deadline passed.
pub open spec fn surviving(ts: Seq<TrainView>, now: u64) -> Seq<TrainView>
    decreases ts.len(),
{
    if ts.len() == 0 {
        ts
    } else {
        let t = expire_train(ts[0], now);
        if young(t, now) {
            seq![t] + surviving(ts.drop_first(), now)
        } else {
            surviving(ts.drop_first(), now)
        }
    }
}

/// Expired, or every copy acknowledged.
pub open spec fn finished(t: TrainView) -> bool {
    t.expired || t.acknowledged == PROBE_TRAIN_LEN
}

pub open spec fn finished_count(ts: Seq<TrainView>) -> nat
    decreases ts.len(),
{
    if ts.len() == 0 {
        0
    } else {
        (if finished(ts[0]) {
            1nat
        } else {
            0nat
        }) + finished_count(ts.drop_first())
    }
}

/// Drop the oldest `extra` finished trains.
pub open spec fn drop_oldest_finished(ts: Seq<TrainView>, extra: int) -> Seq<TrainView>
    decreases ts.len(),
{
    if ts.len() == 0 {
        ts
    } else if finished(ts[0]) && extra > 0 {
        drop_oldest_finished(ts.drop_first(), extra - 1)
    } else {
        seq![ts[0]] + drop_oldest_finished(ts.drop_first(), extra)
    }
}

/// The log after time moved to `now`: expired trains lose their pending
/// copies, old trains are forgotten, and at most two finished trains stay.
pub open spec fn advanced(v: ProbeLogView, now: u64) -> ProbeLogView {
    let ts = surviving(v.trains, now);
    let f = finished_count(ts);
    ProbeLogView {
        entries: log_without_doomed(v.entries, v.trains, now),
        trains: drop_oldest_finished(
            ts,
            if f > 2 {
                f - 2
            } else {
                0
            },
        ),
        ..v
    }
}

/// The first train satisfying `p`.
pub open spec fn first_train(ts: Seq<TrainView>, p: spec_fn(TrainView) -> bool, k: int) -> Option<int>
    decreases ts.len() - k,
{
    if k < 0 || k >= ts.len() {
        None
    } else if p(ts[k]) {
        Some(k)
    } else {
        first_train(ts, p, k + 1)
    }
}

pub open spec fn logged(es: Seq<(i32, u64)>, seq: i32) -> Option<u64>
    decreases es.len(),
{
    if es.len() == 0 {
        None
    } else if es[0].0 == seq {
        Some(es[0].1)
    } else {
        logged(es.drop_first(), seq)
    }
}

/// The log with a train for `spec`: a new, empty train is appended unless one
/// with its id is kept, and the oldest train (with its pending copies) makes
/// room when the log already keeps the most trains.
pub open spec fn with_train(v: ProbeLogView, spec: ProbeTrain) -> ProbeLogView {
    if first_train(v.trains, |t: TrainView| t.spec.id == spec.id, 0) is Some {
        v
    } else {
        let (es, ts) = if v.trains.len() == PROBE_TRAINS_KEPT {
            (log_without_all(v.entries, v.trains[0].sequences), v.trains.drop_first())
        } else {
            (v.entries, v.trains)
        };
        ProbeLogView {
            entries: es,
            trains: ts.push(TrainView { spec, sequences: seq![], acknowledged: 0, expired: false }),
            ..v
        }
    }
}

/// The log with copy `seq` sent at `now` as its newest entry: an earlier
/// entry of `seq` leaves, and the oldest entry makes room when the log is
/// full.
pub open spec fn log_insert(es: Seq<(i32, u64)>, seq: i32, now: u64) -> Seq<(i32, u64)> {
    let e = log_without(es, seq);
    let e2 = if e.len() == PROBE_LOG_CAPACITY {
        e.drop_first()
    } else {
        e
    };
    e2.push((seq, now))
}

/// The log after a probe copy `seq` of train `spec` was accepted at `now`.
pub open spec fn after_probe_sent(v: ProbeLogView, seq: i32, spec: ProbeTrain, now: u64) -> ProbeLogView {
    let v1 = advanced(v, now);
    let v2 = ProbeLogView {
        probes_sent: if v1.probes_sent == u64::MAX {
            u64::MAX
        } else {
            (v1.probes_sent + 1) as u64
        },
        ..v1
    };
    if now > spec.deadline_ms {
        v2
    } else {
        match first_train(v2.trains, |t: TrainView| t.sequences.contains(seq), 0) {
            Some(k) => {
                // A copy of a known sequence only refreshes its own train's entry.
                if v2.trains[k].spec.id == spec.id && logged(v2.entries, seq) is Some {
                    ProbeLogView { entries: log_without(v2.entries, seq).push((seq, now)), ..v2 }
                } else {
                    v2
                }
            },
            None => {
                let v3 = with_train(v2, spec);
                let k = first_train(v3.trains, |t: TrainView| t.spec.id == spec.id, 0)->0;
                let t = v3.trains[k];
                if t.expired || t.sequences.len() >= PROBE_TRAIN_LEN {
                    v3
                } else {
                    ProbeLogView {
                        entries: log_insert(v3.entries, seq, now),
                        trains: v3.trains.update(
                            k,
                            TrainView { sequences: t.sequences.push(seq), ..t },
                        ),
                        ..v3
                    }
                }
            },
        }
    }
}

/// The log without the copies of every sequence in `ss`.
pub open spec fn log_without_all(es: Seq<(i32, u64)>, ss: Seq<i32>) -> Seq<(i32, u64)>
    decreases ss.len(),
{
    if ss.len() == 0 {
        es
    } else {
        log_without_all(log_without(es, ss[0]), ss.drop_first())
    }
}

/// An ACK of probe copy `seq` at `now`: credited to its unexpired train when
/// the copy is logged and was sent no later than `now`.
pub open spec fn after_probe_ack(v: ProbeLogView, seq: i32, now: u64) -> (ProbeLogView, bool) {
    let v1 = advanced(v, now);
    match logged(v1.entries, seq) {
        Some(sent) => if sent <= now {
            match first_train(
                v1.trains,
                |t: TrainView| !t.expired && t.sequences.contains(seq),
                0,
            ) {
                Some(k) => {
                    let t = v1.trains[k];
                    (
                        ProbeLogView {
                            entries: log_without(v1.entries, seq),
                            trains: v1.trains.update(
                                k,
                                TrainView {
                                    acknowledged: if t.acknowledged == u8::MAX {
                                        u8::MAX
                                    } else {
                                        (t.acknowledged + 1) as u8
                                    },
                                    ..t
                                },
                            ),
                            ..v1
                        },
                        true,
                    )
                },
                None => (v1, false),
            }
        } else {
            (v1, false)
        },
        None => (v1, false),
    }
}

/// A successful round: expired, or half the copies acknowledged out of a
/// complete train.
pub open spec fn qualifies(t: TrainView) -> bool {
    t.expired || (t.acknowledged >= ROUND_OK_ACKS && t.sequences.len() == PROBE_TRAIN_LEN)
}

pub open spec fn round_ok(t: TrainView) -> bool {
    t.acknowledged >= ROUND_OK_ACKS && t.sequences.len() == PROBE_TRAIN_LEN
}

/// Consecutive successful rounds among the newest qualifying trains (at
/// most two), and the start of the oldest counted; walks `ts[..n]` from
/// its end.
pub open spec fn rounds_from(ts: Seq<TrainView>, n: int, count: u32, start: Option<u64>) -> (
    u32,
    Option<u64>,
)
    decreases n,
{
    if n <= 0 || n > ts.len() {
        (count, start)
    } else {
        let t = ts[n - 1];
        if !qualifies(t) {
            rounds_from(ts, n - 1, count, start)
        } else if !round_ok(t) {
            (count, start)
        } else if count + 1 == 2 {
            (2, Some(t.spec.started_ms))
        } else {
            rounds_from(ts, n - 1, (count + 1) as u32, Some(t.spec.started_ms))
        }
    }
}

/// A failed round: the train expired without half its copies acknowledged
/// out of a complete train.
pub open spec fn failed_round(t: TrainView) -> bool {
    t.expired && !round_ok(t)
}

/// The index of the newest failed round among `ts[..n]`, or -1.
pub open spec fn newest_failed(ts: Seq<TrainView>, n: int) -> int
    decreases n,
{
    if n <= 0 || n > ts.len() {
        -1
    } else if failed_round(ts[n - 1]) {
        n - 1
    } else {
        newest_failed(ts, n - 1)
    }
}

/// How many of `ts[lo..hi]` are successful rounds.
pub open spec fn ok_count(ts: Seq<TrainView>, lo: int, hi: int) -> nat
    decreases hi - lo,
{
    if hi <= lo {
        0
    } else {
        ok_count(ts, lo, hi - 1) + if round_ok(ts[hi - 1]) {
            1nat
        } else {
            0nat
        }
    }
}

proof fn lemma_newest_failed_bound(ts: Seq<TrainView>, n: int)
    requires
        0 <= n <= ts.len(),
    ensures
        -1 <= newest_failed(ts, n) < n,
        newest_failed(ts, n) >= 0 ==> failed_round(ts[newest_failed(ts, n)]),
    decreases n,
{
    if n > 0 {
        lemma_newest_failed_bound(ts, n - 1);
    }
}

proof fn lemma_rounds_from_streak(ts: Seq<TrainView>, n: int, count: u32, start: Option<u64>)
    requires
        0 <= n <= ts.len(),
        count <= 1,
    ensures
        ({
            let f = newest_failed(ts, n);
            let c = ok_count(ts, f + 1, n);
            let need: int = if count + c >= 2 {
                2 - count
            } else {
                c as int
            };
            let r = rounds_from(ts, n, count, start);
            &&& r.0 == count + need
            &&& need == 0 ==> r.1 == start
            &&& need > 0 ==> exists|k: int|
                f < k < n && round_ok(#[trigger] ts[k]) && ok_count(ts, k, n) == need && r.1 == Some(
                    ts[k].spec.started_ms,
                )
        }),
    decreases n,
{
    lemma_newest_failed_bound(ts, n);
    if n > 0 {
        let t = ts[n - 1];
        lemma_newest_failed_bound(ts, n - 1);
        let f = newest_failed(ts, n);
        if !qualifies(t) {
            lemma_rounds_from_streak(ts, n - 1, count, start);
            assert(f == newest_failed(ts, n - 1));
            assert(ok_count(ts, f + 1, n) == ok_count(ts, f + 1, n - 1));
            let r = rounds_from(ts, n, count, start);
            assert forall|k: int| f < k < n - 1 implies ok_count(ts, k, n) == ok_count(ts, k, n - 1) by {}
        } else if !round_ok(t) {
            assert(f == n - 1);
            assert(ok_count(ts, n, n) == 0);
        } else if count == 1 {
            assert(f == newest_failed(ts, n - 1));
            assert(ok_count(ts, n - 1, n - 1) == 0);
            assert(ok_count(ts, n - 1, n) == 1);
            assert(ok_count(ts, f + 1, n) == ok_count(ts, f + 1, n - 1) + 1);
            assert(round_ok(ts[n - 1]));
        } else {
            lemma_rounds_from_streak(ts, n - 1, 1, Some(t.spec.started_ms));
            assert(f == newest_failed(ts, n - 1));
            assert(ok_count(ts, f + 1, n) == ok_count(ts, f + 1, n - 1) + 1);
            assert(ok_count(ts, n - 1, n - 1) == 0);
            assert(ok_count(ts, n - 1, n) == 1);
            assert(round_ok(ts[n - 1]));
            let c1 = ok_count(ts, f + 1, n - 1);
            if c1 > 0 {
                let r = rounds_from(ts, n, count, start);
                let k = choose|k: int|
                    f < k < n - 1 && round_ok(#[trigger] ts[k]) && ok_count(ts, k, n - 1) == 1
                        && rounds_from(ts, n - 1, 1, Some(t.spec.started_ms)).1 == Some(
                        ts[k].spec.started_ms,
                    );
                assert(ok_count(ts, k, n) == 2);
            }
        }
    }
}

/// A successful round is a complete train of ten copies with at least five
/// of them acknowledged; a failed round is an expired train that is not a
/// successful one.
pub proof fn lemma_round_outcomes(t: TrainView)
    ensures
        round_ok(t) <==> (t.acknowledged >= 5 && t.sequences.len() == 10),
        failed_round(t) <==> (t.expired && !(t.acknowledged >= 5 && t.sequences.len() == 10)),
{
}

/// Consecutive successful rounds, walking the trains newest first: the count
/// is the number of successful rounds newer than the newest failed one (an
/// expired train without enough acknowledgements ends the streak), at most
/// two; the start reported is that of the oldest round counted, and there is
/// none when nothing was counted. Trains still running are neither counted
/// nor break the streak.
pub proof fn lemma_rounds_ok_streak(ts: Seq<TrainView>)
    ensures
        ({
            let f = newest_failed(ts, ts.len() as int);
            let c = ok_count(ts, f + 1, ts.len() as int);
            let r = rounds_from(ts, ts.len() as int, 0, None);
            &&& r.0 == (if c >= 2 {
                2
            } else {
                c
            })
            &&& r.0 == 0 <==> r.1 is None
            &&& r.0 > 0 ==> exists|k: int|
                f < k < ts.len() && round_ok(#[trigger] ts[k]) && ok_count(ts, k, ts.len() as int)
                    == r.0 && r.1 == Some(ts[k].spec.started_ms)
        }),
{
    lemma_rounds_from_streak(ts, ts.len() as int, 0, None);
}

/// The acknowledged counts of the newest two finished trains, newest first.
pub open spec fn last_two_finished(ts: Seq<TrainView>, n: int, first: Option<u8>) -> Option<(u8, u8)>
    decreases n,
{
    if n <= 0 || n > ts.len() {
        None
    } else {
        let t = ts[n - 1];
        if !finished(t) {
            last_two_finished(ts, n - 1, first)
        } else {
            match first {
                None => last_two_finished(ts, n - 1, Some(t.acknowledged)),
                Some(a) => Some((a, t.acknowledged)),
            }
        }
    }
}

proof fn lemma_first_train(ts: Seq<TrainView>, p: spec_fn(TrainView) -> bool, k: int)
    requires
        0 <= k,
    ensures
        first_train(ts, p, k) matches Some(i) ==> k <= i < ts.len() && p(ts[i]),
        first_train(ts, p, k) is None ==> forall|j: int| k <= j < ts.len() ==> !p(ts[j]),
    decreases ts.len() - k,
{
    if k < ts.len() && !p(ts[k]) {
        lemma_first_train(ts, p, k + 1);
    }
}

proof fn lemma_trains_view_push(ts: Seq<Train>, t: Train)
    ensures
        trains_view(ts.push(t)) == trains_view(ts).push(t@),
{
    assert(trains_view(ts.push(t)) =~= trains_view(ts).push(t@));
}


proof fn lemma_without_shorter(es: Seq<(i32, u64)>, seq: i32)
    ensures
        log_without(es, seq).len() <= es.len(),
        logged(es, seq) is Some ==> log_without(es, seq).len() < es.len(),
        logged(log_without(es, seq), seq) is None,
    decreases es.len(),
{
    if es.len() > 0 {
        lemma_without_shorter(es.drop_first(), seq);
        if es[0].0 != seq {
            let r = seq![es[0]] + log_without(es.drop_first(), seq);
            assert(r[0] == es[0]);
            assert(r.drop_first() =~= log_without(es.drop_first(), seq));
        }
    }
}

proof fn lemma_without_doomed_shorter(es: Seq<(i32, u64)>, ts: Seq<TrainView>, now: u64, s: i32)
    ensures
        log_without_doomed(es, ts, now).len() <= es.len(),
        logged(es, s) is None ==> logged(log_without_doomed(es, ts, now), s) is None,
    decreases es.len(),
{
    if es.len() > 0 {
        lemma_without_doomed_shorter(es.drop_first(), ts, now, s);
        if !doomed(ts, now, es[0].0) {
            let r = seq![es[0]] + log_without_doomed(es.drop_first(), ts, now);
            assert(r[0] == es[0]);
            assert(r.drop_first() =~= log_without_doomed(es.drop_first(), ts, now));
        }
    }
}

proof fn lemma_without_all_shorter(es: Seq<(i32, u64)>, ss: Seq<i32>)
    ensures
        log_without_all(es, ss).len() <= es.len(),
    decreases ss.len(),
{
    if ss.len() > 0 {
        lemma_without_shorter(es, ss[0]);
        lemma_without_all_shorter(log_without(es, ss[0]), ss.drop_first());
    }
}

proof fn lemma_drop_finished_count(ts: Seq<TrainView>, extra: int)
    requires
        0 <= extra,
    ensures
        finished_count(drop_oldest_finished(ts, extra)) == if extra <= finished_count(ts) {
            finished_count(ts) - extra
        } else {
            0
        },
    decreases ts.len(),
{
    if ts.len() > 0 {
        if finished(ts[0]) && extra > 0 {
            lemma_drop_finished_count(ts.drop_first(), extra - 1);
        } else {
            lemma_drop_finished_count(ts.drop_first(), extra);
            let r = seq![ts[0]] + drop_oldest_finished(ts.drop_first(), extra);
            assert(r[0] == ts[0]);
            assert(r.drop_first() =~= drop_oldest_finished(ts.drop_first(), extra));
        }
    }
}

/// Whatever the order of sends, ACKs and clock advances, no more than the log's
/// capacity of probe copies await their ACK.
pub proof fn lemma_pending_copies_bounded(v: ProbeLogView, seq: i32, spec: ProbeTrain, now: u64)
    requires
        v.entries.len() <= PROBE_LOG_CAPACITY,
    ensures
        advanced(v, now).entries.len() <= PROBE_LOG_CAPACITY,
        after_probe_sent(v, seq, spec, now).entries.len() <= PROBE_LOG_CAPACITY,
        after_probe_ack(v, seq, now).0.entries.len() <= PROBE_LOG_CAPACITY,
{
    lemma_without_doomed_shorter(v.entries, v.trains, now, seq);
    let v1 = advanced(v, now);
    lemma_without_shorter(v1.entries, seq);
    let v2 = ProbeLogView {
        probes_sent: if v1.probes_sent == u64::MAX {
            u64::MAX
        } else {
            (v1.probes_sent + 1) as u64
        },
        ..v1
    };
    if now <= spec.deadline_ms {
        match first_train(v2.trains, |t: TrainView| t.sequences.contains(seq), 0) {
            Some(k) => {},
            None => {
                if first_train(v2.trains, |t: TrainView| t.spec.id == spec.id, 0) is None
                    && v2.trains.len() == PROBE_TRAINS_KEPT {
                    lemma_without_all_shorter(v2.entries, v2.trains[0].sequences);
                }
                let v3 = with_train(v2, spec);
                lemma_without_shorter(v3.entries, seq);
            },
        }
    }
}

proof fn lemma_without_unlogged(es: Seq<(i32, u64)>, seq: i32)
    requires
        logged(es, seq) is None,
    ensures
        log_without(es, seq) == es,
    decreases es.len(),
{
    if es.len() > 0 {
        lemma_without_unlogged(es.drop_first(), seq);
        assert(seq![es[0]] + es.drop_first() == es);
    }
}

/// The pending log is bounded and least recently sent first: a copy that
/// enters it becomes its newest entry and is found at its send time; a copy
/// new to a full log evicts exactly the oldest entry, and one new to a log
/// with room evicts nothing.
pub proof fn lemma_log_evicts_oldest(es: Seq<(i32, u64)>, seq: i32, now: u64)
    requires
        es.len() <= PROBE_LOG_CAPACITY,
    ensures
        log_insert(es, seq, now).len() <= PROBE_LOG_CAPACITY,
        log_insert(es, seq, now).last() == (seq, now),
        logged(log_insert(es, seq, now), seq) == Some(now),
        logged(es, seq) is None && es.len() == PROBE_LOG_CAPACITY ==> log_insert(es, seq, now)
            == es.drop_first().push((seq, now)),
        logged(es, seq) is None && es.len() < PROBE_LOG_CAPACITY ==> log_insert(es, seq, now)
            == es.push((seq, now)),
{
    lemma_without_shorter(es, seq);
    if logged(es, seq) is None {
        lemma_without_unlogged(es, seq);
    }
    let e = log_without(es, seq);
    let e2 = if e.len() == PROBE_LOG_CAPACITY {
        e.drop_first()
    } else {
        e
    };
    if e.len() == PROBE_LOG_CAPACITY {
        lemma_logged_drop_first(e, seq);
    }
    lemma_logged_push(e2, seq, now);
}

proof fn lemma_logged_drop_first(es: Seq<(i32, u64)>, seq: i32)
    requires
        es.len() > 0,
        logged(es, seq) is None,
    ensures
        logged(es.drop_first(), seq) is None,
{
}

proof fn lemma_logged_push(es: Seq<(i32, u64)>, seq: i32, now: u64)
    requires
        logged(es, seq) is None,
    ensures
        logged(es.push((seq, now)), seq) == Some(now),
    decreases es.len(),
{
    if es.len() > 0 {
        lemma_logged_push(es.drop_first(), seq, now);
        assert(es.push((seq, now)).drop_first() == es.drop_first().push((seq, now)));
    } else {
        assert(es.push((seq, now))[0] == (seq, now));
    }
}

/// After any advance, at most two finished trains are kept: the newest ones.
pub proof fn lemma_two_finished_trains_kept(v: ProbeLogView, now: u64)
    ensures
        finished_count(advanced(v, now).trains) <= 2,
{
    let ts = surviving(v.trains, now);
    let f = finished_count(ts);
    lemma_drop_finished_count(
        ts,
        if f > 2 {
            f - 2
        } else {
            0
        },
    );
}

/// An ACK that was credited cannot be credited again: the copy leaves the log.
pub proof fn lemma_ack_replay_is_inert(v: ProbeLogView, seq: i32, first_ms: u64, later_ms: u64)
    requires
        after_probe_ack(v, seq, first_ms).1,
    ensures
        !after_probe_ack(after_probe_ack(v, seq, first_ms).0, seq, later_ms).1,
{
    let v1 = advanced(v, first_ms);
    lemma_without_shorter(v1.entries, seq);
    let w = after_probe_ack(v, seq, first_ms).0;
    lemma_without_doomed_shorter(w.entries, w.trains, later_ms, seq);
}

impl Train {
    fn contains(&self, seq: i32) -> (b: bool)
        ensures
            b == self@.sequences.contains(seq),
    {
        let n = seqs_len(&self.sequences);
        let mut i: usize = 0;
        while i < n
            invariant
                n == train_seqs(self.sequences).len(),
                i <= n,
                forall|k: int| 0 <= k < i ==> train_seqs(self.sequences)[k] != seq,
            decreases n - i,
        {
            if seqs_get(&self.sequences, i) == seq {
                proof {
                    assert(train_seqs(self.sequences)[i as int] == seq);
                }
                return true;
            }
            i += 1;
        }
        false
    }
}

impl Default for ProbeLog {
    fn default() -> (l: Self)
        ensures
            l.wf(),
            l@.entries.len() == 0,
            l@.trains.len() == 0,
            l@.probes_sent == 0,
    {
        ProbeLog { entries: PendingLog::new(), trains: VecDeque::new(), probes_sent: 0 }
    }
}

impl ProbeLog {
    /// The pending log is well formed.
    pub closed spec fn wf(&self) -> bool {
        self.entries.wf()
    }

    fn remove_entry(&mut self, seq: i32)
        requires
            old(self).wf(),
        ensures
            final(self).wf(),
            final(self)@ == (ProbeLogView { entries: log_without(old(self)@.entries, seq), ..old(self)@ }),
    {
        self.entries.remove(seq);
    }

    /// Move time to `now_ms`: trains past their deadline expire and take their
    /// pending copies out of the log, trains older than twice their span are
    /// forgotten, and only the newest two finished trains are kept.
    pub fn advance(&mut self, now_ms: u64)
        requires
            old(self).wf(),
        ensures
            final(self).wf(),
            final(self)@ == advanced(old(self)@, now_ms),
    {
        // Pending copies of expired trains leave the log.
        let ghost es = self.entries@;
        let ghost tv = trains_view(self.trains@);
        self.entries.drop_doomed(&self.trains, now_ms);
        // Expire and forget trains.
        let mut rest: VecDeque<Train> = VecDeque::new();
        std::mem::swap(&mut rest, &mut self.trains);
        let mut kept: VecDeque<Train> = VecDeque::new();
        proof {
            assert(trains_view(kept@) == Seq::<TrainView>::empty());
        }
        while rest.len() > 0
            invariant
                surviving(tv, now_ms) == trains_view(kept@) + surviving(trains_view(rest@), now_ms),
                self.trains@.len() == 0,
                self.entries@ == log_without_doomed(es, tv, now_ms),
                self.entries.wf(),
                self.probes_sent == old(self).probes_sent,
            decreases rest@.len(),
        {
            let ghost rv = trains_view(rest@);
            let mut t = rest.pop_front().unwrap();
            proof {
                assert(rv[0] == t@);
                assert(rv.drop_first() == trains_view(rest@));
            }
            if now_ms > t.spec.deadline_ms {
                t.expired = true;
            }
            let span = t.spec.deadline_ms.saturating_sub(t.spec.started_ms);
            let twice = if span > u64::MAX / 2 {
                u64::MAX
            } else {
                span * 2
            };
            if now_ms.saturating_sub(t.spec.started_ms) <= twice {
                proof {
                    lemma_trains_view_push(kept@, t);
                    let k = trains_view(kept@);
                    assert(k + (seq![t@] + surviving(trains_view(rest@), now_ms)) == k.push(t@)
                        + surviving(trains_view(rest@), now_ms));
                }
                kept.push_back(t);
            }
        }
        proof {
            assert(trains_view(rest@) == Seq::<TrainView>::empty());
            assert(trains_view(kept@) + Seq::<TrainView>::empty() == trains_view(kept@));
        }
        // Keep only the newest two finished trains.
        let ghost sv = trains_view(kept@);
        let mut finished_n: usize = 0;
        let mut j: usize = 0;
        proof {
            assert(sv.skip(0) == sv);
        }
        while j < kept.len()
            invariant
                j <= kept@.len(),
                sv == trains_view(kept@),
                finished_count(sv) == finished_n + finished_count(sv.skip(j as int)),
                finished_n <= j,
            decreases kept@.len() - j,
        {
            proof {
                assert(sv.skip(j as int)[0] == kept@[j as int]@);
                assert(sv.skip(j as int).drop_first() == sv.skip(j + 1));
            }
            if kept[j].expired || kept[j].acknowledged == PROBE_TRAIN_LEN {
                finished_n += 1;
            }
            j += 1;
        }
        proof {
            assert(sv.skip(sv.len() as int) == Seq::<TrainView>::empty());
        }
        let mut extra: usize = if finished_n > 2 {
            finished_n - 2
        } else {
            0
        };
        let ghost extra0 = extra as int;
        let mut result: VecDeque<Train> = VecDeque::new();
        proof {
            assert(trains_view(result@) == Seq::<TrainView>::empty());
        }
        while kept.len() > 0
            invariant
                drop_oldest_finished(sv, extra0) == trains_view(result@) + drop_oldest_finished(
                    trains_view(kept@),
                    extra as int,
                ),
                self.trains@.len() == 0,
                self.entries@ == log_without_doomed(es, tv, now_ms),
                self.entries.wf(),
                self.probes_sent == old(self).probes_sent,
            decreases kept@.len(),
        {
            let ghost kv = trains_view(kept@);
            let t = kept.pop_front().unwrap();
            proof {
                assert(kv[0] == t@);
                assert(kv.drop_first() == trains_view(kept@));
            }
            if (t.expired || t.acknowledged == PROBE_TRAIN_LEN) && extra > 0 {
                extra -= 1;
            } else {
                proof {
                    lemma_trains_view_push(result@, t);
                    let r = trains_view(result@);
                    assert(r + (seq![t@] + drop_oldest_finished(trains_view(kept@), extra as int))
                        == r.push(t@) + drop_oldest_finished(trains_view(kept@), extra as int));
                }
                result.push_back(t);
            }
        }
        proof {
            assert(trains_view(kept@) == Seq::<TrainView>::empty());
            assert(trains_view(result@) + Seq::<TrainView>::empty() == trains_view(result@));
        }
        self.trains = result;
    }
}

impl ProbeLog {
    /// When the pending copy of `seq` was sent, if it still awaits its ACK.
    pub fn sent_at(&self, seq: i32) -> (r: Option<u64>)
        requires
            self.wf(),
        ensures
            r == logged(self@.entries, seq),
    {
        self.entries.get(seq)
    }

    fn train_with_seq(&self, seq: i32) -> (r: Option<usize>)
        ensures
            match r {
                Some(k) => first_train(self@.trains, |t: TrainView| t.sequences.contains(seq), 0)
                    == Some(k as int),
                None => first_train(self@.trains, |t: TrainView| t.sequences.contains(seq), 0)
                    is None,
            },
    {
        let ghost tv = trains_view(self.trains@);
        let ghost p = |t: TrainView| t.sequences.contains(seq);
        let mut k: usize = self.trains.len();
        let mut found: Option<usize> = None;
        while k > 0
            invariant
                k <= tv.len(),
                p == (|t: TrainView| t.sequences.contains(seq)),
                tv == trains_view(self.trains@),
                match found {
                    Some(i) => first_train(tv, p, k as int) == Some(i as int),
                    None => first_train(tv, p, k as int) is None,
                },
            decreases k,
        {
            k -= 1;
            proof {
                assert(tv[k as int] == self.trains@[k as int]@);
                assert(first_train(tv, p, k as int) == if p(tv[k as int]) {
                    Some(k as int)
                } else {
                    first_train(tv, p, k + 1)
                });
            }
            if self.trains[k].contains(seq) {
                found = Some(k);
            }
        }
        found
    }

    fn open_train_with_seq(&self, seq: i32) -> (r: Option<usize>)
        ensures
            match r {
                Some(k) => first_train(
                    self@.trains,
                    |t: TrainView| !t.expired && t.sequences.contains(seq),
                    0,
                ) == Some(k as int),
                None => first_train(
                    self@.trains,
                    |t: TrainView| !t.expired && t.sequences.contains(seq),
                    0,
                ) is None,
            },
    {
        let ghost tv = trains_view(self.trains@);
        let ghost p = |t: TrainView| !t.expired && t.sequences.contains(seq);
        let mut k: usize = self.trains.len();
        let mut found: Option<usize> = None;
        while k > 0
            invariant
                k <= tv.len(),
                p == (|t: TrainView| !t.expired && t.sequences.contains(seq)),
                tv == trains_view(self.trains@),
                match found {
                    Some(i) => first_train(tv, p, k as int) == Some(i as int),
                    None => first_train(tv, p, k as int) is None,
                },
            decreases k,
        {
            k -= 1;
            proof {
                assert(tv[k as int] == self.trains@[k as int]@);
                assert(first_train(tv, p, k as int) == if p(tv[k as int]) {
                    Some(k as int)
                } else {
                    first_train(tv, p, k + 1)
                });
            }
            if !self.trains[k].expired && self.trains[k].contains(seq) {
                found = Some(k);
            }
        }
        found
    }

    fn train_with_id(&self, id: u64) -> (r: Option<usize>)
        ensures
            match r {
                Some(k) => first_train(self@.trains, |t: TrainView| t.spec.id == id, 0) == Some(
                    k as int,
                ),
                None => first_train(self@.trains, |t: TrainView| t.spec.id == id, 0) is None,
            },
    {
        let ghost tv = trains_view(self.trains@);
        let ghost p = |t: TrainView| t.spec.id == id;
        let mut k: usize = self.trains.len();
        let mut found: Option<usize> = None;
        while k > 0
            invariant
                k <= tv.len(),
                p == (|t: TrainView| t.spec.id == id),
                tv == trains_view(self.trains@),
                match found {
                    Some(i) => first_train(tv, p, k as int) == Some(i as int),
                    None => first_train(tv, p, k as int) is None,
                },
            decreases k,
        {
            k -= 1;
            proof {
                assert(tv[k as int] == self.trains@[k as int]@);
                assert(first_train(tv, p, k as int) == if p(tv[k as int]) {
                    Some(k as int)
                } else {
                    first_train(tv, p, k + 1)
                });
            }
            if self.trains[k].spec.id == id {
                found = Some(k);
            }
        }
        found
    }

    /// Record a probe copy `seq` of train `spec` accepted at `now_ms`.
    pub fn record_sent(&mut self, seq: i32, spec: ProbeTrain, now_ms: u64)
        requires
            old(self).wf(),
        ensures
            final(self).wf(),
            final(self)@ == after_probe_sent(old(self)@, seq, spec, now_ms),
    {
        self.advance(now_ms);
        self.probes_sent = self.probes_sent.saturating_add(1);
        if now_ms > spec.deadline_ms {
            return ;
        }
        let ghost v2 = self@;
        match self.train_with_seq(seq) {
            Some(k) => {
                proof {
                    lemma_first_train(v2.trains, |t: TrainView| t.sequences.contains(seq), 0);
                }
                if self.trains[k].spec.id == spec.id && self.sent_at(seq).is_some() {
                    let ghost before = self@.entries;
                    self.remove_entry(seq);
                    proof {
                        lemma_without_shorter(before, seq);
                    }
                    self.entries.push(seq, now_ms);
                }
                return ;
            },
            None => {},
        }
        if self.train_with_id(spec.id).is_none() {
            if self.trains.len() == PROBE_TRAINS_KEPT {
                let ghost tv = self@.trains;
                let old = self.trains.pop_front().unwrap();
                proof {
                    assert(trains_view(self.trains@) =~= tv.drop_first());
                    assert(old@ == tv[0]);
                }
                let ghost start = self.entries@;
                let ghost ss = train_seqs(old.sequences);
                let mut i: usize = 0;
                proof {
                    assert(ss.skip(0) == ss);
                }
                let n = seqs_len(&old.sequences);
                while i < n
                    invariant
                        i <= ss.len(),
                        ss == train_seqs(old.sequences),
                        n == ss.len(),
                        log_without_all(start, ss) == log_without_all(self.entries@, ss.skip(i as int)),
                        trains_view(self.trains@) == tv.drop_first(),
                        self.probes_sent == v2.probes_sent,
                        self.wf(),
                    decreases ss.len() - i,
                {
                    proof {
                        assert(ss.skip(i as int)[0] == ss[i as int]);
                        assert(ss.skip(i as int).drop_first() == ss.skip(i + 1));
                    }
                    self.remove_entry(seqs_get(&old.sequences, i));
                    i += 1;
                }
                proof {
                    assert(ss.skip(ss.len() as int) == Seq::<i32>::empty());
                }
            }
            let t = Train { spec, sequences: seqs_new(), acknowledged: 0, expired: false };
            proof {
                lemma_trains_view_push(self.trains@, t);
            }
            self.trains.push_back(t);
        }
        let ghost v3 = self@;
        let k = match self.train_with_id(spec.id) {
            Some(k) => k,
            None => {
                proof {
                    let n = (v3.trains.len() - 1) as int;
                    assert(v3.trains[n].spec.id == spec.id);
                    lemma_first_train(v3.trains, |t: TrainView| t.spec.id == spec.id, 0);
                }
                return ;
            },
        };
        proof {
            lemma_first_train(v3.trains, |t: TrainView| t.spec.id == spec.id, 0);
        }
        if self.trains[k].expired || seqs_len(&self.trains[k].sequences) >= PROBE_TRAIN_LEN as usize {
            return ;
        }
        let ghost tv = self@.trains;
        let mut t = self.trains.remove(k).unwrap();
        seqs_push(&mut t.sequences, seq);
        self.trains.insert(k, t);
        proof {
            assert(trains_view(self.trains@) =~= tv.update(
                k as int,
                TrainView { sequences: tv[k as int].sequences.push(seq), ..tv[k as int] },
            ));
        }
        let ghost before = self@.entries;
        self.remove_entry(seq);
        proof {
            lemma_without_shorter(before, seq);
        }
        if self.entries.len() == PROBE_LOG_CAPACITY {
            let ghost full = self@.entries;
            self.entries.evict_oldest();
            proof {
                assert(logged(full, seq) is None);
                assert(full[0].0 != seq);
                assert(logged(full.drop_first(), seq) is None);
            }
        }
        self.entries.push(seq, now_ms);
    }

    /// Credit an ACK of probe copy `seq` at `now_ms`; false when the copy is
    /// not pending, was sent after `now_ms`, or its train already expired.
    pub fn acknowledge(&mut self, seq: i32, now_ms: u64) -> (credited: bool)
        requires
            old(self).wf(),
        ensures
            final(self).wf(),
            (final(self)@, credited) == after_probe_ack(old(self)@, seq, now_ms),
    {
        self.advance(now_ms);
        match self.sent_at(seq) {
            Some(sent) => {
                if sent > now_ms {
                    return false;
                }
            },
            None => return false,
        }
        let ghost v1 = self@;
        let k = match self.open_train_with_seq(seq) {
            Some(k) => k,
            None => return false,
        };
        proof {
            lemma_first_train(
                v1.trains,
                |t: TrainView| !t.expired && t.sequences.contains(seq),
                0,
            );
        }
        let ghost tv = self@.trains;
        let mut t = self.trains.remove(k).unwrap();
        t.acknowledged = t.acknowledged.saturating_add(1);
        self.trains.insert(k, t);
        proof {
            assert(trains_view(self.trains@) =~= tv.update(
                k as int,
                TrainView {
                    acknowledged: if tv[k as int].acknowledged == u8::MAX {
                        u8::MAX
                    } else {
                        (tv[k as int].acknowledged + 1) as u8
                    },
                    ..tv[k as int]
                },
            ));
        }
        self.remove_entry(seq);
        true
    }

    /// Whether any retained train carried `seq`.
    pub fn has_seen(&self, seq: i32) -> (b: bool)
        ensures
            b == (first_train(self@.trains, |t: TrainView| t.sequences.contains(seq), 0) is Some),
    {
        self.train_with_seq(seq).is_some()
    }

    /// Consecutive successful rounds among the newest qualifying trains (at
    /// most two), and the start of the oldest one counted.
    pub fn rounds_ok(&self) -> (r: (u32, Option<u64>))
        ensures
            r == rounds_from(self@.trains, self@.trains.len() as int, 0, None),
    {
        let ghost tv = self@.trains;
        let mut n: usize = self.trains.len();
        let mut count: u32 = 0;
        let mut start: Option<u64> = None;
        while n > 0
            invariant
                n <= tv.len(),
                tv == self@.trains,
                count < 2,
                rounds_from(tv, tv.len() as int, 0, None) == rounds_from(tv, n as int, count, start),
            decreases n,
        {
            let t = &self.trains[n - 1];
            proof {
                assert(tv[n - 1] == t@);
            }
            let good = t.acknowledged >= ROUND_OK_ACKS && seqs_len(&t.sequences) == PROBE_TRAIN_LEN as usize;
            if !t.expired && !good {
                n -= 1;
            } else if !good {
                return (count, start);
            } else if count == 1 {
                return (2, Some(t.spec.started_ms));
            } else {
                count += 1;
                start = Some(t.spec.started_ms);
                n -= 1;
            }
        }
        (count, start)
    }

    /// The acknowledged counts of the newest two finished trains, newest
    /// first; `None` until two trains have finished.
    pub fn last_two_finished_acks(&self) -> (r: Option<(u8, u8)>)
        ensures
            r == last_two_finished(self@.trains, self@.trains.len() as int, None),
    {
        let ghost tv = self@.trains;
        let mut n: usize = self.trains.len();
        let mut first: Option<u8> = None;
        while n > 0
            invariant
                n <= tv.len(),
                tv == self@.trains,
                last_two_finished(tv, tv.len() as int, None) == last_two_finished(
                    tv,
                    n as int,
                    first,
                ),
            decreases n,
        {
            let t = &self.trains[n - 1];
            proof {
                assert(tv[n - 1] == t@);
            }
            if t.expired || t.acknowledged == PROBE_TRAIN_LEN {
                match first {
                    None => {
                        first = Some(t.acknowledged);
                    },
                    Some(a) => {
                        return Some((a, t.acknowledged));
                    },
                }
            }
            n -= 1;
        }
        None
    }

    /// Probe copies accepted over the socket's life.
    pub fn probes_sent(&self) -> (n: u64)
        ensures
            n == self@.probes_sent,
    {
        self.probes_sent
    }

    /// Forget all evidence (the socket was replaced); the sent count stays.
    pub fn reset(&mut self)
        ensures
            final(self).wf(),
            final(self)@ == (ProbeLogView { entries: seq![], trains: seq![], ..old(self)@ }),
    {
        self.entries.clear();
        self.trains.clear();
        proof {
            assert(trains_view(self.trains@) =~= Seq::<TrainView>::empty());
        }
    }

    /// Number of probe copies awaiting their ACK.
    pub fn pending_count(&self) -> (n: usize)
        ensures
            n == self@.entries.len(),
    {
        self.entries.len()
    }

    /// Whether no probe copy awaits its ACK.
    pub fn is_empty(&self) -> (b: bool)
        ensures
            b == (self@.entries.len() == 0),
    {
        self.entries.len() == 0
    }
}

} // verus!
