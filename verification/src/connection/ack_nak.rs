//! ACK/NAK bookkeeping of one uplink: the in-flight packet log, cumulative
//! SRT ACKs in 31-bit serial order, and SRTLA window growth.
use std::collections::HashMap;
use vstd::prelude::*;
use vstd::std_specs::iter::IteratorSpec;

use crate::config::PROBE_GROWTH_INTERVAL_MS;

verus! {

broadcast use vstd::std_specs::hash::group_hash_axioms;

/// SRT sequence numbers are 31 bits wide.
pub const SRT_SEQ_MASK: u32 = 0x7FFF_FFFF;
/// Half the sequence space: the antipodal distance, at which serial order
/// carries no information.
pub const SRT_SEQ_HALF: u32 = 0x4000_0000;
/// Initial window, in window units.
pub const WINDOW_DEF: i32 = 20;
/// Window ceiling, in window units.
pub const WINDOW_MAX: i32 = 60;
/// Scale of a window unit.
pub const WINDOW_MULT: i32 = 1000;

/// The 31-bit sequence number a 32-bit value carries.
pub open spec fn seq_mask(v: u32) -> u32 {
    v & SRT_SEQ_MASK
}

/// Forward distance from `a` to `b` modulo 2^31.
pub open spec fn seq_distance(a: u32, b: u32) -> u32 {
    if b >= a {
        (b - a) as u32
    } else {
        (b + 0x8000_0000 - a) as u32
    }
}

/// `a` precedes `b` in RFC 1982 serial order. Equal numbers and numbers
/// exactly half the space apart are unordered.
pub open spec fn serial_before(a: u32, b: u32) -> bool {
    0 < seq_distance(a, b) < SRT_SEQ_HALF
}

/// `j` steps after `a`, modulo 2^31.
pub open spec fn seq_add(a: u32, j: int) -> u32 {
    ((a + j) % 0x8000_0000) as u32
}

/// A 31-bit SRT sequence number.
#[derive(Clone, Copy, Debug, PartialEq, Eq, Structural)]
pub struct SrtSeq {
    value: u32,
}

impl View for SrtSeq {
    type V = u32;

    closed spec fn view(&self) -> u32 {
        self.value
    }
}

pub closed spec fn seq_wf(s: SrtSeq) -> bool {
    s.value <= SRT_SEQ_MASK
}

impl SrtSeq {
    pub fn new(v: u32) -> (s: Self)
        ensures
            s@ == seq_mask(v),
            s@ <= SRT_SEQ_MASK,
            seq_wf(s),
    {
        assert(v & 0x7fff_ffff <= 0x7fff_ffff) by (bit_vector);
        SrtSeq { value: v & SRT_SEQ_MASK }
    }

    pub fn value(self) -> (v: u32)
        ensures
            v == self@,
    {
        self.value
    }

    /// The following sequence number.
    pub fn next(self) -> (s: Self)
        requires
            seq_wf(self),
        ensures
            s@ == seq_add(self@, 1),
            seq_wf(s),
    {
        if self.value == SRT_SEQ_MASK {
            SrtSeq { value: 0 }
        } else {
            SrtSeq { value: self.value + 1 }
        }
    }

    /// Forward distance from `self` to `other`.
    pub fn distance(self, other: Self) -> (d: u32)
        requires
            seq_wf(self),
            seq_wf(other),
        ensures
            d == seq_distance(self@, other@),
            d <= SRT_SEQ_MASK,
    {
        if other.value >= self.value {
            other.value - self.value
        } else {
            other.value + 0x8000_0000 - self.value
        }
    }

    pub fn serial_lt(self, other: Self) -> (b: bool)
        requires
            seq_wf(self),
            seq_wf(other),
        ensures
            b == serial_before(self@, other@),
    {
        let d = self.distance(other);
        0 < d && d < SRT_SEQ_HALF
    }

    pub fn serial_gt(self, other: Self) -> (b: bool)
        requires
            seq_wf(self),
            seq_wf(other),
        ensures
            b == serial_before(other@, self@),
    {
        other.serial_lt(self)
    }
}

/// A send time and the arrival time of its acknowledgement, as handed to the
/// RTT filter.
#[derive(Clone, Copy, Debug, PartialEq, Eq, Structural)]
pub struct RoundTrip {
    pub sent_ms: u64,
    pub acked_ms: u64,
}

/// The ACK/NAK state of one uplink.
#[derive(Debug)]
pub struct SrtlaConnection {
    /// Packets in flight: sequence to send time.
    pub packet_log: HashMap<i32, u64>,
    /// Size of the packet log.
    pub in_flight_packets: i32,
    /// Highest cumulatively acknowledged sequence.
    pub highest_acked_seq: Option<SrtSeq>,
    /// Congestion window, in window units scaled by `WINDOW_MULT`.
    pub window: i32,
    pub connected: bool,
    /// When data was last received on this link, if ever.
    pub last_received_ms: Option<u64>,
    pub last_probe_growth_ms: u64,
    /// When this link last earned an ACK or an RTT sample.
    pub last_ack_or_rtt_sample_ms: u64,
    /// The last round trip fed to the RTT filter.
    pub last_round_trip: Option<RoundTrip>,
}

/// The packets in flight: sequence to send time.
pub open spec fn packet_log(c: SrtlaConnection) -> Map<i32, u64> {
    c.packet_log@
}

/// The highest cumulatively acknowledged sequence, if any.
pub open spec fn highest_acked(c: SrtlaConnection) -> Option<u32> {
    match c.highest_acked_seq {
        Some(s) => Some(s@),
        None => None,
    }
}

pub open spec fn in_flight(c: SrtlaConnection) -> i32 {
    c.in_flight_packets
}

/// The in-flight count is the size of the packet log, and the acknowledged
/// sequence is a 31-bit number.
pub open spec fn conn_wf(c: SrtlaConnection) -> bool {
    &&& c.in_flight_packets == c.packet_log@.len()
    &&& c.packet_log@.len() < i32::MAX
    &&& c.packet_log@.dom().finite()
    &&& (c.highest_acked_seq matches Some(s) ==> seq_wf(s))
}

/// The sequences a full scan keeps: those strictly after `ack`.
pub open spec fn after_ack(ack: u32) -> Set<i32> {
    Set::new(|k: i32| serial_before(ack, seq_mask(k as u32)))
}

/// A cumulative ACK is acted on only when it strictly follows the highest one
/// seen: duplicates, reordered ACKs and the antipodal case are ignored.
pub open spec fn ack_accepted(prev: Option<u32>, ack: u32) -> bool {
    match prev {
        Some(p) => serial_before(p, ack),
        None => true,
    }
}

/// The window after one `+1` step, capped at `WINDOW_MAX * WINDOW_MULT`.
pub open spec fn grown(window: i32) -> i32 {
    if window + 1 > WINDOW_MAX * WINDOW_MULT {
        (WINDOW_MAX * WINDOW_MULT) as i32
    } else {
        (window + 1) as i32
    }
}

impl SrtlaConnection {
    /// A fresh, not yet connected link with an empty log and the default
    /// window.
    pub fn new() -> (c: Self)
        ensures
            conn_wf(c),
            packet_log(c) == Map::<i32, u64>::empty(),
            highest_acked(c) is None,
            c.window == WINDOW_DEF * WINDOW_MULT,
            !c.connected,
            c.last_received_ms is None,
            c.last_round_trip is None,
    {
        let log: HashMap<i32, u64> = HashMap::new();
        SrtlaConnection {
            packet_log: log,
            in_flight_packets: 0,
            highest_acked_seq: None,
            window: WINDOW_DEF * WINDOW_MULT,
            connected: false,
            last_received_ms: None,
            last_probe_growth_ms: 0,
            last_ack_or_rtt_sample_ms: 0,
            last_round_trip: None,
        }
    }

    pub fn in_flight_packets(&self) -> (n: i32)
        ensures
            n == in_flight(*self),
    {
        self.in_flight_packets
    }

    /// The send time of a packet still in flight.
    pub fn sent_at(&self, seq: i32) -> (r: Option<u64>)
        ensures
            r == packet_log(*self).get(seq),
    {
        match self.packet_log.get(&seq) {
            Some(t) => Some(*t),
            None => None,
        }
    }

    /// Register a packet as in flight.
    pub fn register_packet(&mut self, seq: i32, send_time_ms: u64)
        requires
            conn_wf(*old(self)),
            packet_log(*old(self)).len() + 1 < i32::MAX,
        ensures
            conn_wf(*final(self)),
            packet_log(*final(self)) == packet_log(*old(self)).insert(seq, send_time_ms),
            highest_acked(*final(self)) == highest_acked(*old(self)),
            final(self).window == old(self).window,
            final(self).connected == old(self).connected,
            final(self).last_received_ms == old(self).last_received_ms,
            final(self).last_probe_growth_ms == old(self).last_probe_growth_ms,
            final(self).last_ack_or_rtt_sample_ms == old(self).last_ack_or_rtt_sample_ms,
            final(self).last_round_trip == old(self).last_round_trip,
    {
        self.packet_log.insert(seq, send_time_ms);
        proof {
            assert(self.packet_log@.dom() =~= old(self).packet_log@.dom().insert(seq));
        }
        self.in_flight_packets = self.packet_log.len() as i32;
    }

    fn collect_keys(&self) -> (r: Vec<i32>)
        ensures
            r@.to_set() == self.packet_log@.dom(),
    {
        let mut out: Vec<i32> = Vec::new();
        let ghost full = self.packet_log.keys().remaining();
        for k in it: self.packet_log.keys()
            invariant
                it.seq() == full,
                out@ == it.seq().take(it.index() as int).unref(),
        {
            out.push(*k);
        }
        proof {
            assert(full.take(full.len() as int) == full);
        }
        out
    }

    fn prune_scan(&mut self, ack: SrtSeq)
        requires
            seq_wf(ack),
            old(self).packet_log@.dom().finite(),
        ensures
            final(self).packet_log@ == old(self).packet_log@.restrict(after_ack(ack@)),
            final(self).in_flight_packets == old(self).in_flight_packets,
            final(self).highest_acked_seq == old(self).highest_acked_seq,
            final(self).window == old(self).window,
            final(self).connected == old(self).connected,
            final(self).last_received_ms == old(self).last_received_ms,
            final(self).last_probe_growth_ms == old(self).last_probe_growth_ms,
            final(self).last_ack_or_rtt_sample_ms == old(self).last_ack_or_rtt_sample_ms,
            final(self).last_round_trip == old(self).last_round_trip,
    {
        let keys = self.collect_keys();
        let ghost start = self.packet_log@;
        let ghost keep = after_ack(ack@);
        let mut i: usize = 0;
        while i < keys.len()
            invariant
                i <= keys@.len(),
                seq_wf(ack),
                keys@.to_set() == start.dom(),
                start == old(self).packet_log@,
                keep == after_ack(ack@),
                self.packet_log@ == start.remove_keys(
                    Set::new(|k: i32| keys@.take(i as int).contains(k) && !keep.contains(k)),
                ),
                self.in_flight_packets == old(self).in_flight_packets,
                self.highest_acked_seq == old(self).highest_acked_seq,
                self.window == old(self).window,
                self.connected == old(self).connected,
                self.last_received_ms == old(self).last_received_ms,
                self.last_probe_growth_ms == old(self).last_probe_growth_ms,
                self.last_ack_or_rtt_sample_ms == old(self).last_ack_or_rtt_sample_ms,
                self.last_round_trip == old(self).last_round_trip,
            decreases keys@.len() - i,
        {
            let k = keys[i];
            let s = SrtSeq::new(k as u32);
            let keep_it = s.serial_gt(ack);
            if !keep_it {
                self.packet_log.remove(&k);
            }
            proof {
                assert(keys@.take(i + 1) == keys@.take(i as int).push(k));
                let r0 = Set::new(|x: i32| keys@.take(i as int).contains(x) && !keep.contains(x));
                let r1 = Set::new(|x: i32| keys@.take(i + 1).contains(x) && !keep.contains(x));
                assert(keep.contains(k) == keep_it);
                assert forall|x: i32| #[trigger] keys@.take(i + 1).contains(x) <==> (keys@.take(
                    i as int,
                ).contains(x) || x == k) by {
                    lemma_push_contains(keys@.take(i as int), k, x);
                }
                if keep_it {
                    assert(r1 =~= r0);
                } else {
                    assert(r1 =~= r0.insert(k));
                }
                assert(self.packet_log@ =~= start.remove_keys(r1));
            }
            i += 1;
        }
        proof {
            assert(keys@.take(keys@.len() as int) == keys@);
            let r = Set::new(|x: i32| keys@.contains(x) && !keep.contains(x));
            assert forall|x: i32| keys@.contains(x) <==> start.dom().contains(x) by {
                assert(keys@.to_set().contains(x) <==> keys@.contains(x));
            }
            assert(start.remove_keys(r) =~= start.restrict(keep));
        }
    }

    /// Handle an SRT cumulative ACK: every logged packet at or before `ack` in
    /// 31-bit serial order leaves the log and only those after it stay; and,
    /// only on the link that carried `ack` (`owns_acked_seq`), the round trip
    /// is fed to the RTT filter. Pruning happens on every link: the sequence is
    /// gone from the wire whoever sent it.
    pub fn handle_srt_ack(&mut self, ack: i32, now_ms: u64, owns_acked_seq: bool)
        requires
            conn_wf(*old(self)),
        ensures
            conn_wf(*final(self)),
            !ack_accepted(highest_acked(*old(self)), seq_mask(ack as u32)) ==> *final(self)
                == *old(self),
            ack_accepted(highest_acked(*old(self)), seq_mask(ack as u32)) ==> {
                &&& highest_acked(*final(self)) == Some(seq_mask(ack as u32))
                &&& packet_log(*final(self)) == packet_log(*old(self)).restrict(
                    after_ack(seq_mask(ack as u32)),
                )
                &&& final(self).last_round_trip == (if owns_acked_seq && packet_log(
                    *old(self),
                ).contains_key(ack) {
                    Some(RoundTrip { sent_ms: packet_log(*old(self))[ack], acked_ms: now_ms })
                } else {
                    old(self).last_round_trip
                })
            },
            final(self).window == old(self).window,
            final(self).connected == old(self).connected,
            final(self).last_received_ms == old(self).last_received_ms,
            final(self).last_probe_growth_ms == old(self).last_probe_growth_ms,
            final(self).last_ack_or_rtt_sample_ms == old(self).last_ack_or_rtt_sample_ms,
    {
        let ack_seq = SrtSeq::new(ack as u32);
        if let Some(prev) = self.highest_acked_seq {
            if !prev.serial_lt(ack_seq) {
                return ;
            }
        }
        let ack_send_time_ms = match self.packet_log.get(&ack) {
            Some(t) => Some(*t),
            None => None,
        };
        self.highest_acked_seq = Some(ack_seq);
        self.prune_scan(ack_seq);
        proof {
            assert(self.packet_log@.dom().subset_of(old(self).packet_log@.dom()));
            vstd::set_lib::lemma_len_subset(self.packet_log@.dom(), old(self).packet_log@.dom());
        }
        self.in_flight_packets = self.packet_log.len() as i32;
        if owns_acked_seq {
            if let Some(sent_ms) = ack_send_time_ms {
                self.last_round_trip = Some(RoundTrip { sent_ms, acked_ms: now_ms });
            }
        }
    }

    /// Handle a NAK for one sequence: it leaves the packet log. Returns
    /// whether this link had it in flight; a NAK for a sequence this link
    /// does not hold leaves the link as it was.
    pub fn handle_nak(&mut self, seq: i32) -> (found: bool)
        requires
            conn_wf(*old(self)),
        ensures
            conn_wf(*final(self)),
            found == packet_log(*old(self)).contains_key(seq),
            !found ==> *final(self) == *old(self),
            packet_log(*final(self)) == packet_log(*old(self)).remove(seq),
            highest_acked(*final(self)) == highest_acked(*old(self)),
            final(self).connected == old(self).connected,
            final(self).last_received_ms == old(self).last_received_ms,
            final(self).last_probe_growth_ms == old(self).last_probe_growth_ms,
            final(self).last_ack_or_rtt_sample_ms == old(self).last_ack_or_rtt_sample_ms,
            final(self).last_round_trip == old(self).last_round_trip,
    {
        if !self.packet_log.contains_key(&seq) {
            proof {
                assert(packet_log(*old(self)).remove(seq) =~= packet_log(*old(self)));
            }
            return false;
        }
        self.packet_log.remove(&seq);
        proof {
            assert(self.packet_log@.dom() =~= old(self).packet_log@.dom().remove(seq));
        }
        self.in_flight_packets = self.packet_log.len() as i32;
        true
    }

    /// Handle an SRTLA ACK for one sequence. A hit proves this link carried
    /// it: the packet leaves the log, its round trip is fed to the RTT
    /// filter, and the link is stamped as having earned an ACK at `now_ms`.
    /// A miss means another link owns the sequence: this one is left as it
    /// was.
    pub fn handle_srtla_ack_specific(&mut self, seq: i32, now_ms: u64) -> (hit: bool)
        requires
            conn_wf(*old(self)),
        ensures
            conn_wf(*final(self)),
            hit == packet_log(*old(self)).contains_key(seq),
            !hit ==> *final(self) == *old(self),
            packet_log(*final(self)) == packet_log(*old(self)).remove(seq),
            highest_acked(*final(self)) == highest_acked(*old(self)),
            final(self).connected == old(self).connected,
            final(self).last_received_ms == old(self).last_received_ms,
            final(self).last_probe_growth_ms == old(self).last_probe_growth_ms,
            hit ==> final(self).last_round_trip == Some(
                RoundTrip { sent_ms: packet_log(*old(self))[seq], acked_ms: now_ms },
            ) && final(self).last_ack_or_rtt_sample_ms == now_ms,
    {
        if !self.packet_log.contains_key(&seq) {
            proof {
                assert(packet_log(*old(self)).remove(seq) =~= packet_log(*old(self)));
            }
            return false;
        }
        let sent_ms = match self.packet_log.get(&seq) {
            Some(t) => *t,
            None => 0,
        };
        self.packet_log.remove(&seq);
        proof {
            assert(self.packet_log@.dom() =~= old(self).packet_log@.dom().remove(seq));
        }
        self.in_flight_packets = self.packet_log.len() as i32;
        self.last_round_trip = Some(RoundTrip { sent_ms, acked_ms: now_ms });
        self.last_ack_or_rtt_sample_ms = now_ms;
        true
    }

    /// The broadcast SRTLA ACK: every connected link that has received data
    /// grows its window by one, up to the ceiling.
    pub fn handle_srtla_ack_global(&mut self)
        requires
            old(self).window < i32::MAX,
        ensures
            final(self).window == (if old(self).connected && old(self).last_received_ms is Some {
                grown(old(self).window)
            } else {
                old(self).window
            }),
            !(old(self).connected && old(self).last_received_ms is Some) ==> *final(self)
                == *old(self),
            packet_log(*final(self)) == packet_log(*old(self)),
            in_flight(*final(self)) == in_flight(*old(self)),
            highest_acked(*final(self)) == highest_acked(*old(self)),
            final(self).connected == old(self).connected,
            final(self).last_received_ms == old(self).last_received_ms,
            final(self).last_probe_growth_ms == old(self).last_probe_growth_ms,
            final(self).last_ack_or_rtt_sample_ms == old(self).last_ack_or_rtt_sample_ms,
            final(self).last_round_trip == old(self).last_round_trip,
    {
        if self.connected && self.last_received_ms.is_some() {
            self.window = if self.window + 1 > WINDOW_MAX * WINDOW_MULT {
                WINDOW_MAX * WINDOW_MULT
            } else {
                self.window + 1
            };
        }
    }

    /// The experimental earned-ACK valve, used in place of the broadcast step
    /// when enabled: the link that earned the ACK grows by one; every other
    /// connected link that has received data grows by one at most once per
    /// `PROBE_GROWTH_INTERVAL_MS`.
    pub fn handle_srtla_ack_earned(&mut self, is_earner: bool, now_ms: u64)
        requires
            old(self).window < i32::MAX,
        ensures
            ({
                let live = old(self).connected && old(self).last_received_ms is Some;
                let due = now_ms >= old(self).last_probe_growth_ms && now_ms
                    - old(self).last_probe_growth_ms >= PROBE_GROWTH_INTERVAL_MS;
                &&& final(self).window == (if live && (is_earner || due) {
                    grown(old(self).window)
                } else {
                    old(self).window
                })
                &&& final(self).last_probe_growth_ms == (if live && !is_earner && due {
                    now_ms
                } else {
                    old(self).last_probe_growth_ms
                })
            }),
            !(old(self).connected && old(self).last_received_ms is Some) ==> *final(self)
                == *old(self),
            packet_log(*final(self)) == packet_log(*old(self)),
            in_flight(*final(self)) == in_flight(*old(self)),
            highest_acked(*final(self)) == highest_acked(*old(self)),
            final(self).connected == old(self).connected,
            final(self).last_received_ms == old(self).last_received_ms,
            final(self).last_ack_or_rtt_sample_ms == old(self).last_ack_or_rtt_sample_ms,
            final(self).last_round_trip == old(self).last_round_trip,
    {
        if !(self.connected && self.last_received_ms.is_some()) {
            return ;
        }
        if is_earner {
            self.window = if self.window + 1 > WINDOW_MAX * WINDOW_MULT {
                WINDOW_MAX * WINDOW_MULT
            } else {
                self.window + 1
            };
            return ;
        }
        if now_ms.saturating_sub(self.last_probe_growth_ms) >= PROBE_GROWTH_INTERVAL_MS {
            self.window = if self.window + 1 > WINDOW_MAX * WINDOW_MULT {
                WINDOW_MAX * WINDOW_MULT
            } else {
                self.window + 1
            };
            self.last_probe_growth_ms = now_ms;
        }
    }
}

proof fn lemma_push_contains(s: Seq<i32>, k: i32, x: i32)
    ensures
        s.push(k).contains(x) <==> (s.contains(x) || x == k),
{
    if s.push(k).contains(x) {
        let j = choose|j: int| 0 <= j < s.push(k).len() && s.push(k)[j] == x;
        if j < s.len() {
            assert(s[j] == x);
        }
    }
    if s.contains(x) {
        let j = choose|j: int| 0 <= j < s.len() && s[j] == x;
        assert(s.push(k)[j] == x);
    }
    if x == k {
        assert(s.push(k)[s.len() as int] == k);
    }
}

/// A duplicate cumulative ACK changes nothing: after `ack` is accepted, the
/// same `ack` again is ignored.
pub proof fn lemma_duplicate_ack_is_inert(ack: u32)
    ensures
        !ack_accepted(Some(ack), ack),
{
}

/// Serial order is strict and one-directional: no number precedes itself,
/// and two numbers never precede each other, so reordered ACKs cannot both be
/// accepted.
pub proof fn lemma_serial_order_asymmetric(a: u32, b: u32)
    requires
        a <= SRT_SEQ_MASK,
        b <= SRT_SEQ_MASK,
    ensures
        !serial_before(a, a),
        !(serial_before(a, b) && serial_before(b, a)),
{
}

/// After a scan, every packet left in flight follows the acknowledged
/// sequence.
pub proof fn lemma_scan_leaves_only_later_packets(log: Map<i32, u64>, ack: u32, k: i32)
    requires
        log.restrict(after_ack(ack)).contains_key(k),
    ensures
        serial_before(ack, seq_mask(k as u32)),
{
}

/// The window never passes its ceiling by growing.
pub proof fn lemma_growth_is_capped(w: i32)
    requires
        w <= WINDOW_MAX * WINDOW_MULT,
    ensures
        grown(w) <= WINDOW_MAX * WINDOW_MULT,
        grown(w) >= w,
{
}

} // verus!
