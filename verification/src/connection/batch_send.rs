//! The queue of DATA packets a link sends in batches: packets are queued
//! until sixteen are waiting or fifteen milliseconds passed since the last
//! flush; a flush hands out up to thirty-two of them and commits exactly the
//! prefix the kernel accepted, so a partial send neither drops nor repeats a
//! datagram.
use smallvec::SmallVec;
use vstd::prelude::*;

verus! {

/// Queued packets that call for a flush.
pub const BATCH_SIZE_THRESHOLD: usize = 16;
/// Datagrams submitted to the kernel in one transmit call at most.
pub const BATCH_SEND_SIZE: usize = 32;
/// Longest time between flushes of a non-empty queue.
pub const FLUSH_INTERVAL_MS: u64 = 15;

/// One queued datagram, held inline up to 1536 bytes (above any MTU).
#[verifier::external_body]
#[derive(Debug)]
pub struct Packet {
    bytes: SmallVec<[u8; 1536]>,
}

/// The bytes of a queued datagram.
pub uninterp spec fn packet_bytes(p: Packet) -> Seq<u8>;

/// A datagram holding a copy of `data` (`SmallVec::from_slice`).
#[verifier::external_body]
fn packet_from(data: &[u8]) -> (p: Packet)
    ensures
        packet_bytes(p) == data@,
{
    Packet { bytes: SmallVec::from_slice(data) }
}

/// The bytes of `p` (`SmallVec::as_slice`).
#[verifier::external_body]
fn packet_slice(p: &Packet) -> (b: &[u8])
    ensures
        b@ == packet_bytes(*p),
{
    p.bytes.as_slice()
}

/// Packets waiting to be sent on one link.
#[derive(Debug)]
pub struct BatchSender {
    queue: Vec<Packet>,
    sequences: Vec<Option<u32>>,
    queue_times: Vec<u64>,
    last_flush_ms: u64,
}

/// Abstract value of the queue: one entry per packet, oldest first.
pub struct BatchView {
    pub packets: Seq<Seq<u8>>,
    pub sequences: Seq<Option<u32>>,
    pub queue_times: Seq<u64>,
    pub last_flush_ms: u64,
}

pub open spec fn packets_view(q: Seq<Packet>) -> Seq<Seq<u8>> {
    Seq::new(q.len(), |i: int| packet_bytes(q[i]))
}

impl View for BatchSender {
    type V = BatchView;

    closed spec fn view(&self) -> BatchView {
        BatchView {
            packets: packets_view(self.queue@),
            sequences: self.sequences@,
            queue_times: self.queue_times@,
            last_flush_ms: self.last_flush_ms,
        }
    }
}

/// Every queued packet has its sequence and queue time.
pub open spec fn batch_wf(v: BatchView) -> bool {
    v.packets.len() == v.sequences.len() && v.packets.len() == v.queue_times.len()
}

/// How many queued packets one flush submits.
pub open spec fn candidate_count(v: BatchView) -> int {
    if v.packets.len() < BATCH_SEND_SIZE {
        v.packets.len() as int
    } else {
        BATCH_SEND_SIZE as int
    }
}

/// The tracking record of an accepted packet: its sequence, if it carries
/// one, and when it was queued.
pub open spec fn accepted_record(v: BatchView, i: int) -> (Option<i32>, u64) {
    (
        match v.sequences[i] {
            Some(s) => Some(s as i32),
            None => None,
        },
        v.queue_times[i],
    )
}

impl BatchSender {
    /// An empty queue, last flushed at `now_ms`.
    pub fn new(now_ms: u64) -> (s: Self)
        ensures
            batch_wf(s@),
            s@.packets.len() == 0,
            s@.last_flush_ms == now_ms,
    {
        BatchSender {
            queue: Vec::new(),
            sequences: Vec::new(),
            queue_times: Vec::new(),
            last_flush_ms: now_ms,
        }
    }

    /// Queue a DATA packet; true once enough packets wait to call for a flush.
    pub fn queue_packet(&mut self, data: &[u8], seq: Option<u32>, current_time_ms: u64) -> (flush: bool)
        requires
            batch_wf(old(self)@),
        ensures
            batch_wf(final(self)@),
            final(self)@ == (BatchView {
                packets: old(self)@.packets.push(data@),
                sequences: old(self)@.sequences.push(seq),
                queue_times: old(self)@.queue_times.push(current_time_ms),
                ..old(self)@
            }),
            flush == (final(self)@.packets.len() >= BATCH_SIZE_THRESHOLD),
    {
        let ghost q = self.queue@;
        let packet = packet_from(data);
        self.queue.push(packet);
        self.sequences.push(seq);
        self.queue_times.push(current_time_ms);
        proof {
            assert(packets_view(self.queue@) =~= packets_view(q).push(data@));
        }
        self.queue.len() >= BATCH_SIZE_THRESHOLD
    }

    /// Whether packets have waited since a flush at least the flush interval ago.
    pub fn needs_time_flush(&self, now_ms: u64) -> (b: bool)
        ensures
            b == (self@.packets.len() > 0 && now_ms >= self@.last_flush_ms + FLUSH_INTERVAL_MS),
    {
        self.queue.len() > 0 && now_ms.saturating_sub(self.last_flush_ms) >= FLUSH_INTERVAL_MS
    }

    /// Whether any packet is queued.
    pub fn has_queued_packets(&self) -> (b: bool)
        ensures
            b == (self@.packets.len() > 0),
    {
        self.queue.len() > 0
    }

    /// Number of queued packets, as the link's load counts them.
    pub fn queued_count(&self) -> (n: i32)
        ensures
            n == self@.packets.len() as i32,
    {
        self.queue.len() as i32
    }

    /// The packets the next flush submits: the oldest, at most thirty-two.
    pub fn candidates(&self) -> (c: Vec<&[u8]>)
        ensures
            c@.len() == candidate_count(self@),
            forall|i: int| 0 <= i < c@.len() ==> (#[trigger] c@[i])@ == self@.packets[i],
    {
        let n = if self.queue.len() < BATCH_SEND_SIZE {
            self.queue.len()
        } else {
            BATCH_SEND_SIZE
        };
        let mut c: Vec<&[u8]> = Vec::new();
        let mut i: usize = 0;
        while i < n
            invariant
                i <= n,
                n <= self.queue@.len(),
                n == candidate_count(self@),
                c@.len() == i,
                forall|k: int| 0 <= k < i ==> (#[trigger] c@[k])@ == self@.packets[k],
            decreases n - i,
        {
            c.push(packet_slice(&self.queue[i]));
            i += 1;
        }
        c
    }

    /// Commit a flush at `now_ms` of which the kernel accepted the first
    /// `sent_count` packets: they leave the queue, the rest stays in order,
    /// and their tracking records come back.
    pub fn commit(&mut self, sent_count: usize, now_ms: u64) -> (accepted: Vec<(Option<i32>, u64)>)
        requires
            batch_wf(old(self)@),
            sent_count <= old(self)@.packets.len(),
        ensures
            batch_wf(final(self)@),
            accepted@.len() == sent_count,
            forall|i: int| 0 <= i < sent_count ==> #[trigger] accepted@[i] == accepted_record(old(self)@, i),
            final(self)@ == (BatchView {
                packets: old(self)@.packets.skip(sent_count as int),
                sequences: old(self)@.sequences.skip(sent_count as int),
                queue_times: old(self)@.queue_times.skip(sent_count as int),
                last_flush_ms: now_ms,
            }),
    {
        let ghost v = self@;
        let mut accepted: Vec<(Option<i32>, u64)> = Vec::new();
        let mut i: usize = 0;
        while i < sent_count
            invariant
                i <= sent_count,
                sent_count <= v.packets.len(),
                v == self@,
                batch_wf(v),
                accepted@.len() == i,
                forall|k: int| 0 <= k < i ==> #[trigger] accepted@[k] == accepted_record(v, k),
            decreases sent_count - i,
        {
            let seq = match self.sequences[i] {
                Some(s) => Some(s as i32),
                None => None,
            };
            accepted.push((seq, self.queue_times[i]));
            i += 1;
        }
        let mut k: usize = 0;
        while k < sent_count
            invariant
                k <= sent_count,
                sent_count <= v.packets.len(),
                batch_wf(v),
                packets_view(self.queue@) == v.packets.skip(k as int),
                self.sequences@ == v.sequences.skip(k as int),
                self.queue_times@ == v.queue_times.skip(k as int),
            decreases sent_count - k,
        {
            let ghost q = self.queue@;
            self.queue.remove(0);
            self.sequences.remove(0);
            self.queue_times.remove(0);
            proof {
                assert(packets_view(self.queue@) =~= packets_view(q).drop_first());
                assert(v.packets.skip(k as int).drop_first() =~= v.packets.skip(k + 1));
                assert(self.sequences@ =~= v.sequences.skip(k + 1));
                assert(self.queue_times@ =~= v.queue_times.skip(k + 1));
            }
            k += 1;
        }
        self.last_flush_ms = now_ms;
        accepted
    }

    /// Drop every queued packet (the link reconnects); last flushed at `now_ms`.
    pub fn reset(&mut self, now_ms: u64)
        ensures
            batch_wf(final(self)@),
            final(self)@.packets.len() == 0,
            final(self)@.last_flush_ms == now_ms,
    {
        self.queue.clear();
        self.sequences.clear();
        self.queue_times.clear();
        self.last_flush_ms = now_ms;
    }
}

} // verus!
