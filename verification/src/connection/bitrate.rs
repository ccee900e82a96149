//! The send bitrate of an uplink, measured over two-second windows of the
//! wire bytes handed to its socket.
use vstd::prelude::*;

verus! {

/// Shortest window a rate is measured over.
pub const BITRATE_UPDATE_INTERVAL_MS: u64 = 2000;

/// Wire bytes sent and the rate of the last completed window. The rate is
/// kept exactly, as bits over milliseconds; `rate_window_ms == 0` means no
/// window has completed since the last reset (a rate of zero).
#[derive(Debug, Clone, Copy, PartialEq, Eq, Structural)]
pub struct BitrateTracker {
    /// Wire bytes handed to the socket over the process lifetime; a socket
    /// replacement does not clear it.
    pub bytes_sent_total: u64,
    /// `bytes_sent_total` as of the last rate calculation.
    pub bytes_sent_window: u64,
    pub last_rate_update_ms: u64,
    /// Bits sent in the last completed window.
    pub rate_bits: u64,
    /// Length of the last completed window.
    pub rate_window_ms: u64,
}

pub open spec fn sat_sub_u64(a: u64, b: u64) -> u64 {
    if a >= b {
        (a - b) as u64
    } else {
        0
    }
}

/// The tracker after a rate calculation at `now`: once two seconds passed,
/// the bytes sent since the last calculation over the elapsed time become the
/// rate, and a new window starts.
pub open spec fn calculated(t: BitrateTracker, now: u64) -> BitrateTracker {
    let elapsed = sat_sub_u64(now, t.last_rate_update_ms);
    if elapsed >= BITRATE_UPDATE_INTERVAL_MS {
        let bytes = sat_sub_u64(t.bytes_sent_total, t.bytes_sent_window);
        BitrateTracker {
            rate_bits: if bytes * 8 > u64::MAX {
                u64::MAX
            } else {
                (bytes * 8) as u64
            },
            rate_window_ms: elapsed,
            last_rate_update_ms: now,
            bytes_sent_window: t.bytes_sent_total,
            ..t
        }
    } else {
        t
    }
}

impl BitrateTracker {
    /// A tracker that starts measuring at `now_ms`.
    pub fn new(now_ms: u64) -> (t: Self)
        ensures
            t == (BitrateTracker {
                bytes_sent_total: 0,
                bytes_sent_window: 0,
                last_rate_update_ms: now_ms,
                rate_bits: 0,
                rate_window_ms: 0,
            }),
    {
        BitrateTracker {
            bytes_sent_total: 0,
            bytes_sent_window: 0,
            last_rate_update_ms: now_ms,
            rate_bits: 0,
            rate_window_ms: 0,
        }
    }

    /// Restart the measurement window at `now_ms` (the socket was replaced):
    /// the rate reads zero, the cumulative total is kept, and the window is
    /// rebased to it so the next window measures only new bytes.
    pub fn reset(&mut self, now_ms: u64)
        ensures
            *final(self) == (BitrateTracker {
                bytes_sent_window: old(self).bytes_sent_total,
                last_rate_update_ms: now_ms,
                rate_bits: 0,
                rate_window_ms: 0,
                ..*old(self)
            }),
    {
        self.bytes_sent_window = self.bytes_sent_total;
        self.last_rate_update_ms = now_ms;
        self.rate_bits = 0;
        self.rate_window_ms = 0;
    }

    /// Count `bytes_sent` wire bytes handed to the socket (saturating).
    pub fn update_on_send(&mut self, bytes_sent: u64)
        ensures
            *final(self) == (BitrateTracker {
                bytes_sent_total: if old(self).bytes_sent_total + bytes_sent > u64::MAX {
                    u64::MAX
                } else {
                    (old(self).bytes_sent_total + bytes_sent) as u64
                },
                ..*old(self)
            }),
    {
        self.bytes_sent_total = self.bytes_sent_total.saturating_add(bytes_sent);
    }

    /// Close the window at `now_ms` if two seconds or more passed.
    pub fn calculate(&mut self, now_ms: u64)
        ensures
            *final(self) == calculated(*old(self), now_ms),
    {
        let elapsed = now_ms.saturating_sub(self.last_rate_update_ms);
        if elapsed >= BITRATE_UPDATE_INTERVAL_MS {
            let bytes = self.bytes_sent_total.saturating_sub(self.bytes_sent_window);
            self.rate_bits = if bytes > u64::MAX / 8 {
                u64::MAX
            } else {
                bytes * 8
            };
            self.rate_window_ms = elapsed;
            self.last_rate_update_ms = now_ms;
            self.bytes_sent_window = self.bytes_sent_total;
        }
    }
}

} // verus!
