//! Attribution of a NAK to the accepted send it debits.
use vstd::prelude::*;

verus! {

/// Width of one send cohort.
pub const LOSS_COHORT_MS: u64 = 1000;
/// Horizon of retained loss evidence.
pub const LOSS_HISTORY_MS: u64 = 10_000;

/// Accepted-send identity and its frozen deadline; retries never extend an
/// older debit.
#[derive(Clone, Copy, Debug, PartialEq, Eq, Structural)]
pub struct LossSend {
    pub epoch: u64,
    pub cohort_start_ms: u64,
    pub deadline_ms: u64,
}

/// NAKs charged against one accepted send.
#[derive(Clone, Copy, Debug)]
pub struct LossDebit {
    pub send: LossSend,
    pub count: u32,
}

/// A debit is still pending while its deadline has not passed and its cohort
/// is inside the retained history.
pub open spec fn debit_pending(d: LossDebit, now: u64) -> bool {
    let cohort_end = d.send.cohort_start_ms + LOSS_COHORT_MS;
    &&& now < d.send.deadline_ms
    &&& (if now >= cohort_end {
        now - cohort_end
    } else {
        0
    }) < LOSS_HISTORY_MS
}

impl LossDebit {
    pub fn pending_at(self, now_ms: u64) -> (b: bool)
        requires
            self.send.cohort_start_ms + LOSS_COHORT_MS <= u64::MAX,
        ensures
            b == debit_pending(self, now_ms),
    {
        now_ms < self.send.deadline_ms && now_ms.saturating_sub(
            self.send.cohort_start_ms + LOSS_COHORT_MS,
        ) < LOSS_HISTORY_MS
    }

    /// Fold a later debit of the same send into this one (saturating); debits
    /// of different sends never merge.
    pub fn merge(&mut self, next: Self) -> (merged: bool)
        ensures
            merged == (old(self).send == next.send),
            final(self).send == old(self).send,
            final(self).count == (if merged {
                if old(self).count + next.count > u32::MAX {
                    u32::MAX as int
                } else {
                    old(self).count + next.count
                }
            } else {
                old(self).count as int
            }),
    {
        if self.send != next.send {
            return false;
        }
        self.count = self.count.saturating_add(next.count);
        true
    }
}

/// Once a debit stops pending it never pends again, and a pending debit is
/// always before its frozen deadline.
pub proof fn lemma_pending_only_shrinks(d: LossDebit, t1: u64, t2: u64)
    requires
        t1 <= t2,
    ensures
        debit_pending(d, t2) ==> debit_pending(d, t1),
        debit_pending(d, t2) ==> t2 < d.send.deadline_ms,
{
}

} // verus!
