//! Validation of the prefix of a batched send that the kernel reports as
//! accepted: a datagram is all or nothing, so a short one is a hard error at
//! its index, and the usable prefix is everything strictly before it.
use vstd::prelude::*;

verus! {

/// Why a reported send prefix cannot be used whole.
#[derive(Clone, Copy, Debug, PartialEq, Eq, Structural)]
pub enum SendPrefixFault {
    /// The datagram at `index` went out with `sent` of its `expected` bytes.
    Short { index: usize, sent: usize, expected: usize },
    /// More messages were reported accepted than were submitted.
    Overreported { accepted: usize, submitted: usize },
}

impl SendPrefixFault {
    /// Where the usable prefix ends.
    pub fn index(&self) -> (i: usize)
        ensures
            i == match *self {
                SendPrefixFault::Short { index, .. } => index,
                SendPrefixFault::Overreported { submitted, .. } => submitted,
            },
    {
        match *self {
            SendPrefixFault::Short { index, .. } => index,
            SendPrefixFault::Overreported { submitted, .. } => submitted,
        }
    }
}

pub open spec fn min3(a: int, b: int, c: int) -> int {
    if a <= b && a <= c {
        a
    } else if b <= c {
        b
    } else {
        c
    }
}

/// The first index below `bound` whose sent length differs from its packet.
pub open spec fn first_short(sent: Seq<usize>, expected: Seq<usize>, bound: int, k: int) -> Option<int>
    decreases bound - k,
{
    if k < 0 || k >= bound {
        None
    } else if sent[k] != expected[k] {
        Some(k)
    } else {
        first_short(sent, expected, bound, k + 1)
    }
}

/// What a batched send of `expected` packets whose kernel-reported lengths are
/// `sent` and of which `accepted` were reported accepted amounts to.
pub open spec fn sent_prefix(sent: Seq<usize>, expected: Seq<usize>, accepted: usize) -> Result<usize, SendPrefixFault> {
    let bound = min3(accepted as int, sent.len() as int, expected.len() as int);
    match first_short(sent, expected, bound, 0) {
        Some(i) => Err(
            SendPrefixFault::Short { index: i as usize, sent: sent[i], expected: expected[i] },
        ),
        None => if accepted > bound {
            Err(SendPrefixFault::Overreported { accepted, submitted: bound as usize })
        } else {
            Ok(bound as usize)
        },
    }
}

/// Validate the accepted prefix of a batched send: `sent[i]` is the length
/// the kernel reports for message `i`, `expected[i]` that of its packet.
pub fn validate_sent_prefix(sent: &[usize], expected: &[usize], accepted: usize) -> (r: Result<
    usize,
    SendPrefixFault,
>)
    ensures
        r == sent_prefix(sent@, expected@, accepted),
{
    let mut bound = accepted;
    if sent.len() < bound {
        bound = sent.len();
    }
    if expected.len() < bound {
        bound = expected.len();
    }
    let ghost b = min3(accepted as int, sent@.len() as int, expected@.len() as int);
    assert(bound == b);
    let mut i: usize = 0;
    while i < bound
        invariant
            b == min3(accepted as int, sent@.len() as int, expected@.len() as int),
            bound == b,
            i <= bound,
            bound <= sent@.len(),
            bound <= expected@.len(),
            first_short(sent@, expected@, b, 0) == first_short(sent@, expected@, b, i as int),
        decreases bound - i,
    {
        if sent[i] != expected[i] {
            assert(first_short(sent@, expected@, b, i as int) == Some(i as int));
            return Err(SendPrefixFault::Short { index: i, sent: sent[i], expected: expected[i] });
        }
        assert(first_short(sent@, expected@, b, i as int) == first_short(sent@, expected@, b, i + 1));
        i += 1;
    }
    if accepted > bound {
        return Err(SendPrefixFault::Overreported { accepted, submitted: bound });
    }
    Ok(bound)
}

} // verus!
