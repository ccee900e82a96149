//! The decisions of reading the pair off disk: the bounded retry that absorbs
//! the writer's publication window, and the sidecar permission check. The
//! reads themselves, and the pause between attempts, are the caller's.
use vstd::prelude::*;

use super::error::BindMapError;
use super::types::{IpsFile, MappedPool};
use crate::text::{push_all, push_str, string_of};

verus! {

/// Total read attempts: one initial read plus four retries.
pub const BIND_MAP_RETRY_ATTEMPTS: u32 = 5;
/// Pause between attempts.
pub const BIND_MAP_RETRY_DELAY_MS: u64 = 400;
/// Hard ceiling on the whole retry schedule: startup and reload both run it,
/// so an unbounded wait would hold the stream hostage to a writer bug.
pub const BIND_MAP_RETRY_BUDGET_MS: u64 = 2000;

/// One completed read: the IP file that was hashed, plus the mapping outcome
/// derived from exactly those bytes. The IP file comes back even on failure
/// so the caller can fail open against the content the digest was compared
/// with.
#[derive(Debug)]
pub struct PairRead {
    pub ips: IpsFile,
    pub map: Result<MappedPool, BindMapError>,
}

/// What to do after attempt number `attempt` produced a mapping outcome.
#[derive(Debug)]
pub enum AttemptOutcome {
    /// Pause `BIND_MAP_RETRY_DELAY_MS`, then read the pair again as attempt
    /// `next_attempt`.
    Retry { next_attempt: u32 },
    /// The read is over with this outcome.
    Settled(Result<MappedPool, BindMapError>),
}

/// Only a hash mismatch is retried: it is the one failure the writer's own
/// publication window can produce. A mismatch that survives the last attempt
/// becomes `RetryExhausted`; every other outcome settles at once.
pub fn after_attempt(attempt: u32, map: Result<MappedPool, BindMapError>) -> (o: AttemptOutcome)
    requires
        1 <= attempt <= BIND_MAP_RETRY_ATTEMPTS,
    ensures
        (map matches Err(BindMapError::HashMismatch { .. }) && attempt < BIND_MAP_RETRY_ATTEMPTS)
            <==> o is Retry,
        o matches AttemptOutcome::Retry { next_attempt } ==> next_attempt == attempt + 1,
        (map matches Err(BindMapError::HashMismatch { .. }) && attempt == BIND_MAP_RETRY_ATTEMPTS)
            ==> (o matches AttemptOutcome::Settled(Err(BindMapError::RetryExhausted { attempts })) && attempts
            == attempt),
        !(map matches Err(BindMapError::HashMismatch { .. })) ==> o == AttemptOutcome::Settled(map),
{
    let mismatch = match &map {
        Err(BindMapError::HashMismatch { .. }) => true,
        _ => false,
    };
    if mismatch {
        if attempt < BIND_MAP_RETRY_ATTEMPTS {
            return AttemptOutcome::Retry { next_attempt: attempt + 1 };
        }
        return AttemptOutcome::Settled(Err(BindMapError::RetryExhausted { attempts: attempt }));
    }
    AttemptOutcome::Settled(map)
}

/// The whole retry schedule fits its budget: every pause between the
/// attempts, taken together, stays within `BIND_MAP_RETRY_BUDGET_MS`.
pub proof fn lemma_retry_schedule_within_budget()
    ensures
        (BIND_MAP_RETRY_ATTEMPTS - 1) * BIND_MAP_RETRY_DELAY_MS <= BIND_MAP_RETRY_BUDGET_MS,
{
}

/// Permission bits that let a group or other users write the file.
pub const SHARED_WRITE_BITS: u32 = 0o022;

/// The `{:04o}` rendering of permission bits below `0o10000`.
pub open spec fn octal4(m: u32) -> Seq<char> {
    seq![
        ((('0' as u32) + (m / 512) % 8) as char),
        ((('0' as u32) + (m / 64) % 8) as char),
        ((('0' as u32) + (m / 8) % 8) as char),
        ((('0' as u32) + m % 8) as char),
    ]
}

pub open spec fn permission_outcome(mode: u32) -> Result<(), Seq<char>> {
    if mode & SHARED_WRITE_BITS != 0 {
        Err("mode "@ + octal4(mode & 0o7777)
            + " is group- or world-writable; the mapping must be owned by the service that writes it"@)
    } else {
        Ok(())
    }
}

fn octal_digit(d: u32) -> (c: char)
    requires
        d < 8,
    ensures
        c == (('0' as u32) + d) as char,
{
    if d == 0 {
        '0'
    } else if d == 1 {
        '1'
    } else if d == 2 {
        '2'
    } else if d == 3 {
        '3'
    } else if d == 4 {
        '4'
    } else if d == 5 {
        '5'
    } else if d == 6 {
        '6'
    } else {
        '7'
    }
}

/// Refuse a sidecar that a group or other users may write: the mapping
/// decides where device traffic egresses, so it must be owned by the service
/// that writes it.
pub fn check_permissions(mode: u32) -> (r: Result<(), String>)
    ensures
        match r {
            Ok(()) => permission_outcome(mode) is Ok,
            Err(e) => permission_outcome(mode) == Err::<(), Seq<char>>(e@),
        },
{
    if mode & SHARED_WRITE_BITS != 0 {
        let m = mode & 0o7777;
        let mut digits: Vec<char> = Vec::new();
        digits.push(octal_digit((m / 512) % 8));
        digits.push(octal_digit((m / 64) % 8));
        digits.push(octal_digit((m / 8) % 8));
        digits.push(octal_digit(m % 8));
        assert(digits@ == octal4(m));
        let mut out: Vec<char> = Vec::new();
        push_str(&mut out, "mode ");
        push_all(&mut out, &digits);
        push_str(
            &mut out,
            " is group- or world-writable; the mapping must be owned by the service that writes it",
        );
        return Err(string_of(&out));
    }
    Ok(())
}

} // verus!
