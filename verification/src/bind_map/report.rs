//! The telemetry-facing projection of a bind-map decision.
//!
//! Nothing here re-derives state: every value is read straight off the status,
//! disposition and collision-group tokens, so a UI and a log line can never
//! disagree about what the sender is doing.
use vstd::prelude::*;

use super::ip::{ip_text, ip_to_string};
use super::resolve::{groups_view, Resolution};
use super::status::{
    degraded_token,
    disposition_token,
    status_token,
    BindMapDisposition,
    BindMapStatus,
    CollisionGroup,
    CollisionView,
    DegradedReason,
};

verus! {

/// Is the map in force, and if not, why not?
#[derive(Debug, Clone, PartialEq, Eq)]
pub struct BindMapStatusRecord {
    /// `active` | `absent` | `degraded`.
    pub state: &'static str,
    /// One of the seven degraded reasons; absent unless `state` is `degraded`.
    pub reason: Option<&'static str>,
}

/// What a status record says about a status.
pub open spec fn status_record_holds(r: BindMapStatusRecord, status: BindMapStatus) -> bool {
    &&& r.state@ == status_token(status)
    &&& match status {
        BindMapStatus::Degraded(reason) => r.reason matches Some(t) && t@ == degraded_token(reason),
        _ => r.reason is None,
    }
}

impl BindMapStatusRecord {
    pub fn from_status(status: BindMapStatus) -> (r: BindMapStatusRecord)
        ensures
            status_record_holds(r, status),
    {
        BindMapStatusRecord {
            state: status.state_str(),
            reason: match status.reason() {
                Some(reason) => Some(reason.as_str()),
                None => None,
            },
        }
    }
}

impl Default for BindMapStatusRecord {
    /// No `--bind-map` was supplied, which is the shipped default.
    fn default() -> (r: BindMapStatusRecord)
        ensures
            status_record_holds(r, BindMapStatus::Absent),
    {
        BindMapStatusRecord::from_status(BindMapStatus::Absent)
    }
}

/// One same-IP group that a degraded startup could not disambiguate.
#[derive(Debug, Clone, PartialEq, Eq)]
pub struct CollisionRecord {
    pub ip: String,
    pub effective_index: usize,
    pub excluded_indices: Vec<usize>,
}

pub open spec fn collision_record_holds(r: CollisionRecord, g: CollisionView) -> bool {
    &&& r.ip@ == ip_text(g.ip)
    &&& r.effective_index == g.effective_index
    &&& r.excluded_indices@ == g.excluded_indices
}

fn copy_indices(v: &Vec<usize>) -> (r: Vec<usize>)
    ensures
        r@ == v@,
{
    let mut out: Vec<usize> = Vec::new();
    let mut i: usize = 0;
    while i < v.len()
        invariant
            i <= v@.len(),
            out@ == v@.take(i as int),
        decreases v@.len() - i,
    {
        out.push(v[i]);
        i += 1;
        assert(out@ == v@.take(i as int));
    }
    assert(v@.take(v@.len() as int) == v@);
    out
}

impl CollisionRecord {
    pub fn from_group(group: &CollisionGroup) -> (r: CollisionRecord)
        ensures
            collision_record_holds(r, group@),
    {
        CollisionRecord {
            ip: ip_to_string(group.ip),
            effective_index: group.effective_index,
            excluded_indices: copy_indices(&group.excluded_indices),
        }
    }
}

/// What is the sender actually running, and at whose expense?
#[derive(Debug, Clone, PartialEq, Eq)]
pub struct DispositionRecord {
    /// `mapped` | `retained_last_valid` | `legacy_unique_only` | `startup_collision_excluded`.
    pub state: &'static str,
    /// The groups a `startup_collision_excluded` disposition cost; empty for
    /// every other disposition.
    pub collisions: Vec<CollisionRecord>,
}

impl Default for DispositionRecord {
    /// Legacy behavior with no ambiguity, which is the shipped default.
    fn default() -> (r: DispositionRecord)
        ensures
            r.state@ == disposition_token(BindMapDisposition::LegacyUniqueOnly),
            r.collisions@.len() == 0,
    {
        DispositionRecord {
            state: BindMapDisposition::LegacyUniqueOnly.as_str(),
            collisions: Vec::new(),
        }
    }
}

/// The pair of typed fields telemetry publishes at the top level of a snapshot.
#[derive(Debug, Clone, PartialEq, Eq)]
pub struct BindMapReport {
    pub bind_map_status: BindMapStatusRecord,
    pub disposition: DispositionRecord,
}

/// What a report says about a decision.
pub open spec fn report_holds(
    r: BindMapReport,
    status: BindMapStatus,
    disposition: BindMapDisposition,
    excluded: Seq<CollisionView>,
) -> bool {
    &&& status_record_holds(r.bind_map_status, status)
    &&& r.disposition.state@ == disposition_token(disposition)
    &&& r.disposition.collisions@.len() == excluded.len()
    &&& forall|i: int|
        0 <= i < excluded.len() ==> collision_record_holds(
            #[trigger] r.disposition.collisions@[i],
            excluded[i],
        )
}

impl BindMapReport {
    pub fn new(
        status: BindMapStatus,
        disposition: BindMapDisposition,
        excluded: &[CollisionGroup],
    ) -> (r: BindMapReport)
        ensures
            report_holds(r, status, disposition, groups_view(excluded@)),
    {
        let mut collisions: Vec<CollisionRecord> = Vec::new();
        let mut i: usize = 0;
        while i < excluded.len()
            invariant
                i <= excluded@.len(),
                collisions@.len() == i,
                forall|k: int|
                    0 <= k < i ==> collision_record_holds(
                        #[trigger] collisions@[k],
                        excluded@[k]@,
                    ),
            decreases excluded@.len() - i,
        {
            collisions.push(CollisionRecord::from_group(&excluded[i]));
            i += 1;
        }
        BindMapReport {
            bind_map_status: BindMapStatusRecord::from_status(status),
            disposition: DispositionRecord { state: disposition.as_str(), collisions },
        }
    }

    /// A degradation that never reached a resolution: the outer failure arm of
    /// a pair read, where `BIND_IPS_FILE` itself was unusable.
    pub fn degraded(reason: DegradedReason, disposition: BindMapDisposition) -> (r: BindMapReport)
        ensures
            report_holds(r, BindMapStatus::Degraded(reason), disposition, seq![]),
    {
        let none: Vec<CollisionGroup> = Vec::new();
        let r = BindMapReport::new(BindMapStatus::Degraded(reason), disposition, none.as_slice());
        proof {
            assert(groups_view(none@) =~= Seq::<CollisionView>::empty());
        }
        r
    }

    /// The report of a resolution.
    pub fn from_resolution(resolution: &Resolution) -> (r: BindMapReport)
        ensures
            report_holds(
                r,
                resolution.status,
                resolution.disposition,
                groups_view(resolution.excluded@),
            ),
    {
        BindMapReport::new(resolution.status, resolution.disposition, resolution.excluded.as_slice())
    }
}

impl Default for BindMapReport {
    /// The legacy unmapped run.
    fn default() -> (r: BindMapReport)
        ensures
            report_holds(
                r,
                BindMapStatus::Absent,
                BindMapDisposition::LegacyUniqueOnly,
                seq![],
            ),
    {
        BindMapReport {
            bind_map_status: BindMapStatusRecord::default(),
            disposition: DispositionRecord::default(),
        }
    }
}

} // verus!
