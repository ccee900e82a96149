//! The frozen operating-mode vocabulary of the bind-map sidecar.
//!
//! These tokens are a wire contract: they are echoed verbatim into the
//! telemetry document, so each one is spelled exactly once, here.
use vstd::prelude::*;

use super::ip::IpAddress;

verus! {

/// The operator-visible reason a configured bind-map is not in force.
#[derive(Debug, Clone, Copy, PartialEq, Eq, Structural)]
pub enum DegradedReason {
    /// The sidecar's digest did not name the `BIND_IPS_FILE` content on disk.
    HashMismatch,
    /// Bad JSON, bad header, bad row, bad correspondence, or a stale generation.
    Malformed,
    /// A row names an interface that does not exist on this host.
    UnknownIface,
    /// A hash mismatch persisted past the bounded retry budget.
    RetryExhausted,
    /// The sidecar path does not exist.
    MissingFile,
    /// I/O error, symlink, non-regular file, or unsafe permissions.
    Unreadable,
    /// A `schema_version` this build does not implement.
    Unsupported,
}

/// The snake_case token of each degraded reason.
pub open spec fn degraded_token(r: DegradedReason) -> Seq<char> {
    match r {
        DegradedReason::HashMismatch => "hash_mismatch"@,
        DegradedReason::Malformed => "malformed"@,
        DegradedReason::UnknownIface => "unknown_iface"@,
        DegradedReason::RetryExhausted => "retry_exhausted"@,
        DegradedReason::MissingFile => "missing_file"@,
        DegradedReason::Unreadable => "unreadable"@,
        DegradedReason::Unsupported => "unsupported"@,
    }
}

impl DegradedReason {
    /// The exact snake_case token published in telemetry.
    pub fn as_str(self) -> (s: &'static str)
        ensures
            s@ == degraded_token(self),
    {
        match self {
            DegradedReason::HashMismatch => "hash_mismatch",
            DegradedReason::Malformed => "malformed",
            DegradedReason::UnknownIface => "unknown_iface",
            DegradedReason::RetryExhausted => "retry_exhausted",
            DegradedReason::MissingFile => "missing_file",
            DegradedReason::Unreadable => "unreadable",
            DegradedReason::Unsupported => "unsupported",
        }
    }
}

/// Is a configured bind-map in force?
#[derive(Debug, Clone, Copy, PartialEq, Eq, Structural)]
pub enum BindMapStatus {
    /// A coherent, valid pair is applied.
    Active,
    /// `--bind-map` was not supplied.
    Absent,
    /// The map is configured but not in force.
    Degraded(DegradedReason),
}

pub open spec fn status_token(s: BindMapStatus) -> Seq<char> {
    match s {
        BindMapStatus::Active => "active"@,
        BindMapStatus::Absent => "absent"@,
        BindMapStatus::Degraded(_) => "degraded"@,
    }
}

impl BindMapStatus {
    pub fn state_str(self) -> (s: &'static str)
        ensures
            s@ == status_token(self),
    {
        match self {
            BindMapStatus::Active => "active",
            BindMapStatus::Absent => "absent",
            BindMapStatus::Degraded(_) => "degraded",
        }
    }

    /// Only a degraded status carries a reason.
    pub fn reason(self) -> (r: Option<DegradedReason>)
        ensures
            r == (match self {
                BindMapStatus::Degraded(reason) => Some(reason),
                _ => None,
            }),
    {
        match self {
            BindMapStatus::Degraded(reason) => Some(reason),
            BindMapStatus::Active | BindMapStatus::Absent => None,
        }
    }
}

/// What is the sender actually running, and at whose expense?
#[derive(Debug, Clone, Copy, PartialEq, Eq, Structural)]
pub enum BindMapDisposition {
    /// The map is in force.
    Mapped,
    /// A degraded reload was rejected; the last valid mapped pool still runs.
    RetainedLastValid,
    /// Legacy behavior; no collision groups were present.
    LegacyUniqueOnly,
    /// Degraded at startup with at least one collision group.
    StartupCollisionExcluded,
}

pub open spec fn disposition_token(d: BindMapDisposition) -> Seq<char> {
    match d {
        BindMapDisposition::Mapped => "mapped"@,
        BindMapDisposition::RetainedLastValid => "retained_last_valid"@,
        BindMapDisposition::LegacyUniqueOnly => "legacy_unique_only"@,
        BindMapDisposition::StartupCollisionExcluded => "startup_collision_excluded"@,
    }
}

impl BindMapDisposition {
    pub fn as_str(self) -> (s: &'static str)
        ensures
            s@ == disposition_token(self),
    {
        match self {
            BindMapDisposition::Mapped => "mapped",
            BindMapDisposition::RetainedLastValid => "retained_last_valid",
            BindMapDisposition::LegacyUniqueOnly => "legacy_unique_only",
            BindMapDisposition::StartupCollisionExcluded => "startup_collision_excluded",
        }
    }
}

/// An ambiguous same-IP group that degraded startup could not disambiguate.
///
/// The indices are `BIND_IPS_FILE` positions among the accepted lines, not
/// connection ids.
#[derive(Debug, Clone, PartialEq, Eq)]
pub struct CollisionGroup {
    pub ip: IpAddress,
    /// Index of the row that runs: always the first occurrence in file order.
    pub effective_index: usize,
    /// Indices of the rows that do not run, in file order.
    pub excluded_indices: Vec<usize>,
}

/// Abstract value of a collision group.
pub struct CollisionView {
    pub ip: IpAddress,
    pub effective_index: usize,
    pub excluded_indices: Seq<usize>,
}

impl View for CollisionGroup {
    type V = CollisionView;

    open spec fn view(&self) -> CollisionView {
        CollisionView {
            ip: self.ip,
            effective_index: self.effective_index,
            excluded_indices: self.excluded_indices@,
        }
    }
}

} // verus!
