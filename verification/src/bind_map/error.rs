//! Bind-map rejection classes and the seven telemetry-facing reasons they map to.
//!
//! [`BindMapError`] is fine-grained so a log line tells a writer exactly which
//! row and field to fix; [`DegradedReason`] is the small, frozen set that
//! leaves the process as typed telemetry.
use vstd::prelude::*;

use super::ip::{ip_text, ip_to_string, IpAddress};
use crate::text::{decimal, push_decimal, push_str, string_of};
pub use super::status::DegradedReason;

verus! {

/// Every way a bind-map pair can be refused.
#[derive(Debug, Clone)]
#[allow(inconsistent_fields)]
pub enum BindMapError {
    /// The sidecar path does not exist.
    MissingFile { path: String },
    /// The sidecar could not be read safely (I/O, symlink, mode, non-regular).
    Unreadable { path: String, detail: String },
    /// The sidecar is not parseable JSON, or is missing a required field.
    MalformedJson(String),
    /// A `schema_version` this build does not implement.
    UnsupportedSchemaVersion { found: u32 },
    /// A header field is present but outside its defined domain.
    InvalidHeader { field: &'static str, detail: String },
    /// A row field is present but outside its defined domain.
    InvalidRow { index: usize, field: &'static str, detail: String },
    /// A row names an interface that does not exist on this host.
    UnknownIface { index: usize, iface: String },
    /// Two rows name the same `(ip, iface)` socket key.
    DuplicatePair { index: usize, ip: IpAddress, iface: String },
    /// Two rows claim the same identity.
    DuplicateLinkId { index: usize, link_id: String },
    /// The sidecar does not describe the same number of uplinks as the IP list.
    RowCountMismatch { sidecar: usize, ips_file: usize },
    /// The Nth row does not describe the Nth accepted IP-list entry.
    RowIpMismatch { index: usize, sidecar: IpAddress, ips_file: IpAddress },
    /// The digest does not name the IP-list content that was read alongside it.
    HashMismatch { sidecar: String, computed: String },
    /// The mapping changed without the generation moving, so it cannot be ordered.
    StaleGeneration { generation: u64 },
    /// A hash mismatch survived the whole retry budget.
    RetryExhausted { attempts: u32 },
}

/// Abstract value of a rejection: every text field by its characters.
pub enum ErrorView {
    MissingFile { path: Seq<char> },
    Unreadable { path: Seq<char>, detail: Seq<char> },
    MalformedJson(Seq<char>),
    UnsupportedSchemaVersion { found: u32 },
    InvalidHeader { field: Seq<char>, detail: Seq<char> },
    InvalidRow { index: usize, field: Seq<char>, detail: Seq<char> },
    UnknownIface { index: usize, iface: Seq<char> },
    DuplicatePair { index: usize, ip: IpAddress, iface: Seq<char> },
    DuplicateLinkId { index: usize, link_id: Seq<char> },
    RowCountMismatch { sidecar: usize, ips_file: usize },
    RowIpMismatch { index: usize, sidecar: IpAddress, ips_file: IpAddress },
    HashMismatch { sidecar: Seq<char>, computed: Seq<char> },
    StaleGeneration { generation: u64 },
    RetryExhausted { attempts: u32 },
}

impl View for BindMapError {
    type V = ErrorView;

    open spec fn view(&self) -> ErrorView {
        match *self {
            BindMapError::MissingFile { path } => ErrorView::MissingFile { path: path@ },
            BindMapError::Unreadable { path, detail } => ErrorView::Unreadable {
                path: path@,
                detail: detail@,
            },
            BindMapError::MalformedJson(d) => ErrorView::MalformedJson(d@),
            BindMapError::UnsupportedSchemaVersion { found } => ErrorView::UnsupportedSchemaVersion {
                found,
            },
            BindMapError::InvalidHeader { field, detail } => ErrorView::InvalidHeader {
                field: field@,
                detail: detail@,
            },
            BindMapError::InvalidRow { index, field, detail } => ErrorView::InvalidRow {
                index,
                field: field@,
                detail: detail@,
            },
            BindMapError::UnknownIface { index, iface } => ErrorView::UnknownIface {
                index,
                iface: iface@,
            },
            BindMapError::DuplicatePair { index, ip, iface } => ErrorView::DuplicatePair {
                index,
                ip,
                iface: iface@,
            },
            BindMapError::DuplicateLinkId { index, link_id } => ErrorView::DuplicateLinkId {
                index,
                link_id: link_id@,
            },
            BindMapError::RowCountMismatch { sidecar, ips_file } => ErrorView::RowCountMismatch {
                sidecar,
                ips_file,
            },
            BindMapError::RowIpMismatch { index, sidecar, ips_file } => ErrorView::RowIpMismatch {
                index,
                sidecar,
                ips_file,
            },
            BindMapError::HashMismatch { sidecar, computed } => ErrorView::HashMismatch {
                sidecar: sidecar@,
                computed: computed@,
            },
            BindMapError::StaleGeneration { generation } => ErrorView::StaleGeneration {
                generation,
            },
            BindMapError::RetryExhausted { attempts } => ErrorView::RetryExhausted { attempts },
        }
    }
}

/// The single telemetry reason each rejection reports as.
pub open spec fn reason_of(e: BindMapError) -> DegradedReason {
    match e {
        BindMapError::MissingFile { .. } => DegradedReason::MissingFile,
        BindMapError::Unreadable { .. } => DegradedReason::Unreadable,
        BindMapError::UnsupportedSchemaVersion { .. } => DegradedReason::Unsupported,
        BindMapError::HashMismatch { .. } => DegradedReason::HashMismatch,
        BindMapError::UnknownIface { .. } => DegradedReason::UnknownIface,
        BindMapError::RetryExhausted { .. } => DegradedReason::RetryExhausted,
        _ => DegradedReason::Malformed,
    }
}

impl BindMapError {
    /// The single telemetry reason this rejection reports as.
    pub fn reason(&self) -> (r: DegradedReason)
        ensures
            r == reason_of(*self),
    {
        match self {
            BindMapError::MissingFile { .. } => DegradedReason::MissingFile,
            BindMapError::Unreadable { .. } => DegradedReason::Unreadable,
            BindMapError::UnsupportedSchemaVersion { .. } => DegradedReason::Unsupported,
            BindMapError::HashMismatch { .. } => DegradedReason::HashMismatch,
            BindMapError::UnknownIface { .. } => DegradedReason::UnknownIface,
            BindMapError::RetryExhausted { .. } => DegradedReason::RetryExhausted,
            BindMapError::MalformedJson(_)
            | BindMapError::InvalidHeader { .. }
            | BindMapError::InvalidRow { .. }
            | BindMapError::DuplicatePair { .. }
            | BindMapError::DuplicateLinkId { .. }
            | BindMapError::RowCountMismatch { .. }
            | BindMapError::RowIpMismatch { .. }
            | BindMapError::StaleGeneration { .. } => DegradedReason::Malformed,
        }
    }
}

/// The log line of each rejection.
pub open spec fn error_text(e: ErrorView) -> Seq<char> {
    match e {
        ErrorView::MissingFile { path } => "bind-map sidecar not found: "@ + path,
        ErrorView::Unreadable { path, detail } => "bind-map sidecar "@ + path + " is unreadable: "@
            + detail,
        ErrorView::MalformedJson(detail) => "bind-map sidecar is not valid JSON: "@ + detail,
        ErrorView::UnsupportedSchemaVersion { found } => "bind-map schema_version "@ + decimal(
            found as nat,
        ) + " is not supported by this build"@,
        ErrorView::InvalidHeader { field, detail } => "bind-map header field `"@ + field
            + "` is invalid: "@ + detail,
        ErrorView::InvalidRow { index, field, detail } => "bind-map row "@ + decimal(index as nat)
            + " field `"@ + field + "` is invalid: "@ + detail,
        ErrorView::UnknownIface { index, iface } => "bind-map row "@ + decimal(index as nat)
            + " names interface `"@ + iface + "`, which does not exist on this host"@,
        ErrorView::DuplicatePair { index, ip, iface } => "bind-map row "@ + decimal(index as nat)
            + " repeats the socket key ("@ + ip_text(ip) + ", "@ + iface + ")"@,
        ErrorView::DuplicateLinkId { index, link_id } => "bind-map row "@ + decimal(index as nat)
            + " repeats link_id `"@ + link_id + "`"@,
        ErrorView::RowCountMismatch { sidecar, ips_file } => "bind-map describes "@ + decimal(
            sidecar as nat,
        ) + " link(s) but the ips file has "@ + decimal(ips_file as nat),
        ErrorView::RowIpMismatch { index, sidecar, ips_file } => "bind-map row "@ + decimal(
            index as nat,
        ) + " says "@ + ip_text(sidecar) + " but ips file line "@ + decimal(index as nat)
            + " says "@ + ip_text(ips_file),
        ErrorView::HashMismatch { sidecar, computed } => "bind-map names ips_file_sha256 "@
            + sidecar + " but the file on disk hashes to "@ + computed,
        ErrorView::StaleGeneration { generation } => "bind-map generation "@ + decimal(
            generation as nat,
        ) + " was reused for a changed mapping"@,
        ErrorView::RetryExhausted { attempts } => "bind-map and ips file never agreed across "@
            + decimal(attempts as nat) + " attempt(s)"@,
    }
}

fn push_ip(out: &mut Vec<char>, ip: IpAddress)
    ensures
        final(out)@ == old(out)@ + ip_text(ip),
{
    let s = ip_to_string(ip);
    push_str(out, s.as_str());
}

impl BindMapError {
    /// The log line that tells a writer which row and field to fix.
    pub fn message(&self) -> (m: String)
        ensures
            m@ == error_text(self@),
    {
        let mut out: Vec<char> = Vec::new();
        match self {
            BindMapError::MissingFile { path } => {
                push_str(&mut out, "bind-map sidecar not found: ");
                push_str(&mut out, path.as_str());
            },
            BindMapError::Unreadable { path, detail } => {
                push_str(&mut out, "bind-map sidecar ");
                push_str(&mut out, path.as_str());
                push_str(&mut out, " is unreadable: ");
                push_str(&mut out, detail.as_str());
            },
            BindMapError::MalformedJson(detail) => {
                push_str(&mut out, "bind-map sidecar is not valid JSON: ");
                push_str(&mut out, detail.as_str());
            },
            BindMapError::UnsupportedSchemaVersion { found } => {
                push_str(&mut out, "bind-map schema_version ");
                push_decimal(&mut out, *found as u64);
                push_str(&mut out, " is not supported by this build");
            },
            BindMapError::InvalidHeader { field, detail } => {
                push_str(&mut out, "bind-map header field `");
                push_str(&mut out, field);
                push_str(&mut out, "` is invalid: ");
                push_str(&mut out, detail.as_str());
            },
            BindMapError::InvalidRow { index, field, detail } => {
                push_str(&mut out, "bind-map row ");
                push_decimal(&mut out, *index as u64);
                push_str(&mut out, " field `");
                push_str(&mut out, field);
                push_str(&mut out, "` is invalid: ");
                push_str(&mut out, detail.as_str());
            },
            BindMapError::UnknownIface { index, iface } => {
                push_str(&mut out, "bind-map row ");
                push_decimal(&mut out, *index as u64);
                push_str(&mut out, " names interface `");
                push_str(&mut out, iface.as_str());
                push_str(&mut out, "`, which does not exist on this host");
            },
            BindMapError::DuplicatePair { index, ip, iface } => {
                push_str(&mut out, "bind-map row ");
                push_decimal(&mut out, *index as u64);
                push_str(&mut out, " repeats the socket key (");
                push_ip(&mut out, *ip);
                push_str(&mut out, ", ");
                push_str(&mut out, iface.as_str());
                push_str(&mut out, ")");
            },
            BindMapError::DuplicateLinkId { index, link_id } => {
                push_str(&mut out, "bind-map row ");
                push_decimal(&mut out, *index as u64);
                push_str(&mut out, " repeats link_id `");
                push_str(&mut out, link_id.as_str());
                push_str(&mut out, "`");
            },
            BindMapError::RowCountMismatch { sidecar, ips_file } => {
                push_str(&mut out, "bind-map describes ");
                push_decimal(&mut out, *sidecar as u64);
                push_str(&mut out, " link(s) but the ips file has ");
                push_decimal(&mut out, *ips_file as u64);
            },
            BindMapError::RowIpMismatch { index, sidecar, ips_file } => {
                push_str(&mut out, "bind-map row ");
                push_decimal(&mut out, *index as u64);
                push_str(&mut out, " says ");
                push_ip(&mut out, *sidecar);
                push_str(&mut out, " but ips file line ");
                push_decimal(&mut out, *index as u64);
                push_str(&mut out, " says ");
                push_ip(&mut out, *ips_file);
            },
            BindMapError::HashMismatch { sidecar, computed } => {
                push_str(&mut out, "bind-map names ips_file_sha256 ");
                push_str(&mut out, sidecar.as_str());
                push_str(&mut out, " but the file on disk hashes to ");
                push_str(&mut out, computed.as_str());
            },
            BindMapError::StaleGeneration { generation } => {
                push_str(&mut out, "bind-map generation ");
                push_decimal(&mut out, *generation);
                push_str(&mut out, " was reused for a changed mapping");
            },
            BindMapError::RetryExhausted { attempts } => {
                push_str(&mut out, "bind-map and ips file never agreed across ");
                push_decimal(&mut out, *attempts as u64);
                push_str(&mut out, " attempt(s)");
            },
        }
        string_of(&out)
    }
}

} // verus!
