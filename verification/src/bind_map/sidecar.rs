//! Sidecar documents: a validated header and still-raw rows.
//!
//! Rows stay raw here on purpose. Row validation must run after the hash
//! coherence check, and the header check has never seen the IP file, so it
//! cannot perform that check.
use vstd::prelude::*;

use crate::text::{chars_of, push_all, push_str, string_of};

use super::error::{BindMapError, ErrorView};
use super::types::opt_text;

verus! {

/// The sidecar `schema_version` this build reads and writes.
pub const BIND_MAP_SCHEMA_VERSION: u32 = 1;

/// Length of a lowercase-hex SHA-256 digest.
pub const SHA256_HEX_LEN: usize = 64;

/// One row before its fields have been parsed into typed values.
#[derive(Debug, Clone)]
pub struct RawRow {
    pub link_id: String,
    pub ip: String,
    pub iface: String,
    pub id_path: Option<String>,
}

/// Abstract value of a raw row.
pub struct RawRowView {
    pub link_id: Seq<char>,
    pub ip: Seq<char>,
    pub iface: Seq<char>,
    pub id_path: Option<Seq<char>>,
}

impl View for RawRow {
    type V = RawRowView;

    open spec fn view(&self) -> RawRowView {
        RawRowView {
            link_id: self.link_id@,
            ip: self.ip@,
            iface: self.iface@,
            id_path: opt_text(self.id_path),
        }
    }
}

/// The wire shape of a sidecar, as its JSON decoder delivers it. Unknown keys
/// are ignored by that decoder so an additive field within the same
/// `schema_version` cannot break an older reader; absent `links` are empty.
#[derive(Debug, Clone)]
pub struct WireDoc {
    pub schema_version: u32,
    pub generation: u64,
    pub ips_file_sha256: String,
    pub links: Vec<RawRow>,
}

/// A parsed sidecar with a validated header and still-raw rows.
#[derive(Debug, Clone)]
pub struct BindMapDoc {
    pub generation: u64,
    pub ips_file_sha256: String,
    pub links: Vec<RawRow>,
}

impl BindMapDoc {
    /// Rows exactly as the writer published them, unvalidated.
    pub fn raw_links(&self) -> (r: &[RawRow])
        ensures
            r@ == self.links@,
    {
        self.links.as_slice()
    }
}

pub open spec fn is_lower_hex(c: char) -> bool {
    ('0' <= c <= '9') || ('a' <= c <= 'f')
}

/// Exactly 64 lowercase hex digits. Such a text is ASCII, so its character
/// count is its byte count.
pub open spec fn is_sha256_hex(t: Seq<char>) -> bool {
    t.len() == SHA256_HEX_LEN && forall|i: int| 0 <= i < t.len() ==> is_lower_hex(#[trigger] t[i])
}

/// What the header check makes of a wire document.
pub open spec fn header_outcome(w: WireDoc) -> Result<(), ErrorView> {
    if w.schema_version != BIND_MAP_SCHEMA_VERSION {
        Err(ErrorView::UnsupportedSchemaVersion { found: w.schema_version })
    } else if w.generation == 0 {
        Err(
            ErrorView::InvalidHeader {
                field: "generation"@,
                detail: "0 is the reserved unset sentinel; the floor is 1"@,
            },
        )
    } else if !is_sha256_hex(w.ips_file_sha256@) {
        Err(
            ErrorView::InvalidHeader {
                field: "ips_file_sha256"@,
                detail: "must be 64 lowercase hex characters, got `"@ + w.ips_file_sha256@ + "`"@,
            },
        )
    } else {
        Ok(())
    }
}

fn sha256_hex_ok(s: &String) -> (r: bool)
    ensures
        r == is_sha256_hex(s@),
{
    let cs = chars_of(s.as_str());
    if cs.len() != SHA256_HEX_LEN {
        return false;
    }
    let mut i: usize = 0;
    while i < cs.len()
        invariant
            i <= cs@.len(),
            cs@ == s@,
            forall|k: int| 0 <= k < i ==> is_lower_hex(#[trigger] cs@[k]),
        decreases cs@.len() - i,
    {
        let c = cs[i];
        if !(('0' <= c && c <= '9') || ('a' <= c && c <= 'f')) {
            assert(!is_lower_hex(cs@[i as int]));
            return false;
        }
        i += 1;
    }
    true
}

/// Validate a decoded sidecar's header, in the declared order: version, then
/// generation, then digest form, so the reported reason is reproducible.
pub fn check_wire_doc(wire: WireDoc) -> (r: Result<BindMapDoc, BindMapError>)
    ensures
        match header_outcome(wire) {
            Ok(_) => r matches Ok(d) && d.generation == wire.generation && d.ips_file_sha256@
                == wire.ips_file_sha256@ && d.links@ == wire.links@,
            Err(ev) => r matches Err(e) && e@ == ev,
        },
{
    if wire.schema_version != BIND_MAP_SCHEMA_VERSION {
        return Err(BindMapError::UnsupportedSchemaVersion { found: wire.schema_version });
    }
    if wire.generation == 0 {
        return Err(
            BindMapError::InvalidHeader {
                field: "generation",
                detail: "0 is the reserved unset sentinel; the floor is 1".to_owned(),
            },
        );
    }
    if !sha256_hex_ok(&wire.ips_file_sha256) {
        let mut d: Vec<char> = Vec::new();
        push_str(&mut d, "must be 64 lowercase hex characters, got `");
        let got = chars_of(wire.ips_file_sha256.as_str());
        push_all(&mut d, &got);
        push_str(&mut d, "`");
        return Err(BindMapError::InvalidHeader { field: "ips_file_sha256", detail: string_of(&d) });
    }
    Ok(
        BindMapDoc {
            generation: wire.generation,
            ips_file_sha256: wire.ips_file_sha256,
            links: wire.links,
        },
    )
}

} // verus!
