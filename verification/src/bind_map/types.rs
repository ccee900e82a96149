//! Validated bind-map values.
//!
//! Nothing in here can hold a value the sidecar contract forbids: the
//! constructors are the only way in, and they parse rather than validate.
use vstd::prelude::*;
use vstd::utf8::{decode_utf8, encode_utf8, valid_utf8};

use crate::text::{chars_eq_str, chars_of, decimal, push_all, push_decimal, push_str, split_chars, split_on, string_of, trim, trim_chars};

use super::error::BindMapError;
use super::ip::{ip_parse, parse_ip, IpAddress};

verus! {

/// Maximum `link_id` length in bytes.
pub const LINK_ID_MAX_LEN: usize = 64;

/// Maximum interface-name length in bytes (`IFNAMSIZ - 1`).
pub const IFACE_MAX_LEN: usize = 15;

/// Maximum `id_path` length in bytes.
pub const ID_PATH_MAX_LEN: usize = 4096;

/// Printable, non-space ASCII (`0x21`..=`0x7E`).
pub open spec fn is_printable_char(c: char) -> bool {
    0x21 <= c as u32 <= 0x7e
}

/// Non-empty and made only of printable, non-space ASCII. A character outside
/// that range is either not ASCII or a control/space byte, so this agrees with
/// the byte-wise test on the string's UTF-8 encoding.
pub open spec fn is_printable_ascii_text(s: Seq<char>) -> bool {
    s.len() > 0 && forall|i: int| 0 <= i < s.len() ==> is_printable_char(#[trigger] s[i])
}

/// True for a non-empty string of printable, non-space ASCII.
pub fn is_printable_ascii(s: &str) -> (r: bool)
    ensures
        r == is_printable_ascii_text(s@),
{
    let cs = chars_of(s);
    if cs.len() == 0 {
        return false;
    }
    let n = cs.len();
    let mut i: usize = 0;
    while i < n
        invariant
            i <= n,
            n == cs@.len(),
            cs@ == s@,
            forall|k: int| 0 <= k < i ==> is_printable_char(#[trigger] cs@[k]),
        decreases n - i,
    {
        let u = cs[i] as u32;
        if !(0x21 <= u && u <= 0x7e) {
            assert(!is_printable_char(cs@[i as int]));
            return false;
        }
        i += 1;
    }
    true
}

/// `"{len} bytes exceeds the {max}-byte{what} ceiling"`.
pub open spec fn too_long_text(len: nat, max: nat, what: Seq<char>) -> Seq<char> {
    decimal(len) + " bytes exceeds the "@ + decimal(max) + "-byte"@ + what + " ceiling"@
}

fn too_long_message(len: usize, max: usize, what: &str) -> (s: String)
    ensures
        s@ == too_long_text(len as nat, max as nat, what@),
{
    let mut out: Vec<char> = Vec::new();
    push_decimal(&mut out, len as u64);
    push_str(&mut out, " bytes exceeds the ");
    push_decimal(&mut out, max as u64);
    push_str(&mut out, "-byte");
    push_str(&mut out, what);
    push_str(&mut out, " ceiling");
    string_of(&out)
}

/// The byte length `str::len` reports for a text: its UTF-8 length.
pub open spec fn text_len(t: Seq<char>) -> usize {
    encode_utf8(t).len() as usize
}

/// An opaque, writer-assigned link identity.
///
/// Stable across reloads, reconnects, IP changes, and interface renames.
#[derive(Debug, Hash)]
pub struct LinkId(String);

impl View for LinkId {
    type V = Seq<char>;

    closed spec fn view(&self) -> Seq<char> {
        self.0@
    }
}

impl Clone for LinkId {
    fn clone(&self) -> (r: Self)
        ensures
            r@ == self@,
    {
        LinkId(self.0.clone())
    }
}

/// What `LinkId::parse` makes of a text: the identity, or the reason.
pub open spec fn link_id_outcome(raw: Seq<char>) -> Result<Seq<char>, Seq<char>> {
    if text_len(raw) > LINK_ID_MAX_LEN {
        Err(too_long_text(text_len(raw) as nat, LINK_ID_MAX_LEN as nat, ""@))
    } else if !is_printable_ascii_text(raw) {
        Err("must be 1-64 printable ASCII bytes with no spaces"@)
    } else {
        Ok(raw)
    }
}

impl LinkId {
    /// Parse a writer-supplied identity, rejecting anything outside the domain.
    pub fn parse(raw: &str) -> (r: Result<LinkId, String>)
        ensures
            match r {
                Ok(id) => link_id_outcome(raw@) == Ok::<Seq<char>, Seq<char>>(id@),
                Err(e) => link_id_outcome(raw@) == Err::<Seq<char>, Seq<char>>(e@),
            },
    {
        let len = raw.len();
        if len > LINK_ID_MAX_LEN {
            return Err(too_long_message(len, LINK_ID_MAX_LEN, ""));
        }
        if !is_printable_ascii(raw) {
            return Err("must be 1-64 printable ASCII bytes with no spaces".to_owned());
        }
        Ok(LinkId(raw.to_owned()))
    }

    pub fn as_str(&self) -> (s: &str)
        ensures
            s@ == self@,
    {
        self.0.as_str()
    }
}

impl PartialEq for LinkId {
    fn eq(&self, other: &Self) -> (r: bool) {
        self.0 == other.0
    }
}

impl vstd::std_specs::cmp::PartialEqSpecImpl for LinkId {
    open spec fn obeys_eq_spec() -> bool {
        true
    }

    open spec fn eq_spec(&self, other: &Self) -> bool {
        self@ == other@
    }
}

impl Eq for LinkId {

}

/// A validated network-interface name.
#[derive(Debug, Hash)]
pub struct IfaceName(String);

impl View for IfaceName {
    type V = Seq<char>;

    closed spec fn view(&self) -> Seq<char> {
        self.0@
    }
}

impl Clone for IfaceName {
    fn clone(&self) -> (r: Self)
        ensures
            r@ == self@,
    {
        IfaceName(self.0.clone())
    }
}

/// What `IfaceName::parse` makes of a text.
pub open spec fn iface_name_outcome(raw: Seq<char>) -> Result<Seq<char>, Seq<char>> {
    if text_len(raw) > IFACE_MAX_LEN {
        Err(too_long_text(text_len(raw) as nat, IFACE_MAX_LEN as nat, " kernel"@))
    } else if !is_printable_ascii_text(raw) {
        Err("must be 1-15 printable ASCII bytes with no spaces"@)
    } else if raw.contains('/') || raw == "."@ || raw == ".."@ {
        Err("must not be a path component"@)
    } else {
        Ok(raw)
    }
}

fn contains_char(v: &[char], c: char) -> (r: bool)
    ensures
        r == v@.contains(c),
{
    let n = v.len();
    let mut i: usize = 0;
    while i < n
        invariant
            i <= n,
            n == v@.len(),
            forall|k: int| 0 <= k < i ==> v@[k] != c,
        decreases n - i,
    {
        if v[i] == c {
            return true;
        }
        i += 1;
    }
    false
}

impl IfaceName {
    /// Parse an interface name against the kernel's own naming rules.
    pub fn parse(raw: &str) -> (r: Result<IfaceName, String>)
        ensures
            match r {
                Ok(name) => iface_name_outcome(raw@) == Ok::<Seq<char>, Seq<char>>(name@),
                Err(e) => iface_name_outcome(raw@) == Err::<Seq<char>, Seq<char>>(e@),
            },
    {
        let len = raw.len();
        if len > IFACE_MAX_LEN {
            return Err(too_long_message(len, IFACE_MAX_LEN, " kernel"));
        }
        if !is_printable_ascii(raw) {
            return Err("must be 1-15 printable ASCII bytes with no spaces".to_owned());
        }
        let cs = chars_of(raw);
        if contains_char(&cs, '/') || chars_eq_str(&cs, ".") || chars_eq_str(&cs, "..") {
            return Err("must not be a path component".to_owned());
        }
        Ok(IfaceName(raw.to_owned()))
    }

    pub fn as_str(&self) -> (s: &str)
        ensures
            s@ == self@,
    {
        self.0.as_str()
    }
}

impl PartialEq for IfaceName {
    fn eq(&self, other: &Self) -> (r: bool) {
        self.0 == other.0
    }
}

impl vstd::std_specs::cmp::PartialEqSpecImpl for IfaceName {
    open spec fn obeys_eq_spec() -> bool {
        true
    }

    open spec fn eq_spec(&self, other: &Self) -> bool {
        self@ == other@
    }
}

impl Eq for IfaceName {

}

/// What `parse_id_path` makes of a text.
pub open spec fn id_path_outcome(raw: Seq<char>) -> Result<Seq<char>, Seq<char>> {
    if text_len(raw) > ID_PATH_MAX_LEN {
        Err(too_long_text(text_len(raw) as nat, ID_PATH_MAX_LEN as nat, ""@))
    } else if !(raw.len() > 0 && raw[0] == '/') {
        Err("must be an absolute path"@)
    } else {
        Ok(raw)
    }
}

/// Parse the optional `id_path` provenance field.
pub fn parse_id_path(raw: &str) -> (r: Result<String, String>)
    ensures
        match r {
            Ok(p) => id_path_outcome(raw@) == Ok::<Seq<char>, Seq<char>>(p@),
            Err(e) => id_path_outcome(raw@) == Err::<Seq<char>, Seq<char>>(e@),
        },
{
    let len = raw.len();
    if len > ID_PATH_MAX_LEN {
        return Err(too_long_message(len, ID_PATH_MAX_LEN, ""));
    }
    let cs = chars_of(raw);
    if !(cs.len() > 0 && cs[0] == '/') {
        return Err("must be an absolute path".to_owned());
    }
    Ok(raw.to_owned())
}

/// One validated sidecar row: an identity, its current socket key, and optional
/// writer provenance.
#[derive(Debug, Clone)]
pub struct BindMapRow {
    pub link_id: LinkId,
    pub ip: IpAddress,
    pub iface: IfaceName,
    /// Opaque writer provenance. Never opened, stat-ed, or resolved.
    pub id_path: Option<String>,
}

/// Abstract value of a row.
pub struct RowView {
    pub link_id: Seq<char>,
    pub ip: IpAddress,
    pub iface: Seq<char>,
    pub id_path: Option<Seq<char>>,
}

pub open spec fn opt_text(o: Option<String>) -> Option<Seq<char>> {
    match o {
        Some(s) => Some(s@),
        None => None,
    }
}

impl View for BindMapRow {
    type V = RowView;

    open spec fn view(&self) -> RowView {
        RowView {
            link_id: self.link_id@,
            ip: self.ip,
            iface: self.iface@,
            id_path: opt_text(self.id_path),
        }
    }
}

/// The abstract rows of a row vector.
pub open spec fn rows_view(rows: Seq<BindMapRow>) -> Seq<RowView> {
    rows.map_values(|r: BindMapRow| r@)
}

/// A coherent, fully validated mapping: the thing the sender may act on.
#[derive(Debug, Clone)]
pub struct MappedPool {
    pub generation: u64,
    pub ips_file_sha256: String,
    pub rows: Vec<BindMapRow>,
}

/// The lowercase hex digit for a nibble.
pub open spec fn hex_digit(n: nat) -> char {
    if n < 10 {
        (('0' as u32) + n) as char
    } else {
        (('a' as u32) + n - 10) as char
    }
}

/// Lowercase hex rendering of bytes, two digits each (`{:02x}`).
pub open spec fn hex_lower(d: Seq<u8>) -> Seq<char>
    decreases d.len(),
{
    if d.len() == 0 {
        seq![]
    } else {
        hex_lower(d.drop_last()) + seq![hex_digit((d.last() / 16) as nat), hex_digit((d.last() % 16) as nat)]
    }
}

/// The SHA-256 digest that the `sha2` crate computes for some bytes.
pub uninterp spec fn sha256(data: Seq<u8>) -> Seq<u8>;

/// SHA-256 of `bytes` via `sha2::Sha256::digest`; the 32-byte digest is named
/// `sha256`.
#[verifier::external_body]
fn sha256_digest(bytes: &[u8]) -> (d: Vec<u8>)
    ensures
        d@ == sha256(bytes@),
        d@.len() == 32,
{
    <sha2::Sha256 as sha2::Digest>::digest(bytes).to_vec()
}

fn hex_char(n: u8) -> (c: char)
    requires
        n < 16,
    ensures
        c == hex_digit(n as nat),
{
    if n < 10 {
        char_from_u32_digit(n as u32)
    } else {
        let c = match n {
            10 => 'a',
            11 => 'b',
            12 => 'c',
            13 => 'd',
            14 => 'e',
            _ => 'f',
        };
        c
    }
}

fn char_from_u32_digit(d: u32) -> (c: char)
    requires
        d < 10,
    ensures
        c == (('0' as u32) + d) as char,
{
    let c = match d {
        0 => '0',
        1 => '1',
        2 => '2',
        3 => '3',
        4 => '4',
        5 => '5',
        6 => '6',
        7 => '7',
        8 => '8',
        _ => '9',
    };
    c
}

/// Lowercase hex SHA-256 of `bytes`.
pub fn hex_digest(bytes: &[u8]) -> (s: String)
    ensures
        s@ == hex_lower(sha256(bytes@)),
{
    let d = sha256_digest(bytes);
    let mut out: Vec<char> = Vec::new();
    let n = d.len();
    let mut i: usize = 0;
    while i < n
        invariant
            i <= n,
            n == d@.len(),
            out@ == hex_lower(d@.take(i as int)),
        decreases n - i,
    {
        let b = d[i];
        out.push(hex_char(b / 16));
        out.push(hex_char(b % 16));
        proof {
            assert(d@.take(i + 1).drop_last() == d@.take(i as int));
        }
        i += 1;
    }
    assert(d@.take(n as int) == d@);
    string_of(&out)
}

/// The IPs the legacy rules accept from a list of lines: each line trimmed,
/// blank lines skipped, unparseable lines skipped, duplicates kept.
pub open spec fn accepted_from_lines(lines: Seq<Seq<char>>) -> Seq<IpAddress>
    decreases lines.len(),
{
    if lines.len() == 0 {
        seq![]
    } else {
        let rest = accepted_from_lines(lines.drop_last());
        let t = trim(lines.last());
        if t.len() > 0 && ip_parse(t) is Some {
            rest.push(ip_parse(t)->0)
        } else {
            rest
        }
    }
}

/// The IPs the legacy rules accept from the text of an IP list.
pub open spec fn accepted_ips(text: Seq<char>) -> Seq<IpAddress> {
    accepted_from_lines(split_on(text, '\n'))
}

/// What `std::str::from_utf8` reports for bytes that are not UTF-8.
pub uninterp spec fn utf8_error_text(bytes: Seq<u8>) -> Seq<char>;

/// Decodes UTF-8 with `std::str::from_utf8`, which succeeds exactly on valid
/// UTF-8 and then yields the decoded characters; its error text is named
/// `utf8_error_text`.
#[verifier::external_body]
fn decode_text(bytes: &[u8]) -> (r: Result<&str, String>)
    ensures
        r is Ok <==> valid_utf8(bytes@),
        r matches Ok(s) ==> s@ == decode_utf8(bytes@),
        r matches Err(e) ==> e@ == utf8_error_text(bytes@),
{
    std::str::from_utf8(bytes).map_err(|e| e.to_string())
}

/// The `BIND_IPS_FILE`, read once: its raw-byte digest and the IPs the legacy
/// rules accept from it.
#[derive(Debug, Clone)]
pub struct IpsFile {
    sha256: String,
    accepted: Vec<IpAddress>,
}

/// The detail of the rejection of an IP list that is not UTF-8.
pub open spec fn not_utf8_detail(bytes: Seq<u8>) -> Seq<char> {
    "not valid UTF-8: "@ + utf8_error_text(bytes)
}

impl IpsFile {
    pub closed spec fn digest_text(&self) -> Seq<char> {
        self.sha256@
    }

    pub closed spec fn accepted_ips(&self) -> Seq<IpAddress> {
        self.accepted@
    }

    /// Parse and hash one read of the IP list.
    ///
    /// Trim, skip blank lines, skip unparseable lines; duplicates are
    /// preserved, because position is what disambiguates them.
    pub fn from_bytes(bytes: &[u8]) -> (r: Result<IpsFile, BindMapError>)
        ensures
            r is Ok <==> valid_utf8(bytes@),
            r matches Ok(f) ==> f.digest_text() == hex_lower(sha256(bytes@)) && f.accepted_ips()
                == accepted_ips(decode_utf8(bytes@)),
            r matches Err(e) ==> e is Unreadable && e->Unreadable_path@ == "<ips file>"@
                && e->Unreadable_detail@ == not_utf8_detail(bytes@),
    {
        let text = match decode_text(bytes) {
            Ok(t) => t,
            Err(e) => {
                let mut detail: Vec<char> = Vec::new();
                push_str(&mut detail, "not valid UTF-8: ");
                let ec = chars_of(e.as_str());
                push_all(&mut detail, &ec);
                return Err(
                    BindMapError::Unreadable {
                        path: "<ips file>".to_owned(),
                        detail: string_of(&detail),
                    },
                );
            },
        };
        let cs = chars_of(text);
        let lines = split_chars(&cs, '\n');
        let ghost lv = split_on(cs@, '\n');
        let mut accepted: Vec<IpAddress> = Vec::new();
        let n = lines.len();
        let mut i: usize = 0;
        while i < n
            invariant
                i <= n,
                n == lv.len(),
                lines@.len() == lv.len(),
                forall|k: int| 0 <= k < lines@.len() ==> #[trigger] lines@[k]@ == lv[k],
                accepted@ == accepted_from_lines(lv.take(i as int)),
            decreases n - i,
        {
            let t = trim_chars(&lines[i]);
            proof {
                assert(lv.take(i + 1).drop_last() == lv.take(i as int));
                assert(lv.take(i + 1).last() == lv[i as int]);
            }
            if t.len() > 0 {
                let ts = string_of(&t);
                match parse_ip(ts.as_str()) {
                    Some(ip) => accepted.push(ip),
                    None => {},
                }
            }
            i += 1;
        }
        assert(lv.take(n as int) == lv);
        Ok(IpsFile { sha256: hex_digest(bytes), accepted })
    }

    /// Lowercase hex SHA-256 over the raw bytes that were read.
    pub fn sha256(&self) -> (s: &str)
        ensures
            s@ == self.digest_text(),
    {
        self.sha256.as_str()
    }

    /// The accepted IPs, in file order, duplicates preserved.
    pub fn accepted(&self) -> (a: &[IpAddress])
        ensures
            a@ == self.accepted_ips(),
    {
        self.accepted.as_slice()
    }
}

} // verus!
