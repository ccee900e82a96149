//! What an uplink is, separated from what its socket currently is.
//!
//! `link_id` is the identity: writer-assigned, opaque, stable across reloads,
//! reconnects and interface changes. The socket key `(ip, iface)` is the
//! current socket and may change under a stable identity, in which case the
//! socket is recreated. An unmapped link has neither, so its key degenerates
//! to the source IP.
use vstd::prelude::*;

use super::egress::iface_view;
use crate::bind_map::ip::{ip_text, ip_to_string, IpAddress};
use crate::bind_map::types::{IfaceName, LinkId};
use crate::text::{decimal, push_decimal, push_str, string_of};

verus! {

/// The identity of the socket an uplink currently owns: the dedup key.
#[derive(Debug, Clone, PartialEq, Eq, Hash)]
pub struct SocketKey {
    pub ip: IpAddress,
    pub iface: Option<IfaceName>,
}

/// Everything needed to create one uplink socket, plus the identity that
/// outlives it.
#[derive(Debug, Clone, PartialEq, Eq)]
pub struct UplinkSpec {
    pub ip: IpAddress,
    pub iface: Option<IfaceName>,
    pub link_id: Option<LinkId>,
}

/// How an uplink names its own egress in a failure line.
pub open spec fn origin_text(ip: IpAddress, iface: Option<Seq<char>>) -> Seq<char> {
    match iface {
        None => ip_text(ip),
        Some(i) => ip_text(ip) + " on "@ + i,
    }
}

/// The operator-facing label of an uplink. The unmapped form is the
/// historical `host:port via ip` that shipped log lines carry.
pub open spec fn label_text(
    ip: IpAddress,
    iface: Option<Seq<char>>,
    link_id: Option<Seq<char>>,
    host: Seq<char>,
    port: u16,
) -> Seq<char> {
    let base = host + ":"@ + decimal(port as nat) + " via "@ + ip_text(ip);
    match (iface, link_id) {
        (None, _) => base,
        (Some(i), None) => base + " on "@ + i,
        (Some(i), Some(l)) => base + " on "@ + i + " ["@ + l + "]"@,
    }
}

pub open spec fn link_view(l: Option<LinkId>) -> Option<Seq<char>> {
    match l {
        Some(x) => Some(x@),
        None => None,
    }
}

fn push_ip(out: &mut Vec<char>, ip: IpAddress)
    ensures
        final(out)@ == old(out)@ + ip_text(ip),
{
    let s = ip_to_string(ip);
    push_str(out, s.as_str());
}

impl UplinkSpec {
    /// A link with no bind-map row: legacy source-IP binding, no identity.
    pub fn unmapped(ip: IpAddress) -> (s: Self)
        ensures
            s.ip == ip,
            s.iface is None,
            s.link_id is None,
    {
        UplinkSpec { ip, iface: None, link_id: None }
    }

    pub fn socket_key(&self) -> (k: SocketKey)
        ensures
            k.ip == self.ip,
            iface_view(k.iface) == iface_view(self.iface),
    {
        let iface = match &self.iface {
            Some(i) => Some(i.clone()),
            None => None,
        };
        SocketKey { ip: self.ip, iface }
    }

    /// How this uplink names its own egress in a failure line: the bare IP
    /// for an unmapped link.
    pub fn origin(&self) -> (s: String)
        ensures
            s@ == origin_text(self.ip, iface_view(self.iface)),
    {
        let mut out: Vec<char> = Vec::new();
        push_ip(&mut out, self.ip);
        if let Some(i) = &self.iface {
            push_str(&mut out, " on ");
            push_str(&mut out, i.as_str());
        }
        string_of(&out)
    }

    /// The operator-facing label for this uplink.
    pub fn label(&self, host: &str, port: u16) -> (s: String)
        ensures
            s@ == label_text(self.ip, iface_view(self.iface), link_view(self.link_id), host@, port),
    {
        let mut out: Vec<char> = Vec::new();
        push_str(&mut out, host);
        push_str(&mut out, ":");
        push_decimal(&mut out, port as u64);
        push_str(&mut out, " via ");
        push_ip(&mut out, self.ip);
        if let Some(i) = &self.iface {
            push_str(&mut out, " on ");
            push_str(&mut out, i.as_str());
            if let Some(l) = &self.link_id {
                push_str(&mut out, " [");
                push_str(&mut out, l.as_str());
                push_str(&mut out, "]");
            }
        }
        string_of(&out)
    }
}

} // verus!
