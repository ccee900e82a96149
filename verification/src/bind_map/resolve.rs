//! Fail-open, duplicate-safe resolution.
//!
//! Fail-open means "keep streaming"; it does not mean "guess". Degradation
//! never blindly collapses an ambiguous same-IP group: startup keeps the first
//! occurrence of each IP and names every row that therefore does not run,
//! while a reload keeps running the last valid mapping.
use vstd::prelude::*;

use super::error::{reason_of, BindMapError};
use super::ip::IpAddress;
use super::status::{
    BindMapDisposition,
    BindMapStatus,
    CollisionGroup,
    CollisionView,
    DegradedReason,
};
use super::types::{BindMapRow, IfaceName, IpsFile, LinkId, MappedPool, RowView};
use super::validate::{rows_seq_view, PoolView};

verus! {

/// One uplink the sender should actually run.
///
/// `iface` and `link_id` are `None` whenever the sender had to fall back: a
/// degraded read never invents a binding.
#[derive(Debug, Clone)]
pub struct EffectiveLink {
    pub ip: IpAddress,
    pub iface: Option<IfaceName>,
    pub link_id: Option<LinkId>,
}

/// Abstract value of an effective link.
pub struct LinkView {
    pub ip: IpAddress,
    pub iface: Option<Seq<char>>,
    pub link_id: Option<Seq<char>>,
}

impl View for EffectiveLink {
    type V = LinkView;

    open spec fn view(&self) -> LinkView {
        LinkView {
            ip: self.ip,
            iface: match self.iface {
                Some(n) => Some(n@),
                None => None,
            },
            link_id: match self.link_id {
                Some(n) => Some(n@),
                None => None,
            },
        }
    }
}

/// Which side of the "have we ever applied a valid map?" line we are on.
pub enum ResolvePhase<'a> {
    /// No valid map has been applied yet.
    Startup,
    /// A valid map is already running.
    Reload { last_valid: &'a MappedPool },
}

/// The typed decision: what runs, under what status, and why.
#[derive(Debug, Clone)]
pub struct Resolution {
    pub status: BindMapStatus,
    pub disposition: BindMapDisposition,
    pub links: Vec<EffectiveLink>,
    pub excluded: Vec<CollisionGroup>,
    /// The pool the caller must remember. `Some` iff `status == Active`.
    pub applied: Option<MappedPool>,
}

pub open spec fn links_view(v: Seq<EffectiveLink>) -> Seq<LinkView> {
    Seq::new(v.len(), |i: int| v[i]@)
}

pub open spec fn groups_view(v: Seq<CollisionGroup>) -> Seq<CollisionView> {
    Seq::new(v.len(), |i: int| v[i]@)
}

/// An unbound link for every accepted IP, in order.
pub open spec fn unbound_links(ips: Seq<IpAddress>) -> Seq<LinkView> {
    Seq::new(ips.len(), |i: int| LinkView { ip: ips[i], iface: None, link_id: None })
}

/// A bound link for every row, in order.
pub open spec fn bound_links(rows: Seq<RowView>) -> Seq<LinkView> {
    Seq::new(
        rows.len(),
        |i: int| LinkView { ip: rows[i].ip, iface: Some(rows[i].iface), link_id: Some(rows[i].link_id) },
    )
}

/// The first occurrence of each IP, in file order.
pub open spec fn first_occurrences(s: Seq<IpAddress>) -> Seq<IpAddress>
    decreases s.len(),
{
    if s.len() == 0 {
        seq![]
    } else {
        let rest = first_occurrences(s.drop_last());
        if s.drop_last().contains(s.last()) {
            rest
        } else {
            rest.push(s.last())
        }
    }
}

/// Index of the first occurrence of `ip` at or after `from`.
pub open spec fn index_from(s: Seq<IpAddress>, ip: IpAddress, from: int) -> int
    decreases s.len() - from,
{
    if from < 0 || from >= s.len() {
        s.len() as int
    } else if s[from] == ip {
        from
    } else {
        index_from(s, ip, from + 1)
    }
}

/// Index of the group for `ip` among `g`, if there is one.
pub open spec fn group_of(g: Seq<CollisionView>, ip: IpAddress) -> Option<int>
    decreases g.len(),
{
    if g.len() == 0 {
        None
    } else if g.last().ip == ip {
        Some(g.len() - 1)
    } else {
        group_of(g.drop_last(), ip)
    }
}

/// The same-IP groups of an accepted list: one per repeated IP, ordered by
/// its first repetition, naming the first occurrence and every later one.
pub open spec fn collision_groups(s: Seq<IpAddress>) -> Seq<CollisionView>
    decreases s.len(),
{
    if s.len() == 0 {
        seq![]
    } else {
        let g = collision_groups(s.drop_last());
        let i = (s.len() - 1) as usize;
        let ip = s.last();
        if !s.drop_last().contains(ip) {
            g
        } else {
            match group_of(g, ip) {
                Some(k) => g.update(
                    k,
                    CollisionView {
                        ip: g[k].ip,
                        effective_index: g[k].effective_index,
                        excluded_indices: g[k].excluded_indices.push(i),
                    },
                ),
                None => g.push(
                    CollisionView {
                        ip,
                        effective_index: index_from(s, ip, 0) as usize,
                        excluded_indices: seq![i],
                    },
                ),
            }
        }
    }
}

/// `--bind-map` was not supplied: byte-identical legacy behavior. Every
/// accepted IP is handed on in file order, duplicates included.
pub fn resolve_absent(ips: &IpsFile) -> (r: Resolution)
    ensures
        r.status == BindMapStatus::Absent,
        r.disposition == BindMapDisposition::LegacyUniqueOnly,
        links_view(r.links@) == unbound_links(ips.accepted_ips()),
        r.excluded@.len() == 0,
        r.applied is None,
{
    let accepted = ips.accepted();
    let mut links: Vec<EffectiveLink> = Vec::new();
    let mut i: usize = 0;
    while i < accepted.len()
        invariant
            i <= accepted@.len(),
            accepted@ == ips.accepted_ips(),
            links@.len() == i,
            forall|k: int| 0 <= k < i ==> #[trigger] links@[k]@ == unbound_links(accepted@)[k],
        decreases accepted@.len() - i,
    {
        links.push(EffectiveLink { ip: accepted[i], iface: None, link_id: None });
        i += 1;
    }
    assert(links_view(links@) =~= unbound_links(accepted@));
    Resolution {
        status: BindMapStatus::Absent,
        disposition: BindMapDisposition::LegacyUniqueOnly,
        links,
        excluded: Vec::new(),
        applied: None,
    }
}

/// A bound link for every row of a pool.
fn bound_links_of(rows: &[BindMapRow]) -> (r: Vec<EffectiveLink>)
    ensures
        links_view(r@) == bound_links(rows_seq_view(rows@)),
{
    let ghost rv = rows_seq_view(rows@);
    let mut links: Vec<EffectiveLink> = Vec::new();
    let mut i: usize = 0;
    while i < rows.len()
        invariant
            i <= rows@.len(),
            rv == rows_seq_view(rows@),
            links@.len() == i,
            forall|k: int| 0 <= k < i ==> #[trigger] links@[k]@ == bound_links(rv)[k],
        decreases rows@.len() - i,
    {
        let row = &rows[i];
        links.push(
            EffectiveLink {
                ip: row.ip,
                iface: Some(row.iface.clone()),
                link_id: Some(row.link_id.clone()),
            },
        );
        i += 1;
    }
    assert(links_view(links@) =~= bound_links(rv));
    links
}

/// Index of the first occurrence of `ip` among the first `limit` entries.
fn first_index_below(s: &[IpAddress], limit: usize, ip: IpAddress) -> (r: Option<usize>)
    requires
        limit <= s@.len(),
    ensures
        match r {
            Some(j) => j < limit && s@[j as int] == ip && index_from(s@, ip, 0) == j,
            None => !s@.take(limit as int).contains(ip),
        },
{
    let mut j: usize = 0;
    while j < limit
        invariant
            j <= limit <= s@.len(),
            forall|k: int| 0 <= k < j ==> s@[k] != ip,
            index_from(s@, ip, 0) == index_from(s@, ip, j as int),
        decreases limit - j,
    {
        if s[j] == ip {
            return Some(j);
        }
        j += 1;
    }
    proof {
        if s@.take(limit as int).contains(ip) {
            let k = choose|k: int| 0 <= k < limit && s@.take(limit as int)[k] == ip;
            assert(s@[k] == ip);
        }
    }
    None
}

/// Position of the group for `ip`, searching from the back.
fn find_group(groups: &Vec<CollisionGroup>, ip: IpAddress) -> (r: Option<usize>)
    ensures
        r is Some <==> group_of(groups_view(groups@), ip) is Some,
        r matches Some(k) ==> group_of(groups_view(groups@), ip) == Some(k as int),
{
    let ghost gv = groups_view(groups@);
    let mut n = groups.len();
    assert(gv.take(n as int) == gv);
    while n > 0
        invariant
            n <= groups@.len(),
            gv == groups_view(groups@),
            group_of(gv, ip) == group_of(gv.take(n as int), ip),
        decreases n,
    {
        proof {
            assert(gv.take(n as int).drop_last() == gv.take(n - 1));
            assert(gv.take(n as int).last() == groups@[n - 1]@);
        }
        if groups[n - 1].ip == ip {
            return Some(n - 1);
        }
        n -= 1;
    }
    None
}

/// Keep one deterministic representative per IP (the first occurrence in file
/// order) and report every row that therefore does not run.
fn exclude_collisions(accepted: &[IpAddress]) -> (r: (Vec<EffectiveLink>, Vec<CollisionGroup>))
    ensures
        links_view(r.0@) == unbound_links(first_occurrences(accepted@)),
        groups_view(r.1@) == collision_groups(accepted@),
{
    let mut links: Vec<EffectiveLink> = Vec::new();
    let mut groups: Vec<CollisionGroup> = Vec::new();
    let mut index: usize = 0;
    while index < accepted.len()
        invariant
            index <= accepted@.len(),
            links_view(links@) == unbound_links(first_occurrences(accepted@.take(index as int))),
            groups_view(groups@) == collision_groups(accepted@.take(index as int)),
        decreases accepted@.len() - index,
    {
        let ip = accepted[index];
        let ghost prefix = accepted@.take(index + 1);
        proof {
            assert(prefix.drop_last() == accepted@.take(index as int));
            assert(prefix.last() == ip);
        }
        match first_index_below(accepted, index, ip) {
            None => {
                let ghost before = links@;
                links.push(EffectiveLink { ip, iface: None, link_id: None });
                proof {
                    let want = unbound_links(first_occurrences(prefix));
                    assert(first_occurrences(prefix) == first_occurrences(
                        accepted@.take(index as int),
                    ).push(ip));
                    assert(links_view(before).len() == before.len());
                    assert(want.len() == links@.len());
                    assert forall|k: int| 0 <= k < links@.len() implies #[trigger] links_view(
                        links@,
                    )[k] == want[k] by {
                        if k < before.len() {
                            assert(links@[k] == before[k]);
                            assert(links_view(before)[k] == unbound_links(
                                first_occurrences(accepted@.take(index as int)),
                            )[k]);
                        }
                    }
                    assert(links_view(links@) =~= want);
                    assert(!prefix.drop_last().contains(ip));
                    assert(collision_groups(prefix) == collision_groups(
                        accepted@.take(index as int),
                    ));
                }
            },
            Some(effective_index) => {
                proof {
                    assert(prefix.drop_last().contains(ip)) by {
                        assert(prefix.drop_last()[effective_index as int] == ip);
                    }
                    lemma_index_from_prefix(accepted@, prefix, ip, effective_index as int);
                }
                proof {
                    lemma_group_of_bound(groups_view(groups@), ip);
                }
                match find_group(&groups, ip) {
                    Some(k) => {
                        let ghost gv = groups_view(groups@);
                        let mut g = groups.remove(k);
                        g.excluded_indices.push(index);
                        groups.insert(k, g);
                        proof {
                            assert(groups_view(groups@) =~= gv.update(
                                k as int,
                                CollisionView {
                                    ip: gv[k as int].ip,
                                    effective_index: gv[k as int].effective_index,
                                    excluded_indices: gv[k as int].excluded_indices.push(index),
                                },
                            ));
                            let g0 = collision_groups(prefix.drop_last());
                            assert(g0 == gv);
                            assert(group_of(g0, ip) == Some(k as int));
                            assert(((prefix.len() - 1) as usize) == index);
                            assert(collision_groups(prefix) == g0.update(
                                k as int,
                                CollisionView {
                                    ip: g0[k as int].ip,
                                    effective_index: g0[k as int].effective_index,
                                    excluded_indices: g0[k as int].excluded_indices.push(index),
                                },
                            ));
                            assert(groups_view(groups@) == collision_groups(prefix));
                        }
                    },
                    None => {
                        let ghost gv = groups_view(groups@);
                        let mut excluded: Vec<usize> = Vec::new();
                        excluded.push(index);
                        groups.push(CollisionGroup { ip, effective_index, excluded_indices: excluded });
                        proof {
                            assert(groups_view(groups@) =~= gv.push(
                                CollisionView {
                                    ip,
                                    effective_index,
                                    excluded_indices: seq![index],
                                },
                            ));
                            assert(groups_view(groups@) == collision_groups(prefix));
                        }
                    },
                }
            },
        }
        index += 1;
    }
    proof {
        assert(accepted@.take(accepted@.len() as int) == accepted@);
    }
    (links, groups)
}

proof fn lemma_index_from_prefix(s: Seq<IpAddress>, p: Seq<IpAddress>, ip: IpAddress, j: int)
    requires
        p.len() <= s.len(),
        forall|k: int| 0 <= k < p.len() ==> p[k] == s[k],
        0 <= j < p.len(),
        index_from(s, ip, 0) == j,
    ensures
        index_from(p, ip, 0) == j,
{
    lemma_index_from_agree(s, p, ip, 0, j);
}

proof fn lemma_index_from_agree(s: Seq<IpAddress>, p: Seq<IpAddress>, ip: IpAddress, from: int, j: int)
    requires
        0 <= from <= j < p.len() <= s.len(),
        forall|k: int| 0 <= k < p.len() ==> p[k] == s[k],
        index_from(s, ip, from) == j,
    ensures
        index_from(p, ip, from) == j,
    decreases j - from,
{
    if s[from] != ip {
        assert(index_from(s, ip, from) == index_from(s, ip, from + 1));
        lemma_index_from_ge(s, ip, from + 1);
        lemma_index_from_agree(s, p, ip, from + 1, j);
    } else {
        assert(p[from] == ip);
    }
}

proof fn lemma_index_from_ge(s: Seq<IpAddress>, ip: IpAddress, from: int)
    requires
        0 <= from,
    ensures
        index_from(s, ip, from) >= from || index_from(s, ip, from) == s.len(),
    decreases s.len() - from,
{
    if from < s.len() && s[from] != ip {
        lemma_index_from_ge(s, ip, from + 1);
    }
}

proof fn lemma_group_of_bound(g: Seq<CollisionView>, ip: IpAddress)
    ensures
        group_of(g, ip) matches Some(k) ==> 0 <= k < g.len() && g[k].ip == ip,
    decreases g.len(),
{
    if g.len() > 0 && g.last().ip != ip {
        lemma_group_of_bound(g.drop_last(), ip);
    }
}

pub open spec fn pool_links(p: PoolView) -> Seq<LinkView> {
    bound_links(p.rows)
}

pub open spec fn pool_view_of(p: Option<MappedPool>) -> Option<PoolView> {
    match p {
        Some(x) => Some(x@),
        None => None,
    }
}

/// What a degraded read resolves to.
pub open spec fn degrade_holds(
    r: Resolution,
    reason: DegradedReason,
    accepted: Seq<IpAddress>,
    last_valid: Option<PoolView>,
) -> bool {
    &&& r.status == BindMapStatus::Degraded(reason)
    &&& r.applied is None
    &&& match last_valid {
        Some(p) => {
            &&& r.disposition == BindMapDisposition::RetainedLastValid
            &&& links_view(r.links@) == bound_links(p.rows)
            &&& r.excluded@.len() == 0
        },
        None => {
            &&& links_view(r.links@) == unbound_links(first_occurrences(accepted))
            &&& groups_view(r.excluded@) == collision_groups(accepted)
            &&& r.disposition == (if collision_groups(accepted).len() == 0 {
                BindMapDisposition::LegacyUniqueOnly
            } else {
                BindMapDisposition::StartupCollisionExcluded
            })
        },
    }
}

pub open spec fn phase_last_valid(phase: ResolvePhase) -> Option<PoolView> {
    match phase {
        ResolvePhase::Reload { last_valid } => Some(last_valid@),
        ResolvePhase::Startup => None,
    }
}

fn degrade(reason: DegradedReason, ips: &IpsFile, phase: ResolvePhase<'_>) -> (r: Resolution)
    ensures
        degrade_holds(r, reason, ips.accepted_ips(), phase_last_valid(phase)),
{
    match phase {
        ResolvePhase::Reload { last_valid } => {
            let links = bound_links_of(&last_valid.rows);
            proof {
                assert(last_valid@.rows == rows_seq_view(last_valid.rows@));
            }
            Resolution {
                status: BindMapStatus::Degraded(reason),
                disposition: BindMapDisposition::RetainedLastValid,
                links,
                excluded: Vec::new(),
                applied: None,
            }
        },
        ResolvePhase::Startup => {
            let (links, excluded) = exclude_collisions(ips.accepted());
            let disposition = if excluded.len() == 0 {
                BindMapDisposition::LegacyUniqueOnly
            } else {
                BindMapDisposition::StartupCollisionExcluded
            };
            Resolution {
                status: BindMapStatus::Degraded(reason),
                disposition,
                links,
                excluded,
                applied: None,
            }
        },
    }
}

/// Turn a read outcome into the sender's operating decision.
pub fn resolve(outcome: Result<MappedPool, BindMapError>, ips: &IpsFile, phase: ResolvePhase<'_>) -> (r:
    Resolution)
    ensures
        match outcome {
            Ok(pool) => {
                &&& r.status == BindMapStatus::Active
                &&& r.disposition == BindMapDisposition::Mapped
                &&& links_view(r.links@) == bound_links(pool@.rows)
                &&& r.excluded@.len() == 0
                &&& pool_view_of(r.applied) == Some(pool@)
            },
            Err(e) => degrade_holds(r, reason_of(e), ips.accepted_ips(), phase_last_valid(phase)),
        },
        r.applied is Some <==> r.status == BindMapStatus::Active,
{
    match outcome {
        Ok(pool) => {
            let links = bound_links_of(&pool.rows);
            proof {
                assert(pool@.rows == rows_seq_view(pool.rows@));
            }
            Resolution {
                status: BindMapStatus::Active,
                disposition: BindMapDisposition::Mapped,
                links,
                excluded: Vec::new(),
                applied: Some(pool),
            }
        },
        Err(err) => degrade(err.reason(), ips, phase),
    }
}

/// A degraded startup fails open duplicate-safe: the links it keeps carry
/// every accepted IP, each exactly once.
pub proof fn lemma_first_occurrences_duplicate_safe(s: Seq<IpAddress>)
    ensures
        first_occurrences(s).no_duplicates(),
        forall|x: IpAddress| #[trigger] first_occurrences(s).contains(x) <==> s.contains(x),
    decreases s.len(),
{
    if s.len() > 0 {
        let d = s.drop_last();
        lemma_first_occurrences_duplicate_safe(d);
        let rest = first_occurrences(d);
        assert forall|x: IpAddress| #[trigger] s.contains(x) <==> (d.contains(x) || x == s.last()) by {
            if s.contains(x) {
                let j = choose|j: int| 0 <= j < s.len() && s[j] == x;
                if j < s.len() - 1 {
                    assert(d[j] == x);
                }
            }
            if d.contains(x) {
                let j = choose|j: int| 0 <= j < d.len() && d[j] == x;
                assert(s[j] == x);
            }
            if x == s.last() {
                assert(s[s.len() - 1] == x);
            }
        }
        if !d.contains(s.last()) {
            let p = rest.push(s.last());
            assert forall|x: IpAddress| #[trigger] p.contains(x) <==> (rest.contains(x) || x == s.last()) by {
                if p.contains(x) {
                    let j = choose|j: int| 0 <= j < p.len() && p[j] == x;
                    if j < rest.len() {
                        assert(rest[j] == x);
                    }
                }
                if rest.contains(x) {
                    let j = choose|j: int| 0 <= j < rest.len() && rest[j] == x;
                    assert(p[j] == x);
                }
                if x == s.last() {
                    assert(p[rest.len() as int] == x);
                }
            }
            assert forall|i: int, j: int| 0 <= i < p.len() && 0 <= j < p.len() && i != j implies p[i] != p[j] by {
                if i < rest.len() && j < rest.len() {
                } else if i == rest.len() {
                    assert(p[j] == rest[j]);
                    assert(rest.contains(rest[j]));
                } else {
                    assert(p[i] == rest[i]);
                    assert(rest.contains(rest[i]));
                }
            }
        }
    }
}

} // verus!
