//! Read-only per-interface default-route observation.
//!
//! A device-bound socket does not fail when its interface loses its default
//! route: `sendto` keeps succeeding while the kernel drops the packets. The
//! route invariant is therefore an explicit health signal, read from the
//! kernel's IPv4 route table (whose text this module parses; reading it is
//! the caller's business).
use vstd::prelude::*;

use crate::text::{chars_eq, chars_of, split_chars, split_on, words, words_of};

verus! {

/// Whether the interface backing a link still has a default route.
#[derive(Debug, Clone, Copy, PartialEq, Eq, Structural)]
pub enum RouteHealth {
    /// Not observed: no interface is bound, or no route table is readable.
    Unknown,
    /// The interface has a default route.
    DefaultRoutePresent,
    /// The interface has no default route: traffic pinned to it is silently
    /// dropped rather than rejected.
    NoDefaultRoute,
}

impl Default for RouteHealth {
    fn default() -> (r: Self)
        ensures
            r == RouteHealth::Unknown,
    {
        RouteHealth::Unknown
    }
}

/// The route latch after an observation: a missing default route sets it,
/// a present one clears it, and an unknown observation keeps it as it was.
pub open spec fn route_latched_after(latched: bool, h: RouteHealth) -> bool {
    match h {
        RouteHealth::NoDefaultRoute => true,
        RouteHealth::DefaultRoutePresent => false,
        RouteHealth::Unknown => latched,
    }
}

/// Update the route latch with the observation `h`.
pub fn latch_route(latched: bool, h: RouteHealth) -> (r: bool)
    ensures
        r == route_latched_after(latched, h),
{
    match h {
        RouteHealth::NoDefaultRoute => true,
        RouteHealth::DefaultRoutePresent => false,
        RouteHealth::Unknown => latched,
    }
}

pub open spec fn route_token(h: RouteHealth) -> Seq<char> {
    match h {
        RouteHealth::Unknown => "unknown"@,
        RouteHealth::DefaultRoutePresent => "default_route_present"@,
        RouteHealth::NoDefaultRoute => "no_default_route"@,
    }
}

impl RouteHealth {
    /// The operator-facing token for this state.
    pub fn as_str(self) -> (s: &'static str)
        ensures
            s@ == route_token(self),
    {
        match self {
            RouteHealth::Unknown => "unknown",
            RouteHealth::DefaultRoutePresent => "default_route_present",
            RouteHealth::NoDefaultRoute => "no_default_route",
        }
    }
}

/// What an operator must be told when the route invariant moves.
#[derive(Debug, Clone, Copy, PartialEq, Eq, Structural)]
pub enum RouteTransition {
    /// The interface just lost its default route.
    Blackholed,
    /// The interface just regained it.
    Restored,
    /// Nothing worth an unsolicited line.
    Quiet,
}

pub open spec fn route_transition(before: RouteHealth, after: RouteHealth) -> RouteTransition {
    if before == RouteHealth::DefaultRoutePresent && after == RouteHealth::NoDefaultRoute {
        RouteTransition::Blackholed
    } else if before == RouteHealth::NoDefaultRoute && after == RouteHealth::DefaultRoutePresent {
        RouteTransition::Restored
    } else {
        RouteTransition::Quiet
    }
}

/// Classify a change of the route invariant. `Unknown` on either side is
/// quiet: an unreadable table is evidence of nothing.
pub fn classify_route_transition(before: RouteHealth, after: RouteHealth) -> (t: RouteTransition)
    ensures
        t == route_transition(before, after),
{
    match (before, after) {
        (RouteHealth::DefaultRoutePresent, RouteHealth::NoDefaultRoute) => {
            RouteTransition::Blackholed
        },
        (RouteHealth::NoDefaultRoute, RouteHealth::DefaultRoutePresent) => {
            RouteTransition::Restored
        },
        _ => RouteTransition::Quiet,
    }
}

/// An unchanged invariant is never announced, and neither is a crossing into
/// or out of `Unknown`.
pub proof fn lemma_quiet_transitions(h: RouteHealth)
    ensures
        route_transition(h, h) == RouteTransition::Quiet,
        route_transition(RouteHealth::Unknown, h) == RouteTransition::Quiet,
        route_transition(h, RouteHealth::Unknown) == RouteTransition::Quiet,
{
}

/// A field of zeros only (`00000000`): the all-zero address or mask.
pub open spec fn all_zero(s: Seq<char>) -> bool {
    forall|i: int| 0 <= i < s.len() ==> s[i] == '0'
}

/// The interface a route-table row gives a default route, if it does: a row
/// whose destination (second field) and mask (eighth field) are both zero.
/// A row too short to have a mask is no default route.
pub open spec fn default_route_iface(line: Seq<char>) -> Option<Seq<char>> {
    let f = words(line);
    if f.len() >= 8 && all_zero(f[1]) && all_zero(f[7]) {
        Some(f[0])
    } else {
        None
    }
}

/// The interfaces that hold a default route in `table`, whose first line is
/// the column header.
pub open spec fn default_route_set(table: Seq<char>) -> Set<Seq<char>> {
    let lines = split_on(table, '\n');
    Set::new(
        |n: Seq<char>|
            exists|i: int| 1 <= i < lines.len() && #[trigger] default_route_iface(lines[i]) == Some(n),
    )
}

/// A set of interface names.
#[derive(Debug, Clone)]
pub struct RouteIfaces {
    names: Vec<Vec<char>>,
}

impl RouteIfaces {
    pub closed spec fn names_view(&self) -> Seq<Seq<char>> {
        Seq::new(self.names@.len(), |i: int| self.names@[i]@)
    }

    /// No name is held twice.
    pub closed spec fn wf(&self) -> bool {
        forall|i: int, j: int|
            0 <= i < j < self.names@.len() ==> self.names@[i]@ != self.names@[j]@
    }
}

impl View for RouteIfaces {
    type V = Set<Seq<char>>;

    closed spec fn view(&self) -> Set<Seq<char>> {
        self.names_view().to_set()
    }
}

impl RouteIfaces {
    fn position(&self, name: &[char]) -> (r: Option<usize>)
        ensures
            r matches Some(i) ==> i < self.names@.len() && self.names@[i as int]@ == name@,
            r is None ==> forall|i: int| 0 <= i < self.names@.len() ==> self.names@[i]@ != name@,
    {
        let mut i: usize = 0;
        while i < self.names.len()
            invariant
                i <= self.names@.len(),
                forall|k: int| 0 <= k < i ==> self.names@[k]@ != name@,
            decreases self.names@.len() - i,
        {
            if chars_eq(&self.names[i], name) {
                return Some(i);
            }
            i += 1;
        }
        None
    }

    proof fn lemma_view_contains(&self, name: Seq<char>)
        ensures
            self@.contains(name) <==> exists|i: int|
                0 <= i < self.names@.len() && #[trigger] self.names@[i]@ == name,
    {
        if self@.contains(name) {
            let i = self.names_view().index_of(name);
            assert(self.names@[i]@ == name);
        }
        if exists|i: int| 0 <= i < self.names@.len() && #[trigger] self.names@[i]@ == name {
            let i = choose|i: int| 0 <= i < self.names@.len() && #[trigger] self.names@[i]@ == name;
            assert(self.names_view()[i] == name);
        }
    }

    /// Whether `iface` is in the set.
    pub fn contains(&self, iface: &str) -> (b: bool)
        ensures
            b == self@.contains(iface@),
    {
        let name = chars_of(iface);
        proof {
            self.lemma_view_contains(iface@);
        }
        self.position(&name).is_some()
    }

    /// How many names the set holds.
    pub fn len(&self) -> (n: usize)
        requires
            self.wf(),
        ensures
            n == self@.len(),
    {
        proof {
            self.names_view().unique_seq_to_set();
        }
        self.names.len()
    }

    /// Whether the set is empty.
    pub fn is_empty(&self) -> (b: bool)
        ensures
            b == (self@ == Set::<Seq<char>>::empty()),
    {
        proof {
            if self.names@.len() > 0 {
                self.lemma_view_contains(self.names@[0]@);
                assert(self@.contains(self.names@[0]@));
            } else {
                assert(self@ =~= Set::<Seq<char>>::empty());
            }
        }
        self.names.len() == 0
    }
}

fn all_zero_chars(s: &[char]) -> (b: bool)
    ensures
        b == all_zero(s@),
{
    let mut i: usize = 0;
    while i < s.len()
        invariant
            i <= s@.len(),
            forall|k: int| 0 <= k < i ==> s@[k] == '0',
        decreases s@.len() - i,
    {
        if s[i] != '0' {
            return false;
        }
        i += 1;
    }
    true
}

fn row_default_iface(line: &[char]) -> (r: Option<Vec<char>>)
    ensures
        r matches Some(n) ==> default_route_iface(line@) == Some(n@),
        r is None ==> default_route_iface(line@) is None,
{
    let f = words_of(line);
    if f.len() >= 8 && all_zero_chars(&f[1]) && all_zero_chars(&f[7]) {
        let mut name: Vec<char> = Vec::new();
        let first = &f[0];
        let mut i: usize = 0;
        while i < first.len()
            invariant
                i <= first@.len(),
                name@ == first@.take(i as int),
            decreases first@.len() - i,
        {
            name.push(first[i]);
            i += 1;
            proof {
                assert(first@.take(i as int) == first@.take(i - 1).push(first@[i - 1]));
            }
        }
        proof {
            assert(first@.take(first@.len() as int) == first@);
        }
        Some(name)
    } else {
        None
    }
}

/// Interface names that hold an IPv4 default route in a `/proc/net/route`
/// table. The header line is skipped; columns after the mask are ignored.
pub fn parse_default_route_ifaces(table: &str) -> (r: RouteIfaces)
    ensures
        r.wf(),
        r@ == default_route_set(table@),
{
    let chars = chars_of(table);
    let lines = split_chars(&chars, '\n');
    let ghost ls = split_on(table@, '\n');
    let mut out = RouteIfaces { names: Vec::new() };
    let mut i: usize = 1;
    while i < lines.len()
        invariant
            1 <= i <= lines@.len() || lines@.len() == 0,
            lines@.len() == ls.len(),
            ls == split_on(table@, '\n'),
            forall|k: int| 0 <= k < lines@.len() ==> #[trigger] lines@[k]@ == ls[k],
            out.wf(),
            forall|n: Seq<char>|
                #![trigger out@.contains(n)]
                out@.contains(n) <==> exists|k: int|
                    1 <= k < i && #[trigger] default_route_iface(ls[k]) == Some(n),
        decreases lines@.len() - i,
    {
        let row = row_default_iface(&lines[i]);
        if let Some(name) = row {
            match out.position(&name) {
                Some(j) => {
                    proof {
                        out.lemma_view_contains(name@);
                        assert(out.names@[j as int]@ == name@);
                        assert(out@.contains(name@));
                    }
                },
                None => {
                    let ghost old_out = out;
                    out.names.push(name);
                    proof {
                        assert forall|n: Seq<char>| #![trigger out@.contains(n)]
                            out@.contains(n) <==> (old_out@.contains(n)
                                || default_route_iface(ls[i as int]) == Some(n)) by {
                            out.lemma_view_contains(n);
                            old_out.lemma_view_contains(n);
                            if out@.contains(n) {
                                let j = choose|j: int|
                                    0 <= j < out.names@.len() && #[trigger] out.names@[j]@ == n;
                                if j < old_out.names@.len() {
                                    assert(old_out.names@[j]@ == n);
                                }
                            }
                            if old_out@.contains(n) {
                                let j = choose|j: int|
                                    0 <= j < old_out.names@.len()
                                        && #[trigger] old_out.names@[j]@ == n;
                                assert(out.names@[j]@ == n);
                            }
                            if default_route_iface(ls[i as int]) == Some(n) {
                                assert(out.names@[old_out.names@.len() as int]@ == n);
                            }
                        }
                    }
                },
            }
        }
        proof {
            assert forall|n: Seq<char>| #![trigger out@.contains(n)]
                out@.contains(n) <==> exists|k: int|
                    1 <= k < i + 1 && #[trigger] default_route_iface(ls[k]) == Some(n) by {
                if out@.contains(n) && !(exists|k: int|
                    1 <= k < i && #[trigger] default_route_iface(ls[k]) == Some(n)) {
                    assert(default_route_iface(ls[i as int]) == Some(n));
                }
            }
        }
        i += 1;
    }
    proof {
        assert(out@ =~= default_route_set(table@)) by {
            assert forall|n: Seq<char>| out@.contains(n) == default_route_set(table@).contains(n) by {
                if lines@.len() == 0 {
                    assert(!out@.contains(n));
                }
            }
        }
    }
    out
}

} // verus!
