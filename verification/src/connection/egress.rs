//! Per-interface egress lifecycle: ifindex staleness, removal and rebinding.
//!
//! `SO_BINDTODEVICE` resolves an interface name to an ifindex once, when the
//! socket is bound. After an unplug/replug the socket still holds the old
//! ifindex and every send fails with `ENODEV` (device gone) or `ENETUNREACH`
//! (device down); neither heals, so the socket must be recreated and the name
//! re-resolved. The decisions are pure state transitions over what the
//! resolver answered, proved here for every answer.
//!
//! An unmapped link (no bind-map row) has no interface: every method is then
//! a no-op that reports `Ok(None)` / `Unchanged`.
use vstd::prelude::*;

use crate::bind_map::types::IfaceName;

verus! {

/// Resolves an interface name to its current kernel ifindex. Implemented by
/// the host (`if_nametoindex`) and, in tests, by scripted resolvers.
pub trait IfaceResolver {
    /// `r` is an answer this resolver may give about the interface named
    /// `iface`. A relation, not a function: the host's answer may change
    /// between two calls. An implementation that says nothing of its
    /// answers allows every answer.
    open spec fn may_answer(&self, iface: Seq<char>, r: Option<u32>) -> bool {
        true
    }

    /// The interface's current ifindex, or `None` if no such interface exists.
    fn ifindex(&self, iface: &str) -> (r: Option<u32>)
        ensures
            self.may_answer(iface@, r),
    ;
}

/// A send failure that means the socket's egress binding is unusable.
#[derive(Debug, Clone, Copy, PartialEq, Eq, Structural)]
pub enum EgressFault {
    /// `ENODEV`: the bound interface no longer exists.
    InterfaceGone,
    /// `ENETUNREACH`: the bound interface exists but has no usable route.
    NetworkUnreachable,
}

pub open spec fn fault_token(f: EgressFault) -> Seq<char> {
    match f {
        EgressFault::InterfaceGone => "interface_gone"@,
        EgressFault::NetworkUnreachable => "network_unreachable"@,
    }
}

impl EgressFault {
    /// The operator-facing token for this fault.
    pub fn as_str(self) -> (s: &'static str)
        ensures
            s@ == fault_token(self),
    {
        match self {
            EgressFault::InterfaceGone => "interface_gone",
            EgressFault::NetworkUnreachable => "network_unreachable",
        }
    }
}

/// The egress fault a send error carries, by its OS error number: the
/// platform's "no such device" means the bound interface is gone, its
/// "network unreachable" that the interface has no usable route, and any
/// other error (or none) is an ordinary send error.
pub open spec fn errno_fault(errno: Option<i32>, enodev: i32, enetunreach: i32) -> Option<EgressFault> {
    match errno {
        Some(e) => if e == enodev {
            Some(EgressFault::InterfaceGone)
        } else if e == enetunreach {
            Some(EgressFault::NetworkUnreachable)
        } else {
            None
        },
        None => None,
    }
}

/// Classify a send error by its raw OS error number, given the platform's
/// `ENODEV` and `ENETUNREACH` values.
pub fn classify_errno(errno: Option<i32>, enodev: i32, enetunreach: i32) -> (r: Option<EgressFault>)
    ensures
        r == errno_fault(errno, enodev, enetunreach),
{
    match errno {
        Some(e) => if e == enodev {
            Some(EgressFault::InterfaceGone)
        } else if e == enetunreach {
            Some(EgressFault::NetworkUnreachable)
        } else {
            None
        },
        None => None,
    }
}

/// Whether this link currently has a usable egress interface.
#[derive(Debug, Clone, Copy, PartialEq, Eq, Structural)]
pub enum LinkState {
    /// The interface resolves (or the link is unmapped and needs none).
    Active,
    /// The named interface is gone; no socket is bound until a reload.
    Removed,
}

/// What a periodic re-resolution found.
#[derive(Debug, Clone, Copy, PartialEq, Eq, Structural)]
pub enum EgressPoll {
    /// Same ifindex as the bound socket was created with.
    Unchanged,
    /// The interface re-enumerated under the same name: the socket holds a
    /// stale ifindex and must be recreated.
    Reenumerated { from: u32, to: u32 },
    /// The interface disappeared.
    Removed,
}

/// The egress-binding half of an uplink's lifecycle.
#[derive(Debug, Clone)]
pub struct EgressLifecycle {
    iface: Option<IfaceName>,
    state: LinkState,
    bound_ifindex: Option<u32>,
    rebind_requested: bool,
}

/// Abstract value of an egress lifecycle.
pub struct EgressView {
    pub iface: Option<Seq<char>>,
    pub state: LinkState,
    /// The ifindex the current socket was bound against.
    pub bound_ifindex: Option<u32>,
    /// Something invalidated the current socket: recreate, never reuse.
    pub rebind_requested: bool,
}

pub open spec fn iface_view(i: Option<IfaceName>) -> Option<Seq<char>> {
    match i {
        Some(n) => Some(n@),
        None => None,
    }
}

impl View for EgressLifecycle {
    type V = EgressView;

    closed spec fn view(&self) -> EgressView {
        EgressView {
            iface: iface_view(self.iface),
            state: self.state,
            bound_ifindex: self.bound_ifindex,
            rebind_requested: self.rebind_requested,
        }
    }
}

/// The lifecycle of a link with no bind-map row.
pub open spec fn unmapped_view() -> EgressView {
    EgressView { iface: None, state: LinkState::Active, bound_ifindex: None, rebind_requested: false }
}

/// The lifecycle after resolving its interface for a new socket, given what
/// the resolver answered, and the outcome reported.
pub open spec fn bind_resolution(e: EgressView, answer: Option<u32>) -> (
    EgressView,
    Result<Option<u32>, EgressFault>,
) {
    match e.iface {
        None => (EgressView { state: LinkState::Active, rebind_requested: false, ..e }, Ok(None)),
        Some(_) => match answer {
            Some(index) => (
                EgressView {
                    state: LinkState::Active,
                    bound_ifindex: Some(index),
                    rebind_requested: false,
                    ..e
                },
                Ok(Some(index)),
            ),
            None => (
                EgressView {
                    state: LinkState::Removed,
                    bound_ifindex: None,
                    rebind_requested: false,
                    ..e
                },
                Err(EgressFault::InterfaceGone),
            ),
        },
    }
}

/// The lifecycle after a periodic re-resolution that found `answer`.
pub open spec fn poll_resolution(e: EgressView, answer: Option<u32>) -> (EgressView, EgressPoll) {
    match e.iface {
        None => (e, EgressPoll::Unchanged),
        Some(_) => match answer {
            Some(index) => match e.bound_ifindex {
                Some(bound) => if bound != index {
                    (
                        EgressView { state: LinkState::Active, rebind_requested: true, ..e },
                        EgressPoll::Reenumerated { from: bound, to: index },
                    )
                } else {
                    (EgressView { state: LinkState::Active, ..e }, EgressPoll::Unchanged)
                },
                None => (EgressView { state: LinkState::Active, ..e }, EgressPoll::Unchanged),
            },
            None => (
                EgressView {
                    state: LinkState::Removed,
                    bound_ifindex: None,
                    rebind_requested: false,
                    ..e
                },
                EgressPoll::Removed,
            ),
        },
    }
}

/// The lifecycle after a send failed with the classified `fault`, and the
/// fault reported back. An unmapped link ignores every fault.
pub open spec fn send_error_outcome(e: EgressView, fault: Option<EgressFault>) -> (
    EgressView,
    Option<EgressFault>,
) {
    match (e.iface, fault) {
        (Some(_), Some(EgressFault::InterfaceGone)) => (
            EgressView {
                state: LinkState::Removed,
                bound_ifindex: None,
                rebind_requested: false,
                ..e
            },
            Some(EgressFault::InterfaceGone),
        ),
        (Some(_), Some(EgressFault::NetworkUnreachable)) => (
            EgressView { rebind_requested: true, ..e },
            Some(EgressFault::NetworkUnreachable),
        ),
        _ => (e, None),
    }
}

/// The lifecycle after a reload names `iface` for this link, and whether the
/// binding changed. A reload always leaves `Removed`.
pub open spec fn adopt_outcome(e: EgressView, iface: Option<Seq<char>>) -> (EgressView, bool) {
    if e.iface != iface {
        (
            EgressView {
                iface,
                state: LinkState::Active,
                bound_ifindex: None,
                rebind_requested: false,
            },
            true,
        )
    } else {
        (EgressView { state: LinkState::Active, ..e }, false)
    }
}

impl Default for EgressLifecycle {
    fn default() -> (e: Self)
        ensures
            e@ == unmapped_view(),
    {
        Self::unmapped()
    }
}

impl EgressLifecycle {
    /// A link with no bind-map row: legacy source-IP binding only.
    pub fn unmapped() -> (e: Self)
        ensures
            e@ == unmapped_view(),
    {
        EgressLifecycle {
            iface: None,
            state: LinkState::Active,
            bound_ifindex: None,
            rebind_requested: false,
        }
    }

    /// A link pinned to `iface`.
    pub fn for_iface(iface: IfaceName) -> (e: Self)
        ensures
            e@ == (EgressView { iface: Some(iface@), ..unmapped_view() }),
    {
        EgressLifecycle {
            iface: Some(iface),
            state: LinkState::Active,
            bound_ifindex: None,
            rebind_requested: false,
        }
    }

    pub fn iface(&self) -> (r: Option<&IfaceName>)
        ensures
            match r {
                Some(n) => self@.iface == Some(n@),
                None => self@.iface is None,
            },
    {
        match &self.iface {
            Some(n) => Some(n),
            None => None,
        }
    }

    pub fn state(&self) -> (s: LinkState)
        ensures
            s == self@.state,
    {
        self.state
    }

    /// True once something invalidated the current socket.
    pub fn needs_rebind(&self) -> (b: bool)
        ensures
            b == self@.rebind_requested,
    {
        self.rebind_requested
    }

    /// Record what re-resolving the interface for a new socket answered.
    pub fn apply_bind_answer(&mut self, answer: Option<u32>) -> (r: Result<Option<u32>, EgressFault>)
        ensures
            (final(self)@, r) == bind_resolution(old(self)@, answer),
    {
        if self.iface.is_none() {
            self.state = LinkState::Active;
            self.rebind_requested = false;
            return Ok(None);
        }
        match answer {
            Some(index) => {
                self.state = LinkState::Active;
                self.bound_ifindex = Some(index);
                self.rebind_requested = false;
                Ok(Some(index))
            },
            None => {
                self.state = LinkState::Removed;
                self.bound_ifindex = None;
                self.rebind_requested = false;
                Err(EgressFault::InterfaceGone)
            },
        }
    }

    /// Re-resolve the interface by name; call before every socket creation,
    /// so a replugged device never inherits the previous ifindex. Returns the
    /// ifindex the new socket binds against (`None` for an unmapped link).
    pub fn resolve_for_bind<R: IfaceResolver>(&mut self, resolver: &R) -> (r: Result<
        Option<u32>,
        EgressFault,
    >)
        ensures
            exists|answer: Option<u32>|
                (old(self)@.iface matches Some(n) ==> resolver.may_answer(n, answer)) && (
                final(self)@,
                r,
                ) == bind_resolution(old(self)@, answer),
            old(self)@.iface is None ==> (final(self)@, r) == bind_resolution(old(self)@, None),
    {
        let answer = match &self.iface {
            Some(n) => resolver.ifindex(n.as_str()),
            None => None,
        };
        self.apply_bind_answer(answer)
    }

    /// Record what a periodic re-resolution answered.
    pub fn apply_poll_answer(&mut self, answer: Option<u32>) -> (p: EgressPoll)
        ensures
            (final(self)@, p) == poll_resolution(old(self)@, answer),
    {
        if self.iface.is_none() {
            return EgressPoll::Unchanged;
        }
        match answer {
            Some(index) => match self.bound_ifindex {
                Some(bound) => {
                    if bound != index {
                        self.state = LinkState::Active;
                        self.rebind_requested = true;
                        EgressPoll::Reenumerated { from: bound, to: index }
                    } else {
                        self.state = LinkState::Active;
                        EgressPoll::Unchanged
                    }
                },
                None => {
                    self.state = LinkState::Active;
                    EgressPoll::Unchanged
                },
            },
            None => {
                self.state = LinkState::Removed;
                self.bound_ifindex = None;
                self.rebind_requested = false;
                EgressPoll::Removed
            },
        }
    }

    /// Re-resolve without binding, to catch a replug the send path has not
    /// hit yet: a changed ifindex requests a rebind, a vanished interface
    /// removes the link.
    pub fn poll<R: IfaceResolver>(&mut self, resolver: &R) -> (p: EgressPoll)
        ensures
            exists|answer: Option<u32>|
                (old(self)@.iface matches Some(n) ==> resolver.may_answer(n, answer)) && (
                final(self)@,
                p,
                ) == poll_resolution(old(self)@, answer),
            old(self)@.iface is None ==> final(self)@ == old(self)@ && p == EgressPoll::Unchanged,
    {
        let answer = match &self.iface {
            Some(n) => resolver.ifindex(n.as_str()),
            None => None,
        };
        self.apply_poll_answer(answer)
    }

    /// Record a send failure, already classified (`None` for an ordinary send
    /// error). Returns the fault when the socket is now unusable, so the
    /// caller recreates it instead of retrying on a dead binding.
    pub fn note_send_error(&mut self, fault: Option<EgressFault>) -> (r: Option<EgressFault>)
        ensures
            (final(self)@, r) == send_error_outcome(old(self)@, fault),
    {
        if self.iface.is_none() {
            return None;
        }
        match fault {
            Some(EgressFault::InterfaceGone) => {
                self.state = LinkState::Removed;
                self.bound_ifindex = None;
                self.rebind_requested = false;
                Some(EgressFault::InterfaceGone)
            },
            Some(EgressFault::NetworkUnreachable) => {
                self.rebind_requested = true;
                Some(EgressFault::NetworkUnreachable)
            },
            None => None,
        }
    }

    /// Adopt the interface a reload names for this link. Returns true when the
    /// binding changed, which obliges the caller to recreate the socket.
    pub fn adopt(&mut self, iface: Option<IfaceName>) -> (changed: bool)
        ensures
            (final(self)@, changed) == adopt_outcome(old(self)@, iface_view(iface)),
    {
        let changed = match (&self.iface, &iface) {
            (Some(a), Some(b)) => !a.eq(b),
            (None, None) => false,
            _ => true,
        };
        if changed {
            self.iface = iface;
            self.bound_ifindex = None;
            self.rebind_requested = false;
        }
        self.state = LinkState::Active;
        changed
    }
}

/// An unmapped link is never disturbed by a send error, whatever its errno.
pub proof fn lemma_unmapped_ignores_send_errors(e: EgressView, fault: Option<EgressFault>)
    requires
        e.iface is None,
    ensures
        send_error_outcome(e, fault) == (e, None::<EgressFault>),
{
}

/// A vanished interface is terminal until a reload: re-resolving again finds
/// it removed again, and no rebind is requested while it is removed.
pub proof fn lemma_removed_needs_reload(e: EgressView)
    requires
        e.iface is Some,
    ensures
        bind_resolution(e, None).0.state == LinkState::Removed,
        !bind_resolution(e, None).0.rebind_requested,
        poll_resolution(e, None).0.state == LinkState::Removed,
        adopt_outcome(e, e.iface).0.state == LinkState::Active,
{
}

} // verus!
