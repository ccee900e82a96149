use std::cell::Cell;

use srtla_send::bind_map::types::IfaceName;
use srtla_send::connection::egress::{
    classify_errno, EgressFault, EgressLifecycle, EgressPoll, IfaceResolver, LinkState,
};

/// A resolver whose answer the test scripts.
struct Scripted {
    answer: Cell<Option<u32>>,
    calls: Cell<u32>,
}

impl Scripted {
    fn new(answer: Option<u32>) -> Self {
        Scripted {
            answer: Cell::new(answer),
            calls: Cell::new(0),
        }
    }
}

impl IfaceResolver for Scripted {
    fn ifindex(&self, iface: &str) -> Option<u32> {
        assert_eq!(iface, "wwan0");
        self.calls.set(self.calls.get() + 1);
        self.answer.get()
    }
}

fn wwan0() -> IfaceName {
    IfaceName::parse("wwan0").unwrap()
}

#[test]
fn an_unmapped_link_never_consults_the_resolver() {
    let resolver = Scripted::new(Some(7));
    let mut link = EgressLifecycle::unmapped();
    assert_eq!(link.resolve_for_bind(&resolver), Ok(None));
    assert_eq!(link.poll(&resolver), EgressPoll::Unchanged);
    assert_eq!(link.note_send_error(Some(EgressFault::InterfaceGone)), None);
    assert_eq!(resolver.calls.get(), 0);
    assert_eq!(link.state(), LinkState::Active);
    assert!(!link.needs_rebind());
    assert!(link.iface().is_none());
}

#[test]
fn a_replugged_interface_is_a_reenumeration_that_requests_a_rebind() {
    let resolver = Scripted::new(Some(4));
    let mut link = EgressLifecycle::for_iface(wwan0());
    assert_eq!(link.resolve_for_bind(&resolver), Ok(Some(4)));
    assert_eq!(link.poll(&resolver), EgressPoll::Unchanged);
    resolver.answer.set(Some(9));
    assert_eq!(link.poll(&resolver), EgressPoll::Reenumerated { from: 4, to: 9 });
    assert!(link.needs_rebind());
    // Re-resolving for the new socket clears the request.
    assert_eq!(link.resolve_for_bind(&resolver), Ok(Some(9)));
    assert!(!link.needs_rebind());
}

#[test]
fn a_vanished_interface_removes_the_link_until_a_reload() {
    let resolver = Scripted::new(Some(4));
    let mut link = EgressLifecycle::for_iface(wwan0());
    link.resolve_for_bind(&resolver).unwrap();
    resolver.answer.set(None);
    assert_eq!(link.poll(&resolver), EgressPoll::Removed);
    assert_eq!(link.state(), LinkState::Removed);
    assert_eq!(
        link.resolve_for_bind(&resolver),
        Err(EgressFault::InterfaceGone)
    );
    assert!(!link.needs_rebind());
    // A reload naming the same interface is the way out of Removed.
    assert!(!link.adopt(Some(wwan0())));
    assert_eq!(link.state(), LinkState::Active);
}

#[test]
fn send_errors_classify_the_binding() {
    let resolver = Scripted::new(Some(4));
    let mut link = EgressLifecycle::for_iface(wwan0());
    link.resolve_for_bind(&resolver).unwrap();
    assert_eq!(link.note_send_error(None), None);
    assert_eq!(
        link.note_send_error(Some(EgressFault::NetworkUnreachable)),
        Some(EgressFault::NetworkUnreachable)
    );
    assert!(link.needs_rebind());
    assert_eq!(link.state(), LinkState::Active);
    assert_eq!(
        link.note_send_error(Some(EgressFault::InterfaceGone)),
        Some(EgressFault::InterfaceGone)
    );
    assert_eq!(link.state(), LinkState::Removed);
    assert!(!link.needs_rebind());
}

#[test]
fn adopting_a_different_interface_resets_the_binding() {
    let mut link = EgressLifecycle::for_iface(wwan0());
    assert!(link.adopt(Some(IfaceName::parse("wwan1").unwrap())));
    assert_eq!(link.iface().unwrap().as_str(), "wwan1");
    assert!(link.adopt(None));
    assert!(link.iface().is_none());
    assert!(!link.adopt(None));
}

#[test]
fn fault_tokens_are_stable() {
    assert_eq!(EgressFault::InterfaceGone.as_str(), "interface_gone");
    assert_eq!(EgressFault::NetworkUnreachable.as_str(), "network_unreachable");
}

#[test]
fn answers_can_be_applied_directly() {
    let mut link = EgressLifecycle::for_iface(wwan0());
    assert_eq!(link.apply_bind_answer(Some(3)), Ok(Some(3)));
    assert_eq!(
        link.apply_poll_answer(Some(5)),
        EgressPoll::Reenumerated { from: 3, to: 5 }
    );
    assert_eq!(link.apply_poll_answer(None), EgressPoll::Removed);
}

#[test]
fn send_errors_are_classified_by_errno() {
    assert_eq!(classify_errno(Some(19), 19, 101), Some(EgressFault::InterfaceGone));
    assert_eq!(classify_errno(Some(101), 19, 101), Some(EgressFault::NetworkUnreachable));
    assert_eq!(classify_errno(Some(11), 19, 101), None);
    assert_eq!(classify_errno(None, 19, 101), None);
}

/// A resolver that answers one ifindex for one name and nothing for others.
struct OneIface(&'static str, u32);

impl IfaceResolver for OneIface {
    fn ifindex(&self, iface: &str) -> Option<u32> {
        (iface == self.0).then_some(self.1)
    }
}

#[test]
fn the_resolver_is_asked_about_the_held_interface() {
    let mut link = EgressLifecycle::for_iface(IfaceName::parse("wwan0").unwrap());
    assert_eq!(link.resolve_for_bind(&OneIface("wwan0", 7)), Ok(Some(7)));
    assert_eq!(link.poll(&OneIface("wwan0", 7)), EgressPoll::Unchanged);
    // Another interface existing does not keep this one alive.
    assert_eq!(link.poll(&OneIface("lo", 7)), EgressPoll::Removed);
    assert_eq!(link.state(), LinkState::Removed);
}
