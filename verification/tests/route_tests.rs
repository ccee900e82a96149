use srtla_send::connection::route::{
    classify_route_transition, latch_route, parse_default_route_ifaces, RouteHealth, RouteTransition,
};

/// A real two-interface table: `eth0` carries the default route, `wwan0`
/// only has its on-link subnet.
const TABLE: &str = "Iface\tDestination\tGateway \tFlags\tRefCnt\tUse\tMetric\tMask\t\tMTU\tWindow\tIRTT
eth0\t00000000\t0102A8C0\t0003\t0\t0\t100\t00000000\t0\t0\t0
eth0\t0002A8C0\t00000000\t0001\t0\t0\t100\t00FFFFFF\t0\t0\t0
wwan0\t0008A8C0\t00000000\t0001\t0\t0\t700\t00FFFFFF\t0\t0\t0
";

#[test]
fn an_interface_with_a_default_route_is_reported_as_healthy() {
    let defaults = parse_default_route_ifaces(TABLE);
    assert!(defaults.contains("eth0"));
    assert_eq!(defaults.len(), 1);
}

#[test]
fn an_interface_with_only_an_on_link_subnet_has_no_default_route() {
    assert!(!parse_default_route_ifaces(TABLE).contains("wwan0"));
}

#[test]
fn a_header_only_table_names_no_interface() {
    let header = TABLE.lines().next().unwrap();
    assert!(parse_default_route_ifaces(header).is_empty());
}

#[test]
fn a_truncated_row_is_skipped_rather_than_misread() {
    let table = format!(
        "{}\nwwan1\t00000000\t00000000\n",
        TABLE.lines().next().unwrap()
    );
    assert!(parse_default_route_ifaces(&table).is_empty());
}

#[test]
fn losing_and_regaining_a_default_route_are_both_announced() {
    assert_eq!(
        classify_route_transition(
            RouteHealth::DefaultRoutePresent,
            RouteHealth::NoDefaultRoute
        ),
        RouteTransition::Blackholed
    );
    assert_eq!(
        classify_route_transition(
            RouteHealth::NoDefaultRoute,
            RouteHealth::DefaultRoutePresent
        ),
        RouteTransition::Restored
    );
}

#[test]
fn an_unchanged_invariant_is_never_announced() {
    for health in [
        RouteHealth::Unknown,
        RouteHealth::DefaultRoutePresent,
        RouteHealth::NoDefaultRoute,
    ] {
        assert_eq!(
            classify_route_transition(health, health),
            RouteTransition::Quiet
        );
    }
}

#[test]
fn crossing_into_or_out_of_unknown_claims_nothing() {
    for known in [
        RouteHealth::DefaultRoutePresent,
        RouteHealth::NoDefaultRoute,
    ] {
        assert_eq!(
            classify_route_transition(RouteHealth::Unknown, known),
            RouteTransition::Quiet
        );
        assert_eq!(
            classify_route_transition(known, RouteHealth::Unknown),
            RouteTransition::Quiet
        );
    }
}

#[test]
fn a_default_route_listed_twice_names_its_interface_once() {
    let table = format!(
        "{}\nppp0 00000000 00000000 0001 0 0 0 00000000\nppp0\t0\t0\t0\t0\t0\t0\t0\nusb0 00000000 0 0 0 0 0 00FFFFFF\n",
        TABLE.lines().next().unwrap()
    );
    let set = parse_default_route_ifaces(&table);
    assert_eq!(set.len(), 1);
    assert!(set.contains("ppp0"));
    assert!(!set.contains("usb0"));
}

#[test]
fn the_first_line_is_always_the_header() {
    // A default-route row in the first line is the header's place: skipped.
    let table = "eth0 00000000 0 0 0 0 0 00000000\n";
    assert!(parse_default_route_ifaces(table).is_empty());
    assert!(parse_default_route_ifaces("").is_empty());
}

#[test]
fn route_tokens_are_stable() {
    assert_eq!(RouteHealth::Unknown.as_str(), "unknown");
    assert_eq!(RouteHealth::DefaultRoutePresent.as_str(), "default_route_present");
    assert_eq!(RouteHealth::NoDefaultRoute.as_str(), "no_default_route");
    assert_eq!(RouteHealth::default(), RouteHealth::Unknown);
}

#[test]
fn the_route_latch_holds_through_unknown_observations() {
    assert!(latch_route(false, RouteHealth::NoDefaultRoute));
    assert!(latch_route(true, RouteHealth::Unknown));
    assert!(!latch_route(false, RouteHealth::Unknown));
    assert!(!latch_route(true, RouteHealth::DefaultRoutePresent));
}
