use srtla_send::bind_map::ip::{parse_ip, IpAddress};
use srtla_send::bind_map::types::{IfaceName, LinkId};
use srtla_send::connection::loss_debit::{LossDebit, LossSend};
use srtla_send::connection::uplink::UplinkSpec;

fn ip(last: u8) -> IpAddress {
    IpAddress::V4(u32::from_be_bytes([192, 168, 8, last]))
}

#[test]
fn an_unmapped_links_label_is_the_historical_format() {
    let spec = UplinkSpec::unmapped(ip(100));
    assert_eq!(
        spec.label("rec.example.com", 5000),
        "rec.example.com:5000 via 192.168.8.100"
    );
}

#[test]
fn twin_modems_on_one_ip_have_distinct_socket_keys() {
    let a = UplinkSpec {
        ip: ip(100),
        iface: Some(IfaceName::parse("wwan0").unwrap()),
        link_id: Some(LinkId::parse("modem-a").unwrap()),
    };
    let b = UplinkSpec {
        ip: ip(100),
        iface: Some(IfaceName::parse("wwan1").unwrap()),
        link_id: Some(LinkId::parse("modem-b").unwrap()),
    };
    assert_ne!(a.socket_key(), b.socket_key());
}

#[test]
fn a_mapped_link_keeps_its_identity_when_its_socket_key_changes() {
    let link_id = LinkId::parse("modem-a").unwrap();
    let before = UplinkSpec {
        ip: ip(100),
        iface: Some(IfaceName::parse("wwan0").unwrap()),
        link_id: Some(link_id.clone()),
    };
    let after = UplinkSpec {
        ip: ip(101),
        iface: Some(IfaceName::parse("wwan3").unwrap()),
        link_id: Some(link_id),
    };
    assert_ne!(before.socket_key(), after.socket_key());
    assert_eq!(before.link_id, after.link_id);
}

#[test]
fn mapped_labels_and_origins_name_the_interface() {
    let spec = UplinkSpec {
        ip: parse_ip("fe80::1").unwrap(),
        iface: Some(IfaceName::parse("wwan0").unwrap()),
        link_id: Some(LinkId::parse("modem-a").unwrap()),
    };
    assert_eq!(spec.label("h", 1), "h:1 via fe80::1 on wwan0 [modem-a]");
    assert_eq!(spec.origin(), "fe80::1 on wwan0");
    let no_id = UplinkSpec {
        link_id: None,
        ..spec.clone()
    };
    assert_eq!(no_id.label("h", 65535), "h:65535 via fe80::1 on wwan0");
    assert_eq!(UplinkSpec::unmapped(ip(7)).origin(), "192.168.8.7");
}

#[test]
fn loss_debits_merge_only_for_the_same_send() {
    let send = LossSend {
        epoch: 1,
        cohort_start_ms: 1000,
        deadline_ms: 1500,
    };
    let mut a = LossDebit { send, count: 1 };
    assert!(a.merge(LossDebit { send, count: 2 }));
    assert_eq!(a.count, 3);
    let other = LossSend { epoch: 2, ..send };
    assert!(!a.merge(LossDebit { send: other, count: 5 }));
    assert_eq!(a.count, 3);
    a.count = u32::MAX;
    assert!(a.merge(LossDebit { send, count: 1 }));
    assert_eq!(a.count, u32::MAX);
}

#[test]
fn a_loss_debit_is_pending_until_its_deadline_within_history() {
    let d = LossDebit {
        send: LossSend {
            epoch: 0,
            cohort_start_ms: 0,
            deadline_ms: 500,
        },
        count: 1,
    };
    assert!(d.pending_at(499));
    assert!(!d.pending_at(500));
    let late = LossDebit {
        send: LossSend {
            epoch: 0,
            cohort_start_ms: 0,
            deadline_ms: 20_000,
        },
        count: 1,
    };
    assert!(late.pending_at(10_999));
    assert!(!late.pending_at(11_000));
}
