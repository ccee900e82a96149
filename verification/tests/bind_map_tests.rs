use srtla_send::bind_map::error::BindMapError;
use srtla_send::bind_map::iface::StaticIfaces;
use srtla_send::bind_map::ip::{ip_to_string, parse_ip, IpAddress};
use srtla_send::bind_map::read::{
    after_attempt, check_permissions, AttemptOutcome, BIND_MAP_RETRY_ATTEMPTS,
};
use srtla_send::bind_map::report::BindMapReport;
use srtla_send::bind_map::resolve::{resolve, resolve_absent, ResolvePhase};
use srtla_send::bind_map::sidecar::{check_wire_doc, RawRow, WireDoc};
use srtla_send::bind_map::status::{
    BindMapDisposition, BindMapStatus, CollisionGroup, DegradedReason,
};
use srtla_send::bind_map::types::{IfaceName, IpsFile, LinkId};
use srtla_send::bind_map::validate::{validate_pair, ValidateCtx};

#[test]
fn the_seven_degraded_reasons_are_the_frozen_adr_003_tokens() {
    let tokens: Vec<&str> = [
        DegradedReason::HashMismatch,
        DegradedReason::Malformed,
        DegradedReason::UnknownIface,
        DegradedReason::RetryExhausted,
        DegradedReason::MissingFile,
        DegradedReason::Unreadable,
        DegradedReason::Unsupported,
    ]
    .iter()
    .map(|r| r.as_str())
    .collect();
    assert_eq!(
        tokens,
        [
            "hash_mismatch",
            "malformed",
            "unknown_iface",
            "retry_exhausted",
            "missing_file",
            "unreadable",
            "unsupported"
        ]
    );
}

#[test]
fn only_a_degraded_status_carries_a_reason() {
    assert_eq!(BindMapStatus::Active.state_str(), "active");
    assert_eq!(BindMapStatus::Absent.state_str(), "absent");
    assert_eq!(BindMapStatus::Active.reason(), None);
    assert_eq!(BindMapStatus::Absent.reason(), None);

    let degraded = BindMapStatus::Degraded(DegradedReason::HashMismatch);
    assert_eq!(degraded.state_str(), "degraded");
    assert_eq!(degraded.reason(), Some(DegradedReason::HashMismatch));
}

#[test]
fn the_four_dispositions_are_the_frozen_adr_003_tokens() {
    assert_eq!(BindMapDisposition::Mapped.as_str(), "mapped");
    assert_eq!(
        BindMapDisposition::RetainedLastValid.as_str(),
        "retained_last_valid"
    );
    assert_eq!(
        BindMapDisposition::LegacyUniqueOnly.as_str(),
        "legacy_unique_only"
    );
    assert_eq!(
        BindMapDisposition::StartupCollisionExcluded.as_str(),
        "startup_collision_excluded"
    );
}

#[test]
fn the_default_report_record_is_the_legacy_unmapped_run() {
    let report = BindMapReport::default();
    assert_eq!(report.bind_map_status.state, "absent");
    assert_eq!(report.bind_map_status.reason, None);
    assert_eq!(report.disposition.state, "legacy_unique_only");
    assert!(report.disposition.collisions.is_empty());
}

#[test]
fn a_degraded_reload_record_says_degraded_and_still_pinned() {
    let report = BindMapReport::degraded(
        DegradedReason::HashMismatch,
        BindMapDisposition::RetainedLastValid,
    );
    assert_eq!(report.bind_map_status.state, "degraded");
    assert_eq!(report.bind_map_status.reason, Some("hash_mismatch"));
    assert_eq!(report.disposition.state, "retained_last_valid");
    let active = BindMapReport::new(BindMapStatus::Active, BindMapDisposition::Mapped, &[]);
    assert_eq!(active.bind_map_status.reason, None);
}

#[test]
fn a_degraded_startup_record_carries_the_group_it_broke_up() {
    let group = CollisionGroup {
        ip: parse_ip("192.168.8.100").expect("fixture IP"),
        effective_index: 0,
        excluded_indices: vec![1],
    };
    let report = BindMapReport::new(
        BindMapStatus::Degraded(DegradedReason::RetryExhausted),
        BindMapDisposition::StartupCollisionExcluded,
        std::slice::from_ref(&group),
    );
    assert_eq!(report.disposition.state, "startup_collision_excluded");
    let c = &report.disposition.collisions[0];
    assert_eq!(c.ip, "192.168.8.100");
    assert_eq!(c.effective_index, 0);
    assert_eq!(c.excluded_indices, vec![1]);
}

#[test]
fn ip_addresses_parse_and_print_as_the_standard_library_does() {
    for text in [
        "0.0.0.0",
        "192.168.8.100",
        "255.255.255.255",
        "::",
        "::1",
        "fe80::1",
        "2001:db8::8a2e:370:7334",
        "1:2:3:4:5:6:7:8",
        "::ffff:192.168.1.1",
        "1::",
    ] {
        let ip = parse_ip(text).unwrap_or_else(|| panic!("{text}"));
        assert_eq!(ip_to_string(ip), text);
    }
    assert_eq!(
        ip_to_string(parse_ip("2001:0db8:0000:0000:0000:0000:0000:0001").unwrap()),
        "2001:db8::1"
    );
    for bad in ["", "1.2.3", "256.1.1.1", "01.2.3.4", "1.2.3.4 ", ":::", "1::2::3", "g::1"] {
        assert!(parse_ip(bad).is_none(), "{bad}");
    }
    assert_eq!(
        parse_ip("10.0.0.1"),
        Some(IpAddress::V4(u32::from_be_bytes([10, 0, 0, 1])))
    );
}

#[test]
fn the_ips_file_digest_is_the_sha256_of_its_bytes() {
    let ips = IpsFile::from_bytes(b"abc").unwrap();
    assert_eq!(
        ips.sha256(),
        "ba7816bf8f01cfea414140de5dae2223b00361a396177a9cb410ff61f20015ad"
    );
    assert!(ips.accepted().is_empty());
    let ips = IpsFile::from_bytes(b" 10.0.0.1 \n\nbogus\n10.0.0.1\n").unwrap();
    assert_eq!(ips.accepted().len(), 2);
    assert!(IpsFile::from_bytes(&[0xff, 0xfe]).is_err());
}

#[test]
fn identities_and_interface_names_are_validated() {
    assert!(LinkId::parse("modem-a").is_ok());
    assert!(LinkId::parse("").is_err());
    assert_eq!(IfaceName::parse("wwan0").unwrap().as_str(), "wwan0");
    assert!(IfaceName::parse("a-name-that-is-too-long").is_err());
    assert!(IfaceName::parse("..").is_err());
    assert!(IfaceName::parse("has space").is_err());
}

fn row(link_id: &str, ip: &str, iface: &str) -> RawRow {
    RawRow {
        link_id: link_id.to_string(),
        ip: ip.to_string(),
        iface: iface.to_string(),
        id_path: None,
    }
}

fn twin_modems() -> (IpsFile, WireDoc) {
    let bytes = b"192.168.8.100\n192.168.8.100\n";
    let ips = IpsFile::from_bytes(bytes).unwrap();
    let wire = WireDoc {
        schema_version: 1,
        generation: 1,
        ips_file_sha256: ips.sha256().to_string(),
        links: vec![
            row("modem-a", "192.168.8.100", "wwan0"),
            row("modem-b", "192.168.8.100", "wwan1"),
        ],
    };
    (ips, wire)
}

#[test]
fn a_coherent_pair_maps_every_link_to_its_interface() {
    let (ips, wire) = twin_modems();
    let doc = check_wire_doc(wire).unwrap();
    let ifaces = StaticIfaces::new(&["wwan0", "wwan1"]);
    let pool = validate_pair(
        &ips,
        doc,
        ValidateCtx {
            ifaces: &ifaces,
            prior: None,
        },
    )
    .unwrap();
    assert_eq!(pool.rows.len(), 2);
    let resolution = resolve(Ok(pool), &ips, ResolvePhase::Startup);
    assert_eq!(resolution.status, BindMapStatus::Active);
    assert_eq!(resolution.disposition, BindMapDisposition::Mapped);
    assert_eq!(resolution.links.len(), 2);
    assert_eq!(resolution.links[1].iface.as_ref().unwrap().as_str(), "wwan1");
    assert!(resolution.applied.is_some());
}

#[test]
fn an_unknown_interface_is_refused_with_its_row() {
    let (ips, wire) = twin_modems();
    let doc = check_wire_doc(wire).unwrap();
    let ifaces = StaticIfaces::new(&["wwan0"]);
    let err = validate_pair(
        &ips,
        doc,
        ValidateCtx {
            ifaces: &ifaces,
            prior: None,
        },
    )
    .unwrap_err();
    assert_eq!(err.reason(), DegradedReason::UnknownIface);
    assert_eq!(
        err.message(),
        "bind-map row 1 names interface `wwan1`, which does not exist on this host"
    );
}

#[test]
fn a_stale_digest_is_a_hash_mismatch() {
    let (ips, mut wire) = twin_modems();
    wire.ips_file_sha256 = "0".repeat(64);
    let doc = check_wire_doc(wire).unwrap();
    let ifaces = StaticIfaces::new(&["wwan0", "wwan1"]);
    let err = validate_pair(
        &ips,
        doc,
        ValidateCtx {
            ifaces: &ifaces,
            prior: None,
        },
    )
    .unwrap_err();
    assert_eq!(err.reason(), DegradedReason::HashMismatch);
}

#[test]
fn header_errors_are_reported_in_declared_order() {
    let (_, mut wire) = twin_modems();
    wire.schema_version = 2;
    wire.generation = 0;
    let err = check_wire_doc(wire).unwrap_err();
    assert_eq!(
        err.message(),
        "bind-map schema_version 2 is not supported by this build"
    );
    let (_, mut wire) = twin_modems();
    wire.generation = 0;
    assert_eq!(
        check_wire_doc(wire).unwrap_err().message(),
        "bind-map header field `generation` is invalid: 0 is the reserved unset sentinel; the floor is 1"
    );
}

#[test]
fn a_degraded_startup_excludes_twins_it_cannot_tell_apart() {
    let (ips, _) = twin_modems();
    let resolution = resolve(
        Err(BindMapError::RetryExhausted { attempts: 5 }),
        &ips,
        ResolvePhase::Startup,
    );
    assert_eq!(
        resolution.status,
        BindMapStatus::Degraded(DegradedReason::RetryExhausted)
    );
    assert_eq!(
        resolution.disposition,
        BindMapDisposition::StartupCollisionExcluded
    );
    assert_eq!(resolution.links.len(), 1);
    assert_eq!(resolution.excluded.len(), 1);
    assert_eq!(resolution.excluded[0].excluded_indices, vec![1]);
    let report = BindMapReport::from_resolution(&resolution);
    assert_eq!(report.bind_map_status.reason, Some("retry_exhausted"));
}

#[test]
fn an_absent_map_keeps_every_line() {
    let (ips, _) = twin_modems();
    let resolution = resolve_absent(&ips);
    assert_eq!(resolution.status, BindMapStatus::Absent);
    assert_eq!(resolution.links.len(), 2);
    assert!(resolution.links.iter().all(|l| l.iface.is_none()));
}

#[test]
fn only_a_hash_mismatch_is_retried_and_only_within_budget() {
    let mismatch = || {
        Err(BindMapError::HashMismatch {
            sidecar: "a".to_string(),
            computed: "b".to_string(),
        })
    };
    match after_attempt(1, mismatch()) {
        AttemptOutcome::Retry { next_attempt } => assert_eq!(next_attempt, 2),
        AttemptOutcome::Settled(_) => panic!("a first mismatch is retried"),
    }
    match after_attempt(BIND_MAP_RETRY_ATTEMPTS, mismatch()) {
        AttemptOutcome::Settled(Err(BindMapError::RetryExhausted { attempts })) => {
            assert_eq!(attempts, 5)
        }
        _ => panic!("the last mismatch settles as exhausted"),
    }
    match after_attempt(1, Err(BindMapError::MissingFile { path: "p".into() })) {
        AttemptOutcome::Settled(Err(e)) => assert_eq!(e.reason(), DegradedReason::MissingFile),
        _ => panic!("other errors settle at once"),
    }
}

#[test]
fn a_shared_writable_sidecar_is_refused() {
    assert_eq!(check_permissions(0o100644), Ok(()));
    assert_eq!(check_permissions(0o600), Ok(()));
    assert_eq!(
        check_permissions(0o100664),
        Err("mode 0664 is group- or world-writable; the mapping must be owned by the service that writes it".to_string())
    );
    assert_eq!(
        check_permissions(0o102),
        Err("mode 0102 is group- or world-writable; the mapping must be owned by the service that writes it".to_string())
    );
}

#[test]
fn error_messages_name_what_to_fix() {
    let e = BindMapError::RowIpMismatch {
        index: 2,
        sidecar: parse_ip("10.0.0.2").unwrap(),
        ips_file: parse_ip("::1").unwrap(),
    };
    assert_eq!(
        e.message(),
        "bind-map row 2 says 10.0.0.2 but ips file line 2 says ::1"
    );
    assert_eq!(e.reason(), DegradedReason::Malformed);
    let e = BindMapError::RowCountMismatch {
        sidecar: 3,
        ips_file: 2,
    };
    assert_eq!(
        e.message(),
        "bind-map describes 3 link(s) but the ips file has 2"
    );
    assert_eq!(
        BindMapError::RetryExhausted { attempts: 5 }.message(),
        "bind-map and ips file never agreed across 5 attempt(s)"
    );
}
