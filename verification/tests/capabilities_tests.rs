use srtla_send::capabilities::{capability_document, HostPlatform, CAPABILITIES_SCHEMA_VERSION};

#[test]
fn linux_claims_bind_map_and_the_control_socket() {
    let doc = capability_document(HostPlatform {
        linux: true,
        unix: true,
    });
    assert!(doc.capabilities.bind_map);
    assert!(doc.capabilities.control_socket_jsonrpc);
}

#[test]
fn a_platform_without_the_features_does_not_claim_them() {
    let doc = capability_document(HostPlatform {
        linux: false,
        unix: false,
    });
    assert!(!doc.capabilities.bind_map);
    assert!(!doc.capabilities.control_socket_jsonrpc);
    assert!(doc.capabilities.stats_file);
    assert!(doc.capabilities.dry_run);
    assert!(doc.capabilities.conn_timeout_ms);
}

#[test]
fn the_document_header_is_frozen() {
    let doc = capability_document(HostPlatform {
        linux: true,
        unix: true,
    });
    assert_eq!(doc.schema_version, CAPABILITIES_SCHEMA_VERSION);
    assert_eq!(doc.schema_version, 1);
    assert_eq!(doc.binary, "srtla_send");
    assert_eq!(doc.version, "4.1.0");
    assert_eq!(doc.capabilities.modes, ["classic", "enhanced"]);
}
