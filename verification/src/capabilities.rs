//! The capability document a supervisor reads before spawning a stream, to
//! learn which flags this build understands. Its key set is frozen: entries
//! are added deliberately, never speculatively.
use vstd::prelude::*;

verus! {

/// Version of the capability document itself.
pub const CAPABILITIES_SCHEMA_VERSION: u32 = 1;
/// This binary's name.
pub const BINARY_NAME: &'static str = "srtla_send";
/// This binary's version.
pub const BINARY_VERSION: &'static str = "4.1.0";

/// The platform facts two capabilities depend on.
#[derive(Debug, Clone, Copy, PartialEq, Eq, Structural)]
pub struct HostPlatform {
    /// `SO_BINDTODEVICE` exists (Linux).
    pub linux: bool,
    /// Unix domain sockets exist.
    pub unix: bool,
}

/// What this build can do.
#[derive(Debug, Clone, PartialEq, Eq)]
pub struct Capabilities {
    /// `--bind-map` can steer egress on this platform.
    pub bind_map: bool,
    /// `--stats-file` publishes the telemetry snapshot.
    pub stats_file: bool,
    /// `--dry-run` validates the configuration without binding.
    pub dry_run: bool,
    /// `--control-socket` speaks the JSON-RPC 2.0 control dialect.
    pub control_socket_jsonrpc: bool,
    /// The liveness timeout is settable.
    pub conn_timeout_ms: bool,
    /// Accepted `--mode` / `set_mode` values.
    pub modes: [&'static str; 2],
}

/// The whole document the capability probe prints.
#[derive(Debug, Clone, PartialEq, Eq)]
pub struct CapabilityDocument {
    pub schema_version: u32,
    pub binary: &'static str,
    pub version: &'static str,
    pub capabilities: Capabilities,
}

/// Build the capability document for a host. A build never claims a feature
/// the platform cannot honour: device binding needs Linux, the control
/// socket needs Unix; everything else is always available.
pub fn capability_document(host: HostPlatform) -> (d: CapabilityDocument)
    ensures
        d.schema_version == CAPABILITIES_SCHEMA_VERSION,
        d.binary@ == "srtla_send"@,
        d.version@ == "4.1.0"@,
        d.capabilities.bind_map == host.linux,
        d.capabilities.control_socket_jsonrpc == host.unix,
        d.capabilities.stats_file,
        d.capabilities.dry_run,
        d.capabilities.conn_timeout_ms,
        d.capabilities.modes[0]@ == "classic"@,
        d.capabilities.modes[1]@ == "enhanced"@,
{
    CapabilityDocument {
        schema_version: CAPABILITIES_SCHEMA_VERSION,
        binary: BINARY_NAME,
        version: BINARY_VERSION,
        capabilities: Capabilities {
            bind_map: host.linux,
            stats_file: true,
            dry_run: true,
            control_socket_jsonrpc: host.unix,
            conn_timeout_ms: true,
            modes: ["classic", "enhanced"],
        },
    }
}

} // verus!
