//! The bind-map sidecar: interface binding and stable link identity for the
//! uplinks of `BIND_IPS_FILE`.
pub mod error;
pub mod iface;
pub mod ip;
pub mod sidecar;
pub mod status;
pub mod types;
pub mod validate;
pub mod resolve;
pub mod report;
pub mod read;
