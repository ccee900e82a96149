//! Verified core of the SRTLA bonding sender.
pub mod ab_metrics;
pub mod adaptive_env;
pub mod bind_map;
pub mod capabilities;
pub mod cli;
pub mod config;
pub mod connection;
pub mod mode;
pub mod text;
