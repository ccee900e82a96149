//! Per-uplink connection logic: health vocabulary, probe pacing, route and
//! egress observation, keepalive liveness and ACK bookkeeping.
pub mod ack_nak;
pub mod adaptive;
pub mod batch_send;
pub mod bitrate;
pub mod delivery;
pub mod egress;
pub mod health;
pub mod keepalive;
pub mod loss;
pub mod loss_debit;
pub mod original_recovery;
pub mod probe;
pub mod probe_log;
pub mod rate_cap;
pub mod route;
pub mod send_prefix;
pub mod transmit;
pub mod socket;
pub mod uplink;
pub mod wire_rate;
