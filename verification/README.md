# srtla_send

The decision logic of an SRTLA bonding sender, verified with Verus: which
uplink a source address or interface maps to, how a link's health moves
between healthy, degraded, stalled, down and rejoining once its (floating
point) thresholds are judged, how probe trains and ACKs are accounted, how loss evidence is gathered,
and how the runtime control commands change the configuration.

## Layout

- `src/` — the verified library. Every function carries a `requires`/`ensures`
  contract over a mathematical view of its data; the laws the library keeps
  (bounded histories, inert replays, round trips of encodings, rate limits)
  are public proof functions next to the code they speak of.
  - `bind_map/` — the interface bind map: identifiers, the ips file and its
    sidecar, validation, resolution of rows to sockets, and the status report.
  - `connection/` — per-link state: ACK/NAK bookkeeping, delivery evidence,
    keepalive liveness, loss cohorts, probe pacing and probe-train evidence,
    egress and default-route observation, batched sends.
  - `config.rs`, `adaptive_env.rs`, `mode.rs`, `cli.rs`, `capabilities.rs`,
    `ab_metrics.rs` — runtime configuration, scheduler feature switches and
    the documents the binary answers with.
- `app/` — ordinary Rust around the library: the command line, file and socket
  I/O, JSON encoding, process-wide state, and the floating-point policies
  (health thresholds, rate cap, smoothed loss) built on the library's integer
  evidence.
- `tests/` — tests of the library through its public API.
