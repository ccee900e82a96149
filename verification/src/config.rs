//! Runtime configuration of the sender and the text command language that
//! changes it (`mode`, `quality`, `explore`, `rtt-delta`, `earned-ack`,
//! `status`, `stats`).
use vstd::prelude::*;

use crate::mode::{mode_name, SchedulingMode};
use crate::text::{chars_eq_str, chars_of, parse_u32, parse_u32_chars, words, words_of};

verus! {

/// Default RTT delta threshold in milliseconds: links within
/// `min_rtt + delta` are considered fast and preferred.
pub const DEFAULT_RTT_DELTA_MS: u32 = 30;

/// Minimum interval between rate-limited probe window steps on a link that did
/// not earn the ACK, under the experimental earned-ACK valve.
pub const PROBE_GROWTH_INTERVAL_MS: u64 = 1000;

/// In-flight backlog (packets) at or above which a link is a stall candidate.
pub const STALL_MIN_IN_FLIGHT_PACKETS: i32 = 32;

/// Delivery-proof staleness window after which a stall candidate is deselected.
pub const STALL_ACK_STALE_MS: u64 = 3000;

/// Re-probe interval for a deselected stalled link.
pub const STALL_REPROBE_INTERVAL_MS: u64 = 1000;

/// The configuration as read at one instant, for the packet hot path.
#[derive(Clone, Copy, Debug)]
pub struct ConfigSnapshot {
    pub mode: SchedulingMode,
    pub quality_enabled: bool,
    pub exploration_enabled: bool,
    pub rtt_delta_ms: u32,
    /// Experimental earned-ACK window valve (default off).
    pub earned_ack_window: bool,
}

impl ConfigSnapshot {
    /// Quality scoring applies to every mode but classic.
    pub fn effective_quality_enabled(&self) -> (b: bool)
        ensures
            b <==> self.quality_enabled && self.mode != SchedulingMode::Classic,
    {
        self.quality_enabled && !self.mode.is_classic()
    }

    /// Exploration applies to enhanced mode only.
    pub fn effective_exploration_enabled(&self) -> (b: bool)
        ensures
            b <==> self.exploration_enabled && self.mode == SchedulingMode::Enhanced,
    {
        self.exploration_enabled && self.mode.is_enhanced()
    }
}

/// Configuration that runtime commands may change.
#[derive(Clone, Debug)]
pub struct DynamicConfig {
    mode: SchedulingMode,
    quality_enabled: bool,
    exploration_enabled: bool,
    rtt_delta_ms: u32,
    earned_ack_window: bool,
}

impl View for DynamicConfig {
    type V = ConfigSnapshot;

    closed spec fn view(&self) -> ConfigSnapshot {
        ConfigSnapshot {
            mode: self.mode,
            quality_enabled: self.quality_enabled,
            exploration_enabled: self.exploration_enabled,
            rtt_delta_ms: self.rtt_delta_ms,
            earned_ack_window: self.earned_ack_window,
        }
    }
}

/// The shipped defaults: enhanced mode, quality on, exploration off, the
/// default RTT delta, earned-ACK valve off.
pub open spec fn default_config() -> ConfigSnapshot {
    ConfigSnapshot {
        mode: SchedulingMode::Enhanced,
        quality_enabled: true,
        exploration_enabled: false,
        rtt_delta_ms: DEFAULT_RTT_DELTA_MS,
        earned_ack_window: false,
    }
}

impl Default for DynamicConfig {
    fn default() -> (c: Self)
        ensures
            c@ == default_config(),
    {
        Self::new()
    }
}

impl DynamicConfig {
    pub fn new() -> (c: Self)
        ensures
            c@ == default_config(),
    {
        DynamicConfig {
            mode: SchedulingMode::Enhanced,
            quality_enabled: true,
            exploration_enabled: false,
            rtt_delta_ms: DEFAULT_RTT_DELTA_MS,
            earned_ack_window: false,
        }
    }

    /// The configuration the command line asked for (`no_quality` disables
    /// quality scoring).
    pub fn from_cli(
        mode: SchedulingMode,
        no_quality: bool,
        exploration: bool,
        rtt_delta_ms: u32,
        earned_ack_window: bool,
    ) -> (c: Self)
        ensures
            c@ == (ConfigSnapshot {
                mode,
                quality_enabled: !no_quality,
                exploration_enabled: exploration,
                rtt_delta_ms,
                earned_ack_window,
            }),
    {
        DynamicConfig {
            mode,
            quality_enabled: !no_quality,
            exploration_enabled: exploration,
            rtt_delta_ms,
            earned_ack_window,
        }
    }

    pub fn snapshot(&self) -> (s: ConfigSnapshot)
        ensures
            s == self@,
    {
        ConfigSnapshot {
            mode: self.mode,
            quality_enabled: self.quality_enabled,
            exploration_enabled: self.exploration_enabled,
            rtt_delta_ms: self.rtt_delta_ms,
            earned_ack_window: self.earned_ack_window,
        }
    }

    pub fn mode(&self) -> (m: SchedulingMode)
        ensures
            m == self@.mode,
    {
        self.mode
    }

    pub fn set_mode(&mut self, mode: SchedulingMode)
        ensures
            final(self)@ == (ConfigSnapshot { mode, ..old(self)@ }),
    {
        self.mode = mode;
    }

    pub fn set_quality_enabled(&mut self, enabled: bool)
        ensures
            final(self)@ == (ConfigSnapshot { quality_enabled: enabled, ..old(self)@ }),
    {
        self.quality_enabled = enabled;
    }

    pub fn set_exploration_enabled(&mut self, enabled: bool)
        ensures
            final(self)@ == (ConfigSnapshot { exploration_enabled: enabled, ..old(self)@ }),
    {
        self.exploration_enabled = enabled;
    }

    pub fn set_rtt_delta_ms(&mut self, delta: u32)
        ensures
            final(self)@ == (ConfigSnapshot { rtt_delta_ms: delta, ..old(self)@ }),
    {
        self.rtt_delta_ms = delta;
    }

    pub fn set_earned_ack_window(&mut self, enabled: bool)
        ensures
            final(self)@ == (ConfigSnapshot { earned_ack_window: enabled, ..old(self)@ }),
    {
        self.earned_ack_window = enabled;
    }
}

/// What a command hands back to the client that sent it.
pub enum CmdResponse {
    /// Nothing to send back (the outcome is only logged).
    Silent,
    /// A JSON document to send back.
    Json(String),
}

/// `on` / `off` as a switch value.
pub open spec fn switch_value(w: Seq<char>) -> Option<bool> {
    if w == "on"@ {
        Some(true)
    } else if w == "off"@ {
        Some(false)
    } else {
        None
    }
}

/// The mode a `mode` command names.
pub open spec fn named_mode(w: Seq<char>) -> Option<SchedulingMode> {
    if w == mode_name(SchedulingMode::Classic) {
        Some(SchedulingMode::Classic)
    } else if w == mode_name(SchedulingMode::Enhanced) {
        Some(SchedulingMode::Enhanced)
    } else if w == mode_name(SchedulingMode::RttThreshold) {
        Some(SchedulingMode::RttThreshold)
    } else if w == mode_name(SchedulingMode::Edpf) {
        Some(SchedulingMode::Edpf)
    } else {
        None
    }
}

/// The configuration after the command whose whitespace-separated words are
/// `w`. A command with the wrong number of arguments, an unknown verb or an
/// invalid value leaves the configuration as it was.
pub open spec fn command_effect(c: ConfigSnapshot, w: Seq<Seq<char>>) -> ConfigSnapshot {
    if w.len() != 2 {
        c
    } else if w[0] == "mode"@ {
        match named_mode(w[1]) {
            Some(m) => ConfigSnapshot { mode: m, ..c },
            None => c,
        }
    } else if w[0] == "quality"@ {
        match switch_value(w[1]) {
            Some(b) => ConfigSnapshot { quality_enabled: b, ..c },
            None => c,
        }
    } else if w[0] == "explore"@ {
        match switch_value(w[1]) {
            Some(b) => ConfigSnapshot { exploration_enabled: b, ..c },
            None => c,
        }
    } else if w[0] == "rtt-delta"@ {
        match parse_u32(w[1]) {
            Some(d) => ConfigSnapshot { rtt_delta_ms: d, ..c },
            None => c,
        }
    } else if w[0] == "earned-ack"@ {
        match switch_value(w[1]) {
            Some(b) => ConfigSnapshot { earned_ack_window: b, ..c },
            None => c,
        }
    } else {
        c
    }
}

/// Whether the command is a lone `stats` request.
pub open spec fn is_stats_request(w: Seq<Seq<char>>) -> bool {
    w.len() >= 1 && w[0] == "stats"@
}

fn switch_of(w: &[char]) -> (r: Option<bool>)
    ensures
        r == switch_value(w@),
{
    if chars_eq_str(w, "on") {
        Some(true)
    } else if chars_eq_str(w, "off") {
        Some(false)
    } else {
        None
    }
}

fn mode_of_word(w: &[char]) -> (r: Option<SchedulingMode>)
    ensures
        r == named_mode(w@),
{
    if chars_eq_str(w, "classic") {
        Some(SchedulingMode::Classic)
    } else if chars_eq_str(w, "enhanced") {
        Some(SchedulingMode::Enhanced)
    } else if chars_eq_str(w, "rtt-threshold") {
        Some(SchedulingMode::RttThreshold)
    } else if chars_eq_str(w, "edpf") {
        Some(SchedulingMode::Edpf)
    } else {
        None
    }
}

/// Apply one runtime command line to the configuration.
///
/// `stats` is the per-link telemetry JSON when a stats provider is attached;
/// a `stats` command hands it back, every other command hands back nothing.
pub fn apply_cmd(config: &mut DynamicConfig, cmd: &str, stats: Option<&str>) -> (r: CmdResponse)
    ensures
        final(config)@ == command_effect(old(config)@, words(cmd@)),
        r matches CmdResponse::Json(j) ==> (is_stats_request(words(cmd@)) && stats is Some
            && j@ == stats.unwrap()@),
        is_stats_request(words(cmd@)) && stats is Some ==> r is Json,
{
    let chars = chars_of(cmd);
    let parts = words_of(&chars);
    proof {
        assert(parts@.len() == words(cmd@).len());
    }
    if parts.len() == 0 {
        return CmdResponse::Silent;
    }
    let verb = &parts[0];
    if chars_eq_str(verb, "stats") {
        proof {
            reveal_strlit("stats");
            reveal_strlit("mode");
            reveal_strlit("quality");
            reveal_strlit("explore");
            reveal_strlit("rtt-delta");
            reveal_strlit("earned-ack");
            assert(words(cmd@)[0] == verb@);
            assert("stats"@.len() != "mode"@.len());
            assert("stats"@ != "quality"@ && "stats"@ != "explore"@);
            assert("stats"@ != "rtt-delta"@ && "stats"@ != "earned-ack"@);
        }
        return match stats {
            Some(s) => CmdResponse::Json(s.to_owned()),
            None => CmdResponse::Silent,
        };
    }
    if parts.len() != 2 {
        return CmdResponse::Silent;
    }
    let value = &parts[1];
    if chars_eq_str(verb, "mode") {
        if let Some(m) = mode_of_word(value) {
            config.set_mode(m);
        }
    } else if chars_eq_str(verb, "quality") {
        if let Some(b) = switch_of(value) {
            config.set_quality_enabled(b);
        }
    } else if chars_eq_str(verb, "explore") {
        if let Some(b) = switch_of(value) {
            config.set_exploration_enabled(b);
        }
    } else if chars_eq_str(verb, "rtt-delta") {
        if let Some(d) = parse_u32_chars(value) {
            config.set_rtt_delta_ms(d);
        }
    } else if chars_eq_str(verb, "earned-ack") {
        if let Some(b) = switch_of(value) {
            config.set_earned_ack_window(b);
        }
    }
    CmdResponse::Silent
}

/// The string member `key` of the JSON object `frame` parses to: `None` for
/// a malformed frame, one that is not an object, or one whose `key` member
/// is missing or not a string.
pub uninterp spec fn json_string_member(frame: Seq<char>, key: Seq<char>) -> Option<Seq<char>>;

/// Parse `frame` as JSON (`serde_json::from_str`) and read its member `key`
/// as a string (`Value::get`, `Value::as_str`).
#[verifier::external_body]
fn frame_member(frame: &str, key: &str) -> (m: Option<String>)
    ensures
        match m {
            Some(s) => json_string_member(frame@, key@) == Some(s@),
            None => json_string_member(frame@, key@) is None,
        },
{
    serde_json::from_str::<serde_json::Value>(frame).ok().and_then(
        |v| v.get(key).and_then(serde_json::Value::as_str).map(str::to_string),
    )
}

/// The JSON-RPC member that names a control frame's method.
pub const RPC_METHOD_KEY: &'static str = "method";

/// The method a control-socket frame names, when its `method` member is a
/// string.
pub open spec fn json_rpc_method(frame: Seq<char>) -> Option<Seq<char>> {
    json_string_member(frame, RPC_METHOD_KEY@)
}

/// Whether a frame's method is exactly `subscribe-events`.
pub fn is_subscribe_method(method: Option<&str>) -> (b: bool)
    ensures
        b == (method matches Some(m) && m@ == "subscribe-events"@),
{
    match method {
        Some(m) => chars_eq_str(&chars_of(m), "subscribe-events"),
        None => false,
    }
}

/// True only for a JSON-RPC request whose `method` is exactly
/// `subscribe-events`; a malformed frame is not one, and falls through to the
/// ordinary command dispatch.
pub fn is_subscribe_events(frame: &str) -> (b: bool)
    ensures
        b == (json_rpc_method(frame@) == Some("subscribe-events"@)),
{
    match frame_member(frame, RPC_METHOD_KEY) {
        Some(m) => is_subscribe_method(Some(m.as_str())),
        None => false,
    }
}

} // verus!
