use srtla_send::config::{
    apply_cmd, is_subscribe_events, is_subscribe_method, CmdResponse, ConfigSnapshot, DynamicConfig,
    DEFAULT_RTT_DELTA_MS,
};
use srtla_send::mode::SchedulingMode;

#[test]
fn test_config_default() {
    let config = DynamicConfig::new();
    let snap = config.snapshot();
    assert_eq!(snap.mode, SchedulingMode::Enhanced);
    assert!(snap.quality_enabled);
    assert!(!snap.exploration_enabled);
    assert_eq!(snap.rtt_delta_ms, DEFAULT_RTT_DELTA_MS);
    assert!(
        !snap.earned_ack_window,
        "earned-ack window valve defaults OFF"
    );
}

#[test]
fn test_config_from_cli() {
    let config = DynamicConfig::from_cli(SchedulingMode::Classic, true, true, 50, false);
    let snap = config.snapshot();
    assert_eq!(snap.mode, SchedulingMode::Classic);
    assert!(!snap.quality_enabled); // no_quality=true means disabled
    assert!(snap.exploration_enabled);
    assert_eq!(snap.rtt_delta_ms, 50);
    assert!(!snap.earned_ack_window);
}

#[test]
fn test_earned_ack_commands() {
    let mut config = DynamicConfig::new();
    assert!(!config.snapshot().earned_ack_window);

    apply_cmd(&mut config, "earned-ack on", None);
    assert!(config.snapshot().earned_ack_window);

    apply_cmd(&mut config, "earned-ack off", None);
    assert!(!config.snapshot().earned_ack_window);
}

#[test]
fn test_earned_ack_from_cli_on() {
    let config = DynamicConfig::from_cli(SchedulingMode::Enhanced, false, false, 30, true);
    assert!(config.snapshot().earned_ack_window);
}

#[test]
fn test_mode_commands() {
    let mut config = DynamicConfig::new();

    apply_cmd(&mut config, "mode classic", None);
    assert_eq!(config.mode(), SchedulingMode::Classic);

    apply_cmd(&mut config, "mode enhanced", None);
    assert_eq!(config.mode(), SchedulingMode::Enhanced);

    apply_cmd(&mut config, "mode rtt-threshold", None);
    assert_eq!(config.mode(), SchedulingMode::RttThreshold);
}

#[test]
fn test_quality_commands() {
    let mut config = DynamicConfig::new();

    apply_cmd(&mut config, "quality off", None);
    assert!(!config.snapshot().quality_enabled);

    apply_cmd(&mut config, "quality on", None);
    assert!(config.snapshot().quality_enabled);
}

#[test]
fn test_exploration_commands() {
    let mut config = DynamicConfig::new();

    apply_cmd(&mut config, "explore on", None);
    assert!(config.snapshot().exploration_enabled);

    apply_cmd(&mut config, "explore off", None);
    assert!(!config.snapshot().exploration_enabled);
}

#[test]
fn test_rtt_delta_commands() {
    let mut config = DynamicConfig::new();

    apply_cmd(&mut config, "rtt-delta 50", None);
    assert_eq!(config.snapshot().rtt_delta_ms, 50);

    apply_cmd(&mut config, "rtt-delta 100", None);
    assert_eq!(config.snapshot().rtt_delta_ms, 100);
}

#[test]
fn test_effective_quality() {
    // Classic mode - quality never effective
    let snap = ConfigSnapshot {
        mode: SchedulingMode::Classic,
        quality_enabled: true,
        exploration_enabled: true,
        rtt_delta_ms: 30,
        earned_ack_window: false,
    };
    assert!(!snap.effective_quality_enabled());
    assert!(!snap.effective_exploration_enabled());

    // Enhanced mode - both can be effective
    let snap = ConfigSnapshot {
        mode: SchedulingMode::Enhanced,
        quality_enabled: true,
        exploration_enabled: true,
        rtt_delta_ms: 30,
        earned_ack_window: false,
    };
    assert!(snap.effective_quality_enabled());
    assert!(snap.effective_exploration_enabled());

    // RTT-threshold mode - quality effective, exploration not
    let snap = ConfigSnapshot {
        mode: SchedulingMode::RttThreshold,
        quality_enabled: true,
        exploration_enabled: true,
        rtt_delta_ms: 30,
        earned_ack_window: false,
    };
    assert!(snap.effective_quality_enabled());
    assert!(!snap.effective_exploration_enabled());
}

fn is_silent(r: &CmdResponse) -> bool {
    matches!(r, CmdResponse::Silent)
}

#[test]
fn edpf_mode_and_surrounding_whitespace_are_accepted() {
    let mut config = DynamicConfig::new();
    let r = apply_cmd(&mut config, "  mode   edpf \n", None);
    assert!(is_silent(&r));
    assert_eq!(config.mode(), SchedulingMode::Edpf);
}

#[test]
fn invalid_commands_leave_the_configuration_unchanged() {
    let mut config = DynamicConfig::from_cli(SchedulingMode::Classic, false, true, 77, true);
    for cmd in [
        "",
        "   ",
        "mode",
        "mode turbo",
        "mode classic extra",
        "quality maybe",
        "explore",
        "rtt-delta",
        "rtt-delta -5",
        "rtt-delta 4294967296",
        "rtt-delta fifty",
        "earned-ack yes",
        "frobnicate now",
        "status",
        "MODE enhanced",
    ] {
        let r = apply_cmd(&mut config, cmd, None);
        assert!(is_silent(&r), "{cmd}");
        let snap = config.snapshot();
        assert_eq!(snap.mode, SchedulingMode::Classic, "{cmd}");
        assert!(snap.quality_enabled, "{cmd}");
        assert!(snap.exploration_enabled, "{cmd}");
        assert_eq!(snap.rtt_delta_ms, 77, "{cmd}");
        assert!(snap.earned_ack_window, "{cmd}");
    }
}

#[test]
fn rtt_delta_accepts_the_u32_range_and_a_plus_sign() {
    let mut config = DynamicConfig::new();
    apply_cmd(&mut config, "rtt-delta 4294967295", None);
    assert_eq!(config.snapshot().rtt_delta_ms, u32::MAX);
    apply_cmd(&mut config, "rtt-delta +7", None);
    assert_eq!(config.snapshot().rtt_delta_ms, 7);
    apply_cmd(&mut config, "rtt-delta 0", None);
    assert_eq!(config.snapshot().rtt_delta_ms, 0);
}

#[test]
fn stats_returns_the_provider_json_only_when_one_is_attached() {
    let mut config = DynamicConfig::new();
    match apply_cmd(&mut config, "stats", Some("{\"links\":[]}")) {
        CmdResponse::Json(j) => assert_eq!(j, "{\"links\":[]}"),
        CmdResponse::Silent => panic!("stats with a provider must answer"),
    }
    assert!(is_silent(&apply_cmd(&mut config, "stats", None)));
    assert!(is_silent(&apply_cmd(&mut config, "status", Some("{}"))));
}

#[test]
fn scheduling_mode_codes_and_names_round_trip() {
    for mode in [
        SchedulingMode::Classic,
        SchedulingMode::Enhanced,
        SchedulingMode::RttThreshold,
        SchedulingMode::Edpf,
    ] {
        assert_eq!(SchedulingMode::from_u8(mode.as_u8()), mode);
    }
    assert_eq!(SchedulingMode::from_u8(200), SchedulingMode::Enhanced);
    assert_eq!(SchedulingMode::RttThreshold.name(), "rtt-threshold");
    assert_eq!(SchedulingMode::Edpf.name(), "edpf");
    assert!(SchedulingMode::Classic.is_classic());
    assert!(!SchedulingMode::Edpf.is_enhanced());
}

#[test]
fn only_a_subscribe_events_request_subscribes() {
    assert!(is_subscribe_events(
        r#"{"jsonrpc":"2.0","id":1,"method":"subscribe-events"}"#
    ));
    assert!(!is_subscribe_events(r#"{"jsonrpc":"2.0","id":1,"method":"status"}"#));
    assert!(!is_subscribe_events(r#"{"method":7}"#));
    assert!(!is_subscribe_events("subscribe-events"));
    assert!(!is_subscribe_events(r#"["subscribe-events"]"#));
    assert!(!is_subscribe_events("{not json"));
    assert!(is_subscribe_method(Some("subscribe-events")));
    assert!(!is_subscribe_method(Some("subscribe-event")));
    assert!(!is_subscribe_method(None));
}
