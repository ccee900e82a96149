use srtla_send::ab_metrics::{record_cooldown_hold, record_nak, record_switch, AbMetrics};

#[test]
fn counters_start_at_zero_and_only_grow() {
    let mut m = AbMetrics::default();
    assert_eq!((m.switch_count(), m.nak_count(), m.cooldown_hold_count()), (0, 0, 0));
    m.record_switch();
    m.record_nak();
    m.record_nak();
    m.record_cooldown_hold();
    assert_eq!(m.switch_count(), 1);
    assert_eq!(m.nak_count(), 2);
    assert_eq!(m.cooldown_hold_count(), 1);
}

#[test]
fn the_metrics_reply_is_one_line_of_json() {
    let mut m = AbMetrics::new();
    m.record_switch();
    m.record_nak();
    m.record_nak();
    let json = m.to_json();
    assert_eq!(
        json,
        "{\"switch_count\":1,\"nak_count\":2,\"cooldown_hold_count\":0}"
    );
    assert!(!json.contains('\n'));
    let parsed: serde_json::Value = serde_json::from_str(&json).expect("valid JSON");
    assert!(parsed["switch_count"].is_u64());
    assert!(parsed["cooldown_hold_count"].is_u64());
}

#[test]
fn the_shipped_recorders_are_inert() {
    record_switch();
    record_nak();
    record_cooldown_hold();
}
