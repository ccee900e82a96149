use srtla_send::adaptive_env::{
    feature_names, feature_tokens, features, features_csv, init_from_env, parse_attempts, parse_features,
    tuning_keys, FeaturesError, SchedulerFeatures, ALL_FEATURE_BITS,
};

const TOKENS: [&str; 9] = [
    "stall", "loss", "queue", "deadline", "rejoin", "sole", "pref", "ratecap", "quality",
];

#[test]
fn an_absent_value_is_the_shipped_default() {
    assert_eq!(parse_features(None).unwrap(), SchedulerFeatures::default());
    assert_eq!(features(), SchedulerFeatures::default());
    assert!(init_from_env().is_ok());
}

#[test]
fn whole_value_words_are_recognized_after_trimming() {
    assert_eq!(parse_features(Some(" all ")).unwrap(), SchedulerFeatures::all());
    assert_eq!(parse_features(Some("none")).unwrap(), SchedulerFeatures::none());
    assert_eq!(
        parse_features(Some("default")).unwrap(),
        SchedulerFeatures::default()
    );
}

#[test]
fn a_comma_list_sets_exactly_the_named_bits() {
    let f = parse_features(Some("loss, stall ,quality")).unwrap();
    assert_eq!(f.bits(), 0b1_0000_0011);
    assert_eq!(feature_names(f), vec!["stall", "loss", "quality"]);
    assert_eq!(features_csv(f), "stall,loss,quality");
}

#[test]
fn an_empty_value_is_a_startup_error() {
    let e = parse_features(Some("  ")).unwrap_err();
    assert!(matches!(e, FeaturesError::Empty));
    assert_eq!(
        e.message(),
        "SRTLA_ADAPTIVE_FEATURES is empty: use `default`, `all`, `none`, or a comma list of stall,loss,queue,deadline,rejoin,sole,pref,ratecap,quality"
    );
}

#[test]
fn whole_value_words_inside_a_list_are_unknown_tokens() {
    match parse_features(Some("stall,all")).unwrap_err() {
        FeaturesError::UnknownFeature(t) => assert_eq!(t, "all"),
        FeaturesError::Empty => panic!("not empty"),
    }
    match parse_features(Some("stall,,loss")).unwrap_err() {
        FeaturesError::UnknownFeature(t) => assert_eq!(t, ""),
        FeaturesError::Empty => panic!("not empty"),
    }
    let e = parse_features(Some("stall, turbo ")).unwrap_err();
    assert_eq!(
        e.message(),
        "SRTLA_ADAPTIVE_FEATURES: unknown feature 'turbo'; expected one of stall,loss,queue,deadline,rejoin,sole,pref,ratecap,quality (or the whole value `all`, `none`, `default`)"
    );
}

#[test]
fn the_operator_list_round_trips_through_the_parser() {
    for bits in [0u16, 1, 0b1010_1010, 0x100, ALL_FEATURE_BITS, 0x0f0] {
        let f = SchedulerFeatures::from_bits(bits);
        let csv = features_csv(f);
        assert_eq!(parse_features(Some(&csv)).unwrap(), f, "{csv}");
    }
    assert_eq!(features_csv(SchedulerFeatures::none()), "none");
    assert_eq!(features_csv(SchedulerFeatures::all()), TOKENS.join(","));
}

#[test]
fn feature_sets_combine_and_contain() {
    let stall = SchedulerFeatures::from_bits(1);
    let loss = SchedulerFeatures::from_bits(2);
    let both = stall.union(loss);
    assert!(both.contains(stall));
    assert!(both.contains(loss));
    assert!(!stall.contains(both));
    assert_eq!(SchedulerFeatures::from_bits(0xffff).bits(), ALL_FEATURE_BITS);
}

#[test]
fn stall_attempts_must_be_an_integer_in_range() {
    assert_eq!(parse_attempts("stall_attempts", "32"), Ok(32));
    assert_eq!(parse_attempts("stall_attempts", "10000"), Ok(10000));
    assert_eq!(
        parse_attempts("stall_attempts", "0"),
        Err("SRTLA_ADAPTIVE_TUNING: stall_attempts=0 is outside 1..=10000".to_string())
    );
    assert_eq!(
        parse_attempts("stall_attempts", "10001"),
        Err("SRTLA_ADAPTIVE_TUNING: stall_attempts=10001 is outside 1..=10000".to_string())
    );
    assert_eq!(
        parse_attempts("stall_attempts", "many"),
        Err("SRTLA_ADAPTIVE_TUNING: stall_attempts='many' is not an integer".to_string())
    );
}

#[test]
fn token_list_names_every_feature_in_table_order() {
    assert_eq!(
        feature_tokens(),
        "stall,loss,queue,deadline,rejoin,sole,pref,ratecap,quality"
    );
}

#[test]
fn tuning_key_list_names_every_override() {
    assert_eq!(
        tuning_keys(),
        "stall_attempts,loss_enter,deadline_hold_fraction,ratecap_loss_backoff"
    );
}

#[test]
fn feature_values_are_accepted_exactly_when_every_entry_is_known() {
    for ok in ["all", " none ", "default", "stall", " loss , queue ", "pref,pref"] {
        assert!(parse_features(Some(ok)).is_ok(), "{ok}");
    }
    for bad in ["", "  ", "stall,all", "stall,", ",stall", "turbo", "all,none"] {
        assert!(parse_features(Some(bad)).is_err(), "{bad}");
    }
}

#[test]
fn feature_names_joined_parse_back_to_the_set() {
    for bits in [1u16, 0b10_0000, 0b1_0101_0101, ALL_FEATURE_BITS] {
        let f = SchedulerFeatures::from_bits(bits);
        let joined = feature_names(f).join(",");
        assert_eq!(parse_features(Some(&joined)).unwrap(), f);
    }
    assert!(feature_names(SchedulerFeatures::none()).is_empty());
}
