use translation_sync::config::{
    config_to_json, load_background_service_config, parse_config, u64_to_string,
    BackgroundServiceConfig,
};

const DEFAULT_JSON: &str = "{\n  \"enabled\": false,\n  \"check_interval_minutes\": 60,\n  \"auto_update\": true,\n  \"start_with_windows\": false\n}";

#[test]
fn missing_config_yields_default() {
    let loaded = load_background_service_config(None).unwrap();
    assert_eq!(loaded.enabled, false);
    assert_eq!(loaded.check_interval_minutes, 60);
    assert_eq!(loaded.auto_update, true);
    assert_eq!(loaded.start_with_windows, false);
    assert_eq!(loaded, BackgroundServiceConfig::default());
}

#[test]
fn corrupt_config_is_error_not_default() {
    assert!(load_background_service_config(Some("not json at all")).is_err());
    assert!(load_background_service_config(Some("")).is_err());
    assert!(load_background_service_config(Some("{}")).is_err());
    assert!(load_background_service_config(Some("{\n  \"enabled\": maybe,\n}")).is_err());
    // a truncated document is malformed
    let good = config_to_json(&BackgroundServiceConfig::default());
    let truncated = &good[..good.len() - 1];
    assert!(load_background_service_config(Some(truncated)).is_err());
    // trailing garbage is malformed
    let extended = format!("{} ", good);
    assert!(load_background_service_config(Some(&extended)).is_err());
}

#[test]
fn default_config_serializes_to_documented_layout() {
    let json = config_to_json(&BackgroundServiceConfig::default());
    assert_eq!(json.as_str(), DEFAULT_JSON);
}

#[test]
fn config_round_trips_through_json() {
    let configs = [
        BackgroundServiceConfig::default(),
        BackgroundServiceConfig {
            enabled: true,
            check_interval_minutes: 1,
            auto_update: false,
            start_with_windows: true,
        },
        BackgroundServiceConfig {
            enabled: true,
            check_interval_minutes: u64::MAX,
            auto_update: true,
            start_with_windows: false,
        },
    ];
    for c in configs {
        let json = config_to_json(&c);
        let loaded = load_background_service_config(Some(json.as_str())).unwrap();
        assert_eq!(loaded, c);
    }
}

#[test]
fn u64_to_string_writes_decimal() {
    assert_eq!(u64_to_string(0).as_str(), "0");
    assert_eq!(u64_to_string(60).as_str(), "60");
    assert_eq!(u64_to_string(105).as_str(), "105");
    assert_eq!(u64_to_string(u64::MAX).as_str(), "18446744073709551615");
}

#[test]
fn parse_config_accepts_exactly_the_canonical_form() {
    let c = parse_config(DEFAULT_JSON).unwrap();
    assert_eq!(c, BackgroundServiceConfig::default());
    // an interval too large for the field is rejected, not wrapped
    let too_big = DEFAULT_JSON.replace(": 60,", ": 18446744073709551616,");
    assert!(parse_config(&too_big).is_none());
    // reordered keys are not the canonical document
    let reordered = "{\n  \"auto_update\": true,\n  \"enabled\": false,\n  \"check_interval_minutes\": 60,\n  \"start_with_windows\": false\n}";
    assert!(parse_config(reordered).is_none());
}
