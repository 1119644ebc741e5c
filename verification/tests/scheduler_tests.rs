use translation_sync::config::BackgroundServiceConfig;
use translation_sync::locator::{VersionInfo, VersionPaths};
use translation_sync::prefs::TranslationsSelected;
use translation_sync::scheduler::{
    plan_pass, should_update, sleep_seconds, update_event, BackgroundServiceState, ServiceAction,
};

fn running_state() -> BackgroundServiceState {
    let mut s = BackgroundServiceState::default();
    s.start();
    s
}

#[test]
fn start_twice_spawns_exactly_one_loop_task() {
    let mut s = BackgroundServiceState::default();
    let first = s.start();
    let second = s.start();
    // both calls succeed; only the first spawns a task
    assert!(first);
    assert!(!second);
    assert!(s.is_running);
}

#[test]
fn stop_is_observed_at_the_next_tick() {
    let mut s = running_state();
    assert!(s.loop_tick().0);
    s.stop();
    let (go_on, _) = s.loop_tick();
    assert!(!go_on);
    assert!(!s.is_running);
}

#[test]
fn disabling_config_stops_without_a_separate_stop_call() {
    let mut s = running_state();
    let new_config = BackgroundServiceConfig {
        enabled: false,
        check_interval_minutes: 30,
        auto_update: true,
        start_with_windows: false,
    };
    let plan = s.set_config(new_config);
    assert_eq!(plan.action, ServiceAction::Stop);
    // the configuration is committed before the action runs
    assert_eq!(s.get_config(), new_config);
    match plan.action {
        ServiceAction::Stop => s.stop(),
        ServiceAction::Start => {
            s.start();
        },
    }
    assert!(!s.is_running);
    assert_eq!(s.get_config(), new_config);
}

#[test]
fn enabling_config_asks_for_a_start() {
    let mut s = BackgroundServiceState::default();
    let new_config = BackgroundServiceConfig { enabled: true, ..BackgroundServiceConfig::default() };
    let plan = s.set_config(new_config);
    assert_eq!(plan.action, ServiceAction::Start);
    assert_eq!(plan.autostart_enable, false);
    assert!(!s.is_running);
}

#[test]
fn update_runs_only_when_installed_stale_and_wanted() {
    assert!(should_update(true, true, false, true));
    assert!(!should_update(false, true, false, true)); // no link
    assert!(!should_update(true, false, false, true)); // not installed
    assert!(!should_update(true, true, true, true)); // already current
    assert!(!should_update(true, true, false, false)); // auto-update off
}

#[test]
fn update_events_carry_outcome_and_error() {
    let ok = update_event("LIVE", &Ok(()));
    assert_eq!(ok.version.as_str(), "LIVE");
    assert!(ok.success);
    assert!(ok.error.is_none());
    let failed = update_event("PTU", &Err("network down".to_string()));
    assert_eq!(failed.version.as_str(), "PTU");
    assert!(!failed.success);
    assert_eq!(failed.error.unwrap().as_str(), "network down");
}

#[test]
fn one_stale_live_channel_gives_one_update_pass() {
    // the documented scenario: a one-hour interval, the service enabled,
    // automatic updates on, one LIVE installation with a stale remote asset
    let mut s = BackgroundServiceState::default();
    let config = BackgroundServiceConfig {
        enabled: true,
        check_interval_minutes: 60,
        auto_update: true,
        start_with_windows: false,
    };
    let plan = s.set_config(config);
    assert_eq!(plan.action, ServiceAction::Start);
    assert!(s.start());

    let (go_on, interval) = s.loop_tick();
    assert!(go_on);
    assert_eq!(interval, 60);

    let versions = VersionPaths {
        versions: vec![(
            "LIVE".to_string(),
            VersionInfo {
                path: "E:\\Games\\StarCitizen\\LIVE".to_string(),
                translated: false,
                up_to_date: false,
            },
        )],
    };
    let prefs = TranslationsSelected {
        live: Some("https://example.invalid/live.ini".to_string()),
        ptu: None,
        eptu: None,
        techpreview: None,
        preview40: None,
    };
    let checks = plan_pass(&versions, &prefs);
    assert_eq!(checks.len(), 1);
    assert_eq!(checks[0].channel.as_str(), "LIVE");
    assert_eq!(checks[0].path.as_str(), "E:\\Games\\StarCitizen\\LIVE");
    assert_eq!(checks[0].link.as_str(), "https://example.invalid/live.ini");

    // installed and stale, automatic updates on: exactly one update runs
    assert!(should_update(true, true, false, config.auto_update));
    let event = update_event(checks[0].channel.as_str(), &Ok(()));
    assert!(event.success);
    assert_eq!(event.version.as_str(), "LIVE");
    assert!(event.error.is_none());

    // then the loop suspends for a full hour before the next pass
    assert_eq!(sleep_seconds(interval), 3600);
}

#[test]
fn channels_without_a_link_are_skipped() {
    let versions = VersionPaths {
        versions: vec![
            (
                "LIVE".to_string(),
                VersionInfo { path: "a".to_string(), translated: false, up_to_date: false },
            ),
            (
                "PTU".to_string(),
                VersionInfo { path: "b".to_string(), translated: false, up_to_date: false },
            ),
        ],
    };
    let prefs = TranslationsSelected {
        live: None,
        ptu: Some("link".to_string()),
        eptu: None,
        techpreview: None,
        preview40: None,
    };
    let checks = plan_pass(&versions, &prefs);
    assert_eq!(checks.len(), 1);
    assert_eq!(checks[0].channel.as_str(), "PTU");
    assert_eq!(checks[0].path.as_str(), "b");
}
