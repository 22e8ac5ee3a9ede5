use startradfr::discord::{DiscordActivity, DiscordSession};
use startradfr::poller::{
    plan_sync, plan_tick, BackgroundServiceConfig, BackgroundServiceState, SyncAction, TickPlan,
};

#[test]
fn start_twice_rejects_the_second_call() {
    let mut state = BackgroundServiceState::new();
    assert!(state.start().is_ok());
    assert!(state.is_running);
    assert!(state.cancel_pending);
    // a second start without an intervening stop is rejected
    assert!(state.start().is_err());
    assert!(state.is_running);
}

#[test]
fn stop_on_stopped_poller_rejects() {
    let mut state = BackgroundServiceState::new();
    assert!(state.stop().is_err());
    assert!(state.start().is_ok());
    assert!(state.stop().is_ok());
    assert!(!state.is_running);
    assert!(!state.cancel_pending);
    // the handle was consumed: a second stop reports not running
    assert!(state.stop().is_err());
}

#[test]
fn loop_exit_marks_stopped() {
    let mut state = BackgroundServiceState::new();
    assert!(state.start().is_ok());
    state.on_loop_exit();
    assert!(!state.is_running);
    assert!(state.start().is_ok());
}

#[test]
fn default_config_values() {
    let config = BackgroundServiceConfig::default();
    assert!(!config.enabled);
    assert_eq!(config.check_interval_minutes, 5);
    assert_eq!(config.language, "fr");
}

#[test]
fn tick_plan_follows_the_snapshot() {
    let mut config = BackgroundServiceConfig::default();
    config.enabled = true;
    config.check_interval_minutes = 5;
    assert_eq!(plan_tick(&config), TickPlan::RunAndSleep { sleep_seconds: 300 });
    config.enabled = false;
    assert_eq!(plan_tick(&config), TickPlan::Leave);
}

#[test]
fn interval_change_takes_effect_next_iteration() {
    // the loop reads its configuration at the top of each iteration; the
    // sleep planned from a snapshot is unaffected by later mutation
    let mut config = BackgroundServiceConfig::default();
    config.enabled = true;
    config.check_interval_minutes = 5;
    let planned_at_tick = plan_tick(&config);
    // the configuration changes while the loop would be sleeping
    config.check_interval_minutes = 1;
    assert_eq!(planned_at_tick, TickPlan::RunAndSleep { sleep_seconds: 300 });
    // the following iteration re-reads and sleeps for the new interval
    assert_eq!(plan_tick(&config), TickPlan::RunAndSleep { sleep_seconds: 60 });
}

#[test]
fn tick_plan_saturates_gigantic_intervals() {
    let mut config = BackgroundServiceConfig::default();
    config.enabled = true;
    config.check_interval_minutes = u64::MAX;
    assert_eq!(plan_tick(&config), TickPlan::RunAndSleep { sleep_seconds: u64::MAX });
}

#[test]
fn per_installation_sync_decisions() {
    assert_eq!(plan_sync(false, true, false), SyncAction::NoSource);
    assert_eq!(plan_sync(true, false, false), SyncAction::NotInstalled);
    assert_eq!(plan_sync(true, true, true), SyncAction::AlreadyCurrent);
    assert_eq!(plan_sync(true, true, false), SyncAction::DoUpdate);
}

fn activity(text: &str) -> DiscordActivity {
    DiscordActivity {
        state: Some(text.to_string()),
        details: None,
        large_image: None,
        large_text: None,
        small_image: None,
        small_text: None,
    }
}

#[test]
fn discord_session_transitions() {
    let mut session = DiscordSession::new();
    assert!(!session.connected);
    // a failed connection attempt leaves the session disconnected
    assert!(session.on_connect(false).is_err());
    assert!(!session.connected);
    // a successful one connects it
    assert!(session.on_connect(true).is_ok());
    assert!(session.connected);
    // showing an activity stores it
    assert!(session.on_set_activity(activity("syncing"), true).is_ok());
    assert!(session.current_activity.is_some());
    let status = session.status();
    assert!(status.connected);
    assert!(status.activity.is_some());
    // a failed update means the connection died
    assert!(session.on_set_activity(activity("again"), false).is_err());
    assert!(!session.connected);
    // updates while disconnected are rejected
    assert!(session.on_set_activity(activity("x"), true).is_err());
    // disconnect clears everything
    session.disconnect();
    assert!(!session.has_client);
    assert!(session.current_activity.is_none());
}

#[test]
fn discord_clear_activity() {
    let mut session = DiscordSession::new();
    assert!(session.on_clear_activity(true).is_err());
    assert!(session.on_connect(true).is_ok());
    assert!(session.on_set_activity(activity("shown"), true).is_ok());
    assert!(session.on_clear_activity(true).is_ok());
    assert!(session.current_activity.is_none());
    assert!(session.connected);
}

#[test]
fn discord_preset_activities() {
    let default = DiscordSession::default_activity();
    assert_eq!(default.state.as_deref(), Some("G\u{e8}re ses traductions"));
    assert_eq!(default.details.as_deref(), Some("StarTrad FR"));
    let translating = DiscordSession::translating_activity("LIVE");
    assert_eq!(translating.state.as_deref(), Some("Traduit LIVE"));
    assert_eq!(translating.large_image.as_deref(), Some("icon"));
}
