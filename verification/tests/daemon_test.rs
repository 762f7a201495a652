use hourglass::config::{Config, UserConfig};
use hourglass::daemon::{plan_tick, tick_is_safe, warning_message, TickAction, TICK_SECONDS};
use hourglass::date::Date;
use hourglass::state::{State, UserState};

fn day() -> Date {
    Date::from_ymd_opt(2026, 3, 7).unwrap()
}

fn config_alice(minutes: u32) -> Config {
    let mut c = Config::default();
    c.users.insert("alice".to_string(), UserConfig { daily_limit_minutes: minutes });
    c
}

fn state_with(user: &str, date: Date, used: u64, ext: i64, warned: Vec<u64>) -> State {
    let mut s = State::default();
    s.users.insert(
        user.to_string(),
        UserState { date, used_seconds: used, extension_seconds: ext, warnings_sent: warned },
    );
    s
}

fn warn_text(a: &TickAction) -> (String, String) {
    match a {
        TickAction::Warn { user, message } => (user.clone(), message.clone()),
        TickAction::Expire { user } => panic!("unexpected expiry of {user}"),
    }
}

#[test]
fn tick_charges_active_user() {
    let config = config_alice(120);
    let mut state = state_with("alice", day(), 1000, 0, vec![]);
    let actions = plan_tick(&config, &vec!["alice".to_string()], &mut state, day());
    assert!(actions.is_empty());
    assert_eq!(state.users.get("alice").unwrap().used_seconds, 1000 + TICK_SECONDS);
}

#[test]
fn tick_warns_at_fifteen_minutes_once() {
    let config = config_alice(120);
    let mut state = state_with("alice", day(), 6340, 0, vec![]);
    let active = vec!["alice".to_string()];
    let actions = plan_tick(&config, &active, &mut state, day());
    assert_eq!(actions.len(), 1);
    assert_eq!(
        warn_text(&actions[0]),
        (
            "alice".to_string(),
            "You have 15 minute(s) of screen time remaining.".to_string()
        )
    );
    assert_eq!(state.users.get("alice").unwrap().warnings_sent, vec![900]);
    let again = plan_tick(&config, &active, &mut state, day());
    assert!(again.is_empty());
    assert_eq!(state.users.get("alice").unwrap().used_seconds, 6360);
    assert_eq!(state.users.get("alice").unwrap().warnings_sent, vec![900]);
}

#[test]
fn tick_announces_every_crossed_threshold() {
    let config = config_alice(120);
    let mut state = state_with("alice", day(), 6940, 0, vec![]);
    let actions = plan_tick(&config, &vec!["alice".to_string()], &mut state, day());
    assert_eq!(actions.len(), 2);
    assert_eq!(warn_text(&actions[0]).1, "You have 15 minute(s) of screen time remaining.");
    assert_eq!(warn_text(&actions[1]).1, "You have 5 minute(s) of screen time remaining.");
    assert_eq!(state.users.get("alice").unwrap().warnings_sent, vec![900, 300]);
}

#[test]
fn tick_last_minute_warning() {
    let config = config_alice(120);
    let mut state = state_with("alice", day(), 7140, 0, vec![900, 300]);
    let actions = plan_tick(&config, &vec!["alice".to_string()], &mut state, day());
    assert_eq!(actions.len(), 1);
    assert_eq!(warn_text(&actions[0]).1, "You have 1 minute(s) of screen time remaining.");
    assert_eq!(state.users.get("alice").unwrap().warnings_sent, vec![900, 300, 60]);
}

#[test]
fn tick_expires_when_time_is_up() {
    let config = config_alice(120);
    let mut state = state_with("alice", day(), 7190, 0, vec![900, 300, 60]);
    let actions = plan_tick(&config, &vec!["alice".to_string()], &mut state, day());
    assert_eq!(actions.len(), 1);
    match &actions[0] {
        TickAction::Expire { user } => assert_eq!(user, "alice"),
        TickAction::Warn { .. } => panic!("expected expiry"),
    }
    assert_eq!(state.users.get("alice").unwrap().used_seconds, 7200);
}

#[test]
fn tick_extension_postpones_expiry() {
    let config = config_alice(120);
    let mut state = state_with("alice", day(), 7190, 1800, vec![900, 300, 60]);
    let actions = plan_tick(&config, &vec!["alice".to_string()], &mut state, day());
    assert!(actions.is_empty());
}

#[test]
fn tick_skips_inactive_and_unmanaged_users() {
    let mut config = config_alice(120);
    config.users.insert("bob".to_string(), UserConfig { daily_limit_minutes: 60 });
    let mut state = state_with("bob", day(), 100, 0, vec![]);
    let active = vec!["alice".to_string(), "carol".to_string()];
    let actions = plan_tick(&config, &active, &mut state, day());
    assert!(actions.is_empty());
    assert_eq!(state.users.get("bob").unwrap().used_seconds, 100);
    assert_eq!(state.users.get("alice").unwrap().used_seconds, TICK_SECONDS);
    assert!(!state.users.contains_key("carol"));
}

#[test]
fn tick_starts_a_new_day_afresh() {
    let config = config_alice(120);
    let old = Date::from_ymd_opt(2026, 3, 6).unwrap();
    let mut state = state_with("alice", old, 7300, 600, vec![900, 300, 60]);
    let actions = plan_tick(&config, &vec!["alice".to_string()], &mut state, day());
    assert!(actions.is_empty());
    let us = state.users.get("alice").unwrap();
    assert_eq!(us.date, day());
    assert_eq!(us.used_seconds, TICK_SECONDS);
    assert_eq!(us.extension_seconds, 0);
    assert!(us.warnings_sent.is_empty());
}

#[test]
fn tick_zero_limit_expires_immediately() {
    let config = config_alice(0);
    let mut state = State::default();
    let actions = plan_tick(&config, &vec!["alice".to_string()], &mut state, day());
    assert_eq!(actions.len(), 1);
    assert!(matches!(&actions[0], TickAction::Expire { .. }));
}

#[test]
fn tick_safety_check() {
    let config = config_alice(120);
    let active = vec!["alice".to_string()];
    let fine = state_with("alice", day(), 100, 0, vec![]);
    assert!(tick_is_safe(&config, &active, &fine, day()));
    let full = state_with("alice", day(), u64::MAX - 5, 0, vec![]);
    assert!(!tick_is_safe(&config, &active, &full, day()));
    let other_day = state_with("alice", Date::from_ymd_opt(2020, 1, 1).unwrap(), u64::MAX, 0, vec![]);
    assert!(tick_is_safe(&config, &active, &other_day, day()));
    let huge_ext = state_with("alice", day(), 0, i64::MAX, vec![]);
    assert!(!tick_is_safe(&config, &active, &huge_ext, day()));
}

#[test]
fn warning_message_texts() {
    assert_eq!(warning_message(900), "You have 15 minute(s) of screen time remaining.");
    assert_eq!(warning_message(300), "You have 5 minute(s) of screen time remaining.");
    assert_eq!(warning_message(60), "You have 1 minute(s) of screen time remaining.");
    assert_eq!(warning_message(30), "You have 30 seconds of screen time remaining.");
}
