use hourglass::config::{Config, UserConfig};
use hourglass::date::Date;
use hourglass::pam::{login_allowed_on, login_check_is_defined};
use hourglass::state::{State, UserState};

fn day() -> Date {
    Date::from_ymd_opt(2026, 3, 7).unwrap()
}

fn setup(used: u64, date: Date) -> (Config, State) {
    let mut config = Config::default();
    config.users.insert("alice".to_string(), UserConfig { daily_limit_minutes: 60 });
    let mut state = State::default();
    state.users.insert(
        "alice".to_string(),
        UserState { date, used_seconds: used, extension_seconds: 0, warnings_sent: vec![] },
    );
    (config, state)
}

#[test]
fn login_unmanaged_user_allowed() {
    let (config, state) = setup(99999, day());
    assert!(login_allowed_on(&config, &state, "mallory", day()));
}

#[test]
fn login_without_record_allowed() {
    let (config, _) = setup(0, day());
    assert!(login_allowed_on(&config, &State::default(), "alice", day()));
}

#[test]
fn login_denied_when_time_used_up_today() {
    let (config, state) = setup(3600, day());
    assert!(!login_allowed_on(&config, &state, "alice", day()));
}

#[test]
fn login_allowed_with_time_left() {
    let (config, state) = setup(3590, day());
    assert!(login_allowed_on(&config, &state, "alice", day()));
}

#[test]
fn login_allowed_on_a_new_day() {
    let (config, state) = setup(99999, Date::from_ymd_opt(2026, 3, 6).unwrap());
    assert!(login_allowed_on(&config, &state, "alice", day()));
}

#[test]
fn login_check_defined_cases() {
    let (config, state) = setup(3600, day());
    assert!(login_check_is_defined(&config, &state, "alice", day()));
    let mut config2 = Config::default();
    config2.users.insert("alice".to_string(), UserConfig { daily_limit_minutes: 60 });
    let mut state2 = State::default();
    state2.users.insert(
        "alice".to_string(),
        UserState { date: day(), used_seconds: 0, extension_seconds: i64::MAX, warnings_sent: vec![] },
    );
    assert!(!login_check_is_defined(&config2, &state2, "alice", day()));
}
