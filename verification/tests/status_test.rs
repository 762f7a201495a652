use hourglass::config::{Config, UserConfig};
use hourglass::date::Date;
use hourglass::session::SessionStatus;
use hourglass::state::{State, UserState};
use hourglass::status::{report_is_defined, report_lines, status_report, status_users, StatusLabel};
use hourglass::usermap::UserMap;

fn day() -> Date {
    Date::from_ymd_opt(2026, 3, 7).unwrap()
}

fn setup(used: u64, ext: i64, date: Date) -> (Config, State) {
    let mut config = Config::default();
    config.users.insert("alice".to_string(), UserConfig { daily_limit_minutes: 120 });
    config.users.insert("bob".to_string(), UserConfig { daily_limit_minutes: 60 });
    let mut state = State::default();
    state.users.insert(
        "alice".to_string(),
        UserState { date, used_seconds: used, extension_seconds: ext, warnings_sent: vec![] },
    );
    (config, state)
}

#[test]
fn status_report_active_user_lines() {
    let (config, state) = setup(3725, 900, day());
    let mut statuses = UserMap::new();
    statuses.insert("alice".to_string(), SessionStatus::Active);
    let r = status_report(&config, &state, &statuses, "alice", day());
    assert_eq!(r.remaining_seconds, 4375);
    assert_eq!(r.label, StatusLabel::Active);
    assert_eq!(
        report_lines(&r),
        vec![
            "alice:".to_string(),
            "  limit:     120m".to_string(),
            "  used:      62m 5s".to_string(),
            "  extension: 15m".to_string(),
            "  remaining: 72m 55s".to_string(),
            "  status:    ACTIVE".to_string(),
        ]
    );
}

#[test]
fn status_report_locked_out() {
    let (config, state) = setup(7261, 0, day());
    let statuses = UserMap::new();
    let r = status_report(&config, &state, &statuses, "alice", day());
    assert_eq!(r.remaining_seconds, -61);
    assert_eq!(r.label, StatusLabel::LockedOut);
    let lines = report_lines(&r);
    assert_eq!(lines[4], "  remaining: -1m 1s");
    assert_eq!(lines[5], "  status:    LOCKED OUT");
}

#[test]
fn status_report_small_negative_remaining() {
    let (config, state) = setup(7259, 0, day());
    let r = status_report(&config, &state, &UserMap::new(), "alice", day());
    assert_eq!(r.remaining_seconds, -59);
    assert_eq!(report_lines(&r)[4], "  remaining: 0m 59s");
}

#[test]
fn status_report_old_record_counts_as_unused() {
    let (config, state) = setup(99999, 600, Date::from_ymd_opt(2026, 3, 6).unwrap());
    let mut statuses = UserMap::new();
    statuses.insert("alice".to_string(), SessionStatus::Idle);
    let r = status_report(&config, &state, &statuses, "alice", day());
    assert_eq!(r.used_seconds, 0);
    assert_eq!(r.extension_seconds, 0);
    assert_eq!(r.remaining_seconds, 7200);
    assert_eq!(r.label, StatusLabel::Idle);
}

#[test]
fn status_report_not_logged_in_and_unmanaged() {
    let (config, state) = setup(0, 0, day());
    let r = status_report(&config, &state, &UserMap::new(), "bob", day());
    assert_eq!(r.label, StatusLabel::NotLoggedIn);
    assert_eq!(r.remaining_seconds, 3600);
    let u = status_report(&config, &state, &UserMap::new(), "zoe", day());
    assert_eq!(u.limit_minutes, 0);
    assert_eq!(u.label, StatusLabel::LockedOut);
    assert_eq!(report_lines(&u)[1], "  limit:     0m");
}

#[test]
fn status_users_all_or_one() {
    let (config, _) = setup(0, 0, day());
    assert_eq!(status_users(&config, None), vec!["alice".to_string(), "bob".to_string()]);
    assert_eq!(status_users(&config, Some("zoe")), vec!["zoe".to_string()]);
    assert!(status_users(&Config::default(), None).is_empty());
}

#[test]
fn status_report_defined_cases() {
    let (config, state) = setup(0, 0, day());
    assert!(report_is_defined(&config, &state, "alice", day()));
    let (config2, state2) = setup(0, i64::MAX, day());
    assert!(!report_is_defined(&config2, &state2, "alice", day()));
}
