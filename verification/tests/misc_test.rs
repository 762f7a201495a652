use hourglass::date::Date;
use hourglass::fmt::u64_to_decimal;
use hourglass::notify::{dbus_address, display_or_default};
use hourglass::session::{
    is_active_graphical, is_listed, parse_display_property, parse_session_line,
    parse_session_list, parse_session_properties, record_session_status, session_status,
    sessions_of_user,
    SessionStatus,
};
use hourglass::state::{State, UserState};
use hourglass::usermap::UserMap;

#[test]
fn date_validation() {
    assert!(Date::from_ymd_opt(2015, 3, 14).is_some());
    assert!(Date::from_ymd_opt(2015, 0, 14).is_none());
    assert!(Date::from_ymd_opt(2015, 2, 29).is_none());
    assert!(Date::from_ymd_opt(-4, 2, 29).is_some());
    assert!(Date::from_ymd_opt(400000, 1, 1).is_none());
    assert!(Date::from_ymd_opt(-400000, 1, 1).is_none());
    assert!(Date::from_ymd_opt(2023, 4, 31).is_none());
    assert!(Date::from_ymd_opt(1900, 2, 29).is_none());
    assert!(Date::from_ymd_opt(2000, 2, 29).is_some());
    let d = Date::from_ymd_opt(2026, 3, 7).unwrap();
    assert_eq!((d.year, d.month, d.day), (2026, 3, 7));
}

#[test]
fn decimal_rendering() {
    assert_eq!(u64_to_decimal(0), "0");
    assert_eq!(u64_to_decimal(7), "7");
    assert_eq!(u64_to_decimal(1234567890), "1234567890");
    assert_eq!(u64_to_decimal(u64::MAX), "18446744073709551615");
}

#[test]
fn notification_targets() {
    assert_eq!(dbus_address(1000), "unix:path=/run/user/1000/bus");
    assert_eq!(dbus_address(0), "unix:path=/run/user/0/bus");
    assert_eq!(display_or_default(None), ":0");
    assert_eq!(display_or_default(Some(":1".to_string())), ":1");
}

#[test]
fn session_line_with_unicode_whitespace() {
    assert_eq!(parse_session_line("1\u{3000}1000\u{a0}dave"), Some(("1", "dave")));
    assert_eq!(parse_session_line("\t7\t1000\tuser\u{e9}\t"), Some(("7", "user\u{e9}")));
}

#[test]
fn session_properties_with_crlf() {
    let out = "Type=x11\r\nClass=user\r\nState=active\r\nIdleHint=yes";
    assert_eq!(parse_session_properties(out), (true, true, true, true));
    assert_eq!(parse_display_property("Display=:1\r\n"), Some(":1".to_string()));
}

#[test]
fn display_first_nonempty_wins() {
    let out = "Display=\nDisplay=:2\nDisplay=:3\n";
    assert_eq!(parse_display_property(out), Some(":2".to_string()));
    assert_eq!(parse_display_property(" Display=:4\n"), None);
}

#[test]
fn session_list_parsing() {
    let out = "  42 1000 alice seat0 tty2\n\n43 1001\n44 1002 carol seat0 -";
    let list = parse_session_list(out);
    assert_eq!(
        list,
        vec![
            ("42".to_string(), "alice".to_string()),
            ("44".to_string(), "carol".to_string())
        ]
    );
    assert!(parse_session_list("").is_empty());
}

#[test]
fn session_status_from_properties() {
    assert_eq!(
        session_status("Type=x11\nClass=user\nState=active\n"),
        Some(SessionStatus::Active)
    );
    assert_eq!(
        session_status("Type=wayland\nClass=user\nState=online\n"),
        Some(SessionStatus::Idle)
    );
    assert_eq!(
        session_status("Type=x11\nClass=user\nState=active\nIdleHint=yes\n"),
        Some(SessionStatus::Idle)
    );
    assert_eq!(session_status("Type=tty\nClass=user\nState=active\n"), None);
    assert_eq!(session_status("Type=x11\nClass=greeter\nState=active\n"), None);
    assert!(is_active_graphical("Type=x11\nClass=user\nState=active\n"));
    assert!(!is_active_graphical("Type=x11\nClass=user\nState=active\nIdleHint=yes\n"));
    assert!(!is_active_graphical("Type=tty\nClass=user\nState=active\n"));
    assert!(is_active_graphical("Type=wayland\nClass=user\nState=active\nIdleHint=no\n"));
    assert!(!is_active_graphical("Type=mir\nClass=user\nState=active\n"));
    assert!(!is_active_graphical("Type=x11\nClass=user\nState=online\n"));
    assert!(!is_active_graphical("Type=x11\nClass=greeter\nState=active\n"));
}

#[test]
fn active_session_wins_over_idle() {
    let mut statuses = UserMap::new();
    record_session_status(&mut statuses, "alice", SessionStatus::Idle);
    assert_eq!(statuses.get("alice"), Some(&SessionStatus::Idle));
    record_session_status(&mut statuses, "alice", SessionStatus::Active);
    assert_eq!(statuses.get("alice"), Some(&SessionStatus::Active));
    record_session_status(&mut statuses, "alice", SessionStatus::Idle);
    assert_eq!(statuses.get("alice"), Some(&SessionStatus::Active));
    record_session_status(&mut statuses, "bob", SessionStatus::Active);
    assert_eq!(statuses.len(), 2);
}

#[test]
fn listed_names() {
    let names = vec!["alice".to_string(), "bob".to_string()];
    assert!(is_listed(&names, "bob"));
    assert!(!is_listed(&names, "carol"));
    assert!(!is_listed(&Vec::new(), "alice"));
}

#[test]
fn grant_extension_same_day_and_new_day() {
    let day = Date::from_ymd_opt(2026, 3, 7).unwrap();
    let mut state = State::default();
    state.users.insert(
        "alice".to_string(),
        UserState { date: day, used_seconds: 100, extension_seconds: 600, warnings_sent: vec![900] },
    );
    assert_eq!(state.grant_extension("alice", 15, day), 25);
    let us = state.users.get("alice").unwrap();
    assert_eq!(us.extension_seconds, 1500);
    assert_eq!(us.used_seconds, 100);
    assert_eq!(us.warnings_sent, vec![900]);
    let next = Date::from_ymd_opt(2026, 3, 8).unwrap();
    assert_eq!(state.grant_extension("alice", 15, next), 15);
    let us = state.users.get("alice").unwrap();
    assert_eq!(us.date, next);
    assert_eq!(us.used_seconds, 0);
    assert_eq!(us.extension_seconds, 900);
    assert!(us.warnings_sent.is_empty());
    assert_eq!(state.grant_extension("bob", 30, next), 30);
    assert_eq!(state.users.get("bob").unwrap().extension_seconds, 1800);
    assert!(state.grant_is_defined("alice", 15, next));
    state.users.insert(
        "carol".to_string(),
        UserState { date: next, used_seconds: 0, extension_seconds: i64::MAX - 60, warnings_sent: vec![] },
    );
    assert!(!state.grant_is_defined("carol", 2, next));
    assert!(state.grant_is_defined("carol", 1, next));
    assert!(state.grant_is_defined("carol", 2, day));
}

#[test]
fn usermap_keeps_insertion_order() {
    let mut m: UserMap<u32> = UserMap::new();
    m.insert("c".to_string(), 3);
    m.insert("a".to_string(), 1);
    m.insert("b".to_string(), 2);
    m.insert("a".to_string(), 10);
    assert_eq!(m.len(), 3);
    assert_eq!((m.key_at(0).as_str(), *m.value_at(0)), ("c", 3));
    assert_eq!((m.key_at(1).as_str(), *m.value_at(1)), ("a", 10));
    assert_eq!(m.remove("c"), Some(3));
    assert_eq!(m.key_at(0), "a");
    *m.get_mut("b") += 5;
    assert_eq!(m.get("b"), Some(&7));
}

#[test]
fn sessions_of_one_user() {
    let out = "42 1000 alice seat0 tty2\n43 1001 bob seat0 tty7\n44 1000 alice seat0 tty3\n45 1002";
    assert_eq!(sessions_of_user(out, "alice"), vec!["42".to_string(), "44".to_string()]);
    assert_eq!(sessions_of_user(out, "bob"), vec!["43".to_string()]);
    assert!(sessions_of_user(out, "carol").is_empty());
}

#[test]
fn properties_of_concatenated_outputs() {
    let a = "Type=x11\nState=online\n";
    let b = "Class=user\nIdleHint=yes\n";
    let whole = format!("{a}{b}");
    assert_eq!(parse_session_properties(a), (true, false, false, false));
    assert_eq!(parse_session_properties(b), (false, true, false, true));
    assert_eq!(parse_session_properties(&whole), (true, true, false, true));
}
