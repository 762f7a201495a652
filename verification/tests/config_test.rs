use hourglass::config::{Config, UserConfig};

#[test]
fn config_default_is_empty() {
    let config = Config::default();
    assert!(config.users.is_empty());
}

#[test]
fn config_insert_and_replace_limit() {
    let mut config = Config::default();
    assert!(config
        .users
        .insert("alice".to_string(), UserConfig { daily_limit_minutes: 90 })
        .is_none());
    config.users.insert("bob".to_string(), UserConfig { daily_limit_minutes: 45 });
    let prev = config
        .users
        .insert("alice".to_string(), UserConfig { daily_limit_minutes: 30 });
    assert_eq!(prev, Some(UserConfig { daily_limit_minutes: 90 }));
    assert_eq!(config.users.len(), 2);
    assert_eq!(config.users.get("alice").unwrap().daily_limit_minutes, 30);
    assert_eq!(config.users.get("bob").unwrap().daily_limit_minutes, 45);
    assert_eq!(config.users.key_at(0), "alice");
    assert_eq!(config.users.key_at(1), "bob");
}

#[test]
fn config_remove_limit() {
    let mut config = Config::new();
    config.users.insert("alice".to_string(), UserConfig { daily_limit_minutes: 90 });
    config.users.insert("bob".to_string(), UserConfig { daily_limit_minutes: 45 });
    assert_eq!(
        config.users.remove("alice"),
        Some(UserConfig { daily_limit_minutes: 90 })
    );
    assert!(config.users.remove("alice").is_none());
    assert!(!config.users.contains_key("alice"));
    assert!(config.users.contains_key("bob"));
    assert_eq!(config.users.len(), 1);
}

#[test]
fn config_zero_and_large_limits_in_seconds() {
    assert_eq!(hourglass::config::minutes_to_seconds(0), 0);
    assert_eq!(hourglass::config::minutes_to_seconds(1440), 86400);
    assert_eq!(hourglass::config::minutes_to_seconds(u32::MAX), u32::MAX as u64 * 60);
}
