use netmon::config::{Config, TargetConfig};

fn config(log_level: Option<&str>, admins: Vec<i64>) -> Config {
    Config {
        token: "test-token".to_string(),
        log_level: log_level.map(|s| s.to_string()),
        socks5_proxy: None,
        admins,
        targets: vec![TargetConfig {
            address: "127.0.0.1:80".to_string(),
            alias: "local".to_string(),
        }],
        probe_count: 4,
    }
}

#[test]
fn log_level_defaults_to_info() {
    assert_eq!(config(None, vec![]).log_level(), "info");
}

#[test]
fn log_level_uses_the_configured_value() {
    assert_eq!(config(Some("debug"), vec![]).log_level(), "debug");
}

#[test]
fn admin_check_matches_the_configured_list() {
    let cfg = config(None, vec![11, 22]);
    assert!(cfg.is_admin(11));
    assert!(cfg.is_admin(22));
    assert!(!cfg.is_admin(33));
    assert!(!config(None, vec![]).is_admin(11));
}
