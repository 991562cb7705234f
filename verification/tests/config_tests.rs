use logstream::config::{
    config_format, discover_config_path, extension, AppConfig, ConfigError, ConfigFormat, RuleAction,
};

#[test]
fn default_settings() {
    let c = AppConfig::default();
    assert_eq!(c.format, "{timestamp?} {level} {message} {fields}");
    assert_eq!(c.workers, 4);
    assert!(!c.read_from_end);
    assert_eq!(c.poll_interval_ms, 500);
    assert_eq!(c.retained_events, 500);
    assert_eq!(c.filters.levels, Some(vec!["ERROR".to_string(), "INFO".to_string(), "WARN".to_string()]));
    assert_eq!(c.rules.len(), 1);
    assert_eq!(c.rules[0].name, "error-burst");
    assert_eq!(c.rules[0].action, RuleAction::Warn);
    assert_eq!(c.rules[0].threshold, 5);
    assert_eq!(c.rules[0].window_seconds, 30);
    let report = c.report.unwrap();
    assert_eq!(report.path.as_deref(), Some("reports/logstream-report.txt"));
    assert_eq!(report.flush_interval_seconds, 10);
}

#[test]
fn workers_held_in_range() {
    let mut c = AppConfig::default();
    c.workers = 0;
    assert_eq!(c.worker_count(), 1);
    c.workers = 100;
    assert_eq!(c.worker_count(), 64);
    c.workers = 7;
    assert_eq!(c.worker_count(), 7);
}

#[test]
fn optional_loading() {
    let loaded = AppConfig::load_optional(None).unwrap();
    assert_eq!(loaded.workers, 4);
    let mut c = AppConfig::default();
    c.workers = 9;
    assert_eq!(AppConfig::load_optional(Some(Ok(c))).unwrap().workers, 9);
    assert!(matches!(
        AppConfig::load_optional(Some(Err(ConfigError::Unreadable("x".to_string())))),
        Err(ConfigError::Unreadable(_))
    ));
}

#[test]
fn first_existing_candidate() {
    assert_eq!(discover_config_path(&vec![false, false, true, true]).as_deref(), Some("log-config.yml"));
    assert_eq!(discover_config_path(&vec![false; 8]), None);
    assert_eq!(discover_config_path(&vec![]), None);
    let mut present = vec![false; 10];
    present[9] = true;
    assert_eq!(discover_config_path(&present), None);
    present[7] = true;
    assert_eq!(discover_config_path(&present).as_deref(), Some("log-congif.toml"));
}

#[test]
fn extensions_and_formats() {
    assert_eq!(extension("conf/App.JSON"), "json");
    assert_eq!(extension("settings"), "yaml");
    assert_eq!(extension(".hidden"), "yaml");
    assert_eq!(config_format("a.yml").unwrap(), ConfigFormat::Yaml);
    assert_eq!(config_format("a.Toml").unwrap(), ConfigFormat::Toml);
    assert_eq!(config_format("a").unwrap(), ConfigFormat::Yaml);
    match config_format("a.ini") {
        Err(ConfigError::UnsupportedExtension(e)) => assert_eq!(e, "ini"),
        _ => panic!("ini is no settings format"),
    }
}

#[test]
fn report_destination() {
    let c = AppConfig::default();
    assert_eq!(c.report_path(Some("out.txt".to_string())), Some("out.txt".to_string()));
    assert_eq!(c.report_path(None), Some("reports/logstream-report.txt".to_string()));
    let mut bare = AppConfig::default();
    bare.report = None;
    assert_eq!(bare.report_path(None), None);
}

#[test]
fn filter_options_from_the_command_line() {
    let mut c = AppConfig::default();
    c.apply_filter_options(&vec![], None, None);
    assert_eq!(c.filters.levels, AppConfig::default().filters.levels);
    assert_eq!(c.filters.keyword, None);
    c.apply_filter_options(
        &vec!["WARN,ERROR".to_string(), ",DEBUG,".to_string()],
        Some("login failed".to_string()),
        Some("auth-service".to_string()),
    );
    assert_eq!(
        c.filters.levels,
        Some(vec!["WARN".to_string(), "ERROR".to_string(), "DEBUG".to_string()])
    );
    assert_eq!(c.filters.keyword.as_deref(), Some("login failed"));
    assert_eq!(c.filters.source.as_deref(), Some("auth-service"));
    assert_eq!(c.workers, 4);
    c.apply_filter_options(&vec!["INFO".to_string()], None, None);
    assert_eq!(c.filters.levels, Some(vec!["INFO".to_string()]));
    assert_eq!(c.filters.keyword.as_deref(), Some("login failed"));
}
