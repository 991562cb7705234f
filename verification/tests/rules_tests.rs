use logstream::config::{RuleAction, RuleCondition, RuleConfig};
use logstream::log_entry::{parse_log_line_at, LogEntry, LogLevel, ParseContext};
use logstream::rules::{condition_matches, fingerprint, RuleEngine};
use logstream::timestamp::Timestamp;
use logstream::ui::newest_alert_lines;

fn entry_at(line: &str, secs: i64) -> LogEntry {
    let ctx = ParseContext { file: "app.log".to_string(), line_number: 1 };
    parse_log_line_at(line, ctx, Timestamp::from_unix(secs, 0).unwrap()).unwrap()
}

fn rule(name: &str, level: Option<&str>, action: RuleAction, threshold: usize, window: u64) -> RuleConfig {
    RuleConfig {
        name: name.to_string(),
        condition: RuleCondition { level: level.map(|l| l.to_string()), keyword: None, source: None },
        action,
        threshold,
        window_seconds: window,
    }
}

#[test]
fn warn_rule_alerts_at_threshold() {
    let mut engine = RuleEngine::new(vec![rule("burst", Some("ERROR"), RuleAction::Warn, 3, 30)]);
    let line = "ERROR login failed service=auth";
    let d1 = engine.try_evaluate(&entry_at(line, 100)).unwrap();
    let d2 = engine.try_evaluate(&entry_at(line, 101)).unwrap();
    assert!(d1.alerts.is_empty() && d2.alerts.is_empty());
    let d3 = engine.try_evaluate(&entry_at(line, 102)).unwrap();
    assert_eq!(d3.alerts.len(), 1);
    let a = &d3.alerts[0];
    assert_eq!(a.rule, "burst");
    assert_eq!(a.action, RuleAction::Warn);
    assert_eq!(a.count, 3);
    assert_eq!(a.threshold, 3);
    assert_eq!(a.window_seconds, 30);
    assert_eq!(a.message, "rule matched 3 events in window");
    assert_eq!(a.source, "auth");
    assert_eq!(a.level, LogLevel::Error);
    assert!(!d3.ignored);
    // the window keeps threshold - 1 matches, so the next one alerts again
    let d4 = engine.try_evaluate(&entry_at(line, 103)).unwrap();
    assert_eq!(d4.alerts.len(), 1);
    assert_eq!(d4.alerts[0].count, 3);
}

#[test]
fn old_matches_leave_the_window() {
    let mut engine = RuleEngine::new(vec![rule("burst", Some("ERROR"), RuleAction::Warn, 2, 10)]);
    let line = "ERROR boom";
    assert!(engine.try_evaluate(&entry_at(line, 100)).unwrap().alerts.is_empty());
    // 120 - 10 = 110 > 100: the first match has expired
    assert!(engine.try_evaluate(&entry_at(line, 120)).unwrap().alerts.is_empty());
    let d = engine.try_evaluate(&entry_at(line, 125)).unwrap();
    assert_eq!(d.alerts.len(), 1);
    assert_eq!(d.alerts[0].count, 2);
}

#[test]
fn zero_threshold_counts_as_one() {
    let mut engine = RuleEngine::new(vec![rule("each", None, RuleAction::Warn, 0, 60)]);
    let d = engine.try_evaluate(&entry_at("INFO hi", 5)).unwrap();
    assert_eq!(d.alerts.len(), 1);
    assert_eq!(d.alerts[0].threshold, 1);
    assert_eq!(d.alerts[0].count, 1);
}

#[test]
fn different_fingerprints_count_apart() {
    let mut engine = RuleEngine::new(vec![rule("burst", Some("ERROR"), RuleAction::Warn, 2, 60)]);
    assert!(engine.try_evaluate(&entry_at("ERROR a service=x", 1)).unwrap().alerts.is_empty());
    assert!(engine.try_evaluate(&entry_at("ERROR a service=y", 2)).unwrap().alerts.is_empty());
    assert_eq!(engine.try_evaluate(&entry_at("ERROR a service=x", 3)).unwrap().alerts.len(), 1);
}

#[test]
fn ignore_and_count_rules() {
    let mut engine = RuleEngine::new(vec![
        rule("noise", Some("DEBUG"), RuleAction::Ignore, 1, 1),
        rule("all", None, RuleAction::Count, 1, 1),
        rule("all", Some("DEBUG"), RuleAction::Count, 1, 1),
    ]);
    let d = engine.try_evaluate(&entry_at("DEBUG chatter", 1)).unwrap();
    assert!(d.ignored);
    assert!(d.alerts.is_empty());
    let d = engine.try_evaluate(&entry_at("INFO hello", 2)).unwrap();
    assert!(!d.ignored);
    let counts = engine.counts();
    assert_eq!(counts.get("noise"), Some(&1));
    assert_eq!(counts.get("all"), Some(&3));
    assert_eq!(counts.len(), 2);
    assert!(engine.would_ignore(&entry_at("DEBUG x", 3)));
    assert!(!engine.would_ignore(&entry_at("INFO x", 3)));
}

#[test]
fn unreadable_rule_level_matches_nothing() {
    let cond = RuleCondition { level: Some("  ".to_string()), keyword: None, source: None };
    assert!(!condition_matches(&cond, &entry_at("INFO hi", 1)));
    let cond = RuleCondition {
        level: Some("error".to_string()),
        keyword: Some("LOGIN".to_string()),
        source: Some("auth".to_string()),
    };
    assert!(condition_matches(&cond, &entry_at("ERROR login failed source=auth", 1)));
    assert!(!condition_matches(&cond, &entry_at("ERROR login failed source=web", 1)));
    assert!(!condition_matches(&cond, &entry_at("WARN login failed source=auth", 1)));
}

#[test]
fn fingerprints() {
    let none = RuleCondition { level: None, keyword: None, source: None };
    let e = entry_at("ERROR one two three four five six seven eight nine source=db", 1);
    assert_eq!(fingerprint(&none, &e), "ERROR|db|one two three four five six seven eight");
    let given = RuleCondition {
        level: Some("err".to_string()),
        keyword: Some("k".to_string()),
        source: Some("s".to_string()),
    };
    assert_eq!(fingerprint(&given, &e), "err|s|k");
}

#[test]
fn window_beyond_chrono_is_refused() {
    let mut engine = RuleEngine::new(vec![rule("w", None, RuleAction::Warn, 1, u64::MAX / 2)]);
    let e = entry_at("INFO x", 1);
    assert!(!engine.can_evaluate(&e));
    assert!(engine.try_evaluate(&e).is_none());
    assert_eq!(engine.counts().len(), 0);
}

#[test]
fn alert_line() {
    let mut engine = RuleEngine::new(vec![rule("burst", None, RuleAction::Warn, 1, 30)]);
    let d = engine.try_evaluate(&entry_at("ERROR x", 1)).unwrap();
    let line = d.alerts[0].compact();
    assert!(line.ends_with(" [ERROR] burst: rule matched 1 events in window (1/1, 30s)"));
    assert!(line.contains("UTC"));
    let copy = d.alerts[0].duplicate();
    assert_eq!(copy.compact(), line);
}

#[test]
fn alert_lines_newest_first() {
    let mut engine = RuleEngine::new(vec![rule("each", Some("ERROR"), RuleAction::Warn, 1, 60)]);
    let mut alerts = Vec::new();
    for secs in [100, 101, 102] {
        alerts.extend(engine.try_evaluate(&entry_at("ERROR boom", secs)).unwrap().alerts);
    }
    assert_eq!(alerts.len(), 3);
    let lines = newest_alert_lines(&alerts, 1, 5);
    assert_eq!(lines, vec![alerts[1].compact(), alerts[0].compact()]);
    assert!(lines[0].contains("[ERROR] each: rule matched 1 events in window (1/1, 60s)"));
}

#[test]
fn every_match_from_the_threshold_on_alerts() {
    let mut engine = RuleEngine::new(vec![rule("burst", Some("ERROR"), RuleAction::Warn, 2, 60)]);
    let raised: Vec<usize> = (0..5)
        .map(|i| engine.try_evaluate(&entry_at("ERROR timeout", 100 + i)).unwrap().alerts.len())
        .collect();
    assert_eq!(raised, vec![0, 1, 1, 1, 1]);
}

#[test]
fn alerts_count_their_threshold_and_carry_the_time() {
    let mut engine = RuleEngine::new(vec![rule("burst", None, RuleAction::Warn, 3, 60)]);
    for i in 0..6 {
        let d = engine.try_evaluate(&entry_at("ERROR x", 10 + i)).unwrap();
        for a in &d.alerts {
            assert_eq!(a.count, a.threshold);
            assert_eq!(a.threshold, 3);
            assert!(a.timestamp.unix_seconds() > 1_600_000_000);
        }
    }
}
