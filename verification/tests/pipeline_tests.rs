use logstream::config::{AppConfig, RuleAction, RuleCondition, RuleConfig};
use logstream::log_entry::{parse_log_line_at, LogEntry, ParseContext};
use logstream::pipeline::{has_log_files, handle_entry, passes_filters, process_raw_line, process_raw_line_at, AppEvent, RawLine};
use logstream::rules::RuleEngine;
use logstream::stats::Stats;
use logstream::timestamp::Timestamp;

fn entry(line: &str) -> LogEntry {
    let ctx = ParseContext { file: "a.log".to_string(), line_number: 1 };
    parse_log_line_at(line, ctx, Timestamp::from_unix(1_000, 0).unwrap()).unwrap()
}

fn config() -> AppConfig {
    let mut c = AppConfig::default();
    c.rules = vec![
        RuleConfig {
            name: "quiet".to_string(),
            condition: RuleCondition { level: None, keyword: Some("heartbeat".to_string()), source: None },
            action: RuleAction::Ignore,
            threshold: 1,
            window_seconds: 1,
        },
        RuleConfig {
            name: "burst".to_string(),
            condition: RuleCondition { level: Some("ERROR".to_string()), keyword: None, source: None },
            action: RuleAction::Warn,
            threshold: 2,
            window_seconds: 60,
        },
    ];
    c
}

#[test]
fn filters() {
    let mut c = AppConfig::default();
    assert!(passes_filters(&entry("ERROR x"), &c));
    assert!(!passes_filters(&entry("DEBUG x"), &c));
    c.filters.levels = None;
    assert!(passes_filters(&entry("DEBUG x"), &c));
    c.filters.keyword = Some("LOGIN".to_string());
    assert!(passes_filters(&entry("DEBUG login ok"), &c));
    assert!(!passes_filters(&entry("DEBUG logout"), &c));
    c.filters.source = Some("auth".to_string());
    assert!(passes_filters(&entry("DEBUG login source=auth"), &c));
    assert!(!passes_filters(&entry("DEBUG login source=web"), &c));
    c.filters = logstream::config::FilterConfig {
        levels: Some(vec!["bogus".to_string(), " ".to_string()]),
        keyword: None,
        source: None,
    };
    assert!(!passes_filters(&entry("INFO x"), &c));
    assert!(passes_filters(&entry("FATAL x"), &c));
}

#[test]
fn entries_through_the_rules() {
    let c = config();
    let mut stats = Stats::new(c.retained_events);
    let mut engine = RuleEngine::new(c.rules.clone());
    let events = handle_entry(entry("DEBUG hidden"), &c, &mut stats, &mut engine);
    assert!(events.is_empty());
    let events = handle_entry(entry("INFO heartbeat"), &c, &mut stats, &mut engine);
    assert!(events.is_empty());
    let events = handle_entry(entry("ERROR boom"), &c, &mut stats, &mut engine);
    assert_eq!(events.len(), 1);
    assert!(matches!(&events[0], AppEvent::Entry(e) if e.message == "boom"));
    let events = handle_entry(entry("ERROR boom"), &c, &mut stats, &mut engine);
    assert_eq!(events.len(), 2);
    assert!(matches!(&events[1], AppEvent::Alert(a) if a.rule == "burst" && a.count == 2));
    let snap = stats.snapshot();
    assert_eq!(snap.ignored_entries, 2);
    assert_eq!(snap.total_entries_kept, 2);
    assert_eq!(snap.alerts.len(), 1);
    assert_eq!(snap.rule_counts.get("quiet"), Some(&1));
    assert_eq!(snap.rule_counts.get("burst"), Some(&2));
}

#[test]
fn raw_lines() {
    let c = config();
    let mut stats = Stats::new(c.retained_events);
    let mut engine = RuleEngine::new(c.rules.clone());
    let bad = RawLine { file: "logs/x.log".to_string(), line_number: 12, text: "   \n".to_string() };
    let events = process_raw_line(&bad, &c, &mut stats, &mut engine).unwrap();
    assert_eq!(events.len(), 1);
    assert!(matches!(&events[0], AppEvent::Error(m) if m == "parse error in logs/x.log:12: empty log line"));
    let good = RawLine { file: "logs/x.log".to_string(), line_number: 13, text: "WARN careful\n".to_string() };
    let now = Timestamp::from_unix(5, 0).unwrap();
    let events = process_raw_line_at(&good, &c, &mut stats, &mut engine, now);
    assert!(matches!(&events[0], AppEvent::Entry(e) if e.timestamp == now && e.line_number == 13));
    let snap = stats.snapshot();
    assert_eq!(snap.total_lines_seen, 2);
    assert_eq!(snap.parse_errors, 1);
    assert_eq!(snap.total_entries_kept, 1);
}

#[test]
fn every_line_accounted_once() {
    let c = config();
    let mut stats = Stats::new(c.retained_events);
    let mut engine = RuleEngine::new(c.rules.clone());
    let texts = ["INFO up", "DEBUG hidden", "INFO heartbeat", "", "ERROR boom", "ERROR boom", "2024-01-01T00:00:00Z"];
    for (i, text) in texts.iter().enumerate() {
        let raw = RawLine { file: "a.log".to_string(), line_number: i as u64 + 1, text: text.to_string() };
        process_raw_line(&raw, &c, &mut stats, &mut engine).unwrap();
        let snap = stats.snapshot();
        assert_eq!(snap.total_lines_seen, i as u64 + 1);
        assert_eq!(snap.total_entries_kept + snap.ignored_entries + snap.parse_errors, snap.total_lines_seen);
    }
    let snap = stats.snapshot();
    assert_eq!(snap.total_entries_kept, 3);
    assert_eq!(snap.ignored_entries, 2);
    assert_eq!(snap.parse_errors, 2);
}

#[test]
fn retained_bounds_hold_through_lines() {
    let mut c = config();
    c.retained_events = 3;
    c.rules[1].threshold = 1;
    let mut stats = Stats::new(c.retained_events);
    let mut engine = RuleEngine::new(c.rules.clone());
    for i in 0..60u64 {
        let raw = RawLine { file: "a.log".to_string(), line_number: i + 1, text: "ERROR boom".to_string() };
        process_raw_line(&raw, &c, &mut stats, &mut engine).unwrap();
        let snap = stats.snapshot();
        assert!(snap.recent_entries.len() <= 50);
        assert!(snap.alerts.len() <= 50);
    }
    let snap = stats.snapshot();
    assert_eq!(snap.recent_entries.len(), 50);
    assert_eq!(snap.alerts.len(), 50);
    assert_eq!(snap.recent_entries[49].line_number, 60);
}

#[test]
fn log_files_needed() {
    assert!(!has_log_files(&vec![]));
    assert!(has_log_files(&vec!["a.log".to_string()]));
}
