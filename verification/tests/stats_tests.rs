use logstream::config::{RuleAction, RuleCondition, RuleConfig};
use logstream::log_entry::{parse_log_line_at, LogEntry, LogLevel, ParseContext};
use logstream::report::render_report;
use logstream::rules::RuleEngine;
use logstream::stats::{LevelCounts, Stats};
use logstream::timestamp::Timestamp;

fn entry(line: &str, file: &str) -> LogEntry {
    let ctx = ParseContext { file: file.to_string(), line_number: 1 };
    parse_log_line_at(line, ctx, Timestamp::from_unix(1_431_648_000, 0).unwrap()).unwrap()
}

#[test]
fn retained_events_are_clamped() {
    let s = Stats::new(3);
    let snap = s.snapshot();
    assert_eq!(snap.total_lines_seen, 0);
    assert!(snap.recent_entries.is_empty());
    let mut s = Stats::new(3);
    for _ in 0..60 {
        s.observe_entry(entry("INFO x", "a.log"));
    }
    assert_eq!(s.snapshot().recent_entries.len(), 50);
    let mut big = Stats::new(1_000_000);
    for _ in 0..3 {
        big.observe_entry(entry("INFO x", "a.log"));
    }
    assert_eq!(big.snapshot().recent_entries.len(), 3);
}

#[test]
fn counters_move_one_at_a_time() {
    let mut s = Stats::new(100);
    s.observe_raw_line();
    s.observe_raw_line();
    s.observe_parse_error();
    s.observe_ignored();
    s.observe_entry(entry("ERROR boom service=api source=nginx", "a.log"));
    s.observe_entry(entry("ERROR bang", "b.log"));
    s.observe_entry(entry("WARN slow service=api", "a.log"));
    let snap = s.snapshot();
    assert_eq!(snap.total_lines_seen, 2);
    assert_eq!(snap.parse_errors, 1);
    assert_eq!(snap.ignored_entries, 1);
    assert_eq!(snap.total_entries_kept, 3);
    assert_eq!(snap.by_level.get(LogLevel::Error), 2);
    assert_eq!(snap.by_level.get(LogLevel::Warn), 1);
    assert_eq!(snap.by_level.get(LogLevel::Info), 0);
    assert_eq!(snap.by_source.get("nginx"), Some(&1));
    assert_eq!(snap.by_source.get("b.log"), Some(&1));
    assert_eq!(snap.by_source.get("api"), Some(&1));
    assert_eq!(snap.by_service.get("api"), Some(&2));
    assert_eq!(snap.by_file.get("a.log"), Some(&2));
    assert_eq!(snap.by_file.get("b.log"), Some(&1));
    assert_eq!(snap.recent_entries.len(), 3);
    assert_eq!(snap.recent_entries[2].message, "slow");
}

#[test]
fn level_counts_start_empty() {
    let mut c = LevelCounts::new();
    assert_eq!(c.get(LogLevel::Trace), 0);
    c.increment(LogLevel::Trace);
    c.increment(LogLevel::Trace);
    assert_eq!(c.get(LogLevel::Trace), 2);
    assert_eq!(c.duplicate().get(LogLevel::Trace), 2);
}

#[test]
fn summary_and_report() {
    let mut s = Stats::new(100);
    s.observe_raw_line();
    s.observe_entry(entry("ERROR boom source=db", "a.log"));
    s.observe_entry(entry("INFO ok source=api", "a.log"));
    let mut engine = RuleEngine::new(vec![RuleConfig {
        name: "errs".to_string(),
        condition: RuleCondition { level: Some("ERROR".to_string()), keyword: None, source: None },
        action: RuleAction::Warn,
        threshold: 1,
        window_seconds: 60,
    }]);
    let d = engine.try_evaluate(&entry("ERROR boom source=db", "a.log")).unwrap();
    s.set_rule_counts(engine.counts());
    for a in d.alerts {
        s.observe_alert(a);
    }
    let snap = s.snapshot();
    let lines = snap.summary_lines();
    assert_eq!(lines.len(), 12);
    assert_eq!(lines[2], "total_lines_seen: 1");
    assert_eq!(lines[3], "total_entries_kept: 2");
    assert_eq!(lines[4], "parse_errors: 0");
    assert_eq!(lines[5], "ignored_entries: 0");
    assert_eq!(lines[6], "levels:");
    assert_eq!(lines[7], "  INFO: 1");
    assert_eq!(lines[8], "  ERROR: 1");
    assert_eq!(lines[9], "sources:");
    assert_eq!(lines[10], "  api: 1");
    assert_eq!(lines[11], "  db: 1");
    assert!(lines[0].starts_with("started_at: "));
    let report = render_report(&snap);
    assert!(report.starts_with("Logstream report\n================\n\nstarted_at: "));
    assert!(report.contains("\nRule counters:\n  errs: 1\n\nRecent alerts:\n  "));
    assert!(report.contains("[ERROR] errs: rule matched 1 events in window (1/1, 60s)\n"));
    assert!(report.ends_with(
        "\nRecent entries:\n  [2015-05-15 00:00:00 UTC] api INFO: ok source=api\n  [2015-05-15 00:00:00 UTC] db ERROR: boom source=db\n"
    ));
}

#[test]
fn report_shows_at_most_fifty() {
    let mut s = Stats::new(100);
    for _ in 0..70 {
        s.observe_entry(entry("INFO x", "a.log"));
    }
    let report = render_report(&s.snapshot());
    assert_eq!(report.matches("] a.log INFO: x\n").count(), 50);
}
