use logstream::log_entry::{
    parse_log_line, parse_log_line_at, split_preserving_quotes, strip_quotes, LogLevel,
    ParseContext, ParseProblem,
};
use logstream::timestamp::Timestamp;

fn ctx() -> ParseContext {
    ParseContext { file: "logs/app.log".to_string(), line_number: 7 }
}

fn fixed_now() -> Timestamp {
    Timestamp::from_unix(1_700_000_000, 0).unwrap()
}

#[test]
fn level_names_read_back() {
    for level in [
        LogLevel::Info,
        LogLevel::Warn,
        LogLevel::Error,
        LogLevel::Debug,
        LogLevel::Trace,
        LogLevel::Unknown,
    ] {
        assert_eq!(LogLevel::from_str(level.as_str()), Ok(level));
    }
}

#[test]
fn level_aliases_case_and_spaces() {
    assert_eq!(LogLevel::from_str("  warning "), Ok(LogLevel::Warn));
    assert_eq!(LogLevel::from_str("err"), Ok(LogLevel::Error));
    assert_eq!(LogLevel::from_str("Info"), Ok(LogLevel::Info));
    assert_eq!(LogLevel::from_str("debug"), Ok(LogLevel::Debug));
    assert_eq!(LogLevel::from_str("TRACE"), Ok(LogLevel::Trace));
    assert_eq!(LogLevel::from_str("fatal"), Ok(LogLevel::Unknown));
    assert_eq!(LogLevel::from_str("   "), Err(()));
    assert_eq!(LogLevel::from_str(""), Err(()));
}

#[test]
fn tokens_keep_quoted_spaces() {
    let tokens = split_preserving_quotes("ERROR \"login failed\" user='a b'  x=1");
    assert_eq!(tokens, vec!["ERROR", "\"login failed\"", "user='a b'", "x=1"]);
}

#[test]
fn tokens_of_blank_line() {
    assert!(split_preserving_quotes("   \t ").is_empty());
    assert_eq!(split_preserving_quotes("a\u{3000}b"), vec!["a", "b"]);
}

#[test]
fn tokens_with_unclosed_quote() {
    assert_eq!(split_preserving_quotes("a \"b c"), vec!["a", "\"b c"]);
}

#[test]
fn quotes_stripped_once() {
    assert_eq!(strip_quotes("\"abc\""), "abc");
    assert_eq!(strip_quotes("'abc'"), "abc");
    assert_eq!(strip_quotes("\"abc'"), "\"abc'");
    assert_eq!(strip_quotes("\""), "\"");
    assert_eq!(strip_quotes("\"\""), "");
    assert_eq!(strip_quotes("''x''"), "'x'");
}

#[test]
fn parse_line_without_time() {
    let now = fixed_now();
    let e = parse_log_line_at(
        "  WARN slow request service=api source=nginx latency=900  ",
        ctx(),
        now,
    )
    .unwrap();
    assert_eq!(e.level, LogLevel::Warn);
    assert_eq!(e.message, "slow request");
    assert_eq!(e.timestamp, now);
    assert_eq!(e.original_timestamp, None);
    assert_eq!(e.source.as_deref(), Some("nginx"));
    assert_eq!(e.field("latency"), Some("900"));
    assert_eq!(e.service(), Some("api"));
    assert_eq!(e.raw, "WARN slow request service=api source=nginx latency=900");
    assert_eq!(e.file, "logs/app.log");
    assert_eq!(e.line_number, 7);
    assert_eq!(e.fields.len(), 3);
    assert_eq!(e.fields.key_at(0), "latency");
    assert_eq!(e.fields.key_at(1), "service");
    assert_eq!(e.fields.key_at(2), "source");
}

#[test]
fn parse_line_with_time() {
    let e = parse_log_line_at(
        "2024-01-01T10:00:00+02:00 ERROR login failed service=auth user=\"a b\"",
        ctx(),
        fixed_now(),
    )
    .unwrap();
    assert_eq!(e.level, LogLevel::Error);
    assert_eq!(e.timestamp.unix_seconds(), 1_704_096_000);
    assert_eq!(e.timestamp.subsec_nanos(), 0);
    assert_eq!(e.original_timestamp.as_deref(), Some("2024-01-01T10:00:00+02:00"));
    assert_eq!(e.field("user"), Some("a b"));
    assert_eq!(e.source.as_deref(), Some("auth"));
    assert_eq!(e.source_name(), "auth");
}

#[test]
fn parse_problems() {
    assert_eq!(parse_log_line("   ", ctx()).unwrap().err(), Some(ParseProblem::EmptyLine));
    assert_eq!(
        parse_log_line("2024-01-01T10:00:00Z", ctx()).unwrap().err(),
        Some(ParseProblem::MissingLevel)
    );
    assert_eq!(ParseProblem::EmptyLine.message(), "empty log line");
    assert_eq!(ParseProblem::MissingLevel.message(), "log line does not contain level");
}

#[test]
fn unknown_level_and_blank_keys() {
    let e = parse_log_line_at("NOTICE hello =skipped k= v=\"q\" word", ctx(), fixed_now()).unwrap();
    assert_eq!(e.level, LogLevel::Unknown);
    assert_eq!(e.message, "hello word");
    assert_eq!(e.field("k"), Some(""));
    assert_eq!(e.field("v"), Some("q"));
    assert_eq!(e.fields.len(), 2);
    assert_eq!(e.source_name(), "logs/app.log");
}

#[test]
fn later_field_wins() {
    let e = parse_log_line_at("INFO a k=1 k=2", ctx(), fixed_now()).unwrap();
    assert_eq!(e.field("k"), Some("2"));
    assert_eq!(e.fields.len(), 1);
}

#[test]
fn compact_lines() {
    let now = Timestamp::from_unix(1_431_648_000, 0).unwrap();
    let e = parse_log_line_at("INFO user logged in source=gateway user=admin", ctx(), now).unwrap();
    assert_eq!(
        e.compact(),
        "[2015-05-15 00:00:00 UTC] gateway INFO: user logged in source=gateway user=admin"
    );
    let bare = parse_log_line_at("ERROR boom", ctx(), now).unwrap();
    assert_eq!(bare.compact(), "[2015-05-15 00:00:00 UTC] logs/app.log ERROR: boom");
}

#[test]
fn keyword_matching() {
    let e = parse_log_line_at("ERROR Login Failed user=Admin", ctx(), fixed_now()).unwrap();
    assert!(e.matches_keyword("login failed"));
    assert!(e.matches_keyword("ADMIN"));
    assert!(e.matches_keyword("USER"));
    assert!(e.matches_keyword("   "));
    assert!(!e.matches_keyword("timeout"));
    assert!(!e.matches_keyword("login  failed"));
}

#[test]
fn duplicate_keeps_everything() {
    let e = parse_log_line_at("INFO a b=c", ctx(), fixed_now()).unwrap();
    let d = e.duplicate();
    assert_eq!(d.compact(), e.compact());
    assert_eq!(d.field("b"), Some("c"));
}

#[test]
fn parse_without_time_uses_the_clock() {
    let e = parse_log_line("INFO up", ctx()).unwrap().unwrap();
    assert!(e.timestamp.unix_seconds() > 1_600_000_000);
    assert_eq!(e.original_timestamp, None);
}
