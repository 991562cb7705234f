use logstream::config::AppConfig;
use logstream::session::{make_session_id, sanitize_name, sort_newest_first, Session, SessionStore};
use logstream::stats::Stats;
use logstream::timestamp::Timestamp;

#[test]
fn names_made_fit() {
    assert_eq!(sanitize_name("prod watch/1"), "prod-watch-1");
    assert_eq!(sanitize_name(""), "session");
    assert_eq!(sanitize_name("ok_name-2"), "ok_name-2");
    assert_eq!(sanitize_name("é"), "-");
    assert_eq!(sanitize_name(&sanitize_name("a b")), sanitize_name("a b"));
}

#[test]
fn session_files() {
    let store = SessionStore::default();
    assert_eq!(store.root(), ".logstream-sessions");
    assert_eq!(store.path_for("demo run"), ".logstream-sessions/demo-run.json");
    assert_eq!(SessionStore::with_root("dir/".to_string()).path_for("x"), "dir/x.json");
    assert_eq!(SessionStore::with_root(String::new()).path_for("x"), "x.json");
}

#[test]
fn session_ids() {
    let t = Timestamp::from_unix(1_700_000_000, 123).unwrap();
    assert_eq!(make_session_id(t, 42).unwrap(), "session-1700000000000000123-42");
    let old = Timestamp::from_unix(-5, 0).unwrap();
    assert_eq!(make_session_id(old, 1).unwrap(), "session--5000000000-1");
    let far = Timestamp::from_unix(100_000_000_000, 0).unwrap();
    assert!(make_session_id(far, 1).is_none());
}

#[test]
fn new_sessions() {
    let s = Session::new(None, vec!["a.log".to_string()], None, AppConfig::default(), None, 7).unwrap();
    assert!(s.id.starts_with("session-"));
    assert!(s.id.ends_with("-7"));
    assert_eq!(s.name, s.id);
    assert_eq!(s.created_at, s.updated_at);
    assert!(s.last_stats.is_none());
    let mut named =
        Session::new(Some("demo".to_string()), vec![], Some("c.yaml".to_string()), AppConfig::default(), None, 1)
            .unwrap();
    assert_eq!(named.name, "demo");
    named.set_stats(Stats::new(50).snapshot());
    assert!(named.last_stats.is_some());
    assert_eq!(named.name, "demo");
}

#[test]
fn session_summary() {
    let mut s = Session::new(
        Some("demo".to_string()),
        vec!["a.log".to_string(), "b.log".to_string()],
        None,
        AppConfig::default(),
        None,
        1,
    )
    .unwrap();
    s.updated_at = Timestamp::from_unix(1_704_067_200, 0).unwrap();
    assert_eq!(s.summary_line(), "demo | updated=2024-01-01 00:00:00 UTC | files=a.log, b.log");
}

#[test]
fn sessions_newest_first() {
    let mk = |name: &str, secs: i64| {
        let mut s = Session::new(Some(name.to_string()), vec![], None, AppConfig::default(), None, 1).unwrap();
        s.updated_at = Timestamp::from_unix(secs, 0).unwrap();
        s
    };
    let sorted = sort_newest_first(vec![mk("old", 10), mk("new", 30), mk("mid", 20)]);
    let names: Vec<&str> = sorted.iter().map(|s| s.name.as_str()).collect();
    assert_eq!(names, vec!["new", "mid", "old"]);
}

#[test]
fn session_with_given_id() {
    let now = Timestamp::from_unix(1_700_000_000, 5).unwrap();
    let s = Session::with_id(
        "session-1-2".to_string(),
        None,
        vec!["a.log".to_string()],
        Some("c.toml".to_string()),
        AppConfig::default(),
        Some("r.txt".to_string()),
        now,
    );
    assert_eq!(s.id, "session-1-2");
    assert_eq!(s.name, "session-1-2");
    assert_eq!(s.created_at, now);
    assert_eq!(s.updated_at, now);
    assert_eq!(s.files, vec!["a.log".to_string()]);
    assert_eq!(s.config_path.as_deref(), Some("c.toml"));
    assert_eq!(s.report_path.as_deref(), Some("r.txt"));
    assert!(s.last_stats.is_none());
    let named = Session::with_id("x".to_string(), Some("demo".to_string()), vec![], None, AppConfig::default(), None, now);
    assert_eq!(named.name, "demo");
}
