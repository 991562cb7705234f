use logstream::pipeline::AppEvent;
use logstream::stats::Stats;
use logstream::ui::{
    console_step, help_text, ConsoleAction, Received, console_line, line_color, newest_lines, stats_rows, truncate_front, LineColor, Tab, UiCommand, UiKey, UiState,
};

#[test]
fn front_dropped() {
    let mut v = vec![1, 2, 3, 4, 5];
    truncate_front(&mut v, 3);
    assert_eq!(v, vec![3, 4, 5]);
    truncate_front(&mut v, 10);
    assert_eq!(v, vec![3, 4, 5]);
    truncate_front(&mut v, 0);
    assert!(v.is_empty());
}

#[test]
fn tabs() {
    assert_eq!(Tab::titles(), vec!["Stream", "Stats", "Alerts"]);
    assert_eq!(Tab::Stream.index(), 0);
    assert_eq!(Tab::Stats.index(), 1);
    assert_eq!(Tab::Alerts.index(), 2);
}

#[test]
fn colours() {
    assert_eq!(line_color("x ERROR y"), LineColor::Red);
    assert_eq!(line_color("ALERT WARN"), LineColor::Red);
    assert_eq!(line_color("WARN INFO"), LineColor::Yellow);
    assert_eq!(line_color("INFO"), LineColor::Green);
    assert_eq!(line_color("error"), LineColor::White);
}

#[test]
fn keys() {
    let mut s = UiState::new();
    assert_eq!(s.tab, Tab::Stream);
    assert_eq!(s.on_key(UiKey::Char('3')), UiCommand::Continue);
    assert_eq!(s.tab, Tab::Alerts);
    assert_eq!(s.on_key(UiKey::Up), UiCommand::Continue);
    assert_eq!(s.scroll, 0);
    s.on_key(UiKey::Down);
    s.on_key(UiKey::Down);
    assert_eq!(s.scroll, 2);
    s.scroll = usize::MAX;
    s.on_key(UiKey::Down);
    assert_eq!(s.scroll, usize::MAX);
    assert_eq!(s.on_key(UiKey::Char('r')), UiCommand::WriteReport);
    assert_eq!(s.on_key(UiKey::Char('q')), UiCommand::Quit);
    assert_eq!(s.on_key(UiKey::Other), UiCommand::Continue);
    assert_eq!(s.tab, Tab::Alerts);
}

#[test]
fn lines_kept() {
    let mut s = UiState::new();
    for i in 0..1005 {
        s.push_event(format!("e{i}"));
    }
    assert_eq!(s.event_lines.len(), 1000);
    assert_eq!(s.event_lines[0], "e5");
    for i in 0..205 {
        s.apply_event(&AppEvent::Status(format!("s{i}")));
    }
    assert_eq!(s.status_lines.len(), 200);
    assert_eq!(s.status_lines[199], "s204");
    s.apply_event(&AppEvent::Error("bad".to_string()));
    s.note_skipped(3);
    assert_eq!(s.error_lines, vec!["bad".to_string(), "ui skipped 3 events".to_string()]);
}

#[test]
fn newest_window_of_lines() {
    let lines: Vec<String> = (0..6).map(|i| format!("l{i}")).collect();
    assert_eq!(newest_lines(&lines, 0, 3), vec!["l5", "l4", "l3"]);
    assert_eq!(newest_lines(&lines, 4, 3), vec!["l1", "l0"]);
    assert_eq!(newest_lines(&lines, 6, 3), Vec::<String>::new());
    assert_eq!(newest_lines(&lines, usize::MAX, 3), Vec::<String>::new());
    assert_eq!(newest_lines(&lines, 1, 0), Vec::<String>::new());
}

#[test]
fn panes() {
    let mut s = UiState::new();
    assert_eq!(s.status_text(7), "\nuptime=7s | q quit | r report | 1/2/3 tabs");
    assert_eq!(s.error_text(), "");
    for i in 0..5 {
        s.push_status(format!("s{i}"));
        s.push_error(format!("e{i}"));
    }
    assert_eq!(s.status_text(12), "s4\ns3\ns2\nuptime=12s | q quit | r report | 1/2/3 tabs");
    assert_eq!(s.error_text(), "e4\ne3\ne2\ne1");
}

#[test]
fn statistics_rows() {
    let mut stats = Stats::new(10);
    stats.observe_raw_line();
    stats.observe_raw_line();
    stats.observe_parse_error();
    let rows = stats_rows(&stats.snapshot());
    assert_eq!(
        rows,
        vec![
            ("Lines".to_string(), "2".to_string()),
            ("Entries".to_string(), "0".to_string()),
            ("Parse errors".to_string(), "1".to_string()),
            ("Ignored".to_string(), "0".to_string()),
        ]
    );
}

#[test]
fn console_lines() {
    assert_eq!(console_line(&AppEvent::Status("up".to_string())), (true, "status: up".to_string()));
    assert_eq!(console_line(&AppEvent::Error("bad".to_string())), (true, "error: bad".to_string()));
}

#[test]
fn save_and_help_keys() {
    let mut s = UiState::new();
    assert!(!s.help);
    assert_eq!(s.on_key(UiKey::Char('s')), UiCommand::SaveSession);
    assert_eq!(s.on_key(UiKey::Char('h')), UiCommand::Continue);
    assert!(s.help);
    assert_eq!(s.tab, Tab::Stream);
    assert_eq!(s.scroll, 0);
    s.on_key(UiKey::Char('2'));
    s.on_key(UiKey::Char('h'));
    assert!(!s.help);
    assert_eq!(s.tab, Tab::Stats);
    assert!(help_text().contains("s save session"));
    assert!(help_text().contains("h help"));
}

#[test]
fn console_loop_steps() {
    assert_eq!(
        console_step(&Received::Event(AppEvent::Status("up".to_string()))),
        ConsoleAction::Write(true, "status: up".to_string())
    );
    assert_eq!(console_step(&Received::Lagged(4)), ConsoleAction::Write(true, "console skipped 4 events".to_string()));
    assert_eq!(console_step(&Received::Closed), ConsoleAction::Stop);
}
