use logstream::tail::{after_look, event_capacity, poll_wait_ms, prepare_file, FilePreparation, TailState};

#[test]
fn reader_starts() {
    assert_eq!(TailState::start(false, 900), TailState { position: 0, line_number: 0 });
    assert_eq!(TailState::start(true, 900), TailState { position: 900, line_number: 0 });
}

#[test]
fn lines_numbered_from_one() {
    let file = "app.log".to_string();
    let mut s = TailState::start(false, 0);
    let first = s.line_read(&file, 12, "INFO started\n".to_string()).unwrap();
    assert_eq!(first.file, "app.log");
    assert_eq!(first.line_number, 1);
    assert_eq!(first.text, "INFO started\n");
    let second = s.line_read(&file, 5, "WARN\n".to_string()).unwrap();
    assert_eq!(second.line_number, 2);
    assert_eq!(s, TailState { position: 17, line_number: 2 });
}

#[test]
fn seek_failure_rewinds() {
    let file = "app.log".to_string();
    let mut s = TailState::start(true, 40);
    s.line_read(&file, 4, "abc\n".to_string()).unwrap();
    s.seek_failed();
    assert_eq!(s, TailState { position: 0, line_number: 1 });
}

#[test]
fn counters_at_their_limit() {
    let file = "app.log".to_string();
    let mut s = TailState { position: u64::MAX - 3, line_number: 7 };
    assert!(s.line_read(&file, 4, "abc\n".to_string()).is_none());
    assert_eq!(s, TailState { position: u64::MAX - 3, line_number: 7 });
    assert!(s.line_read(&file, 3, "ab\n".to_string()).is_some());
    let mut t = TailState { position: 0, line_number: u64::MAX };
    assert!(t.line_read(&file, 1, "\n".to_string()).is_none());
}

#[test]
fn waits_and_capacity() {
    assert_eq!(poll_wait_ms(500), 500);
    assert_eq!(poll_wait_ms(10), 50);
    assert_eq!(poll_wait_ms(50), 50);
    assert_eq!(event_capacity(4096), 4096);
    assert_eq!(event_capacity(3), 64);
}

#[test]
fn files_prepared() {
    assert_eq!(prepare_file(true, false), FilePreparation::Open);
    assert_eq!(prepare_file(true, true), FilePreparation::Open);
    assert_eq!(prepare_file(false, true), FilePreparation::Create);
    assert_eq!(prepare_file(false, false), FilePreparation::Refuse);
}

#[test]
fn looks_and_waits() {
    assert_eq!(after_look(true, 500), None);
    assert_eq!(after_look(false, 500), Some(500));
    assert_eq!(after_look(false, 0), Some(50));
}
