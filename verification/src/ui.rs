//! The state of the terminal view and the decisions it makes: which tab is
//! shown, what is kept of the event, status and error lines, what a key does,
//! the colour of a line, what each pane shows, and how an event is written on
//! the console.
use vstd::prelude::*;
use std::time::Instant;
use crate::pipeline::{AppEvent, EventView};
use crate::log_entry::compact_spec;
use crate::rules::{alert_line, Alert};
use crate::stats::{SnapshotView, StatsSnapshot};
use crate::text::{
    chars_of, contains_chars, contains_seq, decimal, join, join_strings, push_decimal, push_str,
    string_from_chars,
};

verus! {

#[verifier::external_type_specification]
#[verifier::external_body]
pub struct ExInstant(Instant);

/// The moment of the call, by `std::time::Instant::now`; it says nothing of
/// which moment comes back.
#[verifier::external_body]
fn instant_now() -> Instant {
    Instant::now()
}

/// The tabs of the view.
#[derive(Clone, Copy, Debug, PartialEq, Eq, Structural)]
pub enum Tab {
    Stream,
    Stats,
    Alerts,
}

impl Tab {
    /// The tab titles, in order.
    pub fn titles() -> (r: Vec<&'static str>)
        ensures
            r@.len() == 3,
            r@[0]@ == "Stream"@,
            r@[1]@ == "Stats"@,
            r@[2]@ == "Alerts"@,
    {
        vec!["Stream", "Stats", "Alerts"]
    }

    /// The place of the tab among the titles.
    pub fn index(self) -> (r: usize)
        ensures
            r == match self {
                Tab::Stream => 0usize,
                Tab::Stats => 1usize,
                Tab::Alerts => 2usize,
            },
    {
        match self {
            Tab::Stream => 0,
            Tab::Stats => 1,
            Tab::Alerts => 2,
        }
    }
}

/// The last `max_len` items, or all of them when there are no more.
pub open spec fn last_items<T>(s: Seq<T>, max_len: nat) -> Seq<T> {
    if s.len() > max_len {
        s.skip(s.len() - max_len)
    } else {
        s
    }
}

/// Drops the first items until at most `max_len` remain.
pub fn truncate_front<T>(values: &mut Vec<T>, max_len: usize)
    ensures
        final(values)@ == last_items(old(values)@, max_len as nat),
{
    if values.len() > max_len {
        let at = values.len() - max_len;
        let tail = values.split_off(at);
        *values = tail;
        assert(final(values)@ =~= old(values)@.skip(at as int));
    }
}

/// The most event lines kept.
pub open spec fn event_line_limit() -> nat {
    1000
}

/// The most status or error lines kept.
pub open spec fn message_line_limit() -> nat {
    200
}

/// What the view shows.
pub struct UiState {
    pub tab: Tab,
    pub scroll: usize,
    /// Whether the help, which lists the keys, is shown.
    pub help: bool,
    pub event_lines: Vec<String>,
    pub status_lines: Vec<String>,
    pub error_lines: Vec<String>,
    pub started: Instant,
}

/// The text of each string.
pub open spec fn texts(v: Seq<String>) -> Seq<Seq<char>> {
    v.map_values(|s: String| s@)
}

/// A key that the view reacts to.
#[derive(Clone, Copy, Debug, PartialEq, Eq, Structural)]
pub enum UiKey {
    Char(char),
    Down,
    Up,
    Other,
}

/// What the view asks of its loop after a key.
#[derive(Clone, Copy, Debug, PartialEq, Eq, Structural)]
pub enum UiCommand {
    Continue,
    Quit,
    WriteReport,
    /// Store the session as it stands.
    SaveSession,
}

/// The colour a line is drawn in.
#[derive(Clone, Copy, Debug, PartialEq, Eq, Structural)]
pub enum LineColor {
    Red,
    Yellow,
    Green,
    White,
}

/// A line mentioning `ERROR` or `ALERT` is red, else one mentioning `WARN`
/// yellow, else one mentioning `INFO` green, else white.
pub open spec fn line_color_spec(line: Seq<char>) -> LineColor {
    if contains_seq(line, "ERROR"@) || contains_seq(line, "ALERT"@) {
        LineColor::Red
    } else if contains_seq(line, "WARN"@) {
        LineColor::Yellow
    } else if contains_seq(line, "INFO"@) {
        LineColor::Green
    } else {
        LineColor::White
    }
}

/// The colour a line is drawn in.
pub fn line_color(line: &str) -> (r: LineColor)
    ensures
        r == line_color_spec(line@),
{
    let chars = chars_of(line);
    if contains_chars(&chars, &chars_of("ERROR")) || contains_chars(&chars, &chars_of("ALERT")) {
        LineColor::Red
    } else if contains_chars(&chars, &chars_of("WARN")) {
        LineColor::Yellow
    } else if contains_chars(&chars, &chars_of("INFO")) {
        LineColor::Green
    } else {
        LineColor::White
    }
}

/// The line shown for an event in the stream, if it goes there.
pub open spec fn event_text(e: EventView) -> Seq<char> {
    match e {
        EventView::Entry(entry) => compact_spec(entry),
        EventView::Alert(a) => "ALERT "@ + alert_line(a.0, a.1),
        EventView::Status(s) => s,
        EventView::Error(s) => s,
    }
}

impl UiState {
    /// The stream tab, at the top, with no lines yet, started now.
    pub fn new() -> (r: UiState)
        ensures
            r.tab == Tab::Stream,
            r.scroll == 0,
            !r.help,
            r.event_lines@.len() == 0,
            r.status_lines@.len() == 0,
            r.error_lines@.len() == 0,
    {
        UiState {
            tab: Tab::Stream,
            scroll: 0,
            help: false,
            event_lines: Vec::new(),
            status_lines: Vec::new(),
            error_lines: Vec::new(),
            started: instant_now(),
        }
    }

    /// Adds an event line, keeping the last 1000.
    pub fn push_event(&mut self, line: String)
        ensures
            texts(final(self).event_lines@) == last_items(texts(old(self).event_lines@).push(line@), event_line_limit()),
            final(self).status_lines == old(self).status_lines,
            final(self).error_lines == old(self).error_lines,
            final(self).tab == old(self).tab,
            final(self).help == old(self).help,
            final(self).scroll == old(self).scroll,
    {
        self.event_lines.push(line);
        truncate_front(&mut self.event_lines, 1000);
        assert(texts(self.event_lines@) =~= last_items(texts(old(self).event_lines@).push(line@), event_line_limit()));
    }

    /// Adds a status line, keeping the last 200.
    pub fn push_status(&mut self, line: String)
        ensures
            texts(final(self).status_lines@) == last_items(texts(old(self).status_lines@).push(line@), message_line_limit()),
            final(self).event_lines == old(self).event_lines,
            final(self).error_lines == old(self).error_lines,
            final(self).tab == old(self).tab,
            final(self).help == old(self).help,
            final(self).scroll == old(self).scroll,
    {
        self.status_lines.push(line);
        truncate_front(&mut self.status_lines, 200);
        assert(texts(self.status_lines@) =~= last_items(texts(old(self).status_lines@).push(line@), message_line_limit()));
    }

    /// Adds an error line, keeping the last 200.
    pub fn push_error(&mut self, line: String)
        ensures
            texts(final(self).error_lines@) == last_items(texts(old(self).error_lines@).push(line@), message_line_limit()),
            final(self).event_lines == old(self).event_lines,
            final(self).status_lines == old(self).status_lines,
            final(self).tab == old(self).tab,
            final(self).help == old(self).help,
            final(self).scroll == old(self).scroll,
    {
        self.error_lines.push(line);
        truncate_front(&mut self.error_lines, 200);
        assert(texts(self.error_lines@) =~= last_items(texts(old(self).error_lines@).push(line@), message_line_limit()));
    }

    /// Takes in an event: entries and alerts go to the stream (an alert marked
    /// `ALERT`), status texts to the status lines, errors to the error lines.
    pub fn apply_event(&mut self, event: &AppEvent)
        ensures
            match event@ {
                EventView::Entry(_) | EventView::Alert(_) => {
                    &&& texts(final(self).event_lines@) == last_items(
                        texts(old(self).event_lines@).push(event_text(event@)),
                        event_line_limit(),
                    )
                    &&& final(self).status_lines == old(self).status_lines
                    &&& final(self).error_lines == old(self).error_lines
                },
                EventView::Status(s) => {
                    &&& texts(final(self).status_lines@) == last_items(
                        texts(old(self).status_lines@).push(s),
                        message_line_limit(),
                    )
                    &&& final(self).event_lines == old(self).event_lines
                    &&& final(self).error_lines == old(self).error_lines
                },
                EventView::Error(s) => {
                    &&& texts(final(self).error_lines@) == last_items(
                        texts(old(self).error_lines@).push(s),
                        message_line_limit(),
                    )
                    &&& final(self).event_lines == old(self).event_lines
                    &&& final(self).status_lines == old(self).status_lines
                },
            },
            final(self).tab == old(self).tab,
            final(self).help == old(self).help,
            final(self).scroll == old(self).scroll,
    {
        match event {
            AppEvent::Entry(entry) => self.push_event(entry.compact()),
            AppEvent::Alert(alert) => {
                let mut out: Vec<char> = Vec::new();
                push_str(&mut out, "ALERT ");
                let line = alert.compact();
                push_str(&mut out, line.as_str());
                self.push_event(string_from_chars(out.as_slice()));
            },
            AppEvent::Status(status) => self.push_status(status.clone()),
            AppEvent::Error(error) => self.push_error(error.clone()),
        }
    }

    /// Notes that the view fell behind and missed `skipped` events.
    pub fn note_skipped(&mut self, skipped: u64)
        ensures
            texts(final(self).error_lines@) == last_items(
                texts(old(self).error_lines@).push("ui skipped "@ + decimal(skipped as nat) + " events"@),
                message_line_limit(),
            ),
            final(self).event_lines == old(self).event_lines,
            final(self).status_lines == old(self).status_lines,
            final(self).tab == old(self).tab,
            final(self).help == old(self).help,
            final(self).scroll == old(self).scroll,
    {
        let mut out: Vec<char> = Vec::new();
        push_str(&mut out, "ui skipped ");
        push_decimal(&mut out, skipped);
        push_str(&mut out, " events");
        self.push_error(string_from_chars(out.as_slice()));
    }

    /// Reacts to a key: `q` quits, `1`, `2`, `3` pick a tab, `r` asks for a
    /// report, `s` asks for the session to be stored, `h` shows or hides the
    /// help, Down and Up scroll by one line within the range of `usize`.
    pub fn on_key(&mut self, key: UiKey) -> (r: UiCommand)
        ensures
            final(self).event_lines == old(self).event_lines,
            final(self).status_lines == old(self).status_lines,
            final(self).error_lines == old(self).error_lines,
            r == match key {
                UiKey::Char('q') => UiCommand::Quit,
                UiKey::Char('r') => UiCommand::WriteReport,
                UiKey::Char('s') => UiCommand::SaveSession,
                _ => UiCommand::Continue,
            },
            final(self).help == match key {
                UiKey::Char('h') => !old(self).help,
                _ => old(self).help,
            },
            final(self).tab == match key {
                UiKey::Char('1') => Tab::Stream,
                UiKey::Char('2') => Tab::Stats,
                UiKey::Char('3') => Tab::Alerts,
                _ => old(self).tab,
            },
            final(self).scroll == match key {
                UiKey::Down => if old(self).scroll == usize::MAX {
                    usize::MAX
                } else {
                    (old(self).scroll + 1) as usize
                },
                UiKey::Up => if old(self).scroll == 0 {
                    0
                } else {
                    (old(self).scroll - 1) as usize
                },
                _ => old(self).scroll,
            },
    {
        match key {
            UiKey::Char(c) => {
                if c == 'q' {
                    UiCommand::Quit
                } else if c == '1' {
                    self.tab = Tab::Stream;
                    UiCommand::Continue
                } else if c == '2' {
                    self.tab = Tab::Stats;
                    UiCommand::Continue
                } else if c == '3' {
                    self.tab = Tab::Alerts;
                    UiCommand::Continue
                } else if c == 'r' {
                    UiCommand::WriteReport
                } else if c == 's' {
                    UiCommand::SaveSession
                } else if c == 'h' {
                    self.help = !self.help;
                    UiCommand::Continue
                } else {
                    UiCommand::Continue
                }
            },
            UiKey::Down => {
                self.scroll = self.scroll.saturating_add(1);
                UiCommand::Continue
            },
            UiKey::Up => {
                self.scroll = self.scroll.saturating_sub(1);
                UiCommand::Continue
            },
            UiKey::Other => UiCommand::Continue,
        }
    }
}

/// The help: the keys and what they do.
pub open spec fn help_text_spec() -> Seq<char> {
    "1 stream\n2 statistics\n3 alerts\nr write report\ns save session\nh help\nq quit"@
}

/// The help: the keys and what they do.
pub fn help_text() -> (r: &'static str)
    ensures
        r@ == help_text_spec(),
{
    "1 stream\n2 statistics\n3 alerts\nr write report\ns save session\nh help\nq quit"
}

/// The items newest first, the first `skip` of those passed over, and at most
/// `count` of the rest.
pub open spec fn newest_window<T>(s: Seq<T>, skip: nat, count: nat) -> Seq<T> {
    let avail: int = if skip >= s.len() {
        0
    } else {
        s.len() - skip
    };
    let n: int = if avail <= count {
        avail
    } else {
        count as int
    };
    Seq::new(n as nat, |i: int| s[s.len() - 1 - skip - i])
}

/// The lines newest first, the first `skip` of those passed over, and at most
/// `count` of the rest.
pub fn newest_lines(lines: &Vec<String>, skip: usize, count: usize) -> (r: Vec<String>)
    ensures
        texts(r@) == newest_window(texts(lines@), skip as nat, count as nat),
{
    let ghost w = newest_window(texts(lines@), skip as nat, count as nat);
    let len = lines.len();
    let avail: usize = if skip >= len {
        0
    } else {
        len - skip
    };
    let n: usize = if avail <= count {
        avail
    } else {
        count
    };
    assert(w.len() == n);
    let mut r: Vec<String> = Vec::new();
    let mut i: usize = 0;
    while i < n
        invariant
            i <= n,
            n == w.len(),
            n <= avail,
            avail == (if skip >= len { 0 } else { len - skip }),
            len == lines@.len(),
            w == newest_window(texts(lines@), skip as nat, count as nat),
            texts(r@) =~= w.take(i as int),
        decreases n - i,
    {
        let ghost before = r@;
        let line = lines[len - 1 - skip - i].clone();
        assert(line@ == w[i as int]);
        r.push(line);
        i += 1;
        assert(texts(r@) =~= texts(before).push(w[i - 1]));
        assert(w.take(i as int) =~= w.take(i - 1).push(w[i - 1]));
    }
    assert(w.take(n as int) =~= w);
    r
}

/// The alerts' lines newest first, the first `skip` of those passed over, and
/// at most `count` of the rest.
pub fn newest_alert_lines(alerts: &Vec<Alert>, skip: usize, count: usize) -> (r: Vec<String>)
    ensures
        texts(r@) == newest_window(
            alerts@.map_values(|a: Alert| alert_line(a.body(), a.timestamp@)),
            skip as nat,
            count as nat,
        ),
{
    let ghost all = alerts@.map_values(|a: Alert| alert_line(a.body(), a.timestamp@));
    let ghost w = newest_window(all, skip as nat, count as nat);
    let len = alerts.len();
    let avail: usize = if skip >= len {
        0
    } else {
        len - skip
    };
    let n: usize = if avail <= count {
        avail
    } else {
        count
    };
    assert(w.len() == n);
    let mut r: Vec<String> = Vec::new();
    let mut i: usize = 0;
    while i < n
        invariant
            i <= n,
            n == w.len(),
            n <= avail,
            avail == (if skip >= len { 0 } else { len - skip }),
            len == alerts@.len(),
            all == alerts@.map_values(|a: Alert| alert_line(a.body(), a.timestamp@)),
            w == newest_window(all, skip as nat, count as nat),
            texts(r@) =~= w.take(i as int),
        decreases n - i,
    {
        let ghost before = r@;
        let line = alerts[len - 1 - skip - i].compact();
        assert(line@ == w[i as int]);
        r.push(line);
        i += 1;
        assert(texts(r@) =~= texts(before).push(w[i - 1]));
        assert(w.take(i as int) =~= w.take(i - 1).push(w[i - 1]));
    }
    assert(w.take(n as int) =~= w);
    r
}

/// The status pane: the three newest status lines, newest first, then the
/// uptime in seconds and the keys.
pub open spec fn status_text_spec(status: Seq<Seq<char>>, uptime_secs: u64) -> Seq<char> {
    join(newest_window(status, 0, 3), "\n"@) + "\nuptime="@ + decimal(uptime_secs as nat)
        + "s | q quit | r report | 1/2/3 tabs"@
}

/// The error pane: the four newest error lines, newest first.
pub open spec fn error_text_spec(errors: Seq<Seq<char>>) -> Seq<char> {
    join(newest_window(errors, 0, 4), "\n"@)
}

/// The rows of the statistics tab: label and value.
pub open spec fn stats_rows_spec(s: SnapshotView) -> Seq<(Seq<char>, Seq<char>)> {
    seq![
        ("Lines"@, decimal(s.total_lines_seen as nat)),
        ("Entries"@, decimal(s.total_entries_kept as nat)),
        ("Parse errors"@, decimal(s.parse_errors as nat)),
        ("Ignored"@, decimal(s.ignored_entries as nat)),
    ]
}

/// `n` in decimal.
fn decimal_string(n: u64) -> (r: String)
    ensures
        r@ == decimal(n as nat),
{
    let mut out: Vec<char> = Vec::new();
    push_decimal(&mut out, n);
    string_from_chars(out.as_slice())
}

/// The rows of the statistics tab: label and value.
pub fn stats_rows(snapshot: &StatsSnapshot) -> (r: Vec<(String, String)>)
    ensures
        r@.map_values(|p: (String, String)| (p.0@, p.1@)) == stats_rows_spec(snapshot@),
{
    let r = vec![
        ("Lines".to_owned(), decimal_string(snapshot.total_lines_seen)),
        ("Entries".to_owned(), decimal_string(snapshot.total_entries_kept)),
        ("Parse errors".to_owned(), decimal_string(snapshot.parse_errors)),
        ("Ignored".to_owned(), decimal_string(snapshot.ignored_entries)),
    ];
    assert(r@.map_values(|p: (String, String)| (p.0@, p.1@)) =~= stats_rows_spec(snapshot@));
    r
}

impl UiState {
    /// The status pane, `uptime_secs` seconds after the view started.
    pub fn status_text(&self, uptime_secs: u64) -> (r: String)
        ensures
            r@ == status_text_spec(texts(self.status_lines@), uptime_secs),
    {
        let newest = newest_lines(&self.status_lines, 0, 3);
        let joined = join_strings(&newest, "\n");
        let mut out = chars_of(joined.as_str());
        push_str(&mut out, "\nuptime=");
        push_decimal(&mut out, uptime_secs);
        push_str(&mut out, "s | q quit | r report | 1/2/3 tabs");
        string_from_chars(out.as_slice())
    }

    /// The error pane.
    pub fn error_text(&self) -> (r: String)
        ensures
            r@ == error_text_spec(texts(self.error_lines@)),
    {
        let newest = newest_lines(&self.error_lines, 0, 4);
        join_strings(&newest, "\n")
    }
}

/// How an event is written on the console: whether to the error stream, and
/// the line.
pub open spec fn console_text(e: EventView) -> (bool, Seq<char>) {
    match e {
        EventView::Entry(entry) => (false, compact_spec(entry)),
        EventView::Alert(a) => (true, "ALERT "@ + alert_line(a.0, a.1)),
        EventView::Status(s) => (true, "status: "@ + s),
        EventView::Error(s) => (true, "error: "@ + s),
    }
}

/// How an event is written on the console: whether to the error stream, and
/// the line.
pub fn console_line(event: &AppEvent) -> (r: (bool, String))
    ensures
        (r.0, r.1@) == console_text(event@),
{
    let mut out: Vec<char> = Vec::new();
    match event {
        AppEvent::Entry(entry) => {
            return (false, entry.compact());
        },
        AppEvent::Alert(alert) => {
            push_str(&mut out, "ALERT ");
            let line = alert.compact();
            push_str(&mut out, line.as_str());
        },
        AppEvent::Status(status) => {
            push_str(&mut out, "status: ");
            push_str(&mut out, status.as_str());
        },
        AppEvent::Error(error) => {
            push_str(&mut out, "error: ");
            push_str(&mut out, error.as_str());
        },
    }
    (true, string_from_chars(out.as_slice()))
}

/// What the console loop takes from the event channel.
pub enum Received {
    /// An event.
    Event(AppEvent),
    /// The loop fell behind and this many events were lost.
    Lagged(u64),
    /// Every sender is gone.
    Closed,
}

/// What the console loop does with what it took.
#[derive(Debug, PartialEq, Eq)]
pub enum ConsoleAction {
    /// Write a line, to the error stream where the flag says so, and go on.
    Write(bool, String),
    /// End the loop.
    Stop,
}

/// What the console loop does with what it took: an event is written as
/// `console_text` says; lost events are noted as `console skipped N events` on
/// the error stream and the loop goes on; only a closed channel ends it.
pub fn console_step(received: &Received) -> (r: ConsoleAction)
    ensures
        match received {
            Received::Event(e) => r matches ConsoleAction::Write(err, line) && (err, line@) == console_text(e@),
            Received::Lagged(n) => r matches ConsoleAction::Write(err, line) && err && line@ == "console skipped "@
                + decimal(*n as nat) + " events"@,
            Received::Closed => r is Stop,
        },
{
    match received {
        Received::Event(e) => {
            let (err, line) = console_line(e);
            ConsoleAction::Write(err, line)
        },
        Received::Lagged(n) => {
            let mut out: Vec<char> = Vec::new();
            push_str(&mut out, "console skipped ");
            push_decimal(&mut out, *n);
            push_str(&mut out, " events");
            ConsoleAction::Write(true, string_from_chars(out.as_slice()))
        },
        Received::Closed => ConsoleAction::Stop,
    }
}

/// Keeping the last lines after adding one: the added line is kept, last, and
/// before it stand the newest earlier lines, in order, as many as still fit.
pub proof fn lemma_added_line_kept<T>(s: Seq<T>, x: T, max_len: nat)
    requires
        1 <= max_len,
        s.len() <= max_len,
    ensures
        last_items(s.push(x), max_len).len() == (if s.len() < max_len {
            s.len() + 1int
        } else {
            max_len as int
        }),
        last_items(s.push(x), max_len).last() == x,
        last_items(s.push(x), max_len).drop_last() == s.skip(s.len() + 1 - last_items(s.push(x), max_len).len()),
{
    let k = last_items(s.push(x), max_len);
    assert(k.drop_last() =~= s.skip(s.len() + 1 - k.len()));
}

} // verus!
