//! What the workers do with each line read: parse it, filter it, run the
//! rules, update the statistics, and say which events to publish.
use vstd::prelude::*;
use crate::config::AppConfig;
use crate::log_entry::{
    keyword_matches, parse_level, parse_line_spec, parse_log_line_at, problem_text,
    source_name_spec, EntryView, LogEntry, LogLevel, ParseContext, ParseProblem,
};
use crate::rules::{evaluation, Alert, AlertView, EngineView, RuleEngine};
use crate::stats::{
    after_alert, after_alerts, after_entry, after_ignored, after_parse_error, after_raw_line,
    entry_fits, lines_balanced, same_but_time, stats_within_bounds, with_rule_counts, Stats, StatsView,
};
use crate::text::{decimal, push_decimal, push_str, string_from_chars};
use crate::timestamp::{at_or_after_epoch, Timestamp};

verus! {

/// A line as read from a file.
#[derive(Clone, Debug)]
pub struct RawLine {
    pub file: String,
    pub line_number: u64,
    pub text: String,
}

/// What the analysis tells its observers.
#[derive(Clone, Debug)]
pub enum AppEvent {
    Entry(LogEntry),
    Alert(Alert),
    Status(String),
    Error(String),
}

/// An event as plain values.
pub enum EventView {
    Entry(EntryView),
    Alert((AlertView, (i64, u32))),
    Status(Seq<char>),
    Error(Seq<char>),
}

impl View for AppEvent {
    type V = EventView;

    open spec fn view(&self) -> EventView {
        match self {
            AppEvent::Entry(e) => EventView::Entry(e@),
            AppEvent::Alert(a) => EventView::Alert(a.record()),
            AppEvent::Status(s) => EventView::Status(s@),
            AppEvent::Error(s) => EventView::Error(s@),
        }
    }
}

/// The events as plain values.
pub open spec fn events_view(v: Seq<AppEvent>) -> Seq<EventView> {
    v.map_values(|e: AppEvent| e@)
}

/// Whether the filters keep an entry: its level is one the filters name (an
/// unreadable name names none), it mentions the keyword, and it comes from the source.
pub open spec fn filters_pass(config: AppConfig, e: EntryView) -> bool {
    &&& (config.filters.levels matches Some(levels) ==> exists|i: int|
        0 <= i < levels@.len() && parse_level(#[trigger] levels@[i]@) == Some(e.level))
    &&& (config.filters.keyword matches Some(k) ==> keyword_matches(e, k@))
    &&& (config.filters.source matches Some(s) ==> source_name_spec(e) == s@)
}

/// Whether the filters keep an entry.
pub fn passes_filters(entry: &LogEntry, config: &AppConfig) -> (b: bool)
    ensures
        b == filters_pass(*config, entry@),
{
    match &config.filters.levels {
        Some(levels) => {
            let mut allowed = false;
            let mut i: usize = 0;
            while i < levels.len()
                invariant
                    i <= levels@.len(),
                    config.filters.levels == Some(*levels),
                    allowed == exists|j: int|
                        0 <= j < i && parse_level(#[trigger] levels@[j]@) == Some(entry@.level),
                decreases levels@.len() - i,
            {
                match LogLevel::from_str(levels[i].as_str()) {
                    Ok(level) => {
                        if level == entry.level {
                            allowed = true;
                        }
                    },
                    Err(_) => {},
                }
                i += 1;
                assert(allowed == exists|j: int|
                    0 <= j < i && parse_level(#[trigger] levels@[j]@) == Some(entry@.level)) by {
                    if parse_level(levels@[i - 1]@) == Some(entry@.level) {
                        assert(0 <= i - 1 < i && parse_level(levels@[i - 1]@) == Some(entry@.level));
                    }
                }
            }
            if !allowed {
                return false;
            }
        },
        None => {},
    }
    match &config.filters.keyword {
        Some(keyword) => {
            if !entry.matches_keyword(keyword.as_str()) {
                return false;
            }
        },
        None => {},
    }
    match &config.filters.source {
        Some(source) => {
            let name = entry.source_name();
            if name != *source {
                return false;
            }
        },
        None => {},
    }
    true
}

/// Whether an entry can be handled without a counter passing its maximum or a
/// window that chrono cannot subtract.
pub open spec fn entry_handling_fits(config: AppConfig, s: StatsView, v: EngineView, e: EntryView) -> bool {
    if !filters_pass(config, e) {
        s.ignored_entries < u64::MAX
    } else {
        match evaluation(v, e) {
            None => false,
            Some(p) => if p.ignored {
                s.ignored_entries < u64::MAX
            } else {
                entry_fits(s, e)
            },
        }
    }
}

/// What handling an entry gives: the statistics before the alerts are kept,
/// and whether the entry itself is published.
pub open spec fn stats_before_alerts(config: AppConfig, s: StatsView, v: EngineView, e: EntryView) -> StatsView {
    let p = evaluation(v, e)->0;
    let s1 = with_rule_counts(s, p.counts);
    if p.ignored {
        after_ignored(s1)
    } else {
        after_entry(s1, e)
    }
}

/// The records of the alert events from position `k` on.
pub open spec fn alert_records(events: Seq<EventView>, k: int) -> Seq<(AlertView, (i64, u32))> {
    Seq::new((events.len() - k) as nat, |i: int| events[k + i]->Alert_0)
}

/// Whether `events`, `stats` and `engine` are what handling `e` from `s` and `v`
/// under `config` gives: a filtered-out entry is only counted as ignored; any
/// other entry goes through the rules, the statistics take the new rule counts,
/// the entry is counted as ignored or kept, and its alerts are kept; the events
/// are the entry unless it is ignored, then its alerts in order.
pub open spec fn handled(
    config: AppConfig,
    s: StatsView,
    v: EngineView,
    e: EntryView,
    events: Seq<EventView>,
    stats: StatsView,
    engine: EngineView,
) -> bool {
    if !filters_pass(config, e) {
        &&& same_but_time(after_ignored(s), stats)
        &&& engine == v
        &&& events.len() == 0
    } else {
        let p = evaluation(v, e)->0;
        let k: int = if p.ignored {
            0
        } else {
            1
        };
        &&& engine.rules == p.rules
        &&& engine.counts == p.counts
        &&& events.len() == k + p.alerts.len()
        &&& (!p.ignored ==> events[0] == EventView::Entry(e))
        &&& forall|i: int|
            0 <= i < p.alerts.len() ==> (#[trigger] events[k + i] matches EventView::Alert(r) && r.0
                == p.alerts[i])
        &&& same_but_time(after_alerts(stats_before_alerts(config, s, v, e), alert_records(events, k)), stats)
    }
}

proof fn lemma_alert_records_push(s: Seq<EventView>, k: int, r: (AlertView, (i64, u32)))
    requires
        0 <= k <= s.len(),
    ensures
        alert_records(s.push(EventView::Alert(r)), k) == alert_records(s, k).push(r),
{
    let a = alert_records(s.push(EventView::Alert(r)), k);
    let b = alert_records(s, k).push(r);
    assert(a.len() == b.len());
    assert forall|i: int| 0 <= i < a.len() implies a[i] == b[i] by {
        if i < a.len() - 1 {
            assert(s.push(EventView::Alert(r))[k + i] == s[k + i]);
        }
    }
    assert(a =~= b);
}

/// `same_but_time` carries over the updates of statistics.
proof fn lemma_same_but_time_alert(a: StatsView, b: StatsView, r: (AlertView, (i64, u32)))
    requires
        same_but_time(a, b),
    ensures
        same_but_time(after_alert(a, r), after_alert(b, r)),
{
}

/// Handles a kept or filtered entry, as `handled` says.
pub fn handle_entry(entry: LogEntry, config: &AppConfig, stats: &mut Stats, engine: &mut RuleEngine) -> (r: Vec<AppEvent>)
    requires
        entry_handling_fits(*config, old(stats)@, old(engine)@, entry@),
    ensures
        handled(*config, old(stats)@, old(engine)@, entry@, events_view(r@), final(stats)@, final(engine)@),
{
    let ghost s0 = stats@;
    let ghost v0 = engine@;
    let ghost e = entry@;
    if !passes_filters(&entry, config) {
        stats.observe_ignored();
        let r: Vec<AppEvent> = Vec::new();
        assert(events_view(r@) =~= Seq::<EventView>::empty());
        return r;
    }
    let decision = engine.evaluate(&entry);
    let ghost p = evaluation(v0, e)->0;
    stats.set_rule_counts(engine.counts());
    let mut events: Vec<AppEvent> = Vec::new();
    if decision.ignored {
        stats.observe_ignored();
    } else {
        stats.observe_entry(entry.duplicate());
        events.push(AppEvent::Entry(entry));
    }
    let ghost k: int = if p.ignored {
        0
    } else {
        1
    };
    assert(events_view(events@).len() == k);
    assert(same_but_time(stats_before_alerts(*config, s0, v0, e), stats@));
    let alerts = decision.alerts;
    let n = alerts.len();
    let mut i: usize = 0;
    while i < n
        invariant
            i <= n,
            p == evaluation(v0, e)->0,
            k == if p.ignored {
                0int
            } else {
                1int
            },
            n == alerts@.len(),
            n == p.alerts.len(),
            forall|j: int| 0 <= j < p.alerts.len() ==> (#[trigger] alerts@[j]).body() == p.alerts[j],
            events_view(events@).len() == k + i,
            !p.ignored ==> events_view(events@)[0] == EventView::Entry(e),
            forall|j: int|
                0 <= j < i ==> (#[trigger] events_view(events@)[k + j] matches EventView::Alert(r) && r
                    == alerts@[j].record()),
            same_but_time(
                after_alerts(
                    stats_before_alerts(*config, s0, v0, e),
                    alert_records(events_view(events@), k),
                ),
                stats@,
            ),
            engine@.rules == p.rules,
            engine@.counts == p.counts,
        decreases n - i,
    {
        let ghost before = events_view(events@);
        let ghost recs = alert_records(before, k);
        let ghost sv = stats@;
        stats.observe_alert(alerts[i].duplicate());
        events.push(AppEvent::Alert(alerts[i].duplicate()));
        let ghost after = events_view(events@);
        assert(after =~= before.push(EventView::Alert(alerts@[i as int].record())));
        proof {
            lemma_alert_records_push(before, k, alerts@[i as int].record());
        }
        assert(alert_records(after, k).drop_last() =~= recs);
        assert forall|j: int| 0 <= j < i + 1 implies (#[trigger] after[k + j] matches EventView::Alert(r)
            && r == alerts@[j].record()) by {
            if j < i {
                assert(after[k + j] == before[k + j]);
            }
        }
        proof {
            lemma_same_but_time_alert(
                after_alerts(stats_before_alerts(*config, s0, v0, e), recs),
                sv,
                alerts@[i as int].record(),
            );
        }
        i += 1;
    }
    events
}

/// Whether an entry can be handled; see `entry_handling_fits`.
pub fn can_handle_entry(entry: &LogEntry, config: &AppConfig, stats: &Stats, engine: &RuleEngine) -> (b: bool)
    ensures
        b == entry_handling_fits(*config, stats@, engine@, entry@),
{
    if !passes_filters(entry, config) {
        return stats.ignored_room();
    }
    if !engine.can_evaluate(entry) {
        return false;
    }
    proof {
        crate::rules::lemma_ignored_iff_ignore_rule_matches(engine@, entry@, engine@.rules.len());
    }
    if engine.would_ignore(entry) {
        stats.ignored_room()
    } else {
        stats.entry_room(entry)
    }
}

/// The text of the event for a line that could not be read:
/// `parse error in FILE:LINE: PROBLEM`.
pub open spec fn parse_error_text(file: Seq<char>, line: u64, p: ParseProblem) -> Seq<char> {
    "parse error in "@ + file + ":"@ + decimal(line as nat) + ": "@ + problem_text(p)
}

/// Whether a line can be taken, given what parsing it gave.
pub open spec fn line_handling_fits(
    config: AppConfig,
    s: StatsView,
    v: EngineView,
    parsed: Result<EntryView, ParseProblem>,
) -> bool {
    &&& s.total_lines_seen < u64::MAX
    &&& match parsed {
        Ok(e) => entry_handling_fits(config, s, v, e),
        Err(_) => s.parse_errors < u64::MAX,
    }
}

/// Whether `events`, `stats` and `engine` are what taking a line that parsed as
/// `parsed` gives: the line is counted, then an entry is handled, or an
/// unreadable line is counted and reported.
pub open spec fn line_handled(
    config: AppConfig,
    file: Seq<char>,
    line: u64,
    s: StatsView,
    v: EngineView,
    parsed: Result<EntryView, ParseProblem>,
    events: Seq<EventView>,
    stats: StatsView,
    engine: EngineView,
) -> bool {
    match parsed {
        Ok(e) => exists|mid: StatsView|
            same_but_time(after_raw_line(s), mid) && handled(config, mid, v, e, events, stats, engine),
        Err(p) => {
            &&& same_but_time(after_parse_error(after_raw_line(s)), stats)
            &&& engine == v
            &&& events == seq![EventView::Error(parse_error_text(file, line, p))]
        },
    }
}

/// Alerts leave the counters of lines and entries as they are.
proof fn lemma_after_alerts_counters(v: StatsView, alerts: Seq<(AlertView, (i64, u32))>)
    ensures
        after_alerts(v, alerts).total_lines_seen == v.total_lines_seen,
        after_alerts(v, alerts).total_entries_kept == v.total_entries_kept,
        after_alerts(v, alerts).ignored_entries == v.ignored_entries,
        after_alerts(v, alerts).parse_errors == v.parse_errors,
    decreases alerts.len(),
{
    if alerts.len() > 0 {
        lemma_after_alerts_counters(v, alerts.drop_last());
    }
}

/// Every line taken is accounted for once: it raises the count of lines read
/// by one, and exactly one of the counts of entries kept, entries left out and
/// unreadable lines by one. So statistics that start from zero, as new ones do,
/// always count as many lines read as entries kept, left out and unreadable
/// together.
pub proof fn lemma_every_line_accounted(
    config: AppConfig,
    file: Seq<char>,
    line: u64,
    s: StatsView,
    v: EngineView,
    parsed: Result<EntryView, ParseProblem>,
    events: Seq<EventView>,
    stats: StatsView,
    engine: EngineView,
)
    requires
        line_handling_fits(config, s, v, parsed),
        line_handled(config, file, line, s, v, parsed, events, stats, engine),
    ensures
        stats.total_lines_seen == s.total_lines_seen + 1,
        stats.total_entries_kept + stats.ignored_entries + stats.parse_errors == s.total_entries_kept
            + s.ignored_entries + s.parse_errors + 1,
        lines_balanced(s) ==> lines_balanced(stats),
{
    match parsed {
        Ok(e) => {
            let mid = choose|mid: StatsView|
                same_but_time(after_raw_line(s), mid) && handled(config, mid, v, e, events, stats, engine);
            if filters_pass(config, e) {
                let p = evaluation(v, e)->0;
                let k: int = if p.ignored {
                    0
                } else {
                    1
                };
                lemma_after_alerts_counters(stats_before_alerts(config, mid, v, e), alert_records(events, k));
            }
        },
        Err(_) => {},
    }
}

/// Alerts keep statistics within their bounds.
proof fn lemma_after_alerts_bounds(v: StatsView, alerts: Seq<(AlertView, (i64, u32))>)
    requires
        stats_within_bounds(v),
    ensures
        stats_within_bounds(after_alerts(v, alerts)),
    decreases alerts.len(),
{
    if alerts.len() > 0 {
        lemma_after_alerts_bounds(v, alerts.drop_last());
    }
}

/// Taking a line keeps the statistics within their bounds: the retained-events
/// setting stays between 50 and 10,000, and no more recent entries and alerts
/// are kept than it says.
pub proof fn lemma_line_keeps_bounds(
    config: AppConfig,
    file: Seq<char>,
    line: u64,
    s: StatsView,
    v: EngineView,
    parsed: Result<EntryView, ParseProblem>,
    events: Seq<EventView>,
    stats: StatsView,
    engine: EngineView,
)
    requires
        stats_within_bounds(s),
        line_handled(config, file, line, s, v, parsed, events, stats, engine),
    ensures
        stats_within_bounds(stats),
{
    match parsed {
        Ok(e) => {
            let mid = choose|mid: StatsView|
                same_but_time(after_raw_line(s), mid) && handled(config, mid, v, e, events, stats, engine);
            if filters_pass(config, e) {
                let p = evaluation(v, e)->0;
                let k: int = if p.ignored {
                    0
                } else {
                    1
                };
                lemma_after_alerts_bounds(stats_before_alerts(config, mid, v, e), alert_records(events, k));
            }
        },
        Err(_) => {},
    }
}

/// Takes a line that parsed as `parsed`.
fn process_parsed(
    raw: &RawLine,
    parsed: Result<LogEntry, ParseProblem>,
    config: &AppConfig,
    stats: &mut Stats,
    engine: &mut RuleEngine,
) -> (r: Vec<AppEvent>)
    requires
        line_handling_fits(*config, old(stats)@, old(engine)@, crate::log_entry::parse_result_view(parsed)),
    ensures
        line_handled(
            *config,
            raw.file@,
            raw.line_number,
            old(stats)@,
            old(engine)@,
            crate::log_entry::parse_result_view(parsed),
            events_view(r@),
            final(stats)@,
            final(engine)@,
        ),
{
    stats.observe_raw_line();
    let ghost mid = stats@;
    match parsed {
        Ok(entry) => {
            let r = handle_entry(entry, config, stats, engine);
            r
        },
        Err(problem) => {
            stats.observe_parse_error();
            let mut out: Vec<char> = Vec::new();
            push_str(&mut out, "parse error in ");
            push_str(&mut out, raw.file.as_str());
            push_str(&mut out, ":");
            push_decimal(&mut out, raw.line_number);
            push_str(&mut out, ": ");
            push_str(&mut out, problem.message());
            assert(out@ =~= parse_error_text(raw.file@, raw.line_number, problem));
            let r = vec![AppEvent::Error(string_from_chars(out.as_slice()))];
            assert(events_view(r@) =~= seq![EventView::Error(parse_error_text(raw.file@, raw.line_number, problem))]);
            r
        },
    }
}

/// Takes a line read from a file, `now` standing for the current time that an
/// entry without a time of its own gets.
pub fn process_raw_line_at(
    raw: &RawLine,
    config: &AppConfig,
    stats: &mut Stats,
    engine: &mut RuleEngine,
    now: Timestamp,
) -> (r: Vec<AppEvent>)
    requires
        line_handling_fits(
            *config,
            old(stats)@,
            old(engine)@,
            parse_line_spec(raw.text@, now@, raw.file@, raw.line_number),
        ),
    ensures
        line_handled(
            *config,
            raw.file@,
            raw.line_number,
            old(stats)@,
            old(engine)@,
            parse_line_spec(raw.text@, now@, raw.file@, raw.line_number),
            events_view(r@),
            final(stats)@,
            final(engine)@,
        ),
        lines_balanced(old(stats)@) ==> lines_balanced(final(stats)@),
        stats_within_bounds(old(stats)@) ==> stats_within_bounds(final(stats)@),
{
    let ghost s0 = stats@;
    let ghost v0 = engine@;
    let ghost pv = parse_line_spec(raw.text@, now@, raw.file@, raw.line_number);
    let ctx = ParseContext { file: raw.file.clone(), line_number: raw.line_number };
    let parsed = parse_log_line_at(raw.text.as_str(), ctx, now);
    let r = process_parsed(raw, parsed, config, stats, engine);
    proof {
        lemma_every_line_accounted(*config, raw.file@, raw.line_number, s0, v0, pv, events_view(r@), stats@, engine@);
        if stats_within_bounds(s0) {
            lemma_line_keeps_bounds(*config, raw.file@, raw.line_number, s0, v0, pv, events_view(r@), stats@, engine@);
        }
    }
    r
}

/// Takes a line read from a file, at the current time; `None`, with nothing
/// changed, where the system clock cannot be read, a counter would pass its
/// maximum, or a rule's window cannot be subtracted from the entry's time.
/// Statistics that count every line once and keep within their bounds go on
/// doing so.
pub fn process_raw_line(raw: &RawLine, config: &AppConfig, stats: &mut Stats, engine: &mut RuleEngine) -> (r: Option<
    Vec<AppEvent>,
>)
    ensures
        (r is None && final(stats)@ == old(stats)@ && final(engine)@ == old(engine)@) || exists|now: (i64, u32)|
            #![trigger parse_line_spec(raw.text@, now, raw.file@, raw.line_number)]
            {
                let parsed = parse_line_spec(raw.text@, now, raw.file@, raw.line_number);
                &&& at_or_after_epoch(now)
                &&& if line_handling_fits(*config, old(stats)@, old(engine)@, parsed) {
                    r matches Some(events) && line_handled(
                        *config,
                        raw.file@,
                        raw.line_number,
                        old(stats)@,
                        old(engine)@,
                        parsed,
                        events_view(events@),
                        final(stats)@,
                        final(engine)@,
                    )
                } else {
                    r is None && final(stats)@ == old(stats)@ && final(engine)@ == old(engine)@
                }
            },
        lines_balanced(old(stats)@) ==> lines_balanced(final(stats)@),
        stats_within_bounds(old(stats)@) ==> stats_within_bounds(final(stats)@),
{
    let now = match Timestamp::now() {
        Some(t) => t,
        None => {
            return None;
        },
    };
    let ctx = ParseContext { file: raw.file.clone(), line_number: raw.line_number };
    let parsed = parse_log_line_at(raw.text.as_str(), ctx, now);
    let fits = stats.line_room() && match &parsed {
        Ok(entry) => can_handle_entry(entry, config, stats, engine),
        Err(_) => stats.parse_error_room(),
    };
    let ghost pv = parse_line_spec(raw.text@, now@, raw.file@, raw.line_number);
    if fits {
        let ghost s0 = stats@;
        let ghost v0 = engine@;
        let r = process_parsed(raw, parsed, config, stats, engine);
        assert(line_handled(*config, raw.file@, raw.line_number, s0, v0, pv, events_view(r@), stats@, engine@));
        proof {
            lemma_every_line_accounted(*config, raw.file@, raw.line_number, s0, v0, pv, events_view(r@), stats@, engine@);
            if stats_within_bounds(s0) {
                lemma_line_keeps_bounds(*config, raw.file@, raw.line_number, s0, v0, pv, events_view(r@), stats@, engine@);
            }
        }
        Some(r)
    } else {
        None
    }
}

/// Whether any log file was given to read; an analysis needs at least one.
pub fn has_log_files(files: &Vec<String>) -> (r: bool)
    ensures
        r == (files@.len() > 0),
{
    files.len() > 0
}

} // verus!
