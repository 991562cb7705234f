//! Running statistics of an analysis: totals, counts by level, source, service
//! and file, the counts of rule matches, and the recent entries and alerts.
use vstd::prelude::*;
use std::collections::VecDeque;
use crate::log_entry::{level_name, source_name_spec, EntryView, LogEntry, LogLevel};
use crate::rules::{Alert, AlertView};
use crate::strmap::{bumped_u64, insert_sorted, lookup, StrMap};
use crate::text::{decimal, push_decimal, push_str, string_from_chars};
use crate::timestamp::{at_or_after_epoch, instant_text, Timestamp};

verus! {

/// The place of a level in the order of levels.
pub open spec fn level_rank(l: LogLevel) -> int {
    match l {
        LogLevel::Info => 0,
        LogLevel::Warn => 1,
        LogLevel::Error => 2,
        LogLevel::Debug => 3,
        LogLevel::Trace => 4,
        LogLevel::Unknown => 5,
    }
}

/// The level at a place in the order of levels.
pub open spec fn level_at(i: int) -> LogLevel {
    if i == 0 {
        LogLevel::Info
    } else if i == 1 {
        LogLevel::Warn
    } else if i == 2 {
        LogLevel::Error
    } else if i == 3 {
        LogLevel::Debug
    } else if i == 4 {
        LogLevel::Trace
    } else {
        LogLevel::Unknown
    }
}

/// How many entries of each level were kept; a level with none is absent.
#[derive(Clone, Copy, Debug)]
pub struct LevelCounts {
    info: u64,
    warn: u64,
    error: u64,
    debug: u64,
    trace: u64,
    unknown: u64,
}

impl View for LevelCounts {
    type V = Seq<u64>;

    /// The counts in the order of levels.
    closed spec fn view(&self) -> Seq<u64> {
        seq![self.info, self.warn, self.error, self.debug, self.trace, self.unknown]
    }
}

impl LevelCounts {
    /// No entries of any level.
    pub fn new() -> (r: LevelCounts)
        ensures
            r@ == seq![0u64, 0u64, 0u64, 0u64, 0u64, 0u64],
    {
        LevelCounts { info: 0, warn: 0, error: 0, debug: 0, trace: 0, unknown: 0 }
    }

    /// The number of entries of a level.
    pub fn get(&self, level: LogLevel) -> (n: u64)
        ensures
            self@.len() == 6,
            n == self@[level_rank(level)],
    {
        match level {
            LogLevel::Info => self.info,
            LogLevel::Warn => self.warn,
            LogLevel::Error => self.error,
            LogLevel::Debug => self.debug,
            LogLevel::Trace => self.trace,
            LogLevel::Unknown => self.unknown,
        }
    }

    /// Counts one more entry of a level.
    pub fn increment(&mut self, level: LogLevel)
        requires
            old(self)@[level_rank(level)] < u64::MAX,
        ensures
            final(self)@ == old(self)@.update(level_rank(level), (old(self)@[level_rank(level)] + 1) as u64),
    {
        match level {
            LogLevel::Info => self.info = self.info + 1,
            LogLevel::Warn => self.warn = self.warn + 1,
            LogLevel::Error => self.error = self.error + 1,
            LogLevel::Debug => self.debug = self.debug + 1,
            LogLevel::Trace => self.trace = self.trace + 1,
            LogLevel::Unknown => self.unknown = self.unknown + 1,
        }
        assert(final(self)@ =~= old(self)@.update(level_rank(level), (old(self)@[level_rank(level)] + 1) as u64));
    }

    /// Sets the number of entries of a level.
    pub fn set(&mut self, level: LogLevel, n: u64)
        ensures
            final(self)@ == old(self)@.update(level_rank(level), n),
    {
        match level {
            LogLevel::Info => self.info = n,
            LogLevel::Warn => self.warn = n,
            LogLevel::Error => self.error = n,
            LogLevel::Debug => self.debug = n,
            LogLevel::Trace => self.trace = n,
            LogLevel::Unknown => self.unknown = n,
        }
        assert(final(self)@ =~= old(self)@.update(level_rank(level), n));
    }

    /// A copy of the counts.
    pub fn duplicate(&self) -> (r: LevelCounts)
        ensures
            r@ == self@,
    {
        *self
    }
}

/// The last `n` items, or all of them when there are no more than `n`.
pub open spec fn keep_last<T>(s: Seq<T>, n: nat) -> Seq<T> {
    if s.len() > n {
        s.skip(s.len() - n)
    } else {
        s
    }
}

/// The retained-events setting held between 50 and 10,000.
pub open spec fn retained_limit(n: usize) -> usize {
    if n < 50 {
        50
    } else if n > 10000 {
        10000
    } else {
        n
    }
}

/// Statistics as plain values.
pub struct StatsView {
    pub started_at: (i64, u32),
    pub updated_at: (i64, u32),
    pub total_lines_seen: u64,
    pub total_entries_kept: u64,
    pub parse_errors: u64,
    pub ignored_entries: u64,
    pub by_level: Seq<u64>,
    pub by_source: Seq<(Seq<char>, u64)>,
    pub by_service: Seq<(Seq<char>, u64)>,
    pub by_file: Seq<(Seq<char>, u64)>,
    pub rule_counts: Seq<(Seq<char>, usize)>,
    pub recent_entries: Seq<EntryView>,
    pub alerts: Seq<(AlertView, (i64, u32))>,
    pub retained_events: usize,
}

/// The running statistics.
#[derive(Clone, Debug)]
pub struct Stats {
    started_at: Timestamp,
    updated_at: Timestamp,
    total_lines_seen: u64,
    total_entries_kept: u64,
    parse_errors: u64,
    ignored_entries: u64,
    by_level: LevelCounts,
    by_source: StrMap<u64>,
    by_service: StrMap<u64>,
    by_file: StrMap<u64>,
    rule_counts: StrMap<usize>,
    recent_entries: VecDeque<LogEntry>,
    alerts: VecDeque<Alert>,
    retained_events: usize,
}

impl View for Stats {
    type V = StatsView;

    closed spec fn view(&self) -> StatsView {
        StatsView {
            started_at: self.started_at@,
            updated_at: self.updated_at@,
            total_lines_seen: self.total_lines_seen,
            total_entries_kept: self.total_entries_kept,
            parse_errors: self.parse_errors,
            ignored_entries: self.ignored_entries,
            by_level: self.by_level@,
            by_source: self.by_source@,
            by_service: self.by_service@,
            by_file: self.by_file@,
            rule_counts: self.rule_counts@,
            recent_entries: self.recent_entries@.map_values(|e: LogEntry| e@),
            alerts: self.alerts@.map_values(|a: Alert| a.record()),
            retained_events: self.retained_events,
        }
    }
}

/// Every statistics keeps its retained-events setting between 50 and 10,000,
/// and no more recent entries and alerts than that setting.
pub open spec fn stats_within_bounds(v: StatsView) -> bool {
    &&& 50 <= v.retained_events <= 10000
    &&& v.recent_entries.len() <= v.retained_events
    &&& v.alerts.len() <= v.retained_events
}

/// Whether every line read is accounted for: as many lines read as entries
/// kept, entries left out and unreadable lines together.
pub open spec fn lines_balanced(v: StatsView) -> bool {
    v.total_lines_seen == v.total_entries_kept + v.ignored_entries + v.parse_errors
}

/// Statistics `n` are `o` but for the time of the last update, which is the
/// current time when an update happens.
pub open spec fn same_but_time(o: StatsView, n: StatsView) -> bool {
    &&& n.started_at == o.started_at
    &&& n.total_lines_seen == o.total_lines_seen
    &&& n.total_entries_kept == o.total_entries_kept
    &&& n.parse_errors == o.parse_errors
    &&& n.ignored_entries == o.ignored_entries
    &&& n.by_level == o.by_level
    &&& n.by_source == o.by_source
    &&& n.by_service == o.by_service
    &&& n.by_file == o.by_file
    &&& n.rule_counts == o.rule_counts
    &&& n.recent_entries == o.recent_entries
    &&& n.alerts == o.alerts
    &&& n.retained_events == o.retained_events
}


/// Statistics after one more line read.
pub open spec fn after_raw_line(v: StatsView) -> StatsView {
    StatsView { total_lines_seen: (v.total_lines_seen + 1) as u64, ..v }
}

/// Statistics after one more unreadable line.
pub open spec fn after_parse_error(v: StatsView) -> StatsView {
    StatsView { parse_errors: (v.parse_errors + 1) as u64, ..v }
}

/// Statistics after one more entry left out.
pub open spec fn after_ignored(v: StatsView) -> StatsView {
    StatsView { ignored_entries: (v.ignored_entries + 1) as u64, ..v }
}

/// Whether the counters that a kept entry raises are below their maximum.
pub open spec fn entry_fits(v: StatsView, e: EntryView) -> bool {
    &&& v.total_entries_kept < u64::MAX
    &&& v.by_level.len() == 6
    &&& v.by_level[level_rank(e.level)] < u64::MAX
    &&& (lookup(v.by_source, source_name_spec(e)) matches Some(n) ==> n < u64::MAX)
    &&& (lookup(e.fields, "service"@) matches Some(svc) ==> (lookup(v.by_service, svc) matches Some(
        n,
    ) ==> n < u64::MAX))
    &&& (lookup(v.by_file, e.file) matches Some(n) ==> n < u64::MAX)
}

/// Statistics after a kept entry: counted by level, source name, service and
/// file, and kept among the recent entries, the oldest dropping out past the
/// retained number.
pub open spec fn after_entry(v: StatsView, e: EntryView) -> StatsView {
    let source = source_name_spec(e);
    StatsView {
        total_entries_kept: (v.total_entries_kept + 1) as u64,
        by_level: v.by_level.update(level_rank(e.level), (v.by_level[level_rank(e.level)] + 1) as u64),
        by_source: insert_sorted(v.by_source, source, bumped_u64(lookup(v.by_source, source))),
        by_service: match lookup(e.fields, "service"@) {
            Some(svc) => insert_sorted(v.by_service, svc, bumped_u64(lookup(v.by_service, svc))),
            None => v.by_service,
        },
        by_file: insert_sorted(v.by_file, e.file, bumped_u64(lookup(v.by_file, e.file))),
        recent_entries: keep_last(v.recent_entries.push(e), v.retained_events as nat),
        ..v
    }
}

/// Statistics after an alert: kept among the recent alerts, the oldest dropping
/// out past the retained number.
pub open spec fn after_alert(v: StatsView, a: (AlertView, (i64, u32))) -> StatsView {
    StatsView { alerts: keep_last(v.alerts.push(a), v.retained_events as nat), ..v }
}

/// Statistics after each of the alerts in turn.
pub open spec fn after_alerts(v: StatsView, alerts: Seq<(AlertView, (i64, u32))>) -> StatsView
    decreases alerts.len(),
{
    if alerts.len() == 0 {
        v
    } else {
        after_alert(after_alerts(v, alerts.drop_last()), alerts.last())
    }
}

/// Statistics with new counts of rule matches.
pub open spec fn with_rule_counts(v: StatsView, counts: Seq<(Seq<char>, usize)>) -> StatsView {
    StatsView { rule_counts: counts, ..v }
}

/// Drops the oldest entries until no more than `limit` remain.
fn trim_entries(q: &mut VecDeque<LogEntry>, limit: usize)
    ensures
        final(q)@ == keep_last(old(q)@, limit as nat),
{
    let ghost s = old(q)@;
    while q.len() > limit
        invariant
            q@.len() <= s.len(),
            q@ == s.skip(s.len() - q@.len()),
            q@.len() >= limit || q@ == s,
        decreases q@.len(),
    {
        let ghost before_pop = q@;
        let ghost k = s.len() - before_pop.len();
        q.pop_front();
        assert(s.skip(k).drop_first() =~= s.skip(k + 1));
        assert(q@ =~= s.skip(k + 1));
    }
    assert(s.skip(0) =~= s);
}

/// Drops the oldest alerts until no more than `limit` remain.
fn trim_alerts(q: &mut VecDeque<Alert>, limit: usize)
    ensures
        final(q)@ == keep_last(old(q)@, limit as nat),
{
    let ghost s = old(q)@;
    while q.len() > limit
        invariant
            q@.len() <= s.len(),
            q@ == s.skip(s.len() - q@.len()),
            q@.len() >= limit || q@ == s,
        decreases q@.len(),
    {
        let ghost before_pop = q@;
        let ghost k = s.len() - before_pop.len();
        q.pop_front();
        assert(s.skip(k).drop_first() =~= s.skip(k + 1));
        assert(q@ =~= s.skip(k + 1));
    }
    assert(s.skip(0) =~= s);
}

impl Stats {
    /// Statistics with nothing seen yet, started now (at the Unix epoch where the
    /// clock cannot be read), keeping the given number
    /// of recent entries and alerts held between 50 and 10,000.
    pub fn new(retained_events: usize) -> (r: Stats)
        ensures
            r@.started_at == r@.updated_at,
            at_or_after_epoch(r@.started_at) || r@.started_at == (0i64, 0u32),
            r@.total_lines_seen == 0,
            r@.total_entries_kept == 0,
            r@.parse_errors == 0,
            r@.ignored_entries == 0,
            r@.by_level == seq![0u64, 0u64, 0u64, 0u64, 0u64, 0u64],
            r@.by_source == Seq::<(Seq<char>, u64)>::empty(),
            r@.by_service == Seq::<(Seq<char>, u64)>::empty(),
            r@.by_file == Seq::<(Seq<char>, u64)>::empty(),
            r@.rule_counts == Seq::<(Seq<char>, usize)>::empty(),
            r@.recent_entries == Seq::<EntryView>::empty(),
            r@.alerts == Seq::<(AlertView, (i64, u32))>::empty(),
            r@.retained_events == retained_limit(retained_events),
            stats_within_bounds(r@),
            lines_balanced(r@),
    {
        let now = Timestamp::now_or(Timestamp::epoch());
        let retained = if retained_events < 50 {
            50
        } else if retained_events > 10000 {
            10000
        } else {
            retained_events
        };
        let r = Stats {
            started_at: now,
            updated_at: now,
            total_lines_seen: 0,
            total_entries_kept: 0,
            parse_errors: 0,
            ignored_entries: 0,
            by_level: LevelCounts::new(),
            by_source: StrMap::new(),
            by_service: StrMap::new(),
            by_file: StrMap::new(),
            rule_counts: StrMap::new(),
            recent_entries: VecDeque::new(),
            alerts: VecDeque::new(),
            retained_events: retained,
        };
        assert(r@.recent_entries =~= Seq::<EntryView>::empty());
        assert(r@.alerts =~= Seq::<(AlertView, (i64, u32))>::empty());
        r
    }

    /// Counts one more line read.
    pub fn observe_raw_line(&mut self)
        requires
            old(self)@.total_lines_seen < u64::MAX,
        ensures
            same_but_time(after_raw_line(old(self)@), final(self)@),
    {
        self.total_lines_seen = self.total_lines_seen + 1;
        self.updated_at = Timestamp::now_or(self.updated_at);
    }

    /// Counts one more line that could not be read as an entry.
    pub fn observe_parse_error(&mut self)
        requires
            old(self)@.parse_errors < u64::MAX,
        ensures
            same_but_time(after_parse_error(old(self)@), final(self)@),
    {
        self.parse_errors = self.parse_errors + 1;
        self.updated_at = Timestamp::now_or(self.updated_at);
    }

    /// Counts one more entry left out.
    pub fn observe_ignored(&mut self)
        requires
            old(self)@.ignored_entries < u64::MAX,
        ensures
            same_but_time(after_ignored(old(self)@), final(self)@),
    {
        self.ignored_entries = self.ignored_entries + 1;
        self.updated_at = Timestamp::now_or(self.updated_at);
    }

    /// Counts a kept entry by level, source name, service and file, and keeps it
    /// among the recent entries, the oldest dropping out past the retained number.
    pub fn observe_entry(&mut self, entry: LogEntry)
        requires
            entry_fits(old(self)@, entry@),
        ensures
            same_but_time(after_entry(old(self)@, entry@), final(self)@),
            stats_within_bounds(old(self)@) ==> stats_within_bounds(final(self)@),
    {
        let ghost o = self@;
        self.total_entries_kept = self.total_entries_kept + 1;
        self.by_level.increment(entry.level);
        let source = entry.source_name();
        self.by_source.increment(source.as_str());
        match entry.service() {
            Some(service) => self.by_service.increment(service),
            None => {},
        }
        self.by_file.increment(entry.file.as_str());
        let ghost old_recent = self.recent_entries@;
        self.recent_entries.push_back(entry);
        trim_entries(&mut self.recent_entries, self.retained_events);
        assert(old_recent.push(entry).map_values(|e: LogEntry| e@) =~= o.recent_entries.push(entry@));
        assert(self@.recent_entries =~= keep_last(o.recent_entries.push(entry@), o.retained_events as nat));
        self.updated_at = Timestamp::now_or(self.updated_at);
    }

    /// Keeps an alert among the recent alerts, the oldest dropping out past the
    /// retained number.
    pub fn observe_alert(&mut self, alert: Alert)
        ensures
            same_but_time(after_alert(old(self)@, alert.record()), final(self)@),
            stats_within_bounds(old(self)@) ==> stats_within_bounds(final(self)@),
    {
        let ghost o = self@;
        let ghost old_alerts = self.alerts@;
        self.alerts.push_back(alert);
        trim_alerts(&mut self.alerts, self.retained_events);
        assert(old_alerts.push(alert).map_values(|a: Alert| a.record()) =~= o.alerts.push(alert.record()));
        assert(self@.alerts =~= keep_last(o.alerts.push(alert.record()), o.retained_events as nat));
        self.updated_at = Timestamp::now_or(self.updated_at);
    }

    /// Replaces the counts of rule matches.
    pub fn set_rule_counts(&mut self, counts: StrMap<usize>)
        ensures
            same_but_time(with_rule_counts(old(self)@, counts@), final(self)@),
    {
        self.rule_counts = counts;
        self.updated_at = Timestamp::now_or(self.updated_at);
    }
}


/// A snapshot as plain values.
pub struct SnapshotView {
    pub started_at: (i64, u32),
    pub updated_at: (i64, u32),
    pub total_lines_seen: u64,
    pub total_entries_kept: u64,
    pub parse_errors: u64,
    pub ignored_entries: u64,
    pub by_level: Seq<u64>,
    pub by_source: Seq<(Seq<char>, u64)>,
    pub by_service: Seq<(Seq<char>, u64)>,
    pub by_file: Seq<(Seq<char>, u64)>,
    pub rule_counts: Seq<(Seq<char>, usize)>,
    pub recent_entries: Seq<EntryView>,
    pub alerts: Seq<(AlertView, (i64, u32))>,
}

/// What a snapshot of statistics holds.
pub open spec fn snapshot_of(v: StatsView) -> SnapshotView {
    SnapshotView {
        started_at: v.started_at,
        updated_at: v.updated_at,
        total_lines_seen: v.total_lines_seen,
        total_entries_kept: v.total_entries_kept,
        parse_errors: v.parse_errors,
        ignored_entries: v.ignored_entries,
        by_level: v.by_level,
        by_source: v.by_source,
        by_service: v.by_service,
        by_file: v.by_file,
        rule_counts: v.rule_counts,
        recent_entries: v.recent_entries,
        alerts: v.alerts,
    }
}

/// A copy of the statistics at one moment, for reports and sessions.
#[derive(Clone, Debug)]
pub struct StatsSnapshot {
    pub started_at: Timestamp,
    pub updated_at: Timestamp,
    pub total_lines_seen: u64,
    pub total_entries_kept: u64,
    pub parse_errors: u64,
    pub ignored_entries: u64,
    pub by_level: LevelCounts,
    pub by_source: StrMap<u64>,
    pub by_service: StrMap<u64>,
    pub by_file: StrMap<u64>,
    pub rule_counts: StrMap<usize>,
    pub recent_entries: Vec<LogEntry>,
    pub alerts: Vec<Alert>,
}

impl View for StatsSnapshot {
    type V = SnapshotView;

    open spec fn view(&self) -> SnapshotView {
        SnapshotView {
            started_at: self.started_at@,
            updated_at: self.updated_at@,
            total_lines_seen: self.total_lines_seen,
            total_entries_kept: self.total_entries_kept,
            parse_errors: self.parse_errors,
            ignored_entries: self.ignored_entries,
            by_level: self.by_level@,
            by_source: self.by_source@,
            by_service: self.by_service@,
            by_file: self.by_file@,
            rule_counts: self.rule_counts@,
            recent_entries: self.recent_entries@.map_values(|e: LogEntry| e@),
            alerts: self.alerts@.map_values(|a: Alert| a.record()),
        }
    }
}

/// A line `label: value`.
pub open spec fn labelled(label: Seq<char>, value: Seq<char>) -> Seq<char> {
    label + ": "@ + value
}

/// The lines `  LEVEL: count` for the levels before place `n` that have entries.
pub open spec fn level_lines(counts: Seq<u64>, n: nat) -> Seq<Seq<char>>
    decreases n,
{
    if n == 0 {
        Seq::empty()
    } else if counts[n - 1] > 0 {
        level_lines(counts, (n - 1) as nat).push(
            "  "@ + labelled(level_name(level_at(n - 1)), decimal(counts[n - 1] as nat)),
        )
    } else {
        level_lines(counts, (n - 1) as nat)
    }
}

/// The lines `  name: count`, names in order.
pub open spec fn count_lines(counts: Seq<(Seq<char>, u64)>) -> Seq<Seq<char>> {
    counts.map_values(|c: (Seq<char>, u64)| "  "@ + labelled(c.0, decimal(c.1 as nat)))
}

/// The summary of a snapshot, line by line: start and update times, the
/// totals, then the levels and the sources with their counts.
pub open spec fn summary_spec(s: SnapshotView) -> Seq<Seq<char>> {
    seq![
        labelled("started_at"@, instant_text(s.started_at.0, s.started_at.1)),
        labelled("updated_at"@, instant_text(s.updated_at.0, s.updated_at.1)),
        labelled("total_lines_seen"@, decimal(s.total_lines_seen as nat)),
        labelled("total_entries_kept"@, decimal(s.total_entries_kept as nat)),
        labelled("parse_errors"@, decimal(s.parse_errors as nat)),
        labelled("ignored_entries"@, decimal(s.ignored_entries as nat)),
        "levels:"@,
    ] + level_lines(s.by_level, 6) + seq!["sources:"@] + count_lines(s.by_source)
}

/// The text of each string.
pub open spec fn string_texts(v: Seq<String>) -> Seq<Seq<char>> {
    v.map_values(|s: String| s@)
}

/// Copies of the entries.
fn copy_entries(q: &VecDeque<LogEntry>) -> (r: Vec<LogEntry>)
    ensures
        r@.map_values(|e: LogEntry| e@) == q@.map_values(|e: LogEntry| e@),
{
    let mut r: Vec<LogEntry> = Vec::new();
    let mut i: usize = 0;
    while i < q.len()
        invariant
            i <= q@.len(),
            r@.map_values(|e: LogEntry| e@) =~= q@.map_values(|e: LogEntry| e@).take(i as int),
        decreases q@.len() - i,
    {
        let ghost before = r@;
        r.push(q[i].duplicate());
        i += 1;
        assert(r@.map_values(|e: LogEntry| e@) =~= before.map_values(|e: LogEntry| e@).push(q@[i - 1]@));
    }
    assert(q@.map_values(|e: LogEntry| e@).take(q@.len() as int) =~= q@.map_values(|e: LogEntry| e@));
    r
}

/// Copies of the alerts.
fn copy_alerts(q: &VecDeque<Alert>) -> (r: Vec<Alert>)
    ensures
        r@.map_values(|a: Alert| a.record()) == q@.map_values(|a: Alert| a.record()),
{
    let mut r: Vec<Alert> = Vec::new();
    let mut i: usize = 0;
    while i < q.len()
        invariant
            i <= q@.len(),
            r@.map_values(|a: Alert| a.record()) =~= q@.map_values(|a: Alert| a.record()).take(i as int),
        decreases q@.len() - i,
    {
        let ghost before = r@;
        r.push(q[i].duplicate());
        i += 1;
        assert(r@.map_values(|a: Alert| a.record()) =~= before.map_values(|a: Alert| a.record()).push(
            q@[i - 1].record(),
        ));
    }
    assert(q@.map_values(|a: Alert| a.record()).take(q@.len() as int) =~= q@.map_values(
        |a: Alert| a.record(),
    ));
    r
}

/// A line `label: value` with a decimal value.
fn number_line(label: &str, n: u64) -> (r: String)
    ensures
        r@ == labelled(label@, decimal(n as nat)),
{
    let mut out: Vec<char> = Vec::new();
    push_str(&mut out, label);
    push_str(&mut out, ": ");
    push_decimal(&mut out, n);
    string_from_chars(out.as_slice())
}

/// A line `label: time`.
fn time_line(label: &str, t: &Timestamp) -> (r: String)
    ensures
        r@ == labelled(label@, instant_text(t@.0, t@.1)),
{
    let mut out: Vec<char> = Vec::new();
    push_str(&mut out, label);
    push_str(&mut out, ": ");
    let text = t.text();
    push_str(&mut out, text.as_str());
    string_from_chars(out.as_slice())
}

impl Stats {
    /// A copy of the statistics as they are.
    pub fn snapshot(&self) -> (r: StatsSnapshot)
        ensures
            r@ == snapshot_of(self@),
    {
        StatsSnapshot {
            started_at: self.started_at,
            updated_at: self.updated_at,
            total_lines_seen: self.total_lines_seen,
            total_entries_kept: self.total_entries_kept,
            parse_errors: self.parse_errors,
            ignored_entries: self.ignored_entries,
            by_level: self.by_level.duplicate(),
            by_source: self.by_source.duplicate(),
            by_service: self.by_service.duplicate(),
            by_file: self.by_file.duplicate(),
            rule_counts: self.rule_counts.duplicate(),
            recent_entries: copy_entries(&self.recent_entries),
            alerts: copy_alerts(&self.alerts),
        }
    }
}

impl StatsSnapshot {
    /// The summary, line by line.
    pub fn summary_lines(&self) -> (r: Vec<String>)
        ensures
            string_texts(r@) == summary_spec(self@),
    {
        let ghost v = self@;
        let mut lines: Vec<String> = Vec::new();
        lines.push(time_line("started_at", &self.started_at));
        lines.push(time_line("updated_at", &self.updated_at));
        lines.push(number_line("total_lines_seen", self.total_lines_seen));
        lines.push(number_line("total_entries_kept", self.total_entries_kept));
        lines.push(number_line("parse_errors", self.parse_errors));
        lines.push(number_line("ignored_entries", self.ignored_entries));
        lines.push("levels:".to_owned());
        let ghost head = string_texts(lines@);
        let levels: [LogLevel; 6] = [
            LogLevel::Info,
            LogLevel::Warn,
            LogLevel::Error,
            LogLevel::Debug,
            LogLevel::Trace,
            LogLevel::Unknown,
        ];
        let mut k: usize = 0;
        while k < 6
            invariant
                k <= 6,
                v == self@,
                v.by_level.len() == 6,
                forall|j: int| 0 <= j < 6 ==> #[trigger] levels@[j] == level_at(j),
                string_texts(lines@) == head + level_lines(v.by_level, k as nat),
            decreases 6 - k,
        {
            let level = levels[k];
            assert(level == level_at(k as int));
            assert(level_rank(level) == k as int);
            let n = self.by_level.get(level);
            let ghost prev = level_lines(v.by_level, k as nat);
            assert(level_lines(v.by_level, (k + 1) as nat) == if v.by_level[k as int] > 0 {
                prev.push("  "@ + labelled(level_name(level_at(k as int)), decimal(v.by_level[k as int] as nat)))
            } else {
                prev
            });
            if n > 0 {
                let mut out: Vec<char> = Vec::new();
                push_str(&mut out, "  ");
                push_str(&mut out, level.as_str());
                push_str(&mut out, ": ");
                push_decimal(&mut out, n);
                assert(out@ =~= "  "@ + labelled(level_name(level_at(k as int)), decimal(v.by_level[k as int] as nat)));
                let ghost before = lines@;
                lines.push(string_from_chars(out.as_slice()));
                assert(string_texts(lines@) =~= string_texts(before).push(out@));
                assert(string_texts(lines@) =~= head + level_lines(v.by_level, (k + 1) as nat));
            }
            k += 1;
        }
        lines.push("sources:".to_owned());
        let ghost mid = string_texts(lines@);
        let n = self.by_source.len();
        let mut i: usize = 0;
        while i < n
            invariant
                i <= n,
                n == v.by_source.len(),
                v == self@,
                string_texts(lines@) == mid + count_lines(v.by_source).take(i as int),
            decreases n - i,
        {
            let mut out: Vec<char> = Vec::new();
            push_str(&mut out, "  ");
            push_str(&mut out, self.by_source.key_at(i).as_str());
            push_str(&mut out, ": ");
            push_decimal(&mut out, *self.by_source.value_at(i));
            assert(count_lines(v.by_source)[i as int] == out@);
            let ghost before = lines@;
            lines.push(string_from_chars(out.as_slice()));
            i += 1;
            assert(count_lines(v.by_source).take(i as int) =~= count_lines(v.by_source).take(i - 1).push(
                out@,
            ));
            assert(string_texts(lines@) =~= string_texts(before).push(out@));
            assert(string_texts(lines@) =~= mid + count_lines(v.by_source).take(i as int));
        }
        assert(count_lines(v.by_source).take(n as int) =~= count_lines(v.by_source));
        assert(head =~= seq![
            labelled("started_at"@, instant_text(v.started_at.0, v.started_at.1)),
            labelled("updated_at"@, instant_text(v.updated_at.0, v.updated_at.1)),
            labelled("total_lines_seen"@, decimal(v.total_lines_seen as nat)),
            labelled("total_entries_kept"@, decimal(v.total_entries_kept as nat)),
            labelled("parse_errors"@, decimal(v.parse_errors as nat)),
            labelled("ignored_entries"@, decimal(v.ignored_entries as nat)),
            "levels:"@,
        ]);
        assert(string_texts(lines@) =~= summary_spec(v));
        lines
    }
}

impl Stats {
    /// Whether one more line read can be counted.
    pub fn line_room(&self) -> (b: bool)
        ensures
            b == (self@.total_lines_seen < u64::MAX),
    {
        self.total_lines_seen < u64::MAX
    }

    /// Whether one more unreadable line can be counted.
    pub fn parse_error_room(&self) -> (b: bool)
        ensures
            b == (self@.parse_errors < u64::MAX),
    {
        self.parse_errors < u64::MAX
    }

    /// Whether one more entry left out can be counted.
    pub fn ignored_room(&self) -> (b: bool)
        ensures
            b == (self@.ignored_entries < u64::MAX),
    {
        self.ignored_entries < u64::MAX
    }

    /// Whether a kept entry can be counted.
    pub fn entry_room(&self, entry: &LogEntry) -> (b: bool)
        ensures
            b == entry_fits(self@, entry@),
    {
        if self.total_entries_kept == u64::MAX {
            return false;
        }
        if self.by_level.get(entry.level) == u64::MAX {
            return false;
        }
        let source = entry.source_name();
        match self.by_source.get(source.as_str()) {
            Some(n) => {
                if *n == u64::MAX {
                    return false;
                }
            },
            None => {},
        }
        match entry.service() {
            Some(service) => match self.by_service.get(service) {
                Some(n) => {
                    if *n == u64::MAX {
                        return false;
                    }
                },
                None => {},
            },
            None => {},
        }
        match self.by_file.get(entry.file.as_str()) {
            Some(n) => {
                if *n == u64::MAX {
                    return false;
                }
            },
            None => {},
        }
        true
    }
}

/// Keeping an alert: the newest alert is always kept, last; before it stand
/// the newest of the earlier alerts, in order, as many as still fit under the
/// retained number (all of them while there is room).
pub proof fn lemma_newest_alert_kept(v: StatsView, a: (AlertView, (i64, u32)))
    requires
        1 <= v.retained_events,
        v.alerts.len() <= v.retained_events,
    ensures
        ({
            let kept = after_alert(v, a).alerts;
            &&& kept.len() == (if v.alerts.len() < v.retained_events {
                v.alerts.len() + 1int
            } else {
                v.retained_events as int
            })
            &&& kept.last() == a
            &&& kept.drop_last() == v.alerts.skip(v.alerts.len() + 1 - kept.len())
        }),
{
    let kept = after_alert(v, a).alerts;
    assert(kept.drop_last() =~= v.alerts.skip(v.alerts.len() + 1 - kept.len()));
}

/// Keeping an entry: the newest entry is always kept, last; before it stand
/// the newest of the earlier entries, in order, as many as still fit under the
/// retained number (all of them while there is room).
pub proof fn lemma_newest_entry_kept(v: StatsView, e: EntryView)
    requires
        1 <= v.retained_events,
        v.recent_entries.len() <= v.retained_events,
    ensures
        ({
            let kept = after_entry(v, e).recent_entries;
            &&& kept.len() == (if v.recent_entries.len() < v.retained_events {
                v.recent_entries.len() + 1int
            } else {
                v.retained_events as int
            })
            &&& kept.last() == e
            &&& kept.drop_last() == v.recent_entries.skip(v.recent_entries.len() + 1 - kept.len())
        }),
{
    let kept = after_entry(v, e).recent_entries;
    assert(kept.drop_last() =~= v.recent_entries.skip(v.recent_entries.len() + 1 - kept.len()));
}

/// The entries counted by level, all levels together.
pub open spec fn level_total(c: Seq<u64>) -> int {
    c[0] + c[1] + c[2] + c[3] + c[4] + c[5]
}

/// A kept entry is counted once, under its own level: the total of kept
/// entries and the count of the entry's level each rise by one, and no other
/// level's count moves; so where the counts by level add up to the entries
/// kept, they go on doing so.
pub proof fn lemma_entry_counted_under_its_level(v: StatsView, e: EntryView)
    requires
        entry_fits(v, e),
    ensures
        after_entry(v, e).total_entries_kept == v.total_entries_kept + 1,
        after_entry(v, e).by_level[level_rank(e.level)] == v.by_level[level_rank(e.level)] + 1,
        forall|l: LogLevel|
            l != e.level ==> after_entry(v, e).by_level[level_rank(l)] == v.by_level[level_rank(l)],
        level_total(after_entry(v, e).by_level) == level_total(v.by_level) + 1,
        level_total(v.by_level) == v.total_entries_kept ==> level_total(after_entry(v, e).by_level)
            == after_entry(v, e).total_entries_kept,
{
}

} // verus!
