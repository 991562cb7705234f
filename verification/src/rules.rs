//! Rules over log entries: counting, ignoring, and alerts when too many
//! matching entries fall within a sliding window of time.
use vstd::prelude::*;
use std::collections::VecDeque;
use crate::config::{ConditionView, RuleAction, RuleCondition, RuleConfig, RuleConfigView};
use crate::log_entry::{
    keyword_matches, level_name, parse_level, source_name_spec, token_texts, EntryView, LogEntry,
    LogLevel,
};
use crate::log_entry::split_words;
use crate::strmap::{
    bumped_usize, insert_sorted, lemma_map_bindings_insert, lemma_map_bindings_lookup, lookup,
    map_bindings, StrMap,
};
use crate::text::{
    chars_of, decimal, join, join_chars, push_chars, push_decimal, push_str, string_from_chars, words,
};
use crate::timestamp::{at_or_after_epoch, before, instant_minus_seconds, instant_text, Timestamp};

verus! {

/// At most the first `n` items.
pub open spec fn first_n<T>(s: Seq<T>, n: nat) -> Seq<T> {
    if s.len() <= n {
        s
    } else {
        s.take(n as int)
    }
}

/// Whether a condition holds of an entry: the level it names (an unreadable
/// level holds of none), the keyword it mentions, and the source name.
pub open spec fn condition_holds(c: ConditionView, e: EntryView) -> bool {
    &&& (c.level matches Some(l) ==> (parse_level(l) matches Some(x) && e.level == x))
    &&& (c.keyword matches Some(k) ==> keyword_matches(e, k))
    &&& (c.source matches Some(s) ==> source_name_spec(e) == s)
}

/// The key under which a warning rule counts an entry: `level|source|keyword`,
/// each part the condition's own or, where the condition has none, the entry's
/// level, source name and first eight words of its message.
pub open spec fn fingerprint_spec(c: ConditionView, e: EntryView) -> Seq<char> {
    let level = match c.level {
        Some(l) => l,
        None => level_name(e.level),
    };
    let source = match c.source {
        Some(s) => s,
        None => source_name_spec(e),
    };
    let keyword = match c.keyword {
        Some(k) => k,
        None => join(first_n(words(e.message), 8), " "@),
    };
    level + "|"@ + source + "|"@ + keyword
}

/// The queue without its longest prefix of instants before `cutoff`.
pub open spec fn drop_expired(q: Seq<(i64, u32)>, cutoff: (i64, u32)) -> Seq<(i64, u32)>
    decreases q.len(),
{
    if q.len() > 0 && before(q[0], cutoff) {
        drop_expired(q.drop_first(), cutoff)
    } else {
        q
    }
}

/// The alert text for `n` matches.
pub open spec fn alert_message(n: nat) -> Seq<char> {
    "rule matched "@ + decimal(n) + " events in window"@
}

/// An alert as plain values, its time aside.
pub struct AlertView {
    pub rule: Seq<char>,
    pub action: RuleAction,
    pub message: Seq<char>,
    pub source: Seq<char>,
    pub level: LogLevel,
    pub count: usize,
    pub threshold: usize,
    pub window_seconds: u64,
}

/// A rule and what it has seen: for each key, the instants of recent matches.
pub struct RuleView {
    pub config: RuleConfigView,
    pub hits: Seq<(Seq<char>, Seq<(i64, u32)>)>,
    pub total_hits: usize,
}

/// What one rule does with one entry, given the counts so far: the rule after,
/// the counts after, whether the entry is to be ignored and the alert raised.
/// `None` where the arithmetic cannot go on: a counter at its maximum,
/// or a window that chrono cannot subtract from the entry's time.
pub open spec fn rule_outcome(r: RuleView, counts: Seq<(Seq<char>, usize)>, e: EntryView) -> Option<
    (RuleView, Seq<(Seq<char>, usize)>, bool, Option<AlertView>),
> {
    let name = r.config.name;
    if !condition_holds(r.config.condition, e) {
        Some((r, counts, false, None))
    } else if r.total_hits == usize::MAX || lookup(counts, name) == Some(usize::MAX) {
        None
    } else {
        let counts2 = insert_sorted(counts, name, bumped_usize(lookup(counts, name)));
        let r1 = RuleView { config: r.config, hits: r.hits, total_hits: (r.total_hits + 1) as usize };
        match r.config.action {
            RuleAction::Ignore => Some((r1, counts2, true, None)),
            RuleAction::Count => Some((r1, counts2, false, None)),
            RuleAction::Warn => match instant_minus_seconds(
                e.timestamp.0,
                e.timestamp.1,
                r.config.window_seconds as i64,
            ) {
                None => None,
                Some(cutoff) => {
                    let key = fingerprint_spec(r.config.condition, e);
                    let q0 = match lookup(r.hits, key) {
                        Some(q) => q,
                        None => Seq::empty(),
                    };
                    let q1 = drop_expired(q0.push(e.timestamp), cutoff);
                    let t: usize = if r.config.threshold < 1 {
                        1
                    } else {
                        r.config.threshold
                    };
                    let alert = if q1.len() >= t {
                        Some(
                            AlertView {
                                rule: name,
                                action: r.config.action,
                                message: alert_message(q1.len()),
                                source: source_name_spec(e),
                                level: e.level,
                                count: q1.len() as usize,
                                threshold: t,
                                window_seconds: r.config.window_seconds,
                            },
                        )
                    } else {
                        None
                    };
                    let q2 = if q1.len() >= t {
                        q1.skip(q1.len() - (t - 1))
                    } else {
                        q1
                    };
                    Some(
                        (
                            RuleView {
                                config: r.config,
                                hits: insert_sorted(r.hits, key, q2),
                                total_hits: r1.total_hits,
                            },
                            counts2,
                            false,
                            alert,
                        ),
                    )
                },
            },
        }
    }
}

/// The engine as plain values.
pub struct EngineView {
    pub rules: Seq<RuleView>,
    pub counts: Seq<(Seq<char>, usize)>,
}

/// The engine part way through an entry: the rules done, the counts so far,
/// whether the entry is to be ignored and the alerts raised.
pub struct Progress {
    pub rules: Seq<RuleView>,
    pub counts: Seq<(Seq<char>, usize)>,
    pub ignored: bool,
    pub alerts: Seq<AlertView>,
}

/// The engine after its first `n` rules have seen an entry, `None` where the
/// arithmetic cannot go on.
pub open spec fn progress(v: EngineView, e: EntryView, n: nat) -> Option<Progress>
    decreases n,
{
    if n == 0 {
        Some(Progress { rules: Seq::empty(), counts: v.counts, ignored: false, alerts: Seq::empty() })
    } else {
        match progress(v, e, (n - 1) as nat) {
            None => None,
            Some(p) => match rule_outcome(v.rules[n - 1], p.counts, e) {
                None => None,
                Some((r, counts, ignored, alert)) => Some(
                    Progress {
                        rules: p.rules.push(r),
                        counts,
                        ignored: p.ignored || ignored,
                        alerts: match alert {
                            Some(a) => p.alerts.push(a),
                            None => p.alerts,
                        },
                    },
                ),
            },
        }
    }
}

/// The engine after every rule has seen an entry.
pub open spec fn evaluation(v: EngineView, e: EntryView) -> Option<Progress> {
    progress(v, e, v.rules.len())
}

/// An alert raised by a warning rule.
#[derive(Clone, Debug)]
pub struct Alert {
    pub rule: String,
    pub action: RuleAction,
    pub message: String,
    pub source: String,
    pub level: LogLevel,
    pub count: usize,
    pub threshold: usize,
    pub window_seconds: u64,
    pub timestamp: Timestamp,
}

impl Alert {
    /// The alert as plain values, its time aside.
    pub open spec fn body(&self) -> AlertView {
        AlertView {
            rule: self.rule@,
            action: self.action,
            message: self.message@,
            source: self.source@,
            level: self.level,
            count: self.count,
            threshold: self.threshold,
            window_seconds: self.window_seconds,
        }
    }
}

/// What the engine decided about an entry.
#[derive(Clone, Debug)]
pub struct RuleDecision {
    pub ignored: bool,
    pub alerts: Vec<Alert>,
}

/// A rule and the recent matches it keeps.
#[derive(Clone, Debug)]
pub struct RuleState {
    config: RuleConfig,
    hits: StrMap<VecDeque<Timestamp>>,
    total_hits: usize,
}

/// The instants of a queue.
pub open spec fn queue_view(q: VecDeque<Timestamp>) -> Seq<(i64, u32)> {
    q@.map_values(|t: Timestamp| t@)
}

impl View for RuleState {
    type V = RuleView;

    closed spec fn view(&self) -> RuleView {
        RuleView {
            config: self.config@,
            hits: map_bindings(self.hits@, |q: VecDeque<Timestamp>| queue_view(q)),
            total_hits: self.total_hits,
        }
    }
}

/// The rules and the counts of matches by rule name.
#[derive(Debug)]
pub struct RuleEngine {
    rules: Vec<RuleState>,
    counts: StrMap<usize>,
}

impl View for RuleEngine {
    type V = EngineView;

    closed spec fn view(&self) -> EngineView {
        EngineView { rules: self.rules@.map_values(|r: RuleState| r@), counts: self.counts@ }
    }
}

/// Whether a condition holds of an entry.
pub fn condition_matches(condition: &RuleCondition, entry: &LogEntry) -> (b: bool)
    ensures
        b == condition_holds(condition@, entry@),
{
    match &condition.level {
        Some(level) => {
            match LogLevel::from_str(level.as_str()) {
                Ok(expected) => {
                    if entry.level != expected {
                        return false;
                    }
                },
                Err(_) => {
                    return false;
                },
            }
        },
        None => {},
    }
    match &condition.keyword {
        Some(keyword) => {
            if !entry.matches_keyword(keyword.as_str()) {
                return false;
            }
        },
        None => {},
    }
    match &condition.source {
        Some(source) => {
            let name = entry.source_name();
            if name != *source {
                return false;
            }
        },
        None => {},
    }
    true
}

/// The key under which a warning rule counts an entry.
pub fn fingerprint(condition: &RuleCondition, entry: &LogEntry) -> (r: String)
    ensures
        r@ == fingerprint_spec(condition@, entry@),
{
    let mut out: Vec<char> = Vec::new();
    match &condition.level {
        Some(l) => push_str(&mut out, l.as_str()),
        None => push_str(&mut out, entry.level.as_str()),
    }
    push_str(&mut out, "|");
    match &condition.source {
        Some(s) => push_str(&mut out, s.as_str()),
        None => {
            let name = entry.source_name();
            push_str(&mut out, name.as_str());
        },
    }
    push_str(&mut out, "|");
    match &condition.keyword {
        Some(k) => push_str(&mut out, k.as_str()),
        None => {
            let all = split_words(&chars_of(entry.message.as_str()));
            let mut firsts: Vec<Vec<char>> = Vec::new();
            let mut i: usize = 0;
            while i < all.len() && i < 8
                invariant
                    i <= all@.len(),
                    i <= 8,
                    token_texts(firsts@) =~= token_texts(all@).take(i as int),
                decreases 8 - i,
            {
                let ghost old_firsts = firsts@;
                let w = all[i].clone();
                firsts.push(w);
                i += 1;
                assert(token_texts(firsts@) =~= token_texts(old_firsts).push(all@[i - 1]@));
            }
            assert(token_texts(firsts@) == first_n(words(entry.message@), 8)) by {
                if all@.len() <= 8 {
                    assert(token_texts(all@).take(i as int) =~= token_texts(all@));
                }
            }
            assert(firsts@.map_values(|p: Vec<char>| p@) == token_texts(firsts@));
            let joined = join_chars(&firsts, &chars_of(" "));
            push_chars(&mut out, &joined);
        },
    }
    assert(out@ =~= fingerprint_spec(condition@, entry@));
    string_from_chars(out.as_slice())
}


/// A copy of a queue of instants.
fn copy_queue(q: &VecDeque<Timestamp>) -> (r: VecDeque<Timestamp>)
    ensures
        r@ == q@,
{
    let mut r: VecDeque<Timestamp> = VecDeque::new();
    let mut i: usize = 0;
    while i < q.len()
        invariant
            i <= q@.len(),
            r@ == q@.take(i as int),
        decreases q@.len() - i,
    {
        let t = q[i];
        r.push_back(t);
        i += 1;
        assert(r@ =~= q@.take(i as int));
    }
    assert(q@.take(q@.len() as int) =~= q@);
    r
}

/// The alert text for `n` matches.
fn alert_text(n: usize) -> (r: String)
    ensures
        r@ == alert_message(n as nat),
{
    let mut out: Vec<char> = Vec::new();
    push_str(&mut out, "rule matched ");
    push_decimal(&mut out, n as u64);
    push_str(&mut out, " events in window");
    string_from_chars(out.as_slice())
}

impl RuleState {
    /// A fresh rule that has seen nothing.
    pub fn new(config: RuleConfig) -> (r: RuleState)
        ensures
            r@ == (RuleView { config: config@, hits: Seq::empty(), total_hits: 0 }),
    {
        let r = RuleState { config, hits: StrMap::new(), total_hits: 0 };
        assert(r@.hits =~= Seq::<(Seq<char>, Seq<(i64, u32)>)>::empty());
        r
    }

    /// The rule's settings.
    pub fn config(&self) -> (r: &RuleConfig)
        ensures
            r@ == self@.config,
    {
        &self.config
    }

    /// The rule seeing an entry, as `rule_outcome` says.
    fn apply(self, entry: &LogEntry, counts: &mut StrMap<usize>) -> (r: (RuleState, bool, Option<Alert>))
        requires
            rule_outcome(self@, old(counts)@, entry@) is Some,
        ensures
            ({
                let (rv, c, ig, al) = rule_outcome(self@, old(counts)@, entry@)->0;
                &&& r.0@ == rv
                &&& final(counts)@ == c
                &&& r.1 == ig
                &&& match al {
                    Some(a) => r.2 matches Some(x) && x.body() == a && alert_stamped(x, entry@),
                    None => r.2 is None,
                }
            }),
    {
        let ghost f = |q: VecDeque<Timestamp>| queue_view(q);
        let mut st = self;
        if !condition_matches(&st.config.condition, entry) {
            return (st, false, None);
        }
        st.total_hits = st.total_hits + 1;
        counts.increment(st.config.name.as_str());
        assert(st@ == RuleView {
            config: self@.config,
            hits: self@.hits,
            total_hits: (self@.total_hits + 1) as usize,
        });
        let ghost out = rule_outcome(self@, old(counts)@, entry@)->0;
        match st.config.action {
            RuleAction::Ignore => (st, true, None),
            RuleAction::Count => (st, false, None),
            RuleAction::Warn => {
                let window = st.config.window_seconds;
                let cutoff = match entry.timestamp.minus_seconds(window as i64) {
                    Some(c) => c,
                    None => {
                        return (st, false, None);
                    },
                };
                let key = fingerprint(&st.config.condition, entry);
                proof {
                    lemma_map_bindings_lookup(st.hits@, key@, f);
                }
                let mut q = match st.hits.get(key.as_str()) {
                    Some(existing) => copy_queue(existing),
                    None => VecDeque::new(),
                };
                let ghost q0 = queue_view(q);
                assert(q0 == match lookup(self@.hits, key@) {
                    Some(x) => x,
                    None => Seq::<(i64, u32)>::empty(),
                });
                q.push_back(entry.timestamp);
                assert(queue_view(q) =~= q0.push(entry@.timestamp));
                let ghost q1 = drop_expired(queue_view(q), cutoff@);
                while q.len() > 0 && q[0].is_before(&cutoff)
                    invariant
                        drop_expired(queue_view(q), cutoff@) == q1,
                    decreases q@.len(),
                {
                    let ghost before_pop = queue_view(q);
                    q.pop_front();
                    assert(queue_view(q) =~= before_pop.drop_first());
                }
                assert(drop_expired(queue_view(q), cutoff@) == queue_view(q));
                let threshold: usize = if st.config.threshold < 1 {
                    1
                } else {
                    st.config.threshold
                };
                let mut alert: Option<Alert> = None;
                if q.len() >= threshold {
                    let n = q.len();
                    let message = alert_text(n);
                    let source = entry.source_name();
                    alert = Some(
                        Alert {
                            rule: st.config.name.clone(),
                            action: st.config.action,
                            message,
                            source,
                            level: entry.level,
                            count: n,
                            threshold,
                            window_seconds: window,
                            timestamp: Timestamp::now_or(entry.timestamp),
                        },
                    );
                    while q.len() > threshold - 1
                        invariant
                            threshold >= 1,
                            q1.len() >= threshold,
                            q@.len() <= q1.len(),
                            q@.len() >= threshold - 1,
                            queue_view(q) == q1.skip(q1.len() - q@.len()),
                        decreases q@.len(),
                    {
                        let ghost before_pop = queue_view(q);
                        let ghost k = q1.len() - before_pop.len();
                        q.pop_front();
                        assert(queue_view(q) =~= before_pop.drop_first());
                        assert(q1.skip(k).drop_first() =~= q1.skip(k + 1));
                    }
                }
                proof {
                    lemma_map_bindings_insert(st.hits@, key@, q, f);
                }
                st.hits.insert(key, q);
                assert(out.0.hits == st@.hits);
                assert(out.0 == st@);
                assert(out.1 == counts@);
                assert(!out.2);
                (st, false, alert)
            },
        }
    }
}

/// Once the engine cannot go on after `m` rules, it cannot after more.
pub proof fn lemma_progress_stuck(v: EngineView, e: EntryView, m: nat, n: nat)
    requires
        m <= n,
        progress(v, e, m) is None,
    ensures
        progress(v, e, n) is None,
    decreases n - m,
{
    if m < n {
        lemma_progress_stuck(v, e, m, (n - 1) as nat);
    }
}

/// Whether an alert is stamped with the current time as the clock gives it, or,
/// where the clock cannot be read, with the time of the entry that raised it.
pub open spec fn alert_stamped(a: Alert, e: EntryView) -> bool {
    a.timestamp@ == e.timestamp || at_or_after_epoch(a.timestamp@)
}

/// Whether every window of every rule holds fewer matches than the rule's threshold.
pub open spec fn engine_windows_bounded(v: EngineView) -> bool {
    forall|i: int| 0 <= i < v.rules.len() ==> windows_below_threshold(#[trigger] v.rules[i])
}

impl RuleEngine {
    /// Every window an engine keeps holds fewer matches than its rule's threshold.
    #[verifier::type_invariant]
    spec fn windows_kept_below_threshold(self) -> bool {
        forall|i: int| 0 <= i < self.rules@.len() ==> windows_below_threshold(#[trigger] self.rules@[i]@)
    }
}

impl RuleEngine {
    /// An engine with the given rules, none of which has seen an entry.
    pub fn new(rules: Vec<RuleConfig>) -> (r: RuleEngine)
        ensures
            r@.rules == rules@.map_values(
                |c: RuleConfig| RuleView { config: c@, hits: Seq::empty(), total_hits: 0 },
            ),
            r@.counts == Seq::<(Seq<char>, usize)>::empty(),
            engine_windows_bounded(r@),
    {
        let ghost fresh = rules@.map_values(
            |c: RuleConfig| RuleView { config: c@, hits: Seq::empty(), total_hits: 0 },
        );
        let mut rest = rules;
        let ghost orig = rest@;
        let mut states: Vec<RuleState> = Vec::new();
        let n = rest.len();
        let mut i: usize = 0;
        while i < n
            invariant
                i <= n,
                n == orig.len(),
                fresh == orig.map_values(
                    |c: RuleConfig| RuleView { config: c@, hits: Seq::empty(), total_hits: 0 },
                ),
                rest@ == orig.skip(i as int),
                states@.map_values(|r: RuleState| r@) =~= fresh.take(i as int),
            decreases n - i,
        {
            let ghost old_states = states@;
            let c = rest.remove(0);
            assert(c == orig[i as int]);
            states.push(RuleState::new(c));
            i += 1;
            assert(rest@ =~= orig.skip(i as int));
            assert(states@.map_values(|r: RuleState| r@) =~= old_states.map_values(|r: RuleState| r@).push(
                fresh[i - 1],
            ));
        }
        assert(fresh.take(n as int) =~= fresh);
        assert forall|i: int| 0 <= i < states@.len() implies windows_below_threshold(#[trigger] states@[i]@) by {
            assert(states@.map_values(|r: RuleState| r@)[i] == states@[i]@);
            assert(states@[i]@.hits.len() == 0);
        }
        RuleEngine { rules: states, counts: StrMap::new() }
    }

    /// How many entries each rule name has matched.
    pub fn counts(&self) -> (r: StrMap<usize>)
        ensures
            r@ == self@.counts,
    {
        self.counts.duplicate()
    }

    /// Whether every rule can see `entry` without a counter at its maximum or a
    /// window that chrono cannot subtract.
    pub fn can_evaluate(&self, entry: &LogEntry) -> (b: bool)
        ensures
            b == (evaluation(self@, entry@) is Some),
    {
        let ghost v = self@;
        let ghost e = entry@;
        let mut counts = self.counts.duplicate();
        let n = self.rules.len();
        let mut i: usize = 0;
        while i < n
            invariant
                i <= n,
                n == v.rules.len(),
                v == self@,
                e == entry@,
                progress(v, e, i as nat) matches Some(p) && counts@ == p.counts,
            decreases n - i,
        {
            let st = &self.rules[i];
            assert(v.rules[i as int] == st@);
            let ghost p = progress(v, e, i as nat)->0;
            if condition_matches(&st.config.condition, entry) {
                if st.total_hits == usize::MAX {
                    proof {
                        lemma_progress_stuck(v, e, (i + 1) as nat, n as nat);
                    }
                    return false;
                }
                match counts.get(st.config.name.as_str()) {
                    Some(c) => {
                        if *c == usize::MAX {
                            proof {
                                lemma_progress_stuck(v, e, (i + 1) as nat, n as nat);
                            }
                            return false;
                        }
                    },
                    None => {},
                }
                counts.increment(st.config.name.as_str());
                if st.config.action == RuleAction::Warn {
                    match entry.timestamp.minus_seconds(st.config.window_seconds as i64) {
                        Some(_) => {},
                        None => {
                            proof {
                                lemma_progress_stuck(v, e, (i + 1) as nat, n as nat);
                            }
                            return false;
                        },
                    }
                }
            }
            i += 1;
        }
        true
    }

    /// Every rule sees the entry in turn, as `evaluation` says: counts and
    /// windows are updated, and the decision says whether the entry is to be
    /// ignored and which alerts were raised. Each alert is stamped with the
    /// current time (the entry's time where the clock cannot be read), and,
    /// as every window an engine keeps holds fewer matches than its threshold,
    /// each alert counts exactly its threshold.
    pub fn evaluate(&mut self, entry: &LogEntry) -> (d: RuleDecision)
        requires
            evaluation(old(self)@, entry@) is Some,
        ensures
            ({
                let p = evaluation(old(self)@, entry@)->0;
                &&& final(self)@.rules == p.rules
                &&& final(self)@.counts == p.counts
                &&& d.ignored == p.ignored
                &&& d.alerts@.len() == p.alerts.len()
                &&& forall|i: int| 0 <= i < p.alerts.len() ==> (#[trigger] d.alerts@[i]).body() == p.alerts[i]
            }),
            forall|i: int|
                0 <= i < d.alerts@.len() ==> (#[trigger] d.alerts@[i]).count == d.alerts@[i].threshold
                    && alert_stamped(d.alerts@[i], entry@),
            forall|i: int|
                0 <= i < d.alerts@.len() ==> exists|j: int|
                    0 <= j < old(self)@.rules.len() && alert_of_rule(
                        (#[trigger] d.alerts@[i]).body(),
                        old(self)@.rules[j].config,
                        entry@,
                    ),
            d.alerts@.len() == raising_rules(old(self)@, entry@, old(self)@.rules.len()),
            engine_windows_bounded(old(self)@),
            engine_windows_bounded(final(self)@),
    {
        proof {
            use_type_invariant(&*self);
        }
        let ghost v = old(self)@;
        let ghost e = entry@;
        let mut rest: Vec<RuleState> = Vec::new();
        std::mem::swap(&mut rest, &mut self.rules);
        let mut counts: StrMap<usize> = StrMap::new();
        std::mem::swap(&mut counts, &mut self.counts);
        let ghost orig = rest@;
        let n = rest.len();
        let mut done: Vec<RuleState> = Vec::new();
        let mut ignored = false;
        let mut alerts: Vec<Alert> = Vec::new();
        let mut i: usize = 0;
        while i < n
            invariant
                i <= n,
                n == orig.len(),
                v.rules == orig.map_values(|r: RuleState| r@),
                e == entry@,
                rest@ == orig.skip(i as int),
                evaluation(v, e) is Some,
                v.rules.len() == n,
                progress(v, e, i as nat) matches Some(p) && {
                    &&& done@.map_values(|r: RuleState| r@) == p.rules
                    &&& counts@ == p.counts
                    &&& ignored == p.ignored
                    &&& alerts@.len() == p.alerts.len()
                    &&& forall|k: int| 0 <= k < p.alerts.len() ==> (#[trigger] alerts@[k]).body() == p.alerts[k]
                },
                forall|k: int| 0 <= k < alerts@.len() ==> alert_stamped(#[trigger] alerts@[k], e),
            decreases n - i,
        {
            let ghost p = progress(v, e, i as nat)->0;
            proof {
                if progress(v, e, (i + 1) as nat) is None {
                    lemma_progress_stuck(v, e, (i + 1) as nat, n as nat);
                }
            }
            let st = rest.remove(0);
            assert(st == orig[i as int]);
            assert(st@ == v.rules[i as int]);
            let ghost old_done = done@;
            let ghost old_alerts = alerts@;
            let (st2, ig, al) = st.apply(entry, &mut counts);
            done.push(st2);
            ignored = ignored || ig;
            match al {
                Some(a) => {
                    alerts.push(a);
                },
                None => {},
            }
            i += 1;
            assert(rest@ =~= orig.skip(i as int));
            assert(done@.map_values(|r: RuleState| r@) =~= old_done.map_values(|r: RuleState| r@).push(st2@));
        }
        proof {
            lemma_progress_laws(v, e, n as nat);
            lemma_alerts_count_threshold(v, e, n as nat);
            lemma_alert_fields(v, e, n as nat);
            lemma_every_rule_alerts(v, e, n as nat);
            let p = progress(v, e, n as nat)->0;
            assert forall|i: int| 0 <= i < alerts@.len() implies exists|j: int|
                0 <= j < v.rules.len() && alert_of_rule((#[trigger] alerts@[i]).body(), v.rules[j].config, e) by {
                assert(alerts@[i].body() == p.alerts[i]);
            }
            assert forall|i: int| 0 <= i < alerts@.len() implies (#[trigger] alerts@[i]).count
                == alerts@[i].threshold by {
                assert(alerts@[i].body() == p.alerts[i]);
            }
            let dv = done@.map_values(|r: RuleState| r@);
            assert(dv == p.rules);
            assert forall|i: int| 0 <= i < done@.len() implies windows_below_threshold(
                #[trigger] done@[i]@,
            ) by {
                assert(dv[i] == done@[i]@);
                assert(windows_below_threshold(p.rules[i]));
            }
        }
        self.rules = done;
        self.counts = counts;
        RuleDecision { ignored, alerts }
    }

    /// Every rule sees the entry, as `evaluate` does, where that can go on;
    /// otherwise nothing changes and `None` comes back.
    pub fn try_evaluate(&mut self, entry: &LogEntry) -> (d: Option<RuleDecision>)
        ensures
            match evaluation(old(self)@, entry@) {
                None => d is None && final(self)@ == old(self)@,
                Some(p) => d matches Some(d) && {
                    &&& final(self)@.rules == p.rules
                    &&& final(self)@.counts == p.counts
                    &&& d.ignored == p.ignored
                    &&& d.alerts@.len() == p.alerts.len()
                    &&& forall|i: int| 0 <= i < p.alerts.len() ==> (#[trigger] d.alerts@[i]).body() == p.alerts[i]
                    &&& forall|i: int|
                        0 <= i < d.alerts@.len() ==> (#[trigger] d.alerts@[i]).count == d.alerts@[i].threshold
                            && alert_stamped(d.alerts@[i], entry@)
                    &&& forall|i: int|
                        0 <= i < d.alerts@.len() ==> exists|j: int|
                            0 <= j < old(self)@.rules.len() && alert_of_rule(
                                (#[trigger] d.alerts@[i]).body(),
                                old(self)@.rules[j].config,
                                entry@,
                            )
                },
            },
            engine_windows_bounded(final(self)@),
    {
        proof {
            use_type_invariant(&*self);
        }
        if self.can_evaluate(entry) {
            Some(self.evaluate(entry))
        } else {
            None
        }
    }
}


/// An alert on one line:
/// `time [LEVEL] rule: message (count/threshold, windows)`.
pub open spec fn alert_line(a: AlertView, time: (i64, u32)) -> Seq<char> {
    instant_text(time.0, time.1) + " ["@ + level_name(a.level) + "] "@ + a.rule + ": "@ + a.message
        + " ("@ + decimal(a.count as nat) + "/"@ + decimal(a.threshold as nat) + ", "@ + decimal(
        a.window_seconds as nat,
    ) + "s)"@
}

impl Alert {
    /// The alert as plain values, its time included.
    pub open spec fn record(&self) -> (AlertView, (i64, u32)) {
        (self.body(), self.timestamp@)
    }

    /// A copy of the alert.
    pub fn duplicate(&self) -> (r: Alert)
        ensures
            r.body() == self.body(),
            r.timestamp@ == self.timestamp@,
    {
        Alert {
            rule: self.rule.clone(),
            action: self.action,
            message: self.message.clone(),
            source: self.source.clone(),
            level: self.level,
            count: self.count,
            threshold: self.threshold,
            window_seconds: self.window_seconds,
            timestamp: self.timestamp,
        }
    }

    /// The alert on one line.
    pub fn compact(&self) -> (r: String)
        ensures
            r@ == alert_line(self.body(), self.timestamp@),
    {
        let mut out: Vec<char> = Vec::new();
        let time = self.timestamp.text();
        push_str(&mut out, time.as_str());
        push_str(&mut out, " [");
        push_str(&mut out, self.level.as_str());
        push_str(&mut out, "] ");
        push_str(&mut out, self.rule.as_str());
        push_str(&mut out, ": ");
        push_str(&mut out, self.message.as_str());
        push_str(&mut out, " (");
        push_decimal(&mut out, self.count as u64);
        push_str(&mut out, "/");
        push_decimal(&mut out, self.threshold as u64);
        push_str(&mut out, ", ");
        push_decimal(&mut out, self.window_seconds);
        push_str(&mut out, "s)");
        assert(out@ =~= alert_line(self.body(), self.timestamp@));
        string_from_chars(out.as_slice())
    }
}

/// Whether one of the first `n` rules ignores what it matches and matches `e`.
pub open spec fn ignored_by(v: EngineView, e: EntryView, n: nat) -> bool {
    exists|i: int|
        0 <= i < n && #[trigger] v.rules[i].config.action == RuleAction::Ignore && condition_holds(
            v.rules[i].config.condition,
            e,
        )
}

/// An entry is ignored exactly when some rule that ignores matches it.
pub proof fn lemma_ignored_iff_ignore_rule_matches(v: EngineView, e: EntryView, n: nat)
    requires
        n <= v.rules.len(),
        progress(v, e, n) is Some,
    ensures
        progress(v, e, n)->0.ignored == ignored_by(v, e, n),
    decreases n,
{
    if n > 0 {
        let m = (n - 1) as nat;
        if progress(v, e, m) is None {
            lemma_progress_stuck(v, e, m, n);
        }
        lemma_ignored_iff_ignore_rule_matches(v, e, m);
        if ignored_by(v, e, m) {
            let i = choose|i: int|
                0 <= i < m && #[trigger] v.rules[i].config.action == RuleAction::Ignore
                    && condition_holds(v.rules[i].config.condition, e);
            assert(0 <= i < n && v.rules[i].config.action == RuleAction::Ignore);
        }
        if v.rules[m as int].config.action == RuleAction::Ignore && condition_holds(
            v.rules[m as int].config.condition,
            e,
        ) {
            assert(0 <= m < n && v.rules[m as int].config.action == RuleAction::Ignore);
        }
        if ignored_by(v, e, n) && !ignored_by(v, e, m) {
            let i = choose|i: int|
                0 <= i < n && #[trigger] v.rules[i].config.action == RuleAction::Ignore
                    && condition_holds(v.rules[i].config.condition, e);
            if i < m {
                assert(0 <= i < m && v.rules[i].config.action == RuleAction::Ignore);
            }
        }
    }
}

impl RuleEngine {
    /// Whether some rule that ignores what it matches matches the entry.
    pub fn would_ignore(&self, entry: &LogEntry) -> (b: bool)
        ensures
            b == ignored_by(self@, entry@, self@.rules.len()),
    {
        let ghost v = self@;
        let n = self.rules.len();
        let mut i: usize = 0;
        while i < n
            invariant
                i <= n,
                n == v.rules.len(),
                v == self@,
                !ignored_by(v, entry@, i as nat),
            decreases n - i,
        {
            let st = &self.rules[i];
            assert(v.rules[i as int] == st@);
            if st.config.action == RuleAction::Ignore && condition_matches(&st.config.condition, entry) {
                assert(0 <= i < n && v.rules[i as int].config.action == RuleAction::Ignore);
                return true;
            }
            i += 1;
            assert forall|k: int|
                0 <= k < i && #[trigger] v.rules[k].config.action == RuleAction::Ignore implies !condition_holds(
                v.rules[k].config.condition,
                entry@,
            ) by {
                if k < i - 1 {
                    assert(!ignored_by(v, entry@, (i - 1) as nat));
                }
            }
        }
        false
    }
}

/// The threshold a warning rule uses: its setting, at least 1.
pub open spec fn effective_threshold(c: RuleConfigView) -> int {
    if c.threshold < 1 {
        1
    } else {
        c.threshold as int
    }
}

/// Every window a rule keeps holds fewer matches than its threshold.
pub open spec fn windows_below_threshold(r: RuleView) -> bool {
    forall|i: int| 0 <= i < r.hits.len() ==> (#[trigger] r.hits[i]).1.len() < effective_threshold(r.config)
}

proof fn lemma_insert_sorted_members<V>(s: Seq<(Seq<char>, V)>, k: Seq<char>, v: V)
    ensures
        forall|i: int|
            0 <= i < insert_sorted(s, k, v).len() ==> #[trigger] insert_sorted(s, k, v)[i] == (k, v)
                || s.contains(insert_sorted(s, k, v)[i]),
    decreases s.len(),
{
    let r = insert_sorted(s, k, v);
    if s.len() > 0 {
        if s[0].0 == k {
            assert forall|i: int| 0 <= i < r.len() implies #[trigger] r[i] == (k, v) || s.contains(r[i]) by {
                if i > 0 {
                    assert(r[i] == s[i]);
                }
            }
        } else if crate::strmap::str_lt(k, s[0].0) {
            assert forall|i: int| 0 <= i < r.len() implies #[trigger] r[i] == (k, v) || s.contains(r[i]) by {
                if i > 0 {
                    assert(r[i] == s[i - 1]);
                }
            }
        } else {
            lemma_insert_sorted_members(s.drop_first(), k, v);
            let t = insert_sorted(s.drop_first(), k, v);
            assert forall|i: int| 0 <= i < r.len() implies #[trigger] r[i] == (k, v) || s.contains(r[i]) by {
                if i == 0 {
                    assert(r[0] == s[0]);
                } else {
                    assert(r[i] == t[i - 1]);
                    if t[i - 1] != (k, v) {
                        let j = choose|j: int| 0 <= j < s.drop_first().len() && s.drop_first()[j] == t[i - 1];
                        assert(s[j + 1] == t[i - 1]);
                    }
                }
            }
        }
    }
}

proof fn lemma_drop_expired_shorter(q: Seq<(i64, u32)>, cutoff: (i64, u32))
    ensures
        drop_expired(q, cutoff).len() <= q.len(),
    decreases q.len(),
{
    if q.len() > 0 && before(q[0], cutoff) {
        lemma_drop_expired_shorter(q.drop_first(), cutoff);
    }
}

/// The rule after an outcome.
pub open spec fn outcome_rule(o: (RuleView, Seq<(Seq<char>, usize)>, bool, Option<AlertView>)) -> RuleView {
    o.0
}

/// The alert of an outcome.
pub open spec fn outcome_alert(o: (RuleView, Seq<(Seq<char>, usize)>, bool, Option<AlertView>)) -> Option<AlertView> {
    o.3
}

/// What one rule does keeps its windows below its threshold, and an alert it
/// raises from windows below the threshold counts exactly the threshold.
pub proof fn lemma_rule_outcome_windows(r: RuleView, counts: Seq<(Seq<char>, usize)>, e: EntryView)
    requires
        windows_below_threshold(r),
        rule_outcome(r, counts, e) is Some,
    ensures
        windows_below_threshold(outcome_rule(rule_outcome(r, counts, e)->0)),
        outcome_rule(rule_outcome(r, counts, e)->0).config == r.config,
        outcome_alert(rule_outcome(r, counts, e)->0) matches Some(a) ==> a.count == effective_threshold(r.config)
            && a.threshold == effective_threshold(r.config),
        outcome_alert(rule_outcome(r, counts, e)->0) matches Some(a) ==> alert_of_rule(a, r.config, e),
{
    if condition_holds(r.config.condition, e) && r.config.action == RuleAction::Warn {
        let cutoff = instant_minus_seconds(e.timestamp.0, e.timestamp.1, r.config.window_seconds as i64)->0;
        let key = fingerprint_spec(r.config.condition, e);
        let q0 = match lookup(r.hits, key) {
            Some(q) => q,
            None => Seq::empty(),
        };
        let t = effective_threshold(r.config);
        if lookup(r.hits, key) is Some {
            crate::strmap::lemma_lookup_some(r.hits, key);
            let j = choose|j: int| 0 <= j < r.hits.len() && r.hits[j].0 == key && r.hits[j].1 == q0;
            assert(r.hits[j].1.len() < t);
        }
        assert(q0.len() < t);
        lemma_drop_expired_shorter(q0.push(e.timestamp), cutoff);
        let q1 = drop_expired(q0.push(e.timestamp), cutoff);
        assert(q1.len() <= t);
        assert(q1.len() as usize as nat == q1.len());
        let q2 = if q1.len() >= t {
            q1.skip(q1.len() - (t - 1))
        } else {
            q1
        };
        assert(q2.len() < t);
        let h = insert_sorted(r.hits, key, q2);
        lemma_insert_sorted_members(r.hits, key, q2);
        assert forall|i: int| 0 <= i < h.len() implies (#[trigger] h[i]).1.len() < t by {
            if h[i] != (key, q2) {
                let j = choose|j: int| 0 <= j < r.hits.len() && r.hits[j] == h[i];
                assert(r.hits[j].1.len() < t);
            }
        }
    }
}

/// The number of the first `n` rules that are named `name` and hold of `e`.
pub open spec fn matching_named(v: EngineView, e: EntryView, name: Seq<char>, n: nat) -> nat
    decreases n,
{
    if n == 0 {
        0
    } else if v.rules[n - 1].config.name == name && condition_holds(v.rules[n - 1].config.condition, e) {
        matching_named(v, e, name, (n - 1) as nat) + 1
    } else {
        matching_named(v, e, name, (n - 1) as nat)
    }
}

/// A count that may be absent, absent counting as zero.
pub open spec fn count_or_zero(o: Option<usize>) -> int {
    match o {
        Some(n) => n as int,
        None => 0,
    }
}

/// Across the first `n` rules: each rule keeps its settings and counts the
/// entry if and only if its condition holds, each rule name's count rises by the
/// number of rules of that name whose condition holds, and windows kept below
/// their threshold stay below it.
pub proof fn lemma_progress_laws(v: EngineView, e: EntryView, n: nat)
    requires
        n <= v.rules.len(),
        progress(v, e, n) is Some,
    ensures
        ({
            let p = progress(v, e, n)->0;
            &&& p.rules.len() == n
            &&& forall|i: int|
                0 <= i < n ==> (#[trigger] p.rules[i]).config == v.rules[i].config && p.rules[i].total_hits
                    == if condition_holds(v.rules[i].config.condition, e) {
                    v.rules[i].total_hits + 1
                } else {
                    v.rules[i].total_hits as int
                }
            &&& forall|name: Seq<char>|
                #[trigger] count_or_zero(lookup(p.counts, name)) == count_or_zero(lookup(v.counts, name))
                    + matching_named(v, e, name, n)
            &&& (forall|i: int| 0 <= i < v.rules.len() ==> windows_below_threshold(#[trigger] v.rules[i]))
                ==> forall|i: int| 0 <= i < n ==> windows_below_threshold(#[trigger] p.rules[i])
        }),
    decreases n,
{
    if n > 0 {
        let m = (n - 1) as nat;
        if progress(v, e, m) is None {
            lemma_progress_stuck(v, e, m, n);
        }
        lemma_progress_laws(v, e, m);
        let q = progress(v, e, m)->0;
        let r = v.rules[m as int];
        let out = rule_outcome(r, q.counts, e)->0;
        let p = progress(v, e, n)->0;
        assert(p.rules == q.rules.push(out.0));
        assert forall|name: Seq<char>|
            #[trigger] count_or_zero(lookup(p.counts, name)) == count_or_zero(lookup(v.counts, name))
                + matching_named(v, e, name, n) by {
            assert(count_or_zero(lookup(q.counts, name)) == count_or_zero(lookup(v.counts, name))
                + matching_named(v, e, name, m));
            if condition_holds(r.config.condition, e) {
                crate::strmap::lemma_lookup_insert(
                    q.counts,
                    r.config.name,
                    bumped_usize(lookup(q.counts, r.config.name)),
                    name,
                );
            }
        }
        if forall|i: int| 0 <= i < v.rules.len() ==> windows_below_threshold(#[trigger] v.rules[i]) {
            assert(windows_below_threshold(r));
            lemma_rule_outcome_windows(r, q.counts, e);
        }
    }
}

/// Where every window is below its threshold, an alert counts exactly the
/// threshold of its rule.
pub proof fn lemma_alerts_count_threshold(v: EngineView, e: EntryView, n: nat)
    requires
        n <= v.rules.len(),
        progress(v, e, n) is Some,
        forall|i: int| 0 <= i < v.rules.len() ==> windows_below_threshold(#[trigger] v.rules[i]),
    ensures
        forall|i: int|
            0 <= i < progress(v, e, n)->0.alerts.len() ==> (#[trigger] progress(v, e, n)->0.alerts[i]).count
                == progress(v, e, n)->0.alerts[i].threshold,
    decreases n,
{
    if n > 0 {
        let m = (n - 1) as nat;
        if progress(v, e, m) is None {
            lemma_progress_stuck(v, e, m, n);
        }
        lemma_alerts_count_threshold(v, e, m);
        let q = progress(v, e, m)->0;
        assert(windows_below_threshold(v.rules[m as int]));
        lemma_rule_outcome_windows(v.rules[m as int], q.counts, e);
    }
}

/// A rule seeing the entries in turn, starting from the counts `counts`: the
/// rule and the counts after them, and what each entry raised (an alert or
/// none); `None` where the arithmetic cannot go on.
pub open spec fn rule_run(r: RuleView, counts: Seq<(Seq<char>, usize)>, es: Seq<EntryView>) -> Option<
    (RuleView, Seq<(Seq<char>, usize)>, Seq<Option<AlertView>>),
>
    decreases es.len(),
{
    if es.len() == 0 {
        Some((r, counts, Seq::empty()))
    } else {
        match rule_run(r, counts, es.drop_last()) {
            None => None,
            Some((r1, c1, raised)) => match rule_outcome(r1, c1, es.last()) {
                None => None,
                Some((r2, c2, _ignored, alert)) => Some((r2, c2, raised.push(alert))),
            },
        }
    }
}

/// The rule after a run.
pub open spec fn rule_after_run(o: (RuleView, Seq<(Seq<char>, usize)>, Seq<Option<AlertView>>)) -> RuleView {
    o.0
}

/// What each entry of a run raised.
pub open spec fn raised_of(o: (RuleView, Seq<(Seq<char>, usize)>, Seq<Option<AlertView>>)) -> Seq<Option<AlertView>> {
    o.2
}

/// The window a warning rule keeps for a key after the first `n` of `es`, all
/// under that key and none expired: the instants of the last of them, at most
/// `t - 1`.
pub open spec fn burst_window(es: Seq<EntryView>, n: int, t: int) -> Seq<(i64, u32)> {
    let m = if n < t - 1 {
        n
    } else {
        t - 1
    };
    Seq::new(m as nat, |j: int| es[n - m + j].timestamp)
}

/// Whether the entries are a burst for a warning rule: each holds of the
/// rule's condition, each falls under the key `k`, and no entry lies before
/// the start of the window of any entry that follows it.
pub open spec fn is_burst(r: RuleView, es: Seq<EntryView>, k: Seq<char>) -> bool {
    &&& forall|i: int|
        0 <= i < es.len() ==> condition_holds(r.config.condition, #[trigger] es[i])
            && fingerprint_spec(r.config.condition, es[i]) == k
    &&& forall|i: int, j: int|
        #![trigger es[i], es[j]]
        0 <= j <= i < es.len() ==> !before(
            es[j].timestamp,
            instant_minus_seconds(es[i].timestamp.0, es[i].timestamp.1, r.config.window_seconds as i64)->0,
        )
}

proof fn lemma_burst_prefix(r: RuleView, es: Seq<EntryView>, k: Seq<char>)
    requires
        es.len() > 0,
        is_burst(r, es, k),
    ensures
        is_burst(r, es.drop_last(), k),
{
    let p = es.drop_last();
    assert forall|i: int| 0 <= i < p.len() implies condition_holds(r.config.condition, #[trigger] p[i])
        && fingerprint_spec(r.config.condition, p[i]) == k by {
        assert(p[i] == es[i]);
    }
    assert forall|i: int, j: int|
        #![trigger p[i], p[j]]
        0 <= j <= i < p.len() implies !before(
            p[j].timestamp,
            instant_minus_seconds(p[i].timestamp.0, p[i].timestamp.1, r.config.window_seconds as i64)->0,
        ) by {
        assert(p[i] == es[i] && p[j] == es[j]);
    }
}

proof fn lemma_burst_run(r: RuleView, counts: Seq<(Seq<char>, usize)>, es: Seq<EntryView>, k: Seq<char>)
    requires
        r.config.action == RuleAction::Warn,
        lookup(r.hits, k) is None,
        is_burst(r, es, k),
        rule_run(r, counts, es) is Some,
    ensures
        ({
            let out = rule_run(r, counts, es)->0;
            let t = effective_threshold(r.config);
            &&& out.0.config == r.config
            &&& out.2.len() == es.len()
            &&& es.len() > 0 ==> lookup(out.0.hits, k) == Some(burst_window(es, es.len() as int, t))
            &&& forall|i: int| 0 <= i < es.len() ==> ((#[trigger] out.2[i]) is Some <==> i + 1 >= t)
        }),
    decreases es.len(),
{
    if es.len() > 0 {
        let p = es.drop_last();
        let n = es.len() as int;
        let t = effective_threshold(r.config);
        lemma_burst_prefix(r, es, k);
        lemma_burst_run(r, counts, p, k);
        let prev = rule_run(r, counts, p)->0;
        let r1 = prev.0;
        let c1 = prev.1;
        let e = es.last();
        assert(e == es[n - 1]);
        assert(condition_holds(r.config.condition, es[n - 1]));
        let cutoff = instant_minus_seconds(e.timestamp.0, e.timestamp.1, r.config.window_seconds as i64)->0;
        let q0 = match lookup(r1.hits, k) {
            Some(q) => q,
            None => Seq::<(i64, u32)>::empty(),
        };
        assert(q0 =~= burst_window(p, n - 1, t)) by {
            if n - 1 == 0 {
                assert(burst_window(p, 0, t).len() == 0);
            }
        }
        let qp = q0.push(e.timestamp);
        let mp: int = if n - 1 < t - 1 {
            n - 1
        } else {
            t - 1
        };
        assert(qp.len() == mp + 1);
        assert forall|j: int| 0 <= j < qp.len() implies #[trigger] qp[j] == es[n - 1 - mp + j].timestamp by {
            if j < mp {
                assert(p[n - 1 - mp + j] == es[n - 1 - mp + j]);
            }
        }
        assert(!before(es[n - 1 - mp].timestamp, cutoff));
        assert(drop_expired(qp, cutoff) == qp);
        let q2 = if qp.len() >= t {
            qp.skip(qp.len() - (t - 1))
        } else {
            qp
        };
        assert(q2 =~= burst_window(es, n, t));
        let out = rule_run(r, counts, es)->0;
        crate::strmap::lemma_lookup_insert(r1.hits, k, q2, k);
        assert forall|i: int| 0 <= i < es.len() implies ((#[trigger] out.2[i]) is Some <==> i + 1 >= t) by {
            if i < n - 1 {
                assert(out.2[i] == prev.2[i]);
            }
        }
    }
}

/// A burst of matching entries for a warning rule that has no window yet for
/// their key: the entries before the threshold raise no alert, and from the
/// threshold on every entry raises one, since after an alert the window keeps
/// the last `threshold - 1` matches (a threshold of 0 acts as 1).
pub proof fn lemma_burst_alerts(r: RuleView, counts: Seq<(Seq<char>, usize)>, es: Seq<EntryView>, k: Seq<char>)
    requires
        r.config.action == RuleAction::Warn,
        lookup(r.hits, k) is None,
        is_burst(r, es, k),
        rule_run(r, counts, es) is Some,
    ensures
        raised_of(rule_run(r, counts, es)->0).len() == es.len(),
        forall|i: int|
            0 <= i < es.len() ==> ((#[trigger] raised_of(rule_run(r, counts, es)->0)[i]) is Some <==> i + 1
                >= effective_threshold(r.config)),
{
    lemma_burst_run(r, counts, es, k);
}

/// An engine of one rule does with an entry what that rule does: so a run of
/// `evaluate` calls on it follows `rule_run` of that rule.
pub proof fn lemma_one_rule_evaluation(v: EngineView, e: EntryView)
    requires
        v.rules.len() == 1,
    ensures
        evaluation(v, e) == match rule_outcome(v.rules[0], v.counts, e) {
            None => None::<Progress>,
            Some((r, c, ig, al)) => Some(
                Progress {
                    rules: seq![r],
                    counts: c,
                    ignored: ig,
                    alerts: match al {
                        Some(a) => seq![a],
                        None => Seq::<AlertView>::empty(),
                    },
                },
            ),
        },
{
    assert(progress(v, e, 0) == Some(
        Progress { rules: Seq::empty(), counts: v.counts, ignored: false, alerts: Seq::<AlertView>::empty() },
    ));
    match rule_outcome(v.rules[0], v.counts, e) {
        None => {},
        Some((r, c, ig, al)) => {
            assert(Seq::<RuleView>::empty().push(r) =~= seq![r]);
            match al {
                Some(a) => {
                    assert(Seq::<AlertView>::empty().push(a) =~= seq![a]);
                },
                None => {},
            }
        },
    }
}

/// Whether `a` is an alert that rule `c` raises for entry `e`: it names the
/// rule, carries the warning action, counts exactly the rule's threshold (at
/// least 1), which it also names, carries the rule's window and the entry's
/// level and source name, and says how many events matched.
pub open spec fn alert_of_rule(a: AlertView, c: RuleConfigView, e: EntryView) -> bool {
    &&& c.action == RuleAction::Warn
    &&& a.rule == c.name
    &&& a.action == RuleAction::Warn
    &&& a.count == effective_threshold(c)
    &&& a.threshold == effective_threshold(c)
    &&& a.window_seconds == c.window_seconds
    &&& a.level == e.level
    &&& a.source == source_name_spec(e)
    &&& a.message == alert_message(a.count as nat)
}

/// Every alert that the first `n` rules raise for an entry, where every window
/// holds fewer matches than its threshold, is one that a warning rule among
/// them raises, as `alert_of_rule` says.
pub proof fn lemma_alert_fields(v: EngineView, e: EntryView, n: nat)
    requires
        n <= v.rules.len(),
        progress(v, e, n) is Some,
        engine_windows_bounded(v),
    ensures
        forall|k: int|
            0 <= k < progress(v, e, n)->0.alerts.len() ==> exists|i: int|
                0 <= i < n && alert_of_rule(#[trigger] progress(v, e, n)->0.alerts[k], v.rules[i].config, e),
    decreases n,
{
    if n > 0 {
        let m = (n - 1) as nat;
        if progress(v, e, m) is None {
            lemma_progress_stuck(v, e, m, n);
        }
        lemma_alert_fields(v, e, m);
        let q = progress(v, e, m)->0;
        let r = v.rules[m as int];
        assert(windows_below_threshold(r));
        lemma_rule_outcome_windows(r, q.counts, e);
        let p = progress(v, e, n)->0;
        assert forall|k: int| 0 <= k < p.alerts.len() implies exists|i: int|
            0 <= i < n && alert_of_rule(#[trigger] p.alerts[k], v.rules[i].config, e) by {
            if k < q.alerts.len() {
                assert(p.alerts[k] == q.alerts[k]);
                let i = choose|i: int| 0 <= i < m && alert_of_rule(q.alerts[k], v.rules[i].config, e);
                assert(0 <= i < n && alert_of_rule(p.alerts[k], v.rules[i].config, e));
            } else {
                let out = rule_outcome(r, q.counts, e)->0;
                assert(outcome_alert(out) is Some);
                assert(p.alerts[k] == outcome_alert(out)->0);
                assert(alert_of_rule(p.alerts[k], r.config, e));
                assert(0 <= m < n);
            }
        }
    }
}

/// A warning rule keeps its settings, and every entry it sees under its
/// condition needs the start of its window, so a run that goes on has one for
/// every entry.
proof fn lemma_run_cutoffs(r: RuleView, counts: Seq<(Seq<char>, usize)>, es: Seq<EntryView>)
    requires
        r.config.action == RuleAction::Warn,
        forall|i: int| 0 <= i < es.len() ==> condition_holds(r.config.condition, #[trigger] es[i]),
        rule_run(r, counts, es) is Some,
    ensures
        rule_after_run(rule_run(r, counts, es)->0).config == r.config,
        forall|i: int|
            0 <= i < es.len() ==> instant_minus_seconds(
                (#[trigger] es[i]).timestamp.0,
                es[i].timestamp.1,
                r.config.window_seconds as i64,
            ) is Some,
    decreases es.len(),
{
    if es.len() > 0 {
        let p = es.drop_last();
        assert forall|i: int| 0 <= i < p.len() implies condition_holds(r.config.condition, #[trigger] p[i]) by {
            assert(p[i] == es[i]);
        }
        lemma_run_cutoffs(r, counts, p);
        let n = es.len() as int;
        assert(es.last() == es[n - 1]);
        assert(condition_holds(r.config.condition, es[n - 1]));
        assert forall|i: int| 0 <= i < es.len() implies instant_minus_seconds(
            (#[trigger] es[i]).timestamp.0,
            es[i].timestamp.1,
            r.config.window_seconds as i64,
        ) is Some by {
            if i < n - 1 {
                assert(p[i] == es[i]);
            }
        }
    }
}

/// Whether instant `b` lies at most `w` seconds after instant `a`.
pub open spec fn at_most_seconds_after(a: (i64, u32), b: (i64, u32), w: int) -> bool {
    b.0 - w < a.0 || (b.0 - w == a.0 && b.1 <= a.1)
}

/// The sliding window of a warning rule, in seconds: entries that all hold of
/// its condition and fall under one key, with no leap seconds, in order of
/// time, each at most the rule's window after the first, and seen by a rule
/// that has no window yet for their key: those before the threshold raise no
/// alert, and from the threshold on every one raises an alert (a threshold of
/// 0 acting as 1).
pub proof fn lemma_window_alerts(r: RuleView, counts: Seq<(Seq<char>, usize)>, es: Seq<EntryView>, k: Seq<char>)
    requires
        r.config.action == RuleAction::Warn,
        lookup(r.hits, k) is None,
        forall|i: int|
            0 <= i < es.len() ==> condition_holds(r.config.condition, #[trigger] es[i])
                && fingerprint_spec(r.config.condition, es[i]) == k,
        forall|i: int| 0 <= i < es.len() ==> (#[trigger] es[i]).timestamp.1 < 1_000_000_000,
        forall|i: int, j: int| #![trigger es[i], es[j]] 0 <= j <= i < es.len() ==> !before(es[i].timestamp, es[j].timestamp),
        forall|i: int|
            0 <= i < es.len() ==> at_most_seconds_after(
                es[0].timestamp,
                (#[trigger] es[i]).timestamp,
                r.config.window_seconds as i64 as int,
            ),
        rule_run(r, counts, es) is Some,
    ensures
        raised_of(rule_run(r, counts, es)->0).len() == es.len(),
        forall|i: int|
            0 <= i < es.len() ==> ((#[trigger] raised_of(rule_run(r, counts, es)->0)[i]) is Some <==> i + 1
                >= effective_threshold(r.config)),
{
    lemma_run_cutoffs(r, counts, es);
    let w = r.config.window_seconds as i64;
    assert forall|i: int, j: int|
        #![trigger es[i], es[j]]
        0 <= j <= i < es.len() implies !before(
            es[j].timestamp,
            instant_minus_seconds(es[i].timestamp.0, es[i].timestamp.1, w)->0,
        ) by {
        assert(instant_minus_seconds(es[i].timestamp.0, es[i].timestamp.1, w) is Some);
        assert(instant_minus_seconds(es[i].timestamp.0, es[i].timestamp.1, w)->0 == (
            (es[i].timestamp.0 - w) as i64,
            es[i].timestamp.1,
        ));
        assert(at_most_seconds_after(es[0].timestamp, es[i].timestamp, w as int));
        assert(!before(es[j].timestamp, es[0].timestamp));
    }
    assert(is_burst(r, es, k));
    lemma_burst_alerts(r, counts, es, k);
}

/// The alert a rule raises for an entry by itself, with no counts yet kept:
/// what it raises does not hang on the counts of the rules before it.
pub open spec fn rule_alert(r: RuleView, e: EntryView) -> Option<AlertView> {
    match rule_outcome(r, Seq::empty(), e) {
        Some(o) => outcome_alert(o),
        None => None,
    }
}

/// How many of the first `n` rules raise an alert for `e` by themselves.
pub open spec fn raising_rules(v: EngineView, e: EntryView, n: nat) -> nat
    decreases n,
{
    if n == 0 {
        0
    } else if rule_alert(v.rules[n - 1], e) is Some {
        raising_rules(v, e, (n - 1) as nat) + 1
    } else {
        raising_rules(v, e, (n - 1) as nat)
    }
}

/// The alert a rule raises given any counts, where it can go on, is the one it
/// raises by itself.
proof fn lemma_alert_whatever_counts(r: RuleView, counts: Seq<(Seq<char>, usize)>, e: EntryView)
    requires
        rule_outcome(r, counts, e) is Some,
    ensures
        outcome_alert(rule_outcome(r, counts, e)->0) == rule_alert(r, e),
{
    assert(lookup(Seq::<(Seq<char>, usize)>::empty(), r.config.name) is None);
}

/// Every rule takes its turn: the alerts of the first `n` rules for an entry
/// are, in rule order, one for each of those rules that raises one by itself,
/// and each such rule's alert is among them.
pub proof fn lemma_every_rule_alerts(v: EngineView, e: EntryView, n: nat)
    requires
        n <= v.rules.len(),
        progress(v, e, n) is Some,
    ensures
        progress(v, e, n)->0.alerts.len() == raising_rules(v, e, n),
        forall|i: int|
            0 <= i < n && #[trigger] rule_alert(v.rules[i], e) is Some ==> exists|k: int|
                0 <= k < progress(v, e, n)->0.alerts.len() && progress(v, e, n)->0.alerts[k] == rule_alert(
                    v.rules[i],
                    e,
                )->0,
        forall|k: int|
            0 <= k < progress(v, e, n)->0.alerts.len() ==> exists|i: int|
                0 <= i < n && rule_alert(v.rules[i], e) == Some(#[trigger] progress(v, e, n)->0.alerts[k]),
    decreases n,
{
    if n > 0 {
        let m = (n - 1) as nat;
        if progress(v, e, m) is None {
            lemma_progress_stuck(v, e, m, n);
        }
        lemma_every_rule_alerts(v, e, m);
        let q = progress(v, e, m)->0;
        let p = progress(v, e, n)->0;
        let r = v.rules[m as int];
        lemma_alert_whatever_counts(r, q.counts, e);
        assert forall|i: int|
            0 <= i < n && #[trigger] rule_alert(v.rules[i], e) is Some implies exists|k: int|
                0 <= k < p.alerts.len() && p.alerts[k] == rule_alert(v.rules[i], e)->0 by {
            if i < m {
                let k = choose|k: int| 0 <= k < q.alerts.len() && q.alerts[k] == rule_alert(v.rules[i], e)->0;
                assert(p.alerts[k] == q.alerts[k]);
            } else {
                assert(p.alerts[q.alerts.len() as int] == rule_alert(r, e)->0);
            }
        }
        assert forall|k: int| 0 <= k < p.alerts.len() implies exists|i: int|
            0 <= i < n && rule_alert(v.rules[i], e) == Some(#[trigger] p.alerts[k]) by {
            if k < q.alerts.len() {
                assert(p.alerts[k] == q.alerts[k]);
                let i = choose|i: int| 0 <= i < m && rule_alert(v.rules[i], e) == Some(q.alerts[k]);
                assert(0 <= i < n);
            } else {
                assert(rule_alert(r, e) == Some(p.alerts[k]));
                assert(0 <= m < n);
            }
        }
    }
}

/// Every rule of an engine takes its turn on an entry: the evaluation raises
/// exactly as many alerts as there are rules that raise one by themselves, and
/// each such rule's alert is among them.
pub proof fn lemma_evaluation_alerts(v: EngineView, e: EntryView)
    requires
        evaluation(v, e) is Some,
    ensures
        evaluation(v, e)->0.alerts.len() == raising_rules(v, e, v.rules.len()),
        forall|i: int|
            0 <= i < v.rules.len() && #[trigger] rule_alert(v.rules[i], e) is Some ==> exists|k: int|
                0 <= k < evaluation(v, e)->0.alerts.len() && evaluation(v, e)->0.alerts[k] == rule_alert(
                    v.rules[i],
                    e,
                )->0,
{
    lemma_every_rule_alerts(v, e, v.rules.len());
}

/// Expiry drops the oldest instants of a window, and only those, while they
/// lie before the cutoff: what stays is the queue without some first `d`
/// instants, each of which lies before the cutoff, and the first that stays
/// does not.
pub proof fn lemma_expiry_drops_oldest(q: Seq<(i64, u32)>, cutoff: (i64, u32))
    ensures
        exists|d: int|
            0 <= d <= q.len() && drop_expired(q, cutoff) == q.skip(d) && (forall|j: int|
                0 <= j < d ==> before(#[trigger] q[j], cutoff)) && (d < q.len() ==> !before(q[d], cutoff)),
    decreases q.len(),
{
    if q.len() > 0 && before(q[0], cutoff) {
        lemma_expiry_drops_oldest(q.drop_first(), cutoff);
        let d = choose|d: int|
            0 <= d <= q.drop_first().len() && drop_expired(q.drop_first(), cutoff) == q.drop_first().skip(d)
                && (forall|j: int| 0 <= j < d ==> before(#[trigger] q.drop_first()[j], cutoff)) && (d
                < q.drop_first().len() ==> !before(q.drop_first()[d], cutoff));
        assert(q.drop_first().skip(d) =~= q.skip(d + 1));
        assert forall|j: int| 0 <= j < d + 1 implies before(#[trigger] q[j], cutoff) by {
            if j > 0 {
                assert(q[j] == q.drop_first()[j - 1]);
            }
        }
        if d + 1 < q.len() {
            assert(q[d + 1] == q.drop_first()[d]);
        }
    } else {
        assert(q.skip(0) =~= q);
    }
}

} // verus!
