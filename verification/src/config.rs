//! The analyser's settings: filters, rules and report options, their defaults,
//! and how a settings file is chosen and recognised.
use vstd::prelude::*;
use crate::log_entry::copy_opt_string;
use crate::text::{ascii_lower, chars_eq_str, chars_of, lower_chars, string_from_chars};

verus! {

/// What a rule does with the entries it matches.
#[derive(Clone, Copy, Debug, PartialEq, Eq, Structural)]
pub enum RuleAction {
    Count,
    Warn,
    Ignore,
}

/// Which entries a rule matches; an absent part matches every entry.
#[derive(Clone, Debug)]
pub struct RuleCondition {
    pub level: Option<String>,
    pub keyword: Option<String>,
    pub source: Option<String>,
}

/// A named rule: a condition, an action, and for `Warn` how many matches within
/// how many seconds raise an alert.
#[derive(Clone, Debug)]
pub struct RuleConfig {
    pub name: String,
    pub condition: RuleCondition,
    pub action: RuleAction,
    pub threshold: usize,
    pub window_seconds: u64,
}

/// Where and how often a report is written.
#[derive(Clone, Debug)]
pub struct ReportConfig {
    pub path: Option<String>,
    pub flush_interval_seconds: u64,
}

/// Which entries are kept; an absent part keeps every entry.
#[derive(Clone, Debug)]
pub struct FilterConfig {
    pub levels: Option<Vec<String>>,
    pub keyword: Option<String>,
    pub source: Option<String>,
}

/// All settings of the analyser.
#[derive(Clone, Debug)]
pub struct AppConfig {
    pub format: String,
    pub workers: usize,
    pub read_from_end: bool,
    pub poll_interval_ms: u64,
    pub retained_events: usize,
    pub filters: FilterConfig,
    pub rules: Vec<RuleConfig>,
    pub report: Option<ReportConfig>,
}

/// Why settings could not be had.
#[derive(Clone, Debug)]
pub enum ConfigError {
    /// The file's extension names no format that settings are written in.
    UnsupportedExtension(String),
    /// The file could not be read.
    Unreadable(String),
    /// The file's text is not settings in its format.
    Invalid(String),
}

/// The formats that settings files are written in.
#[derive(Clone, Copy, Debug, PartialEq, Eq, Structural)]
pub enum ConfigFormat {
    Json,
    Yaml,
    Toml,
}

/// Whether `c` is the default settings: four workers, reading from the start,
/// polling every 500 ms, 500 retained events, the levels `ERROR`, `INFO` and
/// `WARN` kept, one rule `error-burst` that warns of 5 errors within 30 s, and a
/// report written to `reports/logstream-report.txt` every 10 s.
pub open spec fn is_default_config(c: AppConfig) -> bool {
    &&& c.format@ == "{timestamp?} {level} {message} {fields}"@
    &&& c.workers == 4
    &&& !c.read_from_end
    &&& c.poll_interval_ms == 500
    &&& c.retained_events == 500
    &&& c.filters.levels matches Some(levels) && levels@.map_values(|l: String| l@) == seq![
        "ERROR"@,
        "INFO"@,
        "WARN"@,
    ]
    &&& c.filters.keyword is None
    &&& c.filters.source is None
    &&& c.rules@.len() == 1
    &&& c.rules@[0].name@ == "error-burst"@
    &&& c.rules@[0].condition.level matches Some(l) && l@ == "ERROR"@
    &&& c.rules@[0].condition.keyword is None
    &&& c.rules@[0].condition.source is None
    &&& c.rules@[0].action == RuleAction::Warn
    &&& c.rules@[0].threshold == 5
    &&& c.rules@[0].window_seconds == 30
    &&& c.report matches Some(r) && r.flush_interval_seconds == 10 && (r.path matches Some(p)
        && p@ == "reports/logstream-report.txt"@)
}

impl Default for AppConfig {
    fn default() -> (c: Self)
        ensures
            is_default_config(c),
    {
        let levels = vec!["ERROR".to_owned(), "INFO".to_owned(), "WARN".to_owned()];
        assert(levels@.map_values(|l: String| l@) =~= seq!["ERROR"@, "INFO"@, "WARN"@]);
        AppConfig {
            format: "{timestamp?} {level} {message} {fields}".to_owned(),
            workers: 4,
            read_from_end: false,
            poll_interval_ms: 500,
            retained_events: 500,
            filters: FilterConfig { levels: Some(levels), keyword: None, source: None },
            rules: vec![
                RuleConfig {
                    name: "error-burst".to_owned(),
                    condition: RuleCondition {
                        level: Some("ERROR".to_owned()),
                        keyword: None,
                        source: None,
                    },
                    action: RuleAction::Warn,
                    threshold: 5,
                    window_seconds: 30,
                },
            ],
            report: Some(
                ReportConfig {
                    path: Some("reports/logstream-report.txt".to_owned()),
                    flush_interval_seconds: 10,
                },
            ),
        }
    }
}

impl AppConfig {
    /// The settings read from a file, when a file was named and `loaded` is
    /// what reading it gave; the default settings when none was named.
    pub fn load_optional(loaded: Option<Result<AppConfig, ConfigError>>) -> (r: Result<
        AppConfig,
        ConfigError,
    >)
        ensures
            match loaded {
                Some(outcome) => r == outcome,
                None => r matches Ok(c) && is_default_config(c),
            },
    {
        match loaded {
            Some(outcome) => outcome,
            None => Ok(AppConfig::default()),
        }
    }

    /// Where the report goes: the path asked for, else the one the settings
    /// name, if any.
    pub fn report_path(&self, requested: Option<String>) -> (r: Option<String>)
        ensures
            r == match requested {
                Some(p) => Some(p),
                None => match self.report {
                    Some(rc) => rc.path,
                    None => None,
                },
            },
    {
        match requested {
            Some(p) => Some(p),
            None => match &self.report {
                Some(rc) => copy_opt_string(&rc.path),
                None => None,
            },
        }
    }

    /// The number of workers to run: the setting, held between 1 and 64.
    pub fn worker_count(&self) -> (n: usize)
        ensures
            n == if self.workers < 1 {
                1
            } else if self.workers > 64 {
                64
            } else {
                self.workers
            },
    {
        if self.workers < 1 {
            1
        } else if self.workers > 64 {
            64
        } else {
            self.workers
        }
    }
}

/// The pieces of a text between commas, read so far: those finished and the
/// one being read.
pub open spec fn comma_run(s: Seq<char>) -> (Seq<Seq<char>>, Seq<char>)
    decreases s.len(),
{
    if s.len() == 0 {
        (Seq::empty(), Seq::empty())
    } else {
        let (parts, cur) = comma_run(s.drop_last());
        if s.last() == ',' {
            if cur.len() > 0 {
                (parts.push(cur), Seq::empty())
            } else {
                (parts, Seq::empty())
            }
        } else {
            (parts, cur.push(s.last()))
        }
    }
}

/// The pieces of a text between commas, empty ones left out: `WARN,ERROR`
/// gives `WARN` and `ERROR`.
pub open spec fn comma_parts(s: Seq<char>) -> Seq<Seq<char>> {
    let (parts, cur) = comma_run(s);
    if cur.len() > 0 {
        parts.push(cur)
    } else {
        parts
    }
}

/// The level names that `--level` options give, each option naming one or
/// more levels separated by commas.
pub open spec fn level_options(args: Seq<Seq<char>>) -> Seq<Seq<char>>
    decreases args.len(),
{
    if args.len() == 0 {
        Seq::empty()
    } else {
        level_options(args.drop_last()) + comma_parts(args.last())
    }
}

/// The texts of strings.
pub open spec fn string_views(v: Seq<String>) -> Seq<Seq<char>> {
    v.map_values(|s: String| s@)
}

/// Appends the pieces of `s` between commas, empty ones left out.
fn push_comma_parts(out: &mut Vec<String>, s: &str)
    ensures
        string_views(final(out)@) == string_views(old(out)@) + comma_parts(s@),
{
    let chars = chars_of(s);
    let mut parts: Vec<String> = Vec::new();
    let mut cur: Vec<char> = Vec::new();
    let mut i: usize = 0;
    while i < chars.len()
        invariant
            i <= chars@.len(),
            chars@ == s@,
            comma_run(chars@.take(i as int)) == (string_views(parts@), cur@),
        decreases chars@.len() - i,
    {
        let c = chars[i];
        let ghost before = parts@;
        assert(chars@.take(i + 1).drop_last() =~= chars@.take(i as int));
        if c == ',' {
            if cur.len() > 0 {
                parts.push(string_from_chars(cur.as_slice()));
                assert(string_views(parts@) =~= string_views(before).push(cur@));
                cur = Vec::new();
            }
        } else {
            cur.push(c);
        }
        i += 1;
        assert(comma_run(chars@.take(i as int)) == (string_views(parts@), cur@));
    }
    assert(chars@.take(chars@.len() as int) =~= chars@);
    if cur.len() > 0 {
        let ghost before = parts@;
        parts.push(string_from_chars(cur.as_slice()));
        assert(string_views(parts@) =~= string_views(before).push(cur@));
    }
    let ghost start = out@;
    let mut j: usize = 0;
    while j < parts.len()
        invariant
            j <= parts@.len(),
            string_views(out@) =~= string_views(start) + string_views(parts@).take(j as int),
        decreases parts@.len() - j,
    {
        let ghost before = out@;
        out.push(parts[j].clone());
        j += 1;
        assert(string_views(out@) =~= string_views(before).push(parts@[j - 1]@));
    }
    assert(string_views(parts@).take(parts@.len() as int) =~= string_views(parts@));
}

impl AppConfig {
    /// Takes the filters given on the command line: the levels of the
    /// `--level` options, each naming one or more levels separated by commas,
    /// replace the levels kept where any option is given; a keyword and a
    /// source given replace those of the settings. Nothing else changes.
    pub fn apply_filter_options(&mut self, levels: &Vec<String>, keyword: Option<String>, source: Option<String>)
        ensures
            levels@.len() == 0 ==> final(self).filters.levels == old(self).filters.levels,
            levels@.len() > 0 ==> (final(self).filters.levels matches Some(l) && string_views(l@)
                == level_options(string_views(levels@))),
            final(self).filters.keyword == match keyword {
                Some(k) => Some(k),
                None => old(self).filters.keyword,
            },
            final(self).filters.source == match source {
                Some(v) => Some(v),
                None => old(self).filters.source,
            },
            final(self).format == old(self).format,
            final(self).workers == old(self).workers,
            final(self).read_from_end == old(self).read_from_end,
            final(self).poll_interval_ms == old(self).poll_interval_ms,
            final(self).retained_events == old(self).retained_events,
            final(self).rules == old(self).rules,
            final(self).report == old(self).report,
    {
        if levels.len() > 0 {
            let mut names: Vec<String> = Vec::new();
            let mut i: usize = 0;
            while i < levels.len()
                invariant
                    i <= levels@.len(),
                    string_views(names@) == level_options(string_views(levels@).take(i as int)),
                decreases levels@.len() - i,
            {
                push_comma_parts(&mut names, levels[i].as_str());
                i += 1;
                assert(string_views(levels@).take(i as int).drop_last() =~= string_views(levels@).take(i - 1));
            }
            assert(string_views(levels@).take(levels@.len() as int) =~= string_views(levels@));
            self.filters.levels = Some(names);
        }
        match keyword {
            Some(k) => {
                self.filters.keyword = Some(k);
            },
            None => {},
        }
        match source {
            Some(v) => {
                self.filters.source = Some(v);
            },
            None => {},
        }
    }
}

/// The files looked for, in order, when no settings file is named.
pub open spec fn config_candidates() -> Seq<Seq<char>> {
    seq![
        "log-config.json"@,
        "log-config.yaml"@,
        "log-config.yml"@,
        "log-config.toml"@,
        "log-congif.json"@,
        "log-congif.yaml"@,
        "log-congif.yml"@,
        "log-congif.toml"@,
    ]
}

/// The files looked for, in order, when no settings file is named.
pub fn config_candidate_paths() -> (r: Vec<String>)
    ensures
        r@.map_values(|p: String| p@) == config_candidates(),
{
    let r = vec![
        "log-config.json".to_owned(),
        "log-config.yaml".to_owned(),
        "log-config.yml".to_owned(),
        "log-config.toml".to_owned(),
        "log-congif.json".to_owned(),
        "log-congif.yaml".to_owned(),
        "log-congif.yml".to_owned(),
        "log-congif.toml".to_owned(),
    ];
    assert(r@.map_values(|p: String| p@) =~= config_candidates());
    r
}

/// The first candidate file that exists, `present[i]` telling whether
/// candidate `i` does (a candidate past the end of `present` does not).
pub fn discover_config_path(present: &Vec<bool>) -> (r: Option<String>)
    ensures
        match r {
            Some(p) => exists|i: int|
                0 <= i < present@.len() && i < 8 && present@[i] && p@ == config_candidates()[i]
                    && forall|j: int| 0 <= j < i ==> !present@[j],
            None => forall|j: int| 0 <= j < present@.len() && j < 8 ==> !present@[j],
        },
{
    let candidates = config_candidate_paths();
    assert(candidates@.len() == candidates@.map_values(|p: String| p@).len());
    let mut i: usize = 0;
    while i < 8 && i < present.len()
        invariant
            i <= 8,
            i <= present@.len(),
            candidates@.map_values(|p: String| p@) == config_candidates(),
            candidates@.len() == 8,
            forall|j: int| 0 <= j < i ==> !present@[j],
        decreases 8 - i,
    {
        if present[i] {
            assert(candidates@.map_values(|p: String| p@)[i as int] == candidates@[i as int]@);
            return Some(candidates[i].clone());
        }
        i += 1;
    }
    None
}

/// The extension of the file a path names, as `std::path::Path::extension` finds it.
pub uninterp spec fn path_extension(path: Seq<char>) -> Option<Seq<char>>;

/// `std::path::Path::extension` of a path given as text, as text.
#[verifier::external_body]
fn std_path_extension(path: &str) -> (r: Option<String>)
    ensures
        match r {
            Some(e) => path_extension(path@) == Some(e@),
            None => path_extension(path@) is None,
        },
{
    match std::path::Path::new(path).extension() {
        Some(ext) => match ext.to_str() {
            Some(text) => Some(text.to_owned()),
            None => None,
        },
        None => None,
    }
}

/// The lower-cased extension of a settings file, `yaml` when it has none.
pub open spec fn config_extension(path: Seq<char>) -> Seq<char> {
    match path_extension(path) {
        Some(e) => ascii_lower(e),
        None => "yaml"@,
    }
}

/// The lower-cased extension of a settings file, `yaml` when it has none.
pub fn extension(path: &str) -> (r: String)
    ensures
        r@ == config_extension(path@),
{
    match std_path_extension(path) {
        Some(e) => {
            let lowered = lower_chars(&chars_of(e.as_str()));
            string_from_chars(lowered.as_slice())
        },
        None => {
            let lowered = lower_chars(&chars_of("yaml"));
            proof {
                reveal_strlit("yaml");
            }
            assert(lowered@ =~= "yaml"@);
            string_from_chars(lowered.as_slice())
        },
    }
}

/// The format of a settings file by its extension: `json`, `yaml` or `yml`,
/// `toml`; any other extension is refused.
pub open spec fn format_for_extension(ext: Seq<char>) -> Option<ConfigFormat> {
    if ext == "json"@ {
        Some(ConfigFormat::Json)
    } else if ext == "yaml"@ || ext == "yml"@ {
        Some(ConfigFormat::Yaml)
    } else if ext == "toml"@ {
        Some(ConfigFormat::Toml)
    } else {
        None
    }
}

/// The format of a settings file, or the extension that names none.
pub fn config_format(path: &str) -> (r: Result<ConfigFormat, ConfigError>)
    ensures
        match format_for_extension(config_extension(path@)) {
            Some(f) => r == Ok::<ConfigFormat, ConfigError>(f),
            None => r matches Err(ConfigError::UnsupportedExtension(e)) && e@ == config_extension(
                path@,
            ),
        },
{
    let ext = extension(path);
    let chars = chars_of(ext.as_str());
    if chars_eq_str(&chars, "json") {
        Ok(ConfigFormat::Json)
    } else if chars_eq_str(&chars, "yaml") || chars_eq_str(&chars, "yml") {
        Ok(ConfigFormat::Yaml)
    } else if chars_eq_str(&chars, "toml") {
        Ok(ConfigFormat::Toml)
    } else {
        Err(ConfigError::UnsupportedExtension(ext))
    }
}


/// A rule condition as plain values.
pub struct ConditionView {
    pub level: Option<Seq<char>>,
    pub keyword: Option<Seq<char>>,
    pub source: Option<Seq<char>>,
}

/// A rule as plain values.
pub struct RuleConfigView {
    pub name: Seq<char>,
    pub condition: ConditionView,
    pub action: RuleAction,
    pub threshold: usize,
    pub window_seconds: u64,
}

/// The text of an optional string.
pub open spec fn opt_string_view(o: Option<String>) -> Option<Seq<char>> {
    match o {
        Some(s) => Some(s@),
        None => None,
    }
}

impl View for RuleCondition {
    type V = ConditionView;

    open spec fn view(&self) -> ConditionView {
        ConditionView {
            level: opt_string_view(self.level),
            keyword: opt_string_view(self.keyword),
            source: opt_string_view(self.source),
        }
    }
}

impl View for RuleConfig {
    type V = RuleConfigView;

    open spec fn view(&self) -> RuleConfigView {
        RuleConfigView {
            name: self.name@,
            condition: self.condition@,
            action: self.action,
            threshold: self.threshold,
            window_seconds: self.window_seconds,
        }
    }
}

} // verus!
