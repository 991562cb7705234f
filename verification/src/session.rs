//! Named analysis sessions and where they are stored.
use vstd::prelude::*;
use crate::config::AppConfig;
use crate::stats::StatsSnapshot;
use crate::text::{
    chars_of, decimal, join, join_strings, push_chars, push_decimal, push_signed_decimal, push_str,
    signed_decimal, string_from_chars,
};
use crate::timestamp::{at_or_after_epoch, before, instant_text, Timestamp};

verus! {

/// An analysis run: its files, settings and the last statistics seen.
#[derive(Clone, Debug)]
pub struct Session {
    pub id: String,
    pub name: String,
    pub created_at: Timestamp,
    pub updated_at: Timestamp,
    pub files: Vec<String>,
    pub config_path: Option<String>,
    pub config: AppConfig,
    pub report_path: Option<String>,
    pub last_stats: Option<StatsSnapshot>,
}

/// Nanoseconds since the epoch.
pub open spec fn nanos_since_epoch(t: (i64, u32)) -> int {
    t.0 * 1_000_000_000 + t.1
}

/// Microseconds since the epoch, in thousands of nanoseconds.
pub open spec fn micros_as_nanos(t: (i64, u32)) -> int {
    (t.0 * 1_000_000 + t.1 / 1000) * 1000
}

/// Whether `n` fits in an `i64`.
pub open spec fn fits_i64(n: int) -> bool {
    i64::MIN <= n <= i64::MAX
}

/// The clock reading a session id carries: nanoseconds since the epoch where
/// they fit in an `i64`, else microseconds in thousands of nanoseconds where
/// those fit; `None` where neither does.
pub open spec fn session_clock(t: (i64, u32)) -> Option<int> {
    if fits_i64(nanos_since_epoch(t)) {
        Some(nanos_since_epoch(t))
    } else if fits_i64(micros_as_nanos(t)) {
        Some(micros_as_nanos(t))
    } else {
        None
    }
}

/// The id of a session made at clock reading `clock` by process `pid`:
/// `session-CLOCK-PID`.
pub open spec fn session_id_text(clock: int, pid: u32) -> Seq<char> {
    "session-"@ + signed_decimal(clock) + "-"@ + decimal(pid as nat)
}

/// The id of a session made at `now` by process `pid`, `None` where the clock
/// reading does not fit in an `i64`.
pub fn make_session_id(now: Timestamp, pid: u32) -> (r: Option<String>)
    ensures
        match session_clock(now@) {
            Some(c) => r matches Some(id) && id@ == session_id_text(c, pid),
            None => r is None,
        },
{
    let secs = now.unix_seconds() as i128;
    let sub = now.subsec_nanos() as i128;
    let nanos = secs * 1_000_000_000 + sub;
    let clock: i64 = if i64::MIN as i128 <= nanos && nanos <= i64::MAX as i128 {
        nanos as i64
    } else {
        let micros = (secs * 1_000_000 + sub / 1000) * 1000;
        if i64::MIN as i128 <= micros && micros <= i64::MAX as i128 {
            micros as i64
        } else {
            return None;
        }
    };
    let mut out: Vec<char> = Vec::new();
    push_str(&mut out, "session-");
    push_signed_decimal(&mut out, clock);
    push_str(&mut out, "-");
    push_decimal(&mut out, pid as u64);
    Some(string_from_chars(out.as_slice()))
}

impl Session {
    /// A session with the given id, started at `now`, named `name` or else by
    /// its id, with no statistics yet.
    pub fn with_id(
        id: String,
        name: Option<String>,
        files: Vec<String>,
        config_path: Option<String>,
        config: AppConfig,
        report_path: Option<String>,
        now: Timestamp,
    ) -> (s: Session)
        ensures
            s.id == id,
            s.name == match name {
                Some(n) => n,
                None => id,
            },
            s.created_at == now,
            s.updated_at == now,
            s.files == files,
            s.config_path == config_path,
            s.config == config,
            s.report_path == report_path,
            s.last_stats is None,
    {
        let name = match name {
            Some(n) => n,
            None => id.clone(),
        };
        Session {
            id,
            name,
            created_at: now,
            updated_at: now,
            files,
            config_path,
            config,
            report_path,
            last_stats: None,
        }
    }

    /// A session started now by process `process_id`, named `name` or else by
    /// its id; `None` where the system clock cannot be read, or where its
    /// reading for the id does not fit in an `i64` as nanoseconds nor as
    /// microseconds.
    pub fn new(
        name: Option<String>,
        files: Vec<String>,
        config_path: Option<String>,
        config: AppConfig,
        report_path: Option<String>,
        process_id: u32,
    ) -> (r: Option<Session>)
        ensures
            r matches Some(s) ==> {
                &&& exists|t: (i64, u32)|
                    at_or_after_epoch(t) && (#[trigger] session_clock(t) matches Some(c) && s.id@
                        == session_id_text(c, process_id))
                &&& s.name@ == match name {
                    Some(n) => n@,
                    None => s.id@,
                }
                &&& at_or_after_epoch(s.created_at@)
                &&& s.created_at == s.updated_at
                &&& s.files == files
                &&& s.config_path == config_path
                &&& s.config == config
                &&& s.report_path == report_path
                &&& s.last_stats is None
            },
    {
        let now = match Timestamp::now() {
            Some(t) => t,
            None => {
                return None;
            },
        };
        let id_time = match Timestamp::now() {
            Some(t) => t,
            None => {
                return None;
            },
        };
        match make_session_id(id_time, process_id) {
            Some(id) => {
                assert(session_clock(id_time@) is Some);
                Some(Session::with_id(id, name, files, config_path, config, report_path, now))
            },
            None => None,
        }
    }

    /// The session on one line: `name | updated=time | files=a, b`.
    pub fn summary_line(&self) -> (r: String)
        ensures
            r@ == self.name@ + " | updated="@ + instant_text(self.updated_at@.0, self.updated_at@.1)
                + " | files="@ + join(self.files@.map_values(|f: String| f@), ", "@),
    {
        let mut out = chars_of(self.name.as_str());
        push_str(&mut out, " | updated=");
        let time = self.updated_at.text();
        push_str(&mut out, time.as_str());
        push_str(&mut out, " | files=");
        let files = join_strings(&self.files, ", ");
        push_str(&mut out, files.as_str());
        string_from_chars(out.as_slice())
    }

    /// Keeps the statistics and stamps the session with the current time.
    pub fn set_stats(&mut self, snapshot: StatsSnapshot)
        ensures
            final(self).last_stats == Some(snapshot),
            final(self).id == old(self).id,
            final(self).name == old(self).name,
            final(self).created_at == old(self).created_at,
            final(self).files == old(self).files,
            final(self).config_path == old(self).config_path,
            final(self).config == old(self).config,
            final(self).report_path == old(self).report_path,
    {
        self.last_stats = Some(snapshot);
        self.updated_at = Timestamp::now_or(self.updated_at);
    }
}

/// Whether a char may stand in a stored session's file name.
pub open spec fn name_char_allowed(c: char) -> bool {
    ('a' <= c && c <= 'z') || ('A' <= c && c <= 'Z') || ('0' <= c && c <= '9') || c == '-' || c == '_'
}

/// A session name made fit for a file name: every char other than ASCII
/// letters, digits, `-` and `_` becomes `-`, and an empty name becomes `session`.
pub open spec fn sanitized(value: Seq<char>) -> Seq<char> {
    if value.len() == 0 {
        "session"@
    } else {
        value.map_values(|c: char| if name_char_allowed(c) { c } else { '-' })
    }
}

/// A made-fit name is never empty and holds only ASCII letters, digits, `-`
/// and `_`; making it fit again changes nothing.
pub proof fn lemma_sanitized_fit(value: Seq<char>)
    ensures
        sanitized(value).len() > 0,
        forall|i: int| 0 <= i < sanitized(value).len() ==> name_char_allowed(#[trigger] sanitized(value)[i]),
        sanitized(sanitized(value)) == sanitized(value),
{
    reveal_strlit("session");
    let r = sanitized(value);
    assert forall|i: int| 0 <= i < r.len() implies name_char_allowed(#[trigger] r[i]) by {}
    assert(sanitized(r) =~= r);
}

/// A session name made fit for a file name.
pub fn sanitize_name(value: &str) -> (r: String)
    ensures
        r@ == sanitized(value@),
{
    let chars = chars_of(value);
    let mut out: Vec<char> = Vec::new();
    let mut i: usize = 0;
    while i < chars.len()
        invariant
            i <= chars@.len(),
            chars@ == value@,
            out@ =~= chars@.take(i as int).map_values(|c: char| if name_char_allowed(c) { c } else { '-' }),
        decreases chars@.len() - i,
    {
        let c = chars[i];
        if ('a' <= c && c <= 'z') || ('A' <= c && c <= 'Z') || ('0' <= c && c <= '9') || c == '-' || c
            == '_' {
            out.push(c);
        } else {
            out.push('-');
        }
        i += 1;
        assert(chars@.take(i as int) =~= chars@.take(i - 1).push(chars@[i - 1]));
    }
    assert(chars@.take(chars@.len() as int) =~= chars@);
    if out.len() == 0 {
        "session".to_owned()
    } else {
        string_from_chars(out.as_slice())
    }
}

/// A path with a relative part joined on, as `Path::join` does on Unix: a
/// separator goes between them unless the base is empty or ends with one.
pub open spec fn joined_path(base: Seq<char>, part: Seq<char>) -> Seq<char> {
    if base.len() > 0 && base.last() != '/' {
        base + "/"@ + part
    } else {
        base + part
    }
}

/// The folder that sessions are stored in unless told otherwise.
pub open spec fn default_root() -> Seq<char> {
    ".logstream-sessions"@
}

/// Where sessions are stored: one `.json` file per session in a folder.
#[derive(Clone, Debug)]
pub struct SessionStore {
    root: String,
}

impl View for SessionStore {
    type V = Seq<char>;

    /// The folder.
    closed spec fn view(&self) -> Seq<char> {
        self.root@
    }
}

impl SessionStore {
    /// A store in the given folder.
    pub fn with_root(root: String) -> (r: SessionStore)
        ensures
            r@ == root@,
    {
        SessionStore { root }
    }

    /// A store in the default folder, `.logstream-sessions`.
    pub fn default() -> (r: SessionStore)
        ensures
            r@ == default_root(),
    {
        SessionStore { root: ".logstream-sessions".to_owned() }
    }

    /// The folder.
    pub fn root(&self) -> (r: &str)
        ensures
            r@ == self@,
    {
        self.root.as_str()
    }

    /// The file a session of the given name is stored in.
    pub fn path_for(&self, name: &str) -> (r: String)
        ensures
            r@ == joined_path(self@, sanitized(name@) + ".json"@),
    {
        let base = chars_of(self.root.as_str());
        let mut out: Vec<char> = Vec::new();
        push_chars(&mut out, &base);
        if base.len() > 0 && base[base.len() - 1] != '/' {
            push_str(&mut out, "/");
        }
        let clean = sanitize_name(name);
        push_str(&mut out, clean.as_str());
        push_str(&mut out, ".json");
        assert(out@ =~= joined_path(self@, sanitized(name@) + ".json"@));
        string_from_chars(out.as_slice())
    }
}

/// Sessions newest first: no session was updated before one that follows it.
pub open spec fn newest_first_order(s: Seq<Session>) -> bool {
    forall|i: int, j: int| 0 <= i < j < s.len() ==> !before(#[trigger] s[i].updated_at@, #[trigger] s[j].updated_at@)
}

/// The sessions ordered by the time of their last update, newest first.
pub fn sort_newest_first(sessions: Vec<Session>) -> (r: Vec<Session>)
    ensures
        r@.to_multiset() == sessions@.to_multiset(),
        newest_first_order(r@),
{
    broadcast use vstd::seq_lib::group_to_multiset_ensures, vstd::multiset::group_multiset_axioms;

    let ghost orig = sessions@;
    let mut rest = sessions;
    let mut r: Vec<Session> = Vec::new();
    assert(r@.to_multiset() =~= vstd::multiset::Multiset::empty());
    assert(r@.to_multiset().add(rest@.to_multiset()) =~= orig.to_multiset());
    while rest.len() > 0
        invariant
            r@.to_multiset().add(rest@.to_multiset()) == orig.to_multiset(),
            newest_first_order(r@),
        decreases rest@.len(),
    {
        let ghost rest0 = rest@;
        let s = rest.remove(0);
        assert(rest@ == rest0.remove(0));
        let mut j: usize = 0;
        while j < r.len() && !r[j].updated_at.is_before(&s.updated_at)
            invariant
                j <= r@.len(),
                forall|k: int| 0 <= k < j ==> !before(#[trigger] r@[k].updated_at@, s.updated_at@),
            decreases r@.len() - j,
        {
            j += 1;
        }
        let ghost r0 = r@;
        r.insert(j, s);
        assert(r@ == r0.insert(j as int, s));
        proof {
            vstd::seq_lib::to_multiset_insert(r0, j as int, s);
            vstd::seq_lib::to_multiset_remove(rest0, 0);
            assert(rest0[0] == s);
            assert(rest0.contains(s));
            rest0.to_multiset_ensures();
            assert(rest0.to_multiset().count(s) > 0);
            assert(r@.to_multiset().add(rest@.to_multiset()) =~= r0.to_multiset().add(rest0.to_multiset()));
        }
        assert forall|a: int, b: int| 0 <= a < b < r@.len() implies !before(
            #[trigger] r@[a].updated_at@,
            #[trigger] r@[b].updated_at@,
        ) by {
            if a < j && b == j {
            } else if a < j && b > j {
                assert(r@[b] == r0[b - 1]);
                assert(!before(r0[a].updated_at@, r0[b - 1].updated_at@));
            } else if a == j {
                assert(r@[b] == r0[b - 1]);
                if b - 1 > j {
                    assert(!before(r0[j as int].updated_at@, r0[b - 1].updated_at@));
                }
            } else if a > j {
                assert(r@[a] == r0[a - 1] && r@[b] == r0[b - 1]);
            } else {
                assert(r@[a] == r0[a] && r@[b] == r0[b]);
            }
        }
    }
    assert(rest@.to_multiset().len() == 0);
    assert(rest@.to_multiset() =~= vstd::multiset::Multiset::empty());
    assert(r@.to_multiset().add(vstd::multiset::Multiset::empty()) =~= r@.to_multiset());
    r
}

} // verus!
