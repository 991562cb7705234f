//! Log levels, log entries and the parser that turns a line into an entry.
use vstd::prelude::*;
use crate::strmap::{
    insert_sorted, lemma_text_bindings_insert,
    lemma_text_bindings_lookup, lookup, text_bindings, StrMap,
};
use crate::text::{
    lemma_case_and_trim, ascii_lower, ascii_upper, chars_eq_str, chars_of, contains_chars, contains_seq, is_whitespace,
    is_ws, join, join_chars, lower_chars, push_chars, push_str, string_from_chars, trim, trim_chars,
    upper_chars, words, words_run,
};
use crate::timestamp::{at_or_after_epoch, instant_text, rfc3339_instant, Timestamp};

verus! {

/// The severity of a log line.
#[derive(Clone, Copy, Debug, PartialEq, Eq, Structural, PartialOrd, Ord, Hash)]
pub enum LogLevel {
    Info,
    Warn,
    Error,
    Debug,
    Trace,
    Unknown,
}

/// The canonical upper-case name of a level.
pub open spec fn level_name(level: LogLevel) -> Seq<char> {
    match level {
        LogLevel::Info => "INFO"@,
        LogLevel::Warn => "WARN"@,
        LogLevel::Error => "ERROR"@,
        LogLevel::Debug => "DEBUG"@,
        LogLevel::Trace => "TRACE"@,
        LogLevel::Unknown => "UNKNOWN"@,
    }
}

/// The level a text names: it is trimmed and compared without regard to ASCII case;
/// `WARNING` and `ERR` are accepted as aliases, an empty text names no level and
/// any other text names `Unknown`.
pub open spec fn parse_level(s: Seq<char>) -> Option<LogLevel> {
    let u = ascii_upper(trim(s));
    if u == "INFO"@ {
        Some(LogLevel::Info)
    } else if u == "WARN"@ || u == "WARNING"@ {
        Some(LogLevel::Warn)
    } else if u == "ERROR"@ || u == "ERR"@ {
        Some(LogLevel::Error)
    } else if u == "DEBUG"@ {
        Some(LogLevel::Debug)
    } else if u == "TRACE"@ {
        Some(LogLevel::Trace)
    } else if u.len() == 0 {
        None
    } else {
        Some(LogLevel::Unknown)
    }
}

impl LogLevel {
    /// The canonical upper-case name of the level.
    pub fn as_str(self) -> (r: &'static str)
        ensures
            r@ == level_name(self),
    {
        match self {
            LogLevel::Info => "INFO",
            LogLevel::Warn => "WARN",
            LogLevel::Error => "ERROR",
            LogLevel::Debug => "DEBUG",
            LogLevel::Trace => "TRACE",
            LogLevel::Unknown => "UNKNOWN",
        }
    }

    /// Reads a level from text; `Err(())` for a text that is empty once trimmed.
    pub fn from_str(value: &str) -> (r: Result<LogLevel, ()>)
        ensures
            match parse_level(value@) {
                Some(l) => r == Ok::<LogLevel, ()>(l),
                None => r is Err,
            },
    {
        let chars = chars_of(value);
        let t = trim_chars(&chars);
        let u = upper_chars(&t);
        if chars_eq_str(&u, "INFO") {
            Ok(LogLevel::Info)
        } else if chars_eq_str(&u, "WARN") || chars_eq_str(&u, "WARNING") {
            Ok(LogLevel::Warn)
        } else if chars_eq_str(&u, "ERROR") || chars_eq_str(&u, "ERR") {
            Ok(LogLevel::Error)
        } else if chars_eq_str(&u, "DEBUG") {
            Ok(LogLevel::Debug)
        } else if chars_eq_str(&u, "TRACE") {
            Ok(LogLevel::Trace)
        } else if u.len() == 0 {
            Err(())
        } else {
            Ok(LogLevel::Unknown)
        }
    }
}


/// Why a line could not be read as an entry.
#[derive(Clone, Copy, Debug, PartialEq, Eq, Structural)]
pub enum ParseProblem {
    EmptyLine,
    MissingLevel,
}

/// The text that describes a problem.
pub open spec fn problem_text(p: ParseProblem) -> Seq<char> {
    match p {
        ParseProblem::EmptyLine => "empty log line"@,
        ParseProblem::MissingLevel => "log line does not contain level"@,
    }
}

impl ParseProblem {
    /// The text that describes the problem.
    pub fn message(&self) -> (r: &'static str)
        ensures
            r@ == problem_text(*self),
    {
        match self {
            ParseProblem::EmptyLine => "empty log line",
            ParseProblem::MissingLevel => "log line does not contain level",
        }
    }
}

/// Where a line came from.
#[derive(Clone, Debug)]
pub struct ParseContext {
    pub file: String,
    pub line_number: u64,
}

/// The state of the tokenizer after some prefix of a line: the tokens finished,
/// the token being read, and the quote char that is open, if any.
pub struct SplitState {
    pub tokens: Seq<Seq<char>>,
    pub current: Seq<char>,
    pub quote: Option<char>,
}

/// Whether `c` opens a quoted stretch.
pub open spec fn is_quote(c: char) -> bool {
    c == '"' || c == '\''
}

/// The tokenizer reading one more char: outside quotes, white space ends the
/// token being read and a quote char opens a quoted stretch; inside, only the same
/// quote char closes it. Quote chars stay in the token.
pub open spec fn split_step(st: SplitState, ch: char) -> SplitState {
    match st.quote {
        Some(q) => if ch == q {
            SplitState { tokens: st.tokens, current: st.current.push(ch), quote: None }
        } else {
            SplitState { tokens: st.tokens, current: st.current.push(ch), quote: Some(q) }
        },
        None => if is_quote(ch) {
            SplitState { tokens: st.tokens, current: st.current.push(ch), quote: Some(ch) }
        } else if is_ws(ch) {
            if st.current.len() > 0 {
                SplitState { tokens: st.tokens.push(st.current), current: Seq::empty(), quote: None }
            } else {
                st
            }
        } else {
            SplitState { tokens: st.tokens, current: st.current.push(ch), quote: None }
        },
    }
}

/// The tokenizer's state after reading all of `s`.
pub open spec fn split_run(s: Seq<char>) -> SplitState
    decreases s.len(),
{
    if s.len() == 0 {
        SplitState { tokens: Seq::empty(), current: Seq::empty(), quote: None }
    } else {
        split_step(split_run(s.drop_last()), s.last())
    }
}

/// The tokens of a line: runs of chars split at white space that stands outside quotes.
pub open spec fn split_tokens(s: Seq<char>) -> Seq<Seq<char>> {
    let st = split_run(s);
    if st.current.len() > 0 {
        st.tokens.push(st.current)
    } else {
        st.tokens
    }
}

/// `s` without one pair of matching quote chars around it, if it has them.
pub open spec fn strip_quotes_spec(s: Seq<char>) -> Seq<char> {
    if s.len() >= 2 && ((s[0] == '"' && s.last() == '"') || (s[0] == '\'' && s.last() == '\'')) {
        s.subrange(1, s.len() - 1)
    } else {
        s
    }
}

/// The position of the first `=` in `s`.
pub open spec fn first_eq(s: Seq<char>) -> Option<int> {
    if exists|i: int| 0 <= i < s.len() && s[i] == '=' {
        Some(
            choose|i: int|
                0 <= i < s.len() && s[i] == '=' && forall|j: int| 0 <= j < i ==> s[j] != '=',
        )
    } else {
        None
    }
}

/// A token read as `key=value`: the text before its first `=` and the text after.
pub open spec fn split_once_eq(s: Seq<char>) -> Option<(Seq<char>, Seq<char>)> {
    match first_eq(s) {
        Some(i) => Some((s.subrange(0, i), s.subrange(i + 1, s.len() as int))),
        None => None,
    }
}

/// The fields that one more token adds: a `key=value` token with a key that is
/// not blank binds the trimmed key to the trimmed, unquoted value.
pub open spec fn field_step(acc: Seq<(Seq<char>, Seq<char>)>, tok: Seq<char>) -> Seq<(Seq<char>, Seq<char>)> {
    match split_once_eq(tok) {
        Some((k, v)) => if trim(k).len() > 0 {
            insert_sorted(acc, trim(k), strip_quotes_spec(trim(v)))
        } else {
            acc
        },
        None => acc,
    }
}

/// The fields that the tokens after the level bind, later bindings of a key winning.
pub open spec fn fields_of(toks: Seq<Seq<char>>) -> Seq<(Seq<char>, Seq<char>)>
    decreases toks.len(),
{
    if toks.len() == 0 {
        Seq::empty()
    } else {
        field_step(fields_of(toks.drop_last()), toks.last())
    }
}

/// The words of the message: the tokens without `=`, unquoted.
pub open spec fn message_parts(toks: Seq<Seq<char>>) -> Seq<Seq<char>>
    decreases toks.len(),
{
    if toks.len() == 0 {
        Seq::empty()
    } else if split_once_eq(toks.last()) is None {
        message_parts(toks.drop_last()).push(strip_quotes_spec(toks.last()))
    } else {
        message_parts(toks.drop_last())
    }
}

/// What a log entry holds, as plain values.
pub struct EntryView {
    pub timestamp: (i64, u32),
    pub original_timestamp: Option<Seq<char>>,
    pub level: LogLevel,
    pub message: Seq<char>,
    pub fields: Seq<(Seq<char>, Seq<char>)>,
    pub source: Option<Seq<char>>,
    pub file: Seq<char>,
    pub line_number: u64,
    pub raw: Seq<char>,
}

/// The text of an optional string.
pub open spec fn opt_text(o: Option<String>) -> Option<Seq<char>> {
    match o {
        Some(s) => Some(s@),
        None => None,
    }
}

/// The entry that a trimmed line and its tokens make. `leading` is the instant
/// that the first token names, if it names one; then it is the entry's time and
/// the next token its level, otherwise the entry gets the time `now` and the
/// first token is its level. The source is the `source` field, else the
/// `service` field.
pub open spec fn assemble_spec(
    trimmed: Seq<char>,
    tokens: Seq<Seq<char>>,
    leading: Option<(i64, u32)>,
    now: (i64, u32),
    file: Seq<char>,
    line_number: u64,
) -> Result<EntryView, ParseProblem> {
    if trimmed.len() == 0 || tokens.len() == 0 {
        Err(ParseProblem::EmptyLine)
    } else {
        let cursor: int = if leading is Some { 1 } else { 0 };
        if cursor >= tokens.len() {
            Err(ParseProblem::MissingLevel)
        } else {
            match parse_level(tokens[cursor]) {
                None => Err(ParseProblem::MissingLevel),
                Some(level) => {
                    let rest = tokens.skip(cursor + 1);
                    let fields = fields_of(rest);
                    let source = match lookup(fields, "source"@) {
                        Some(s) => Some(s),
                        None => lookup(fields, "service"@),
                    };
                    Ok(
                        EntryView {
                            timestamp: match leading {
                                Some(t) => t,
                                None => now,
                            },
                            original_timestamp: if leading is Some {
                                Some(tokens[0])
                            } else {
                                None
                            },
                            level,
                            message: join(message_parts(rest), " "@),
                            fields,
                            source,
                            file,
                            line_number,
                            raw: trimmed,
                        },
                    )
                },
            }
        }
    }
}

/// The entry that a raw line makes, `now` standing for the current time.
pub open spec fn parse_line_spec(raw: Seq<char>, now: (i64, u32), file: Seq<char>, line_number: u64) -> Result<EntryView, ParseProblem> {
    let trimmed = trim(raw);
    let tokens = split_tokens(trimmed);
    let leading = if tokens.len() > 0 {
        rfc3339_instant(tokens[0])
    } else {
        None
    };
    assemble_spec(trimmed, tokens, leading, now, file, line_number)
}

/// One line of a log, read.
#[derive(Clone, Debug)]
pub struct LogEntry {
    pub timestamp: Timestamp,
    pub original_timestamp: Option<String>,
    pub level: LogLevel,
    pub message: String,
    pub fields: StrMap<String>,
    pub source: Option<String>,
    pub file: String,
    pub line_number: u64,
    pub raw: String,
}

impl View for LogEntry {
    type V = EntryView;

    open spec fn view(&self) -> EntryView {
        EntryView {
            timestamp: self.timestamp@,
            original_timestamp: opt_text(self.original_timestamp),
            level: self.level,
            message: self.message@,
            fields: text_bindings(self.fields@),
            source: opt_text(self.source),
            file: self.file@,
            line_number: self.line_number,
            raw: self.raw@,
        }
    }
}

/// What a parse gives, as plain values.
pub open spec fn parse_result_view(r: Result<LogEntry, ParseProblem>) -> Result<EntryView, ParseProblem> {
    match r {
        Ok(e) => Ok(e@),
        Err(p) => Err(p),
    }
}

/// Splits a line into tokens at white space outside quotes; quote chars stay in the tokens.
pub fn split_chars(input: &Vec<char>) -> (r: Vec<Vec<char>>)
    ensures
        r@.map_values(|t: Vec<char>| t@) == split_tokens(input@),
{
    let mut tokens: Vec<Vec<char>> = Vec::new();
    let mut current: Vec<char> = Vec::new();
    let mut quote: Option<char> = None;
    let mut i: usize = 0;
    while i < input.len()
        invariant
            i <= input@.len(),
            ({
                let st = split_run(input@.take(i as int));
                &&& tokens@.map_values(|t: Vec<char>| t@) == st.tokens
                &&& current@ == st.current
                &&& quote == st.quote
            }),
        decreases input@.len() - i,
    {
        let ch = input[i];
        let ghost before = input@.take(i as int);
        assert(input@.take(i + 1).drop_last() =~= before);
        match quote {
            Some(q) => {
                if ch == q {
                    quote = None;
                }
                current.push(ch);
            },
            None => {
                if ch == '"' || ch == '\'' {
                    quote = Some(ch);
                    current.push(ch);
                } else if is_whitespace(ch) {
                    if current.len() > 0 {
                        let ghost old_tokens = tokens@;
                        let mut done: Vec<char> = Vec::new();
                        std::mem::swap(&mut done, &mut current);
                        tokens.push(done);
                        assert(tokens@.map_values(|t: Vec<char>| t@) =~= old_tokens.map_values(
                            |t: Vec<char>| t@,
                        ).push(split_run(before).current));
                    }
                } else {
                    current.push(ch);
                }
            },
        }
        i += 1;
    }
    assert(input@.take(input@.len() as int) =~= input@);
    if current.len() > 0 {
        let ghost old_tokens = tokens@;
        tokens.push(current);
        assert(tokens@.map_values(|t: Vec<char>| t@) =~= old_tokens.map_values(|t: Vec<char>| t@).push(
            split_run(input@).current,
        ));
    }
    tokens
}

/// Splits a line into tokens at white space outside quotes; quote chars stay in the tokens.
pub fn split_preserving_quotes(input: &str) -> (r: Vec<String>)
    ensures
        r@.map_values(|t: String| t@) == split_tokens(input@),
{
    let chars = chars_of(input);
    let parts = split_chars(&chars);
    let mut r: Vec<String> = Vec::new();
    let mut i: usize = 0;
    while i < parts.len()
        invariant
            i <= parts@.len(),
            r@.map_values(|t: String| t@) =~= parts@.map_values(|t: Vec<char>| t@).take(i as int),
        decreases parts@.len() - i,
    {
        let ghost before = r@;
        r.push(string_from_chars(parts[i].as_slice()));
        i += 1;
        assert(r@.map_values(|t: String| t@) =~= before.map_values(|t: String| t@).push(parts@[i - 1]@));
    }
    assert(parts@.map_values(|t: Vec<char>| t@).take(parts@.len() as int) =~= parts@.map_values(
        |t: Vec<char>| t@,
    ));
    r
}

/// The chars of `v` from position `a` up to, not including, `b`.
pub fn sub_chars(v: &Vec<char>, a: usize, b: usize) -> (r: Vec<char>)
    requires
        a <= b <= v@.len(),
    ensures
        r@ == v@.subrange(a as int, b as int),
{
    let mut r: Vec<char> = Vec::new();
    let mut i = a;
    while i < b
        invariant
            a <= i <= b <= v@.len(),
            r@ == v@.subrange(a as int, i as int),
        decreases b - i,
    {
        r.push(v[i]);
        i += 1;
        assert(r@ =~= v@.subrange(a as int, i as int));
    }
    r
}

/// `value` without one pair of matching quote chars around it, if it has them.
pub fn strip_quotes_chars(value: &Vec<char>) -> (r: Vec<char>)
    ensures
        r@ == strip_quotes_spec(value@),
{
    let n = value.len();
    if n >= 2 {
        let first = value[0];
        let last = value[n - 1];
        if (first == '"' && last == '"') || (first == '\'' && last == '\'') {
            return sub_chars(value, 1, n - 1);
        }
    }
    sub_chars(value, 0, n)
}

/// `value` without one pair of matching quote chars around it, if it has them.
pub fn strip_quotes(value: &str) -> (r: String)
    ensures
        r@ == strip_quotes_spec(value@),
{
    let chars = chars_of(value);
    let stripped = strip_quotes_chars(&chars);
    string_from_chars(stripped.as_slice())
}

/// The position of the first `=`.
fn find_eq(s: &Vec<char>) -> (r: Option<usize>)
    ensures
        match first_eq(s@) {
            Some(i) => r == Some(i as usize),
            None => r is None,
        },
        r matches Some(i) ==> i < s@.len() && first_eq(s@) == Some(i as int),
{
    let mut i: usize = 0;
    while i < s.len()
        invariant
            i <= s@.len(),
            forall|j: int| 0 <= j < i ==> s@[j] != '=',
        decreases s@.len() - i,
    {
        if s[i] == '=' {
            let ghost c = choose|k: int|
                0 <= k < s@.len() && s@[k] == '=' && forall|j: int| 0 <= j < k ==> s@[j] != '=';
            assert(0 <= i < s@.len() && s@[i as int] == '=' && forall|j: int| 0 <= j < i ==> s@[j] != '=');
            assert(c == i) by {
                if c < i {
                } else if c > i {
                }
            }
            return Some(i);
        }
        i += 1;
    }
    None
}


/// The text of each token.
pub open spec fn token_texts(v: Seq<Vec<char>>) -> Seq<Seq<char>> {
    v.map_values(|t: Vec<char>| t@)
}

/// The plain value of an optional instant.
pub open spec fn opt_instant(t: Option<Timestamp>) -> Option<(i64, u32)> {
    match t {
        Some(t) => Some(t@),
        None => None,
    }
}

/// The entry that a trimmed line and its tokens make, `leading` being the
/// instant that the first token names, if any, and `now` the current time.
pub fn assemble_entry(
    trimmed: &Vec<char>,
    tokens: &Vec<Vec<char>>,
    leading: Option<Timestamp>,
    now: Timestamp,
    ctx: ParseContext,
) -> (r: Result<LogEntry, ParseProblem>)
    ensures
        parse_result_view(r) == assemble_spec(
            trimmed@,
            token_texts(tokens@),
            opt_instant(leading),
            now@,
            ctx.file@,
            ctx.line_number,
        ),
{
    let ghost toks = token_texts(tokens@);
    if trimmed.len() == 0 || tokens.len() == 0 {
        return Err(ParseProblem::EmptyLine);
    }
    let timestamp: Timestamp;
    let original_timestamp: Option<String>;
    let cursor: usize;
    match leading {
        Some(t) => {
            timestamp = t;
            original_timestamp = Some(string_from_chars(tokens[0].as_slice()));
            cursor = 1;
        },
        None => {
            timestamp = now;
            original_timestamp = None;
            cursor = 0;
        },
    }
    if cursor >= tokens.len() {
        return Err(ParseProblem::MissingLevel);
    }
    assert(toks[cursor as int] == tokens@[cursor as int]@);
    let level_text = string_from_chars(tokens[cursor].as_slice());
    let level = match LogLevel::from_str(level_text.as_str()) {
        Ok(l) => l,
        Err(_) => {
            return Err(ParseProblem::MissingLevel);
        },
    };
    let mut fields: StrMap<String> = StrMap::new();
    let mut parts: Vec<Vec<char>> = Vec::new();
    let mut j: usize = cursor + 1;
    assert(toks.subrange(cursor + 1, j as int) =~= Seq::<Seq<char>>::empty());
    assert(text_bindings(fields@) =~= Seq::<(Seq<char>, Seq<char>)>::empty());
    assert(token_texts(parts@) =~= Seq::<Seq<char>>::empty());
    while j < tokens.len()
        invariant
            cursor + 1 <= j <= tokens@.len(),
            toks == token_texts(tokens@),
            text_bindings(fields@) == fields_of(toks.subrange(cursor + 1, j as int)),
            token_texts(parts@) == message_parts(toks.subrange(cursor + 1, j as int)),
        decreases tokens@.len() - j,
    {
        let tok = &tokens[j];
        let ghost seen = toks.subrange(cursor + 1, j + 1);
        assert(seen.drop_last() =~= toks.subrange(cursor + 1, j as int));
        assert(seen.last() == tok@);
        let ghost acc = fields_of(toks.subrange(cursor + 1, j as int));
        assert(fields_of(seen) == field_step(acc, tok@));
        assert(message_parts(seen) == if split_once_eq(tok@) is None {
            message_parts(toks.subrange(cursor + 1, j as int)).push(strip_quotes_spec(tok@))
        } else {
            message_parts(toks.subrange(cursor + 1, j as int))
        });
        let n = tok.len();
        match find_eq(tok) {
            Some(i) => {
                let before = sub_chars(tok, 0, i);
                let key = trim_chars(&before);
                let after = sub_chars(tok, i + 1, n);
                assert(split_once_eq(tok@) == Some((before@, after@)));
                if key.len() > 0 {
                    let value = strip_quotes_chars(&trim_chars(&after));
                    let key_text = string_from_chars(key.as_slice());
                    let value_text = string_from_chars(value.as_slice());
                    proof {
                        lemma_text_bindings_insert(fields@, key_text@, value_text);
                    }
                    fields.insert(key_text, value_text);
                }
            },
            None => {
                let ghost old_parts = parts@;
                parts.push(strip_quotes_chars(tok));
                assert(token_texts(parts@) =~= token_texts(old_parts).push(strip_quotes_spec(tok@)));
            },
        }
        j += 1;
    }
    assert(toks.subrange(cursor + 1, tokens@.len() as int) =~= toks.skip(cursor + 1));
    let space = chars_of(" ");
    let message_chars = join_chars(&parts, &space);
    assert(parts@.map_values(|p: Vec<char>| p@) == token_texts(parts@));
    let message = string_from_chars(message_chars.as_slice());
    proof {
        lemma_text_bindings_lookup(fields@, "source"@);
        lemma_text_bindings_lookup(fields@, "service"@);
    }
    let source: Option<String> = match fields.get("source") {
        Some(v) => Some(v.clone()),
        None => match fields.get("service") {
            Some(v) => Some(v.clone()),
            None => None,
        },
    };
    let raw = string_from_chars(trimmed.as_slice());
    Ok(
        LogEntry {
            timestamp,
            original_timestamp,
            level,
            message,
            fields,
            source,
            file: ctx.file,
            line_number: ctx.line_number,
            raw,
        },
    )
}

/// Reads a line, `now` standing for the current time that an entry without an
/// RFC 3339 time in front gets.
pub fn parse_log_line_at(raw: &str, ctx: ParseContext, now: Timestamp) -> (r: Result<LogEntry, ParseProblem>)
    ensures
        parse_result_view(r) == parse_line_spec(raw@, now@, ctx.file@, ctx.line_number),
{
    let chars = chars_of(raw);
    let trimmed = trim_chars(&chars);
    let tokens = split_chars(&trimmed);
    let leading = if tokens.len() > 0 {
        let first = string_from_chars(tokens[0].as_slice());
        assert(token_texts(tokens@)[0] == tokens@[0]@);
        Timestamp::parse_rfc3339(first.as_str())
    } else {
        None
    };
    assert(token_texts(tokens@) == tokens@.map_values(|t: Vec<char>| t@));
    assemble_entry(&trimmed, &tokens, leading, now, ctx)
}

/// Reads a line of the form `[TIME] LEVEL words key=value ...`; an entry without
/// an RFC 3339 time in front is stamped with the current time. A blank line is
/// refused as empty before the clock is read; for any other line, `None` where
/// the system clock cannot be read (set before the Unix epoch or past what
/// chrono holds).
pub fn parse_log_line(raw: &str, ctx: ParseContext) -> (r: Option<Result<LogEntry, ParseProblem>>)
    ensures
        trim(raw@).len() == 0 ==> r == Some(Err::<LogEntry, ParseProblem>(ParseProblem::EmptyLine)),
        r matches Some(x) ==> exists|now: (i64, u32)|
            at_or_after_epoch(now) && parse_result_view(x) == parse_line_spec(
                raw@,
                now,
                ctx.file@,
                ctx.line_number,
            ),
{
    let trimmed = trim_chars(&chars_of(raw));
    if trimmed.len() == 0 {
        let ghost epoch: (i64, u32) = (0, 0);
        assert(at_or_after_epoch(epoch) && parse_result_view(Err(ParseProblem::EmptyLine))
            == parse_line_spec(raw@, epoch, ctx.file@, ctx.line_number));
        return Some(Err(ParseProblem::EmptyLine));
    }
    match Timestamp::now() {
        Some(now) => {
            let r = parse_log_line_at(raw, ctx, now);
            assert(at_or_after_epoch(now@) && parse_result_view(r) == parse_line_spec(
                raw@,
                now@,
                ctx.file@,
                ctx.line_number,
            ));
            Some(r)
        },
        None => None,
    }
}


/// A copy of an optional string.
pub fn copy_opt_string(o: &Option<String>) -> (r: Option<String>)
    ensures
        r == *o,
{
    match o {
        Some(s) => Some(s.clone()),
        None => None,
    }
}

/// The name an entry is counted and matched under: its source, else its
/// `source` field, else the file it came from.
pub open spec fn source_name_spec(e: EntryView) -> Seq<char> {
    match e.source {
        Some(s) => s,
        None => match lookup(e.fields, "source"@) {
            Some(s) => s,
            None => e.file,
        },
    }
}

/// Each field written `key=value`, in key order.
pub open spec fn field_pairs(fields: Seq<(Seq<char>, Seq<char>)>) -> Seq<Seq<char>> {
    fields.map_values(|f: (Seq<char>, Seq<char>)| f.0 + "="@ + f.1)
}

/// An entry on one line: `[time] source LEVEL: message`, then the fields if any.
pub open spec fn compact_spec(e: EntryView) -> Seq<char> {
    let fields = join(field_pairs(e.fields), " "@);
    let head = "["@ + instant_text(e.timestamp.0, e.timestamp.1) + "] "@ + source_name_spec(e) + " "@
        + level_name(e.level) + ": "@ + e.message;
    if fields.len() == 0 {
        head
    } else {
        head + " "@ + fields
    }
}

/// Whether an entry mentions a keyword, ASCII case aside: in its message, its
/// raw line, or a field's key or value. A blank keyword matches every entry.
pub open spec fn keyword_matches(e: EntryView, keyword: Seq<char>) -> bool {
    trim(keyword).len() == 0 || contains_seq(ascii_lower(e.message), ascii_lower(keyword))
        || contains_seq(ascii_lower(e.raw), ascii_lower(keyword)) || field_mentions(
        e.fields,
        ascii_lower(keyword),
    )
}

/// Whether some field's key or value, lower-cased, holds `needle`.
pub open spec fn field_mentions(fields: Seq<(Seq<char>, Seq<char>)>, needle: Seq<char>) -> bool {
    exists|i: int|
        #![trigger fields[i]]
        0 <= i < fields.len() && (contains_seq(ascii_lower(fields[i].0), needle) || contains_seq(
            ascii_lower(fields[i].1),
            needle,
        ))
}

impl LogEntry {
    /// A copy of the entry.
    pub fn duplicate(&self) -> (r: LogEntry)
        ensures
            r@ == self@,
    {
        LogEntry {
            timestamp: self.timestamp,
            original_timestamp: copy_opt_string(&self.original_timestamp),
            level: self.level,
            message: self.message.clone(),
            fields: self.fields.duplicate(),
            source: copy_opt_string(&self.source),
            file: self.file.clone(),
            line_number: self.line_number,
            raw: self.raw.clone(),
        }
    }

    /// The value of a field.
    pub fn field(&self, key: &str) -> (r: Option<&str>)
        ensures
            match r {
                Some(v) => lookup(self@.fields, key@) == Some(v@),
                None => lookup(self@.fields, key@) is None,
            },
    {
        proof {
            lemma_text_bindings_lookup(self.fields@, key@);
        }
        match self.fields.get(key) {
            Some(v) => Some(v.as_str()),
            None => None,
        }
    }

    /// The `service` field.
    pub fn service(&self) -> (r: Option<&str>)
        ensures
            match r {
                Some(v) => lookup(self@.fields, "service"@) == Some(v@),
                None => lookup(self@.fields, "service"@) is None,
            },
    {
        self.field("service")
    }

    /// The source, else the `source` field, else the file.
    pub fn source_name(&self) -> (r: String)
        ensures
            r@ == source_name_spec(self@),
    {
        match &self.source {
            Some(s) => s.clone(),
            None => match self.field("source") {
                Some(v) => v.to_owned(),
                None => self.file.clone(),
            },
        }
    }

    /// The entry on one line.
    pub fn compact(&self) -> (r: String)
        ensures
            r@ == compact_spec(self@),
    {
        let ghost e = self@;
        let mut pairs: Vec<Vec<char>> = Vec::new();
        let n = self.fields.len();
        let mut i: usize = 0;
        while i < n
            invariant
                i <= n,
                n == self.fields@.len(),
                e == self@,
                token_texts(pairs@) =~= field_pairs(e.fields).take(i as int),
            decreases n - i,
        {
            let mut pair = chars_of(self.fields.key_at(i).as_str());
            push_str(&mut pair, "=");
            push_str(&mut pair, self.fields.value_at(i).as_str());
            let ghost old_pairs = pairs@;
            pairs.push(pair);
            assert(e.fields[i as int] == (self.fields@[i as int].0, self.fields@[i as int].1@));
            i += 1;
            assert(token_texts(pairs@) =~= token_texts(old_pairs).push(field_pairs(e.fields)[i - 1]));
        }
        assert(field_pairs(e.fields).take(n as int) =~= field_pairs(e.fields));
        let space = chars_of(" ");
        assert(pairs@.map_values(|p: Vec<char>| p@) == token_texts(pairs@));
        let fields = join_chars(&pairs, &space);
        let mut out: Vec<char> = Vec::new();
        push_str(&mut out, "[");
        let time = self.timestamp.text();
        push_str(&mut out, time.as_str());
        push_str(&mut out, "] ");
        let source = self.source_name();
        push_str(&mut out, source.as_str());
        push_str(&mut out, " ");
        push_str(&mut out, self.level.as_str());
        push_str(&mut out, ": ");
        push_str(&mut out, self.message.as_str());
        if fields.len() > 0 {
            push_str(&mut out, " ");
            push_chars(&mut out, &fields);
        }
        assert(out@ =~= compact_spec(e));
        string_from_chars(out.as_slice())
    }

    /// Whether the entry mentions `keyword`, ASCII case aside, in its message,
    /// its raw line or a field; a blank keyword matches every entry.
    pub fn matches_keyword(&self, keyword: &str) -> (r: bool)
        ensures
            r == keyword_matches(self@, keyword@),
    {
        let ghost e = self@;
        let kw = chars_of(keyword);
        let trimmed = trim_chars(&kw);
        if trimmed.len() == 0 {
            return true;
        }
        let needle = lower_chars(&kw);
        let message = lower_chars(&chars_of(self.message.as_str()));
        if contains_chars(&message, &needle) {
            return true;
        }
        let raw = lower_chars(&chars_of(self.raw.as_str()));
        if contains_chars(&raw, &needle) {
            return true;
        }
        let n = self.fields.len();
        let mut i: usize = 0;
        while i < n
            invariant
                i <= n,
                n == e.fields.len(),
                e == self@,
                needle@ == ascii_lower(keyword@),
                trim(keyword@).len() > 0,
                !contains_seq(ascii_lower(e.message), needle@),
                !contains_seq(ascii_lower(e.raw), needle@),
                forall|j: int|
                    #![trigger e.fields[j]]
                    0 <= j < i ==> !(contains_seq(ascii_lower(e.fields[j].0), needle@)
                        || contains_seq(ascii_lower(e.fields[j].1), needle@)),
            decreases n - i,
        {
            assert(e.fields[i as int] == (self.fields@[i as int].0, self.fields@[i as int].1@));
            let key = lower_chars(&chars_of(self.fields.key_at(i).as_str()));
            if contains_chars(&key, &needle) {
                assert(contains_seq(ascii_lower(e.fields[i as int].0), needle@));
                assert(field_mentions(e.fields, needle@));
                return true;
            }
            let value = lower_chars(&chars_of(self.fields.value_at(i).as_str()));
            if contains_chars(&value, &needle) {
                assert(value@ == ascii_lower(e.fields[i as int].1));
                assert(contains_seq(ascii_lower(e.fields[i as int].1), needle@));
                assert(0 <= i < e.fields.len());
                assert(field_mentions(e.fields, needle@));
                return true;
            }
            i += 1;
        }
        assert(!field_mentions(e.fields, needle@));
        false
    }
}

/// The words of a text, as `split_whitespace` gives them.
pub fn split_words(s: &Vec<char>) -> (r: Vec<Vec<char>>)
    ensures
        token_texts(r@) == words(s@),
{
    let mut done: Vec<Vec<char>> = Vec::new();
    let mut current: Vec<char> = Vec::new();
    let mut i: usize = 0;
    while i < s.len()
        invariant
            i <= s@.len(),
            ({
                let st = words_run(s@.take(i as int));
                &&& token_texts(done@) == st.words
                &&& current@ == st.current
            }),
        decreases s@.len() - i,
    {
        let c = s[i];
        let ghost before_i = s@.take(i as int);
        assert(s@.take(i + 1).drop_last() =~= before_i);
        if is_whitespace(c) {
            if current.len() > 0 {
                let ghost old_done = done@;
                let mut word: Vec<char> = Vec::new();
                std::mem::swap(&mut word, &mut current);
                done.push(word);
                assert(token_texts(done@) =~= token_texts(old_done).push(words_run(before_i).current));
            }
        } else {
            current.push(c);
        }
        i += 1;
    }
    assert(s@.take(s@.len() as int) =~= s@);
    if current.len() > 0 {
        let ghost old_done = done@;
        done.push(current);
        assert(token_texts(done@) =~= token_texts(old_done).push(words_run(s@).current));
    }
    done
}

proof fn lemma_trim_plain(s: Seq<char>)
    requires
        forall|i: int| 0 <= i < s.len() ==> !is_ws(#[trigger] s[i]),
    ensures
        trim(s) == s,
{
    if s.len() > 0 {
        assert(!is_ws(s[0]));
        assert(!is_ws(s.last()));
    }
}

proof fn lemma_upper_plain(s: Seq<char>)
    requires
        forall|i: int| 0 <= i < s.len() ==> !('a' <= #[trigger] s[i] && s[i] <= 'z'),
    ensures
        ascii_upper(s) == s,
{
    assert(ascii_upper(s) =~= s);
}

/// Reading a level's own name gives that level back.
pub proof fn lemma_level_name_round_trip(level: LogLevel)
    ensures
        parse_level(level_name(level)) == Some(level),
{
    reveal_strlit("INFO");
    reveal_strlit("WARN");
    reveal_strlit("WARNING");
    reveal_strlit("ERROR");
    reveal_strlit("ERR");
    reveal_strlit("DEBUG");
    reveal_strlit("TRACE");
    reveal_strlit("UNKNOWN");
    let n = level_name(level);
    lemma_trim_plain(n);
    lemma_upper_plain(n);
    assert(ascii_upper(trim(n)) == n);
    if level != LogLevel::Info {
        assert(n != "INFO"@) by {
            if level == LogLevel::Warn || level == LogLevel::Error || level == LogLevel::Debug
                || level == LogLevel::Trace {
                assert(n[0] != "INFO"@[0] || n[1] != "INFO"@[1]);
            } else {
                assert(n.len() != "INFO"@.len());
            }
        }
    }
    if level != LogLevel::Warn {
        assert(n != "WARN"@ && n != "WARNING"@) by {
            assert(n[0] != 'W');
        }
    }
    if level != LogLevel::Error {
        assert(n != "ERROR"@ && n != "ERR"@) by {
            if level == LogLevel::Info || level == LogLevel::Warn || level == LogLevel::Debug
                || level == LogLevel::Trace {
                assert(n[0] != 'E');
            } else {
                assert(n[0] == 'U');
            }
        }
    }
    if level != LogLevel::Debug {
        assert(n != "DEBUG"@) by {
            assert(n[0] != 'D');
        }
    }
    if level != LogLevel::Trace {
        assert(n != "TRACE"@) by {
            assert(n[0] != 'T');
        }
    }
}

proof fn lemma_split_run_tokens_not_empty(s: Seq<char>)
    ensures
        forall|i: int| 0 <= i < split_run(s).tokens.len() ==> (#[trigger] split_run(s).tokens[i]).len() > 0,
    decreases s.len(),
{
    if s.len() > 0 {
        lemma_split_run_tokens_not_empty(s.drop_last());
    }
}

/// No token of a line is empty.
pub proof fn lemma_tokens_not_empty(s: Seq<char>)
    ensures
        forall|i: int| 0 <= i < split_tokens(s).len() ==> (#[trigger] split_tokens(s)[i]).len() > 0,
{
    lemma_split_run_tokens_not_empty(s);
}

proof fn lemma_split_run_without_quotes(s: Seq<char>)
    requires
        forall|i: int| 0 <= i < s.len() ==> !is_quote(#[trigger] s[i]),
    ensures
        split_run(s).quote is None,
        split_run(s).tokens == words_run(s).words,
        split_run(s).current == words_run(s).current,
    decreases s.len(),
{
    if s.len() > 0 {
        assert forall|i: int| 0 <= i < s.drop_last().len() implies !is_quote(#[trigger] s.drop_last()[i]) by {
            assert(s.drop_last()[i] == s[i]);
        }
        lemma_split_run_without_quotes(s.drop_last());
        assert(!is_quote(s[s.len() - 1]));
    }
}

/// A line without quote chars splits into its white-space separated words,
/// as `split_whitespace` gives them.
pub proof fn lemma_tokens_are_words_without_quotes(s: Seq<char>)
    requires
        forall|i: int| 0 <= i < s.len() ==> !is_quote(#[trigger] s[i]),
    ensures
        split_tokens(s) == words(s),
{
    lemma_split_run_without_quotes(s);
}

/// Unquoting takes away one matching pair of quote chars around a text, or
/// nothing.
pub proof fn lemma_strip_quotes_shape(s: Seq<char>)
    ensures
        strip_quotes_spec(s) == s || (s.len() >= 2 && is_quote(s[0]) && s == seq![s[0]]
            + strip_quotes_spec(s) + seq![s[0]]),
{
    if strip_quotes_spec(s) != s {
        assert(s =~= seq![s[0]] + strip_quotes_spec(s) + seq![s[0]]);
    }
}

/// The tokenizer's state along a text `pre + q + body + q` in which `pre`
/// holds neither white space nor quote chars and `body` does not hold `q`.
proof fn lemma_quoted_run(t: Seq<char>, pre: Seq<char>, q: char, body: Seq<char>, n: int)
    requires
        is_quote(q),
        forall|i: int| 0 <= i < pre.len() ==> !is_ws(#[trigger] pre[i]) && !is_quote(pre[i]),
        forall|i: int| 0 <= i < body.len() ==> #[trigger] body[i] != q,
        t == pre + seq![q] + body + seq![q],
        0 <= n <= t.len(),
    ensures
        split_run(t.take(n)).tokens.len() == 0,
        split_run(t.take(n)).current == t.take(n),
        split_run(t.take(n)).quote == (if pre.len() < n < t.len() {
            Some(q)
        } else {
            None::<char>
        }),
    decreases n,
{
    if n > 0 {
        lemma_quoted_run(t, pre, q, body, n - 1);
        assert(t.take(n).drop_last() =~= t.take(n - 1));
        assert(t.take(n).last() == t[n - 1]);
        if n - 1 < pre.len() {
            assert(t[n - 1] == pre[n - 1]);
        } else if n - 1 == pre.len() {
            assert(t[n - 1] == q);
        } else if n - 1 < t.len() - 1 {
            assert(t[n - 1] == body[n - 2 - pre.len()]);
        } else {
            assert(t[n - 1] == q);
        }
        assert(split_run(t.take(n)).current =~= t.take(n));
    }
}

/// Inside a quoted stretch only the quote char that opened it closes it: a
/// text made of a part without white space or quotes, a quote char, any text
/// without that quote char (white space and the other quote char included),
/// and the same quote char again, is one token.
pub proof fn lemma_quoted_token(pre: Seq<char>, q: char, body: Seq<char>)
    requires
        is_quote(q),
        forall|i: int| 0 <= i < pre.len() ==> !is_ws(#[trigger] pre[i]) && !is_quote(pre[i]),
        forall|i: int| 0 <= i < body.len() ==> #[trigger] body[i] != q,
    ensures
        split_tokens(pre + seq![q] + body + seq![q]) == seq![pre + seq![q] + body + seq![q]],
{
    let t = pre + seq![q] + body + seq![q];
    lemma_quoted_run(t, pre, q, body, t.len() as int);
    assert(t.take(t.len() as int) =~= t);
    assert(split_tokens(t) =~= seq![t]);
}

/// Where a text holds `=`, there is a first one at or after any position
/// before which it holds none.
proof fn lemma_first_eq_found(s: Seq<char>, n: int)
    requires
        0 <= n <= s.len(),
        forall|j: int| 0 <= j < n ==> s[j] != '=',
        exists|i: int| 0 <= i < s.len() && s[i] == '=',
    ensures
        exists|c: int| 0 <= c < s.len() && s[c] == '=' && forall|j: int| 0 <= j < c ==> s[j] != '=',
    decreases s.len() - n,
{
    if n < s.len() && s[n] != '=' {
        lemma_first_eq_found(s, n + 1);
    } else if n == s.len() {
        let i = choose|i: int| 0 <= i < s.len() && s[i] == '=';
        assert(s[i] != '=');
    } else {
        assert(0 <= n < s.len() && s[n] == '=' && forall|j: int| 0 <= j < n ==> s[j] != '=');
    }
}

/// A token splits at its first `=`: for a key without `=`, the key and all
/// that follows the `=`, later `=` included; and whenever a token splits, its
/// key holds no `=` and the token is the key, `=` and the value.
pub proof fn lemma_split_at_first_eq(k: Seq<char>, v: Seq<char>, s: Seq<char>)
    ensures
        (forall|i: int| 0 <= i < k.len() ==> #[trigger] k[i] != '=') ==> split_once_eq(k + seq!['='] + v)
            == Some((k, v)),
        split_once_eq(s) matches Some((a, b)) ==> (forall|i: int| 0 <= i < a.len() ==> #[trigger] a[i] != '=')
            && s == a + seq!['='] + b,
{
    let t = k + seq!['='] + v;
    if forall|i: int| 0 <= i < k.len() ==> #[trigger] k[i] != '=' {
        let j = k.len() as int;
        assert(0 <= j < t.len() && t[j] == '=' && forall|m: int| 0 <= m < j ==> t[m] != '=') by {
            assert forall|m: int| 0 <= m < j implies t[m] != '=' by {
                assert(t[m] == k[m]);
            }
        }
        let c = choose|i: int| 0 <= i < t.len() && t[i] == '=' && forall|m: int| 0 <= m < i ==> t[m] != '=';
        assert(c == j) by {
            if c < j {
                assert(t[c] == k[c]);
            } else if c > j {
                assert(t[j] == '=');
            }
        }
        assert(t.subrange(0, j) =~= k);
        assert(t.subrange(j + 1, t.len() as int) =~= v);
    }
    if split_once_eq(s) is Some {
        lemma_first_eq_found(s, 0);
        let c = first_eq(s)->0;
        let a = s.subrange(0, c);
        let b = s.subrange(c + 1, s.len() as int);
        assert forall|i: int| 0 <= i < a.len() implies #[trigger] a[i] != '=' by {
            assert(a[i] == s[i]);
        }
        assert(s =~= a + seq!['='] + b);
    }
}

/// A non-blank keyword matches an entry whose raw line, message, or some
/// field's key or value holds it, ASCII case aside; a blank keyword matches
/// every entry; and an entry matches no other keyword.
pub proof fn lemma_keyword_sources(e: EntryView, k: Seq<char>)
    ensures
        trim(k).len() == 0 ==> keyword_matches(e, k),
        contains_seq(ascii_lower(e.raw), ascii_lower(k)) ==> keyword_matches(e, k),
        contains_seq(ascii_lower(e.message), ascii_lower(k)) ==> keyword_matches(e, k),
        forall|i: int|
            0 <= i < e.fields.len() && (contains_seq(ascii_lower((#[trigger] e.fields[i]).0), ascii_lower(k))
                || contains_seq(ascii_lower(e.fields[i].1), ascii_lower(k))) ==> keyword_matches(e, k),
        keyword_matches(e, k) ==> trim(k).len() == 0 || contains_seq(ascii_lower(e.raw), ascii_lower(k))
            || contains_seq(ascii_lower(e.message), ascii_lower(k)) || exists|i: int|
            0 <= i < e.fields.len() && (contains_seq(ascii_lower((#[trigger] e.fields[i]).0), ascii_lower(k))
                || contains_seq(ascii_lower(e.fields[i].1), ascii_lower(k))),
{
}

/// An entry read from a line keeps the trimmed line, so any non-blank keyword
/// that the line holds, ASCII case aside, matches the entry.
pub proof fn lemma_keyword_in_line_matches(raw: Seq<char>, now: (i64, u32), file: Seq<char>, line: u64, k: Seq<char>)
    requires
        parse_line_spec(raw, now, file, line) is Ok,
        contains_seq(ascii_lower(trim(raw)), ascii_lower(k)),
    ensures
        keyword_matches(parse_line_spec(raw, now, file, line)->Ok_0, k),
        parse_line_spec(raw, now, file, line)->Ok_0.raw == trim(raw),
{
}

/// Level names are read without regard to ASCII case: a text names the same
/// level, or none, whether written in lower or upper case.
pub proof fn lemma_level_case_blind(s: Seq<char>)
    ensures
        parse_level(ascii_lower(s)) == parse_level(s),
        parse_level(ascii_upper(s)) == parse_level(s),
{
    lemma_case_and_trim(s);
    lemma_case_and_trim(trim(s));
}

} // verus!
