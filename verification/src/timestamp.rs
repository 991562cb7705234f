//! Instants in time, held as seconds since the Unix epoch and nanoseconds past
//! them, with the calendar work left to chrono.
use vstd::prelude::*;
use chrono::{DateTime, TimeDelta, Utc};
use std::time::{SystemTime, UNIX_EPOCH};

verus! {

/// Whether chrono's `DateTime::<Utc>::from_timestamp(secs, nanos)` gives an
/// instant: the seconds lie from 1 January of 262144 BCE to 31 December of
/// 262142 CE, the years chrono holds, the nanoseconds are below two seconds,
/// and they reach past one second only in the last second of a minute (a leap
/// second).
pub open spec fn instant_exists(secs: i64, nanos: u32) -> bool {
    &&& -8_334_601_228_800 <= secs <= 8_210_266_876_799
    &&& nanos < 2_000_000_000
    &&& (nanos >= 1_000_000_000 ==> (secs as int) % 60 == 59)
}

/// The instant that chrono's `DateTime::parse_from_rfc3339` reads from a text,
/// taken to UTC, or `None` where chrono refuses the text.
pub uninterp spec fn rfc3339_instant(s: Seq<char>) -> Option<(i64, u32)>;

/// The text that chrono's `Display` for `DateTime<Utc>` writes for an instant.
pub uninterp spec fn instant_text(secs: i64, nanos: u32) -> Seq<char>;

/// The parts of the instant `delta` seconds before `(secs, nanos)`, as chrono
/// counts: outside a leap second the seconds go back by `delta` and the
/// nanoseconds stay; within a leap second (nanoseconds of a second or more)
/// the nanoseconds drop by a second, and going back the leap second counts as
/// the second after it.
pub open spec fn minus_seconds_parts(secs: i64, nanos: u32, delta: i64) -> (int, int) {
    if nanos < 1_000_000_000 || delta == 0 {
        (secs - delta, nanos as int)
    } else if delta > 0 {
        (secs + 1 - delta, nanos - 1_000_000_000)
    } else {
        (secs - delta, nanos - 1_000_000_000)
    }
}

/// What chrono gives for an instant less a number of seconds
/// (`TimeDelta::try_seconds` and `checked_sub_signed`): `None` where the delta
/// lies beyond `i64::MAX / 1000` seconds either way or the instant found lies
/// outside the years chrono holds.
pub open spec fn instant_minus_seconds(secs: i64, nanos: u32, delta: i64) -> Option<(i64, u32)> {
    let (s, n) = minus_seconds_parts(secs, nanos, delta);
    if -(i64::MAX / 1000) <= delta <= i64::MAX / 1000 && i64::MIN <= s <= i64::MAX && 0 <= n
        <= u32::MAX && instant_exists(s as i64, n as u32) {
        Some((s as i64, n as u32))
    } else {
        None
    }
}

/// An instant: whole seconds since 1970-01-01T00:00:00Z and the nanoseconds past
/// them (beyond 999,999,999 only within a leap second).
#[derive(Clone, Copy, Debug, PartialEq, Eq, Structural)]
pub struct Timestamp {
    secs: i64,
    nanos: u32,
}

impl View for Timestamp {
    type V = (i64, u32);

    closed spec fn view(&self) -> (i64, u32) {
        (self.secs, self.nanos)
    }
}

/// Whether instant `a` comes strictly before instant `b`; this is the order of
/// chrono's `DateTime`, which compares the day and then the time within it.
pub open spec fn before(a: (i64, u32), b: (i64, u32)) -> bool {
    a.0 < b.0 || (a.0 == b.0 && a.1 < b.1)
}

/// Whether an instant lies at or after the Unix epoch, with fewer than a second
/// of nanoseconds past its whole seconds: what a reading of the system clock gives.
pub open spec fn at_or_after_epoch(t: (i64, u32)) -> bool {
    t.0 >= 0 && t.1 < 1_000_000_000
}

/// The largest whole seconds of an instant in the year 9999, well within the
/// range of years chrono holds (about 262,000 either side of year 0).
pub open spec fn year_9999_end() -> i64 {
    253_402_300_799
}

/// Asks chrono whether the parts name an instant, by `DateTime::from_timestamp`;
/// where it does, the instant is made of the same parts.
#[verifier::external_body]
fn chrono_from_timestamp(secs: i64, nanos: u32) -> (r: Option<Timestamp>)
    ensures
        r is Some <==> instant_exists(secs, nanos),
        r matches Some(t) ==> t@ == (secs, nanos),
{
    match DateTime::from_timestamp(secs, nanos) {
        Some(_) => Some(Timestamp { secs, nanos }),
        None => None,
    }
}

/// Reads an RFC 3339 date and time with chrono and takes it to UTC.
#[verifier::external_body]
fn chrono_parse_rfc3339(s: &str) -> (r: Option<Timestamp>)
    ensures
        match r {
            Some(t) => rfc3339_instant(s@) == Some(t@),
            None => rfc3339_instant(s@) is None,
        },
{
    match DateTime::parse_from_rfc3339(s) {
        Ok(dt) => {
            let utc = dt.with_timezone(&Utc);
            Some(Timestamp { secs: utc.timestamp(), nanos: utc.timestamp_subsec_nanos() })
        },
        Err(_) => None,
    }
}

#[verifier::external_type_specification]
#[verifier::external_body]
pub struct ExSystemTime(SystemTime);

/// A reading of the system clock, by `std::time::SystemTime::now`; it says
/// nothing of which time comes back.
#[verifier::external_body]
fn system_time_now() -> SystemTime {
    SystemTime::now()
}

/// The whole seconds and the nanoseconds of a system time since the Unix epoch,
/// by `SystemTime::duration_since(UNIX_EPOCH)`; `None` where the time lies
/// before the epoch. As `Duration::subsec_nanos` documents, the nanoseconds are
/// below one second. Which values come back for which time is left unsaid: a
/// system time is opaque here.
#[verifier::external_body]
fn std_since_epoch(t: SystemTime) -> (r: Option<(u64, u32)>)
    ensures
        r matches Some(p) ==> p.1 < 1_000_000_000,
{
    match t.duration_since(UNIX_EPOCH) {
        Ok(d) => Some((d.as_secs(), d.subsec_nanos())),
        Err(_) => None,
    }
}

/// The text of chrono's `Display` for `DateTime<Utc>`.
#[verifier::external_body]
fn chrono_text(t: Timestamp) -> (r: String)
    ensures
        r@ == instant_text(t@.0, t@.1),
{
    DateTime::from_timestamp(t.secs, t.nanos).unwrap().to_string()
}

/// chrono's `TimeDelta::try_seconds(delta)` subtracted with `checked_sub_signed`,
/// as `instant_minus_seconds` states it: `try_seconds` refuses a delta beyond
/// `i64::MAX / 1000` seconds either way, `NaiveTime::overflowing_add_signed`
/// moves the time of day by whole seconds (leaving a leap second as its source
/// shows), and the date step refuses a date outside chrono's years.
#[verifier::external_body]
fn chrono_minus_seconds(t: Timestamp, delta: i64) -> (r: Option<Timestamp>)
    ensures
        match r {
            Some(u) => instant_minus_seconds(t@.0, t@.1, delta) == Some(u@),
            None => instant_minus_seconds(t@.0, t@.1, delta) is None,
        },
        delta > i64::MAX / 1000 || delta < -(i64::MAX / 1000) ==> r is None,
{
    match TimeDelta::try_seconds(delta) {
        Some(d) => match DateTime::from_timestamp(t.secs, t.nanos).unwrap().checked_sub_signed(d) {
            Some(u) => Some(Timestamp { secs: u.timestamp(), nanos: u.timestamp_subsec_nanos() }),
            None => None,
        },
        None => None,
    }
}

impl Timestamp {
    /// Whether the parts stand for an instant that chrono can hold.
    #[verifier::type_invariant]
    spec fn exists_in_chrono(self) -> bool {
        instant_exists(self.secs, self.nanos)
    }

    /// The instant `secs` seconds and `nanos` nanoseconds after the Unix epoch,
    /// if chrono can hold it; it can for every time from the epoch to the end
    /// of the year 9999.
    pub fn from_unix(secs: i64, nanos: u32) -> (r: Option<Timestamp>)
        ensures
            r is Some <==> instant_exists(secs, nanos),
            r matches Some(t) ==> t@ == (secs, nanos),
            0 <= secs <= year_9999_end() && nanos < 1_000_000_000 ==> r is Some,
    {
        chrono_from_timestamp(secs, nanos)
    }

    /// The instant an RFC 3339 text names, taken to UTC.
    pub fn parse_rfc3339(s: &str) -> (r: Option<Timestamp>)
        ensures
            match r {
                Some(t) => rfc3339_instant(s@) == Some(t@),
                None => rfc3339_instant(s@) is None,
            },
    {
        chrono_parse_rfc3339(s)
    }

    /// The current time: some instant at or after the Unix epoch, with fewer
    /// than a second of nanoseconds past its whole seconds; `None` where the
    /// system clock is set before the epoch or past the instants chrono holds.
    pub fn now() -> (r: Option<Timestamp>)
        ensures
            r matches Some(t) ==> at_or_after_epoch(t@),
    {
        match std_since_epoch(system_time_now()) {
            Some((secs, nanos)) => {
                if secs > 9_223_372_036_854_775_807u64 {
                    None
                } else {
                    Timestamp::from_unix(secs as i64, nanos)
                }
            },
            None => None,
        }
    }

    /// The Unix epoch, 1970-01-01 00:00:00 UTC.
    pub fn epoch() -> (r: Timestamp)
        ensures
            r@ == (0i64, 0u32),
    {
        Timestamp::from_unix(0, 0).unwrap()
    }

    /// The current time, or `fallback` where the clock cannot be read.
    pub fn now_or(fallback: Timestamp) -> (r: Timestamp)
        ensures
            r == fallback || at_or_after_epoch(r@),
    {
        match Timestamp::now() {
            Some(t) => t,
            None => fallback,
        }
    }

    /// Whole seconds since the Unix epoch.
    pub fn unix_seconds(&self) -> (r: i64)
        ensures
            r == self@.0,
    {
        self.secs
    }

    /// Nanoseconds past the whole second.
    pub fn subsec_nanos(&self) -> (r: u32)
        ensures
            r == self@.1,
    {
        self.nanos
    }

    /// The instant as chrono writes it, such as `2024-01-01 00:00:00 UTC`.
    pub fn text(&self) -> (r: String)
        ensures
            r@ == instant_text(self@.0, self@.1),
    {
        chrono_text(*self)
    }

    /// The instant `delta` seconds earlier, or `None` where chrono refuses it.
    pub fn minus_seconds(&self, delta: i64) -> (r: Option<Timestamp>)
        ensures
            match r {
                Some(u) => instant_minus_seconds(self@.0, self@.1, delta) == Some(u@),
                None => instant_minus_seconds(self@.0, self@.1, delta) is None,
            },
            delta > i64::MAX / 1000 || delta < -(i64::MAX / 1000) ==> r is None,
    {
        chrono_minus_seconds(*self, delta)
    }

    /// Whether this instant comes strictly before `other`.
    pub fn is_before(&self, other: &Timestamp) -> (r: bool)
        ensures
            r == before(self@, other@),
    {
        self.secs < other.secs || (self.secs == other.secs && self.nanos < other.nanos)
    }
}

} // verus!
