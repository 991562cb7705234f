//! The text report of a statistics snapshot.
use vstd::prelude::*;
use crate::log_entry::{compact_spec, EntryView};
use crate::rules::{alert_line, AlertView};
use crate::stats::{labelled, summary_spec, string_texts, SnapshotView, StatsSnapshot};
use crate::text::{decimal, push_decimal, push_str, string_from_chars};

verus! {

/// The lines, each followed by a line break.
pub open spec fn text_lines(ls: Seq<Seq<char>>) -> Seq<char>
    decreases ls.len(),
{
    if ls.len() == 0 {
        Seq::empty()
    } else {
        text_lines(ls.drop_last()) + ls.last() + "\n"@
    }
}

/// Up to `n` items, newest (last) first.
pub open spec fn newest_first<T>(s: Seq<T>, n: nat) -> Seq<T> {
    let k = if s.len() < n {
        s.len()
    } else {
        n
    };
    Seq::new(k, |j: int| s[s.len() - 1 - j])
}

/// The report: a title, the summary, the counts of rule matches, and the 50
/// newest alerts and entries, newest first, each on a line indented by two spaces.
pub open spec fn report_spec(s: SnapshotView) -> Seq<char> {
    "Logstream report\n"@ + "================\n\n"@ + text_lines(summary_spec(s)) + "\nRule counters:\n"@
        + text_lines(
        s.rule_counts.map_values(|c: (Seq<char>, usize)| "  "@ + labelled(c.0, decimal(c.1 as nat))),
    ) + "\nRecent alerts:\n"@ + text_lines(
        newest_first(s.alerts, 50).map_values(|a: (AlertView, (i64, u32))| "  "@ + alert_line(a.0, a.1)),
    ) + "\nRecent entries:\n"@ + text_lines(
        newest_first(s.recent_entries, 50).map_values(|e: EntryView| "  "@ + compact_spec(e)),
    )
}

/// Appends the lines, each followed by a line break.
fn push_lines(out: &mut Vec<char>, ls: &Vec<String>)
    ensures
        final(out)@ == old(out)@ + text_lines(string_texts(ls@)),
{
    let mut i: usize = 0;
    while i < ls.len()
        invariant
            i <= ls@.len(),
            out@ == old(out)@ + text_lines(string_texts(ls@).take(i as int)),
        decreases ls@.len() - i,
    {
        push_str(out, ls[i].as_str());
        push_str(out, "\n");
        i += 1;
        assert(string_texts(ls@).take(i as int).drop_last() =~= string_texts(ls@).take(i - 1));
        assert(out@ =~= old(out)@ + text_lines(string_texts(ls@).take(i as int)));
    }
    assert(string_texts(ls@).take(ls@.len() as int) =~= string_texts(ls@));
}

/// The report of a snapshot.
pub fn render_report(snapshot: &StatsSnapshot) -> (r: String)
    ensures
        r@ == report_spec(snapshot@),
{
    let ghost s = snapshot@;
    let mut out: Vec<char> = Vec::new();
    push_str(&mut out, "Logstream report\n");
    push_str(&mut out, "================\n\n");
    let summary = snapshot.summary_lines();
    push_lines(&mut out, &summary);
    push_str(&mut out, "\nRule counters:\n");
    let ghost counter_lines = s.rule_counts.map_values(
        |c: (Seq<char>, usize)| "  "@ + labelled(c.0, decimal(c.1 as nat)),
    );
    let ghost base = out@;
    let n = snapshot.rule_counts.len();
    let mut i: usize = 0;
    while i < n
        invariant
            i <= n,
            n == s.rule_counts.len(),
            s == snapshot@,
            counter_lines == s.rule_counts.map_values(
                |c: (Seq<char>, usize)| "  "@ + labelled(c.0, decimal(c.1 as nat)),
            ),
            out@ == base + text_lines(counter_lines.take(i as int)),
        decreases n - i,
    {
        let ghost before = out@;
        push_str(&mut out, "  ");
        push_str(&mut out, snapshot.rule_counts.key_at(i).as_str());
        push_str(&mut out, ": ");
        push_decimal(&mut out, *snapshot.rule_counts.value_at(i) as u64);
        push_str(&mut out, "\n");
        assert(out@ =~= before + counter_lines[i as int] + "\n"@);
        i += 1;
        assert(counter_lines.take(i as int).drop_last() =~= counter_lines.take(i - 1));
        assert(out@ =~= base + text_lines(counter_lines.take(i as int)));
    }
    assert(counter_lines.take(n as int) =~= counter_lines);
    push_str(&mut out, "\nRecent alerts:\n");
    let ghost alert_lines = newest_first(s.alerts, 50).map_values(
        |a: (AlertView, (i64, u32))| "  "@ + alert_line(a.0, a.1),
    );
    let ghost base2 = out@;
    let total = snapshot.alerts.len();
    let shown = if total < 50 {
        total
    } else {
        50
    };
    let mut j: usize = 0;
    while j < shown
        invariant
            j <= shown,
            total == s.alerts.len(),
            shown == if total < 50 {
                total
            } else {
                50
            },
            s == snapshot@,
            alert_lines == newest_first(s.alerts, 50).map_values(
                |a: (AlertView, (i64, u32))| "  "@ + alert_line(a.0, a.1),
            ),
            out@ == base2 + text_lines(alert_lines.take(j as int)),
        decreases shown - j,
    {
        let a = &snapshot.alerts[total - 1 - j];
        assert(s.alerts[total - 1 - j] == a.record());
        let line = a.compact();
        push_str(&mut out, "  ");
        push_str(&mut out, line.as_str());
        push_str(&mut out, "\n");
        j += 1;
        assert(alert_lines.take(j as int).drop_last() =~= alert_lines.take(j - 1));
        assert(alert_lines[j - 1] == "  "@ + line@);
        assert(out@ =~= base2 + text_lines(alert_lines.take(j as int)));
    }
    assert(alert_lines.take(shown as int) =~= alert_lines);
    push_str(&mut out, "\nRecent entries:\n");
    let ghost entry_lines = newest_first(s.recent_entries, 50).map_values(
        |e: EntryView| "  "@ + compact_spec(e),
    );
    let ghost base3 = out@;
    let total_e = snapshot.recent_entries.len();
    let shown_e = if total_e < 50 {
        total_e
    } else {
        50
    };
    let mut k: usize = 0;
    while k < shown_e
        invariant
            k <= shown_e,
            total_e == s.recent_entries.len(),
            shown_e == if total_e < 50 {
                total_e
            } else {
                50
            },
            s == snapshot@,
            entry_lines == newest_first(s.recent_entries, 50).map_values(
                |e: EntryView| "  "@ + compact_spec(e),
            ),
            out@ == base3 + text_lines(entry_lines.take(k as int)),
        decreases shown_e - k,
    {
        let e = &snapshot.recent_entries[total_e - 1 - k];
        assert(s.recent_entries[total_e - 1 - k] == e@);
        let line = e.compact();
        push_str(&mut out, "  ");
        push_str(&mut out, line.as_str());
        push_str(&mut out, "\n");
        k += 1;
        assert(entry_lines.take(k as int).drop_last() =~= entry_lines.take(k - 1));
        assert(entry_lines[k - 1] == "  "@ + line@);
        assert(out@ =~= base3 + text_lines(entry_lines.take(k as int)));
    }
    assert(entry_lines.take(shown_e as int) =~= entry_lines);
    assert(out@ =~= report_spec(s));
    string_from_chars(out.as_slice())
}

} // verus!
