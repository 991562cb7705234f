# logstream

A realtime streaming log analyser: it follows growing log files, parses lines
of the form `[TIME] LEVEL message key=value`, filters them by level, keyword
and source, runs counting, warning and ignoring rules with sliding time
windows, keeps running statistics, and shows them in a terminal view, on the
console and in report files. Analyses are kept as named sessions.

The library in `src/` is written in Verus, and its functions carry contracts
that Verus proves:

- `text`: character helpers (white space, ASCII case, search, decimal digits).
- `timestamp`: instants in time; calendar work is done by chrono.
- `strmap`: maps from text keys kept in ascending key order.
- `log_entry`: levels, entries and the line parser.
- `config`: settings, their defaults, and how a settings file is found and
  recognised.
- `rules`: the rule engine with its sliding windows and alerts.
- `stats`: running statistics, snapshots and summaries.
- `report`: the text report of a snapshot.
- `pipeline`: what a worker does with each line read.
- `tail`: what a reader following a file decides.
- `session`: sessions, their ids and where they are stored.
- `ui`: the state of the terminal view and what each pane shows.

`app/` is the command-line program around the library: argument handling,
file and terminal I/O, the tokio tasks that read files and run workers, and
the serde forms of settings and sessions.

`tests/` runs the library on concrete values.
