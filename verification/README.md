# peisear_web

The logic of the peisear web layer, written in Verus and proved against its
contracts.

- `src/` — the verified library:
  - `changelog`, `dec_007`, `js_scan`, `prose_scan`, `source_scans`: the
    repository policy scans (changelog series and links, the DEC-007 command
    block against CI, hard-coded prose in scripts and markup, banned
    idioms), each a function from file contents to findings.
  - `handlers`: the request side — query-string encoding (with its
    round-trip law), form parsing and validation, the calendar windows and
    their day buckets, search windows and the typeahead, sprint planning,
    team membership rules, notification preferences, burnout signals.
  - `components`: what the pages compute before rendering — dashboard
    figures and callouts, links, board columns, block times.
  - `error`: statuses, wire codes and the optimistic-lock check.
  - `text`: the string toolkit the rest is written with (trimming, lines,
    searching, decimal numbers, text order), each against its `std`
    meaning.
- `tests/` — the scenarios, run against the compiled library with the real
  `chrono` linked.
- `app/` — a command-line front: `check <repo root>` reads the repository
  and runs the scans; without arguments it prints the configuration read
  from the environment.
