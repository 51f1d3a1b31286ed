# kickbacks-kit

Read-only companion tools for the kickbacks.ai extension, as a verified library
with a thin program around it.

* `src/` is the library: the ad archive and its queries, the capture pass, the
  status feed and its fetch orchestration, the status line, reports and exports,
  and the state and the drawing of the dashboard. It is written in Verus, and the
  contracts are proved. The exceptions are the few functions that call an outside
  crate or std: Verus takes their contracts as they are written.
* `app/` is the program `kb`: the command line, files, the network, SQLite and
  the terminal.
* `tests/` runs the library.

The library computes on plain values. Instants come in as epoch milliseconds, a
log as its text, a response as its decoded fields. What only an outside crate can
tell (a digest, a parsed timestamp, a JSON document, the local time zone, a solved
layout) is called in a small function whose contract says what is relied on.

Beyond the contracts, the public proof functions state what holds of the library
as a whole: that captures are idempotent and never double count, that a failed or
skipped source keeps its cached items, that text from outside can neither emit a
terminal escape nor break out of a CSV field, a table cell or a page, that the ad
always leads the status line, and that cancelling a theme preview leaves
everything as it was.
