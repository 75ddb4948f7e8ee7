# presentation

A universal renderer for structured command-line output. A producer writes a
payload (`{"schema": ..., "data": [...]}`) to stdin; `presentation` draws it as
a table, dashboard, chart, timeline, topology map, HTML or Markdown report, or
a plain-language explanation, picking the mode from the payload's schema when
none is given.

## Layout

- `src/` — the library, verified with Verus. Every renderer's output is
  specified as a function of the records, the options (`--sort`, `--filter`,
  `--width`, color) and, where floating-point scaling is involved, the
  integers and texts that scaling produced.
  - `json.rs`, `text.rs`, `strmap.rs` — the data model and text utilities.
  - `render/` — the row pipeline (`rows.rs`) and one module per mode.
  - `registry.rs` — built-in and user-registered schemas, `register` and
    `validate`.
  - `mode.rs`, `session.rs`, `export.rs`, `term.rs` — mode selection,
    `--filter`/`--live` decisions, `--export` containers, terminal colors.
- `app/main.rs` — the command: arguments, stdin/stdout and files, the
  environment, JSON parsing and serialization, and the floating-point
  scaling of gauges, charts and numeric summaries.
- `tests/` — tests of the library on concrete payloads.
