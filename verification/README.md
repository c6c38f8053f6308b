# usage_stats

The verified core of a desktop usage dashboard for AI coding agents: it reads
the usage that Cursor, Codex, Antigravity, DSH, Kimi and Grok leave behind,
attributes Cursor's account-wide CSV to the requests made on this machine,
and answers the queries the dashboard asks.

- `src/` is the library, written in Verus: every function carries a contract
  and is proved against it. Date parsing is chrono's, behind the small set of
  trusted wrappers in `src/dates.rs`; JSON text is parsed by serde_json
  behind the two wrappers of `src/json_field.rs` (parse a document, read the
  field a JSON pointer finds): the agent log lines, the hook log, the Cursor
  usage summary, the Antigravity replies, `hooks.json` and the Kimi and Grok
  session files are read through them (files of a fixed shape are read by
  serde into `app/`'s copies of the library types); zstd decoding of DSH logs sits behind one wrapper in
  `src/usage_lines.rs`; `text::to_lowercase` and
  `text::push_char` wrap the standard library.
- `tests/` runs the library on concrete inputs.
- `app/` is ordinary Rust around the library: files, HTTP plumbing,
  serialisation and the local TrafficMonitor endpoint. It hands the library plain values and
  writes back what the library decides.

Main modules: `cursor_csv` (the Cursor CSV source, its attribution verdicts
and preview), `attribution` (matching CSV rows to local hook events),
`hooks` (the hook log: events, tidying, backups), `sync` (fetch windows and
merging a fetch into the cache), `dedup`, `record_queries`, `data_source`,
`codex` / `codex_log`, `antigravity` / `antigravity_usage`, `usage_lines`,
`byok`, `session_meta`, `status`, `sessions` (the session list, cached
titles and merged session totals) and `loading` (which sources start-up
opens).
