# clawhive

The verified core of the ClawHive / claw10 agent platform, written in Verus.

- `src/` is the library. Verus checks all of it: cron parsing and the
  next-fire-time search, agent schedules, the key-value store and the
  key-ordered table, the audit log, the gateway's channels, sessions and
  dispatch plans, the event bus's subject matching and subscriptions,
  permissions and spawn limits, the tool registry, the desktop tools' command
  lines and output parsers, self-correction verdicts, and the TOON context
  encoding. Most functions state what they return in a contract that Verus
  proves; some small helpers state nothing beyond their types. The calls into
  outside crates (chrono, chrono-tz, uuid, base64, serde_json, std's case
  mapping) go through small trusted wrappers: Verus takes their contracts as
  given, and each says in its doc comment what it claims of the crate.
- `tests/` runs the library on concrete values.
- `app/` is the program around it. Its `main` serves the HTTP control API
  (axum). Beside it stand the runtime pieces the library's decisions are
  carried out by, for an agent runtime to call: the tools' process and Chrome
  plumbing (tokio, tokio-tungstenite), the gateway's message dispatch and
  the models.dev catalog download (reqwest), and the Telegram poller loop.
