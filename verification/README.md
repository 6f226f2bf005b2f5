# tracking

A habit and learning tracker's core, verified with Verus: scoring days,
keeping streaks and weekly quotas, summarising a finished run, planning
reminders, turning a source text into a calibrated program, and the checks
the HTTP API and the background worker apply to what they read.

- `src/` is the verified library. Each public function states its result in
  its `ensures`, and the laws that span several functions are public proof
  functions (`lemma_*`) beside the code they speak of. Calls into `chrono`,
  `chrono-tz`, `sha2` and `uuid` go through a few trusted items, each with a
  doc comment saying what is assumed of it.
- `tests/` runs the library on concrete values.
- `app/` is the program around it: `serve` starts the HTTP API (actix-web),
  any other argument runs the worker's jobs (`materialise`, `finalise`,
  `ingest`, `notify`, `run-once`). It reads Postgres through sqlx, calls the
  model provider through reqwest, and holds what depends on floating point.
