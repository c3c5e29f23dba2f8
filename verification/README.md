# chola-controller (verified core)

The decision logic of the Chola CI controller, written in Verus and proved
against its contracts:

- `query/` — ChQL, the build search language: lexer, parser and the compiler
  to parameterised SQL (no user text ever reaches the SQL; one placeholder
  per bind).
- `job_group_registry`, `job_registry`, `stages` — builds (job groups) and
  their jobs: state transitions, completion, worker death and migration,
  stage submission, reservation timeouts, cancellation.
- `dag` — stage dependency graphs: topological order and cycle detection.
- `log_aggregator` — per-job log streams with offset deduplication and a
  bounded buffer.
- `rate_limit`, `csrf`, `auth`, `crypto` — request limiting (the login and
  webhook limits and their 429 answer), the cross-site
  check, credential routing, webhook signatures and generated keys.
- `api/` — validation of request bodies and settings, date parsing,
  analytics windows, webhook payloads, badges.
- `reservation` — reserving a worker for a new build, as a state machine
  over the waits (connected workers, the store lock on each candidate, the
  repository lookup), and the orphaned-lock check after a restart.
- `reaper` — the periodic passes: a worker that stopped beating (its jobs
  lost, its idle groups failed) and the reaper of idle reservations.
- `monitoring`, `scheduler`, `retention`, `redis_store`, `reporting` —
  metrics text, worker selection, retention ticks, store keys and
  status-report bookkeeping.

`app/` is a small command-line front end over the library, with the loops
that drive the reservation machine and the clean-up passes. Tests live in
`tests/`.
