# samurai

The supervision core for long-running coding-agent sessions, written in Verus.

A supervised session works on a run: a list of epics and issues in one project. When
its context fills up it is asked to hand off to a successor; when the account's
allowance runs out it is asked to park until the allowance is back. Both requests are
typed into the session's terminal, and the session answers in marker tags. The library
decides what is typed, when, and what each answer means.

- `prompts`, `prompt_text`, `marker_values`, `run_refs`, `handoff_file`: the texts that
  are typed, the values that are expected back, and the paths that they name.
- `ladder`, `pending`, `injector`: one instruction's way from idle signal to
  acknowledgement to validated handoff, with its one retry and its one correction.
- `validation`: the two checks on a handoff.
- `parker`: the sweep that parks every session, its resume timers, wind-downs and
  releases.
- `progress`: the circuit breaker that parks a run which makes no progress.
- `journal`, `harvest`, `parts`, `rewrite`: the friction journal, its harvests, and the
  rewrites of its file that lose no append.
- `latches`, `pr_runs`: what outlives a restart.
- `*_laws`: what holds of several of these together.
- `text`, `words`, `decimal`, `clock`, `paths`, `table`, `session_map`, `run_map`, `runs`,
  `session`, `audit`: what the others stand on.

`app/` is the part that reads, writes, waits and locks.
