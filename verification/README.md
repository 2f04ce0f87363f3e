# skedgy

A task scheduler: tasks run at a point in time, after a delay, or on a cron
pattern, and can be removed or replaced while the scheduler runs.

The scheduling logic lives in `src/` and is verified with Verus:

- `table` keeps one-time tasks ordered by due time (`Schedules`).
- `scheduler` is the scheduler as a state machine (`SkedgyScheduler`):
  commands in, batches of due tasks out, and a plan for how long to sleep.
- `cron_schedule` wraps the `cron` crate: a pattern's next run and its runs
  inside a window.
- `state` takes snapshots of the scheduled tasks and loads them back.
- `builder` assembles tasks and checks them; `task_macro` holds the
  decisions of the `#[task]` attribute.
- `laws` states what holds across operations: removal, re-adding,
  updating cron tasks, batches, and the snapshot round trip.

`app/` is the asynchronous side around it: the `Skedgy` handle that sends
commands over a channel, the tokio loop that sleeps and runs batches, the
dependency store, the `#[task]` code generation and serde helpers.

Times are milliseconds since the Unix epoch (UTC); delays are milliseconds.
