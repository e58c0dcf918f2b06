# taskboard

The logic of a Kanban-style task board, written in Verus. The functions in
`src/` carry `requires`/`ensures` contracts that Verus proves, apart from a
few small helpers whose callers are proved instead, and the trusted wrappers
around outside crates described below.

## Layout

- `src/` — the verified library.
  - `settings`, `series`, `task`, `project`, `layout`: the data model and its
    validation (priorities, statuses, tier rules, recurrence frequencies,
    stat layouts).
  - `dates`, `recurrence`: calendar arithmetic on day numbers and the
    occurrence dates of recurring series (weekly, monthly, every N days),
    with laws on generation windows.
  - `project_tree`: parents, ancestors, descendants and cycle detection.
  - `status_tier`, `status_stats`: project health tiers, estimates, tracked
    time and completion counts.
  - `commands`: the planning step behind each command — what to create,
    change or delete given the current tasks, projects, series and settings.
  - `storage`, `status_history`: task listing order, legacy-file migrations
    and the seeding of the status history.
  - `text`, `clone`, `ids`: string helpers, exact copies, fresh ids and the
    clock.
- `app/` — plain Rust around the library: file and SQLite storage, serde
  records of the library's types, and the command handlers that load state,
  call the library's plans and save the results.
- `tests/` — tests of the library on concrete values.

Outside crates called from `src/` (chrono, uuid, serde_yaml, serde_json) sit
behind small trusted wrappers whose doc comments say what is assumed of them.
