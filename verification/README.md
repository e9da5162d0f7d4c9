# herdr

The daemon-side rules of the herdr terminal multiplexer for native agent
providers, receipted agent startup, live handoff metadata and the
orchestration sidebar, written in Verus: each public function states what it
returns or changes, and Verus proves it.

## Layout

- `src/` — the verified library.
  - `text`, `keyed`: characters and string-keyed tables, with their models.
  - `metadata_tokens`, `handoff_runtime`: workspace metadata tokens with
    expiry, per-source sequence numbers, and their transfer across a live
    server handoff.
  - `terminal_id`, `layout`: terminal identities and pane ids.
  - `provider_agents`, `agent_provider`: validation of provider snapshots and
    the provider registry (replace, clear, get, focus).
  - `orchestration`, `coverage`: the rows of the orchestration sidebar, and
    the proof that they show every agent of an open run, and every agent of
    no run, exactly once.
  - `startup`, `startup_script`: receipted startup tickets (prepare, inspect,
    launch, cleanup) decided from what the caller observed, and the text of
    the single-use launch scripts.
- `tests/` — the library's tests.
- `app/` — what Verus does not see: clock readings, the serde forms of the
  handoff types, the process-wide terminal id pool, and the launch files on
  disk.

Each module states its laws as public proof functions named `law_*`.
