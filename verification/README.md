# agent_views

Agent views are the dashboard of Codex threads that belong to one working
directory: a registry that attaches threads to a view, pins, orders, marks
and hides them, the `agentView/*` requests of the app server, and the
navigation state of the terminal agents dashboard.

The library in `src/` is verified with Verus:

- `thread_id` — thread ids as 128-bit UUIDs and their canonical text.
- `text` — trimming, first lines and decimal text.
- `table` — sequences of records read as maps by key.
- `model` — workflow states, thread rows, patches and stored-row checks.
- `store` — the registry (`StateRuntime`) and its laws.
- `protocol` — request and response values.
- `processor` — what each `agentView/*` request does and answers.
- `dashboard` — grouping, ordering, selection, scrolling, keys and mouse.

`app/` holds what Verus does not see: the JSON forms of the protocol
values, the SQLite tables that keep the registry between runs, the
asynchronous request flow, and drawing and input on the terminal.
`tests/` runs the library on concrete values.
