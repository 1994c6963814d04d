# agentctl

The decisions of a controller that plans work for coding agents, runs it and
accepts nothing that was not independently verified. The decisions stand in `src`
as verified functions: each takes what is known as plain values and states in its
contract what it answers, and with which message it refuses. What rules outside
the library say (on paths, identifiers, routing and worker security), and how many
bytes a document takes once serialised, reaches them as such values.

- `src/planning`: planning requests and their context, execution plans and their
  lifecycle, scopes, and what justifies the completion of a plan.
- `src/runtime`: role contracts, capability reports, concurrency, context requests
  and grants, dispatch to providers, acceptance, reconciliation and recovery of
  runs, experiments and their events.
- `src/repository`, `src/git`, `src/source`, `src/store`: identities, what is asked
  of Git, captured sources, and the stored state that the decisions change.
- `src/text`, `src/excerpt`, `src/report`, `src/json`: texts as sequences of
  characters, bounded parts of them, reports, and JSON values.

Functions whose names begin with `law_` state what holds of several functions
together. `tests` runs the library on values. `app` holds the edges: processes,
files, SQLite, the command lines and the loop that performs what the library decided. Its traits
(`Host`, `Desk`, `Planning`, `Launcher`, `Records`) stand for the store, the
providers and the machine of a deployment.
