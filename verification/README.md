# ramseynet

Verified core of RamseyNet, a network for distributed Ramsey graph search:
graphs, clique search and counting, scoring, content addressing, the RGXF
interchange form, and the worker-side decisions about what is searched,
kept and submitted. The library's functions carry contracts proved by
Verus, except six small trusted wrappers around outside calls (SHA-256,
hex, Ed25519, `String::push`), whose contracts state what those calls do.

## Layout

- `src/graph.rs` — undirected simple graphs as symmetric boolean matrices.
- `src/clique.rs` — lexicographically least clique witnesses, clique
  counts, clique numbers and the number of maximum cliques.
- `src/scoring.rs` — the three-tier score and its total order.
- `src/cid.rs`, `src/rgxf.rs` — canonical bytes, SHA-256 content IDs, the
  base64 RGXF form and its round trip.
- `src/canonical.rs` — relabelling by a canonical labelling.
- `src/types.rs`, `src/text.rs` — hex content IDs, challenge IDs, verdicts,
  decimal rendering and parsing.
- `src/engine.rs`, `src/worker.rs`, `src/known.rs` — the worker engine's
  state machine, configuration, local discovery pool, deduplication and
  admission threshold.
- `src/client.rs`, `src/identity.rs` — request URLs, Ed25519 key files and
  signed submissions.
- `src/leaderboard.rs` — leaderboard admission.
- `src/viz.rs`, `src/relay.rs` — what the visualisation and dashboard
  connections send and when they stop.
- `src/config.rs` — the CLI's settings.
- `app/` — the `minegraph` command line and the I/O around the library:
  files, HTTP, WebSockets, PostgreSQL and nauty.
- `tests/` — tests of the library.
