# supervisor

OTP-style supervision of actors: when a child exits, decide whether to start it again, whether
that happens too often, and which of its siblings go down with it.

- `src/` is the library, verified with Verus. It decides and never talks to an actor: restarts,
  startups, shutdowns and notifications are state machines that hand out one command at a time
  and take its outcome back. The modules whose names end in `_laws` state what such a machine
  does from its first command to its last, and what holds over many calls.
- `tests/` runs the library with actors that exist only as numbers.
- `app/` carries the decisions out on the actors of a running system, which it knows through the
  trait `ActorHandle`.

The supervision tree keeps the children in an `IndexMap`, and timestamps come from the standard
library's monotonic clock. What the library takes on trust about these is written down in
`src/child_map.rs`, `src/time.rs` and, for sharing starters, `src/restart.rs`.
