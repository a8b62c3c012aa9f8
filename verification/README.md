# rhei_cli

The decision logic of the `rhei` command line, written in Verus: every
function in `src/` carries a contract over mathematical models of its data
and is proved against it. `app/` holds the file, lock and git plumbing
around it, which hands the library plain values and acts on what it gives
back.

The command drivers (`main`, the run loops, `rhei next`) are not in the
crate: they load plans, fire transitions and render output through the
project's own core, validator and terminal crates, which are not part of
it. Each decision those drivers make is a step function here (`pass`,
`claim`, `exit`, `pool`, `run`), meant to be driven by such a loop.

## Layout

- `src/` — the verified library, one module per concern:
  - plan data: `ready` (the ready set and its views), `waiting` (whether the
    remaining work only waits on purpose), `diagnose`, `halt` (why a ticket is
    not moving), `conditions`, `advance`, `machine` (transitions, timeouts,
    tooling triggers, the prompt's transition list);
  - a run: `pass` (routing ready tickets, one ticket per non-concurrent state,
    idle and end-of-pass decisions, callback-only runs), `pool` (worker slots),
    `exit` (what a finished agent or program means for its ticket), `run`
    (descriptor, liveness, locks), `lock_owner`, `gitcheck`, `notices`, `mode`;
  - `rhei next`: `claim`, `next_output`, `prompt`, `ledger` (the transition log
    and handoffs);
  - authoring: `create`, `placement`, `ids`, `description`, `markdown`,
    `frontmatter`, `metadata`, `reset`, `release`, `install`;
  - recipes: `recipe`, `graph` (depth-first order and cycle search), `manifest`;
  - shared: `text`, `yaml`, `yaml_text` (YAML text through `serde_yaml`),
    `order`, `paths`, `options`, `program`.
- `tests/` — tests that run the compiled library.
- `app/` — file, process and git plumbing around the library.
