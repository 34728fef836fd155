# skepd

The verified core of the skep daemon: the logic of its HTTP surface and of
its auth layer, each function carrying a contract that Verus proves.

- `src/` — the library, one module per concern: `origin`/`origins`/`auth`
  (canonical origins, the bound port, the board's mode, the bare and signed
  origin sets, the start-up warnings and the bare-bind rule), `session`,
  `challenges`, `sessions`, `handshake`, `blocked`, `precheck` (the session
  layer's wire values, the challenge and session stores, the handshake's
  pinned order, the blocked-prefix list and the credential write's ordered
  refusals), `request`/`http`/`query`/`routes`/`json`
  (the HTTP/1.1 subset, replies and refusals, the query grammars, flat JSON
  objects), `codec`/`tags` (the JSON codec's wire names, the request
  envelope, its leaf readers including tumbler text, and the rejection
  encoding),
  `feed`/`derived`/`history`/`head` (the change feed's merge and opening
  index, a derived sidecar's lines, replay, coverage claim and closing at
  open, the reconstruction
  budget, the head record and its cadence), `hybrid` (the
  deterministic and OS entropy streams), `cli` (flags over environment over
  defaults), `fuzz` (the fuzzing oracles' pure parts), and `text`/`hex`/
  `lines` (the byte-level helpers the rest is proved against).
- `tests/` — the scenarios, run against the compiled library.
- `app/` — the program shell: it reads the environment and the command line,
  hands them to the library, and prints what the library decides.
