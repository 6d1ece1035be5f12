# slates_server

The server of a slates fleet: the decisions of a daemon that serves volumes on one machine or, with its
peers, over many. `src/` is the library, verified with Verus; `app/` is the ordinary Rust that carries its
steps out over sockets, threads and the process; `tests/` runs the library.

- `config`: the configuration derived from a machine's measured profile.
- `daemon`, `doorbell`: the start and the stop, a shard's set-up, the clients, the observers.
- `deploy`, `dns`, `discovery`: the fleet's plan, name lookups, and enrollment.
- `consensus`, `consensus_recovery`: the groups' creation, joining and recovery.
- `fleet`: probing and membership, sessions, the record plane, seals, and the groups' rounds.
- `head`, `wire`: a volume's head value and its canonical bytes.
- `landing`, `error`: landings and grants, and the refusals a client sees.

What the library takes from outside (BLAKE3 digests, certificate parsing and name matching, UTF-8
validation, the debug form of text) stands behind wrappers whose contracts are stated in `digest`,
`discovery`, `wire` and `text`.
