# guardian_db

The logic of a peer-to-peer document database, written in Verus and proved against
contracts: its documents and queries, its append-only log, the channels between
peers, and what a node decides about its content, its connections and its keys.

- `src/odm` documents: schemas, queries, updates, transactions and collections
- `src/log` entries of the log, their order, identities and their keys
- `src/message_marshaler.rs` heads of the log as they are exchanged
- `src/p2p/messaging` topics, direct channels and one-on-one channels
- `src/p2p/network` configuration, client and the parts of a node's backend:
  batches, cache, connection pool, gossip, key synchronization, metrics, tickets
- `src/pgwire.rs` what a PostgreSQL front end decides on plain values
- `src/json.rs`, `src/number.rs`, `src/text.rs`, `src/bytes.rs`, `src/entries.rs`,
  `src/idmap.rs`, `src/sorting.rs` the values and collections that all of this is
  made of

A function that alternates with the network or the disk is a step from what came in
to what is to be done next. `app/` holds the loops around these steps, along with
serialization and everything in floating point. Where the library calls another
crate, the contract of the wrapper says what is taken on trust.

`tests/` runs the library, with the crates it calls.
