# p2p_rust_chord

A node of a Chord-style distributed hash table, verified with Verus.

- `src/` is the verified library: the key space (`keyspace`), the SHA-1 based ids
  (`digest`), text splitting for the address listing (`text`), a node's state,
  its finger table and lookup rule (`node`), the state changes made when requests
  arrive and when nodes join, leave or fail (`ring`), and the properties proved of
  them (`laws`).
- `app/main.rs` is the HTTP server around it: it receives and sends requests and
  hands every decision to the library.
- `tests/` exercises the library on concrete values.
