# dianemo_rust

Peer discovery and pairing for a small LAN file-sharing tool.

- `src/` is the verified library (Verus): the frame codec (`codec::decoder`,
  `codec::encoder`, and the round-trip law in `codec::roundtrip`), the text
  helpers it rests on (`text`, `number`), the message types (`types`), the
  peer table (`state`), the decisions a node takes on
  datagrams, connections and console input (`node`), settings (`config`) and errors (`errors`). The byte
  buffers of the `bytes` crate enter through the trusted items of `bufs`.
- `app/` is the unverified program: sockets, the tokio tasks, the console,
  the file dialog, and the copies of types that carry `serde`/`thiserror`
  derives.
- `tests/` exercises the library on concrete frames.
