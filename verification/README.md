# ceky

The core of a peer-to-peer node, written in Rust and proved with Verus.

- `src/wire.rs`, `text.rs`, `net.rs`, `time.rs`, `counter.rs`, `buffer.rs`, `table.rs`: the
  small things that everything else is made of.
- `src/protocol`: frames with a 21-byte header and a CRC-32C, and the messages of the hash
  table and of file transfer.
- `src/crypto`: Ed25519 identities, the three-message handshake, and ChaCha20-Poly1305
  sessions with a replay window.
- `src/dht`: the Kademlia routing table, lookups, bootstrap, storage, and tiers of peers.
- `src/traversal`: STUN, detection of address translators, hole punching, relaying.
- `src/transport`: connections, their pool, and what is done about frames over TCP and UDP.
- `src/transfer`: file transfer in chunks, under a window of credits; only a file with the
  hash that was offered is complete.
- `src/telemetry`: figures, log lines, and what the screen shows.
- `src/node`: settings, the control interface, and the decisions of the event loop.
- `app`: the program around the core: sockets, files, the database, HTTP and the screen.

The library decides and computes; it never does input or output. Where time passes, the
caller hands in a reading of the clock. Where a decision calls for work in the world, the
library returns what is to be done, and the program reports back.

Outside crates supply hashing, checksums, ciphers, signatures, byte buffers and the hash
map. Each call of them stands in a small function whose contract is trusted; its comment
says what is claimed.
