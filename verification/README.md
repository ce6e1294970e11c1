# usbws

A TCP tunnel between two machines over an encrypted relay, with its logic
verified in Verus. Several TCP connections share one peer link by a connection
id of one byte; everything between the peers is sealed end to end (X25519,
Ed25519, XChaCha20-Poly1305).

- `src/` is the library. Its contracts are proved; the cryptographic functions,
  base64, hexadecimal text and a few functions of std are called through
  wrappers whose contracts are trusted (`crypto.rs`, `entropy.rs`,
  `base64url.rs`, `hexcode.rs`, `text.rs`).
  - `proto.rs`: identities, packets, frames and invites.
  - `authorized.rs`: the table of authorized initiators, a text file.
  - `tcp.rs`: commands, connection ids, dispatch, multiplexing.
  - `gate.rs`: introductions, and who is accepted.
  - `session.rs`: the life of a session with the relay, step by step.
- `app/` runs the tunnel: sockets, files and tasks around the library.
- `tests/` runs the library on given values.
