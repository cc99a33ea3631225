# MeshTalk

An offline mesh messenger. Devices hand messages on to their neighbours, hop by hop, with no
server and no internet between them.

- `src/` is the library: identities, envelopes, encryption, the decisions of a node, its stores,
  framing, discovery, and the client a user interface talks to. It is written in Verus: every
  function states what it does, and the verifier proves it. It reads no clock, socket or file. The
  cipher, signature, hash and serialisation crates are called through small functions whose
  contracts are taken on trust; each says what it claims of the crate.
- `tests/` runs the library on concrete values, with those crates linked.
- `app/` is ordinary Rust around it: a terminal chat over UDP, discovery on the local network, a
  Bluetooth link, the stores on disk, and the bindings for Swift and Kotlin.

`src/guarantees.rs` is the place to start reading: it states what holds of a node as a whole. The
guarantees of one part stand at the end of that part's file, in functions whose names start with
`law_`.
