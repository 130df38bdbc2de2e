# zlink

A library for the [Varlink](https://varlink.org/) IPC protocol, verified with Verus.

- `src/` is the verified library:
  - `connection/`: the framing of messages (each message followed by a NUL byte), the read and
    write buffers of a connection, and the state of chains of calls and of the stream of their
    replies. The buffers keep their bytes in a `mayheap::Vec`, which the library reaches through
    a few trusted wrappers (`connection/heap.rs`) stated over the bytes it holds;
  - `call.rs`: method calls and their flags;
  - `idl/`: the Varlink interface definition language: its types, a reader for its text
    (`grammar.rs` states the grammar as functions on bytes, `parse.rs` reads it), the text of
    each definition (`render.rs`), and the proofs that reading a definition's text gives the
    definition back (`round_trip.rs`). For each entry point `parse_*` a function `parse_*_panics`
    tells beforehand whether reading the text would panic;
  - `codegen.rs`: the name of the Rust file that code generation writes for an IDL file;
  - `zarlink/`: the types of the first take on the protocol.
- `tests/` runs the library on concrete values.
- `app/` holds what Verus does not check: sockets (with tokio), JSON encoding (with serde), and
  the async connection API that drives the library's buffers and reply streams.
