# rml_rtmp

A verified reader of RTMP chunk streams, written in Verus.

- `src/chunk_io/deserializer.rs`: `ChunkDeserializer`, which turns the bytes of a
  connection into messages.
- `src/chunk_io/basic_header.rs`: the first bytes of a chunk.
- `src/chunk_io/model.rs`: what the deserializer does, over mathematical values.
- `src/chunk_io/wire.rs`: what chunks look like on the wire, and what a chunk does to
  its chunk stream.
- `src/chunk_io/laws.rs`, `wire_laws.rs`, `connection_laws.rs`, `reading_laws.rs`: what
  is proved of all this. Bytes may come in any portions, chunk streams do not mix,
  messages that are written are read back, and whatever is read is made of chunks.
- `src/byte_buffers.rs`: everything that is taken on trust, of the crates `bytes` and
  `byteorder`.
