# lnmp_codec

A verified codec for LNMP records, written in Verus.

- `src/binary/`: signed LEB128 integers, the v0.4 binary frame and entries,
  v0.5 nested records and arrays, delta packets (computing, writing, reading
  and applying them), the streaming frame layer with back-pressure, and
  schema negotiation between two parties.
- `src/canonical.rs`: the canonical form of records, proved idempotent.
- `src/equivalence.rs`: per-field synonym tables.
- `src/container.rs`: the stream and delta metadata blocks of `.lnmp` containers.
- `src/error.rs`, `src/config.rs`, `src/text.rs`: errors with their messages,
  configuration types, and the character rules of the text format.
- `app/`: the text encoder, which formats and recognizes floating-point
  numbers and so stays outside the verified library.

Floats are carried as their IEEE-754 bit patterns throughout the library.
