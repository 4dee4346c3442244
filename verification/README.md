# tools

Small utilities, each with a proved contract:

- `src/bitarray.rs`: `BitArray<B>`, an array of bits held in one unsigned
  integer, with its iterators `BitArrayIter`, `Ones` and `Zeroes`, and the
  laws that tie them together (read after write, partition of indices,
  binary rendering).
- `src/base.rs`: the sealed `Base` trait and its implementations for
  `u8`, `u16`, `u32`, `u64`, `u128` and `usize`.
- `src/one_iter.rs`: `OneIter`, one type for either of two iterators.
- `src/enums.rs`, `src/derive_enum_values.rs`: the `EnumValues` trait and the
  decisions of its derive.
- `app/`: the derive itself over `syn`/`quote` token streams.
