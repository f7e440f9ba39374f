# sol_trade_sdk

Performance building blocks of a Solana trading client, written in Verus.

- `src/perf/hardware_optimizations/`: byte-slice copy, compare and zero
  routines dispatched by size class (`memory.rs`, with lane masks in
  `lanes.rs`), a power-of-two ring buffer (`ring_buffer.rs`), a cache-line
  aligned atomic counter and memory barriers (`sync.rs`), cache-line
  geometry (`cache.rs`) and branch hints (`branch.rs`).
- `src/perf/simd/`: fixed-block memory routines, batch `u64` arithmetic,
  little-endian batch codecs with their round-trip laws, Base64, SHA-256
  batches, FNV-1a, and slice map/filter.
- `src/swqos/serialization.rs`: a pool of reusable byte buffers over
  `crossbeam_queue::ArrayQueue`, and the Base58/Base64 text of serialized
  transactions.
- `app/`: what stays outside the verified library: the process-wide
  serializer, bincode serialization of caller types, the async transaction
  functions over Solana types, `anyhow` errors and CPU prefetch hints.
- `tests/`: executable tests of the library.

Calls into `aligned`, `base64`, `bs58`, `sha2` and `crossbeam-queue`
go through small trusted wrappers whose contracts are stated next to them.
