//! Verified building blocks for a low-latency trading client: byte-level
//! memory operations, batch arithmetic, little-endian batch codecs, hashing,
//! a cache-friendly ring buffer and a pooled transaction serializer.

pub mod perf;
pub mod swqos;
