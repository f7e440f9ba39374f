//! Cache-line layout, byte-level memory routines, a cache-aligned counter,
//! a ring buffer, branch hints and memory barriers.

pub mod branch;
pub mod cache;
pub mod lanes;
pub mod memory;
pub mod ring_buffer;
pub mod sync;

pub use self::branch::BranchOptimizer;
pub use self::cache::{CacheLineAligned, CACHE_LINE_SIZE};
pub use self::memory::SIMDMemoryOps;
pub use self::ring_buffer::{CacheOptimizedRingBuffer, RingBufferError};
pub use self::sync::{CacheAlignedCounter, MemoryBarriers};
