//! A cache-line aligned atomic counter and memory barriers.

use vstd::prelude::*;
use std::sync::atomic::{AtomicU64, Ordering};
use aligned::{Aligned, A64};
use crate::perf::hardware_optimizations::cache::{CacheLineAligned, is_cache_line_aligned, line_aligned, line_aligned_value, line_address};

verus! {

/// `std::sync::atomic::fence`; std documents a panic for `Relaxed`, which
/// `requires` leaves out. It returns nothing.
pub assume_specification[ std::sync::atomic::fence ](order: Ordering)
    requires
        order != Ordering::Relaxed,
;

/// `std::sync::atomic::compiler_fence`; std documents a panic for `Relaxed`,
/// which `requires` leaves out. It returns nothing.
pub assume_specification[ std::sync::atomic::compiler_fence ](order: Ordering)
    requires
        order != Ordering::Relaxed,
;

/// A `u64` counter shared between threads, alone on its 64-byte cache line.
pub struct CacheAlignedCounter {
    value: Aligned<A64, AtomicU64>,
}

impl CacheAlignedCounter {
    /// A counter holding `initial`.
    pub fn new(initial: u64) -> Self {
        CacheAlignedCounter { value: line_aligned(AtomicU64::new(initial)) }
    }

    /// Adds one (wrapping) and returns the value held before.
    pub fn increment(&self) -> u64 {
        line_aligned_value(&self.value).fetch_add(1, Ordering::Relaxed)
    }

    /// The value held now.
    pub fn load(&self) -> u64 {
        line_aligned_value(&self.value).load(Ordering::Relaxed)
    }

    /// Replaces the value held by `val`.
    pub fn store(&self, val: u64) {
        line_aligned_value(&self.value).store(val, Ordering::Relaxed)
    }
}

impl CacheLineAligned for CacheAlignedCounter {
    /// Whether the counter's cell starts on a cache line; the cell is 64-byte
    /// aligned, so it always does.
    fn ensure_cache_aligned(&self) -> (r: bool)
        ensures
            r,
    {
        is_cache_line_aligned(line_address(&self.value))
    }
}

/// Memory-ordering barriers.
pub struct MemoryBarriers;

impl MemoryBarriers {
    /// Keeps the compiler from reordering memory accesses across this point.
    pub fn compiler_barrier() {
        std::sync::atomic::compiler_fence(Ordering::SeqCst);
    }

    /// Acquire fence.
    pub fn memory_barrier_light() {
        std::sync::atomic::fence(Ordering::Acquire);
    }

    /// Sequentially consistent fence.
    pub fn memory_barrier_heavy() {
        std::sync::atomic::fence(Ordering::SeqCst);
    }

    /// Release fence: earlier writes become visible before later ones.
    pub fn store_barrier() {
        std::sync::atomic::fence(Ordering::Release);
    }

    /// Acquire fence: later reads are not moved before it.
    pub fn load_barrier() {
        std::sync::atomic::fence(Ordering::Acquire);
    }
}

} // verus!
