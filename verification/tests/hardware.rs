use sol_trade_sdk::perf::hardware_optimizations::BranchOptimizer;
use sol_trade_sdk::perf::hardware_optimizations::cache::is_cache_line_aligned;
use sol_trade_sdk::perf::hardware_optimizations::{CacheLineAligned, CACHE_LINE_SIZE};
use sol_trade_sdk::perf::hardware_optimizations::SIMDMemoryOps;
use sol_trade_sdk::perf::simd::SIMDMemory;
use sol_trade_sdk::perf::hardware_optimizations::{CacheOptimizedRingBuffer, RingBufferError};
use sol_trade_sdk::perf::hardware_optimizations::{CacheAlignedCounter, MemoryBarriers};

#[test]
fn test_cache_aligned_counter() {
    let counter = CacheAlignedCounter::new(0);
    assert!(counter.ensure_cache_aligned());

    assert_eq!(counter.load(), 0);
    counter.increment();
    assert_eq!(counter.load(), 1);
}

#[test]
fn test_simd_memcpy() {
    let src = [1u8, 2, 3, 4, 5, 6, 7, 8, 9, 10];
    let mut dst = [0u8; 10];

    SIMDMemoryOps::memcpy_simd_optimized(&mut dst, &src, src.len());

    assert_eq!(src, dst);
}

#[test]
fn test_cache_optimized_ring_buffer() {
    let mut buffer: CacheOptimizedRingBuffer<u64> = CacheOptimizedRingBuffer::new(16).unwrap();

    assert!(buffer.is_empty());

    assert!(buffer.try_push(42));
    assert_eq!(buffer.len(), 1);

    assert_eq!(buffer.try_pop(), Some(42));
    assert!(buffer.is_empty());
}

#[test]
fn test_simd_memcmp() {
    let a = [1u8, 2, 3, 4, 5];
    let b = [1u8, 2, 3, 4, 5];
    let c = [1u8, 2, 3, 4, 6];

    assert!(SIMDMemoryOps::memcmp_simd_optimized(&a, &b, a.len()));

    assert!(!SIMDMemoryOps::memcmp_simd_optimized(&a, &c, a.len()));
}

#[test]
fn counter_increment_returns_previous_value() {
    let counter = CacheAlignedCounter::new(41);
    assert_eq!(counter.increment(), 41);
    assert_eq!(counter.increment(), 42);
    assert_eq!(counter.load(), 43);
    counter.store(7);
    assert_eq!(counter.load(), 7);
}

#[test]
fn counter_increment_wraps_at_max() {
    let counter = CacheAlignedCounter::new(u64::MAX);
    assert_eq!(counter.increment(), u64::MAX);
    assert_eq!(counter.load(), 0);
}

#[test]
fn cache_line_alignment_is_a_multiple_of_the_line_size() {
    assert_eq!(CACHE_LINE_SIZE, 64);
    assert!(is_cache_line_aligned(0));
    assert!(is_cache_line_aligned(128));
    assert!(!is_cache_line_aligned(8));
    assert!(!is_cache_line_aligned(65));
}

#[test]
fn ring_buffer_is_cache_aligned() {
    let buffer: CacheOptimizedRingBuffer<u8> = CacheOptimizedRingBuffer::new(4).unwrap();
    assert!(buffer.ensure_cache_aligned());
}

#[test]
fn ring_buffer_rejects_capacity_that_is_not_a_power_of_two() {
    assert_eq!(
        CacheOptimizedRingBuffer::<u32>::new(0).err(),
        Some(RingBufferError::CapacityNotPowerOfTwo)
    );
    assert_eq!(
        CacheOptimizedRingBuffer::<u32>::new(12).err(),
        Some(RingBufferError::CapacityNotPowerOfTwo)
    );
    assert!(CacheOptimizedRingBuffer::<u32>::new(1).is_ok());
}

#[test]
fn ring_buffer_keeps_one_slot_free() {
    let mut buffer: CacheOptimizedRingBuffer<u32> = CacheOptimizedRingBuffer::new(4).unwrap();
    assert!(buffer.try_push(1));
    assert!(buffer.try_push(2));
    assert!(buffer.try_push(3));
    assert!(!buffer.try_push(4));
    assert_eq!(buffer.len(), 3);

    let mut one: CacheOptimizedRingBuffer<u32> = CacheOptimizedRingBuffer::new(1).unwrap();
    assert!(!one.try_push(9));
    assert!(one.is_empty());
}

#[test]
fn ring_buffer_is_first_in_first_out_across_wraparound() {
    let mut buffer: CacheOptimizedRingBuffer<u32> = CacheOptimizedRingBuffer::new(4).unwrap();
    let mut next_in = 0u32;
    let mut next_out = 0u32;
    for _ in 0..10 {
        assert!(buffer.try_push(next_in));
        next_in += 1;
        assert!(buffer.try_push(next_in));
        next_in += 1;
        assert_eq!(buffer.try_pop(), Some(next_out));
        next_out += 1;
        assert_eq!(buffer.try_pop(), Some(next_out));
        next_out += 1;
    }
    assert_eq!(buffer.try_pop(), None);
    assert!(buffer.is_empty());
    assert_eq!(buffer.len(), 0);
}

#[test]
fn memcpy_covers_every_size_class() {
    let src: Vec<u8> = (0..200u32).map(|i| (i * 7 + 3) as u8).collect();
    for len in [0usize, 1, 3, 5, 8, 9, 16, 17, 31, 32, 33, 63, 64, 65, 100, 128, 200] {
        let mut dst = vec![0xAAu8; 200];
        SIMDMemoryOps::memcpy_simd_optimized(&mut dst, &src, len);
        assert_eq!(&dst[..len], &src[..len]);
        assert!(dst[len..].iter().all(|&b| b == 0xAA));
        assert!(SIMDMemoryOps::memcmp_simd_optimized(&dst, &src, len));
    }
}

#[test]
fn memcmp_finds_a_difference_in_every_size_class() {
    let a: Vec<u8> = (0..200u32).map(|i| i as u8).collect();
    for len in [1usize, 7, 8, 12, 16, 20, 32, 40, 64, 100, 200] {
        let mut b = a.clone();
        b[len - 1] ^= 1;
        assert!(!SIMDMemoryOps::memcmp_simd_optimized(&a, &b, len));
        assert!(SIMDMemoryOps::memcmp_simd_optimized(&a, &b, len - 1));
        assert!(!SIMDMemory::compare_avx2(&a, &b, len));
        assert!(SIMDMemory::compare_avx2(&a, &b, len - 1));
    }
    assert!(SIMDMemoryOps::memcmp_simd_optimized(&a, &[9u8; 3], 0));
}

#[test]
fn memzero_clears_exactly_the_prefix() {
    for len in [0usize, 5, 32, 33, 70] {
        let mut buf = vec![0xFFu8; 80];
        SIMDMemoryOps::memzero_simd_optimized(&mut buf, len);
        assert!(buf[..len].iter().all(|&b| b == 0));
        assert!(buf[len..].iter().all(|&b| b == 0xFF));

        let mut buf2 = vec![0xFFu8; 80];
        SIMDMemory::zero_avx2(&mut buf2, len);
        assert_eq!(buf, buf2);
    }
}

#[test]
fn test_simd_memory_copy() {
    let src = vec![1u8, 2, 3, 4, 5, 6, 7, 8, 9, 10];
    let mut dst = vec![0u8; 10];

    SIMDMemory::copy_avx2(&mut dst, &src, src.len());

    assert_eq!(src, dst);
}

#[test]
fn block_copy_handles_long_inputs() {
    let src: Vec<u8> = (0..100u32).map(|i| (255 - i) as u8).collect();
    let mut dst = vec![0u8; 100];
    SIMDMemory::copy_avx2(&mut dst, &src, 70);
    assert_eq!(&dst[..70], &src[..70]);
    assert!(dst[70..].iter().all(|&b| b == 0));
}

#[test]
fn branch_hints_return_their_condition() {
    assert!(BranchOptimizer::likely(true));
    assert!(!BranchOptimizer::likely(false));
    assert!(BranchOptimizer::unlikely(true));
    assert!(!BranchOptimizer::unlikely(false));
}

#[test]
fn barriers_can_be_issued() {
    MemoryBarriers::compiler_barrier();
    MemoryBarriers::memory_barrier_light();
    MemoryBarriers::memory_barrier_heavy();
    MemoryBarriers::store_barrier();
    MemoryBarriers::load_barrier();
}
