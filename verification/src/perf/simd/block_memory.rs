//! Memory routines that walk their input in fixed 32-byte blocks.

use vstd::prelude::*;
use crate::perf::hardware_optimizations::lanes::{lane_mask, bit_set, low_mask, lemma_low_mask_all_set, copied_range, zeroed_range, copy_block, zero_block};
use crate::perf::hardware_optimizations::memory::{copied_prefix, zeroed_prefix, prefix_equal, lemma_copied_range_is_prefix, lemma_zeroed_range_is_prefix, lemma_block_equal_is_prefix};

verus! {

/// Memory routines that walk their input in fixed 32-byte blocks.
pub struct SIMDMemory;

impl SIMDMemory {
    /// Copies the first `len` bytes of `src` into `dst`: whole 32-byte
    /// blocks, then the remaining bytes one at a time.
    pub fn copy_avx2(dst: &mut [u8], src: &[u8], len: usize)
        requires
            len <= old(dst)@.len(),
            len <= src@.len(),
        ensures
            copied_prefix(old(dst)@, final(dst)@, src@, len as int),
    {
        let dst_len = dst.len();
        let mut offset: usize = 0;
        while len - offset >= 32
            invariant
                offset <= len,
                dst_len == dst@.len(),
                len <= dst@.len(),
                len <= src@.len(),
                copied_range(old(dst)@, dst@, src@, 0, offset as int),
            decreases len - offset,
        {
            copy_block(dst, src, offset, 32);
            offset = offset + 32;
        }
        while offset < len
            invariant
                offset <= len,
                dst_len == dst@.len(),
                len <= dst@.len(),
                len <= src@.len(),
                copied_range(old(dst)@, dst@, src@, 0, offset as int),
            decreases len - offset,
        {
            dst[offset] = src[offset];
            offset = offset + 1;
        }
        proof {
            lemma_copied_range_is_prefix(old(dst)@, dst@, src@, len as int);
        }
    }

    /// Whether the first `len` bytes of `a` and `b` agree: each whole
    /// 32-byte block must yield an all-ones lane mask, then the remaining
    /// bytes are compared one at a time.
    pub fn compare_avx2(a: &[u8], b: &[u8], len: usize) -> (r: bool)
        requires
            len <= a@.len(),
            len <= b@.len(),
        ensures
            r == prefix_equal(a@, b@, len),
    {
        let a_len = a.len();
        let mut offset: usize = 0;
        while len - offset >= 32
            invariant
                offset <= len,
                a_len == a@.len(),
                len <= a@.len(),
                len <= b@.len(),
                forall|j: int| 0 <= j < offset ==> #[trigger] a@[j] == b@[j],
            decreases len - offset,
        {
            let mask = lane_mask(a, b, offset, 32);
            proof {
                lemma_low_mask_all_set(mask, 32);
                assert(mask & 0xFFFF_FFFFu32 == mask) by (bit_vector);
                assert(low_mask(32) == 0xFFFF_FFFFu32);
            }
            if mask != 0xFFFF_FFFF {
                proof {
                    let j = choose|j: u32| j < 32 && !#[trigger] bit_set(mask, j);
                    assert(a@[offset + j] != b@[offset + j]);
                    lemma_block_equal_is_prefix(a@, b@, len);
                    assert(a@[0 + (offset + j)] != b@[0 + (offset + j)]);
                }
                return false;
            }
            proof {
                assert forall|j: int| 0 <= j < offset + 32 implies #[trigger] a@[j] == b@[j] by {
                    if j >= offset {
                        let k = (j - offset) as u32;
                        assert(bit_set(mask, k));
                    }
                }
            }
            offset = offset + 32;
        }
        while offset < len
            invariant
                offset <= len,
                len <= a@.len(),
                len <= b@.len(),
                forall|j: int| 0 <= j < offset ==> #[trigger] a@[j] == b@[j],
            decreases len - offset,
        {
            if a[offset] != b[offset] {
                proof {
                    lemma_block_equal_is_prefix(a@, b@, len);
                    assert(a@[0 + offset] != b@[0 + offset]);
                }
                return false;
            }
            offset = offset + 1;
        }
        proof {
            lemma_block_equal_is_prefix(a@, b@, len);
            assert forall|j: int| 0 <= j < len implies #[trigger] a@[0 + j] == b@[0 + j] by {
                assert(a@[j] == b@[j]);
            }
        }
        true
    }

    /// Sets the first `len` bytes of `buf` to zero: whole 32-byte blocks,
    /// then the remaining bytes one at a time.
    pub fn zero_avx2(buf: &mut [u8], len: usize)
        requires
            len <= old(buf)@.len(),
        ensures
            zeroed_prefix(old(buf)@, final(buf)@, len as int),
    {
        let buf_len = buf.len();
        let mut offset: usize = 0;
        while len - offset >= 32
            invariant
                offset <= len,
                buf_len == buf@.len(),
                len <= buf@.len(),
                zeroed_range(old(buf)@, buf@, 0, offset as int),
            decreases len - offset,
        {
            zero_block(buf, offset, 32);
            offset = offset + 32;
        }
        while offset < len
            invariant
                offset <= len,
                buf_len == buf@.len(),
                len <= buf@.len(),
                zeroed_range(old(buf)@, buf@, 0, offset as int),
            decreases len - offset,
        {
            buf[offset] = 0;
            offset = offset + 1;
        }
        proof {
            lemma_zeroed_range_is_prefix(old(buf)@, buf@, len as int);
        }
    }
}

} // verus!
