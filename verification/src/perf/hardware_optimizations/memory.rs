//! Byte-slice copy, compare and zero routines organised the way vector
//! hardware processes them: size classes and fixed-width blocks.

use vstd::prelude::*;
use crate::perf::hardware_optimizations::lanes::{block_equal, lanes_match, copied_range, zeroed_range, copy_block, zero_block};

verus! {

/// `new` is `old` with its first `len` bytes replaced by those of `src`.
pub open spec fn copied_prefix(old: Seq<u8>, new: Seq<u8>, src: Seq<u8>, len: int) -> bool {
    new == src.take(len) + old.skip(len)
}

/// `new` is `old` with its first `len` bytes set to zero.
pub open spec fn zeroed_prefix(old: Seq<u8>, new: Seq<u8>, len: int) -> bool {
    new == Seq::new(len as nat, |i: int| 0u8) + old.skip(len)
}

/// The first `len` bytes of `a` and `b` agree.
pub open spec fn prefix_equal(a: Seq<u8>, b: Seq<u8>, len: usize) -> bool {
    a.take(len as int) == b.take(len as int)
}

pub(crate) proof fn lemma_copied_range_is_prefix(old: Seq<u8>, new: Seq<u8>, src: Seq<u8>, len: int)
    requires
        0 <= len <= old.len(),
        len <= src.len(),
        copied_range(old, new, src, 0, len),
    ensures
        copied_prefix(old, new, src, len),
{
    assert(new =~= src.take(len) + old.skip(len));
}

pub(crate) proof fn lemma_zeroed_range_is_prefix(old: Seq<u8>, new: Seq<u8>, len: int)
    requires
        0 <= len <= old.len(),
        zeroed_range(old, new, 0, len),
    ensures
        zeroed_prefix(old, new, len),
{
    assert(new =~= Seq::new(len as nat, |i: int| 0u8) + old.skip(len));
}

pub(crate) proof fn lemma_block_equal_is_prefix(a: Seq<u8>, b: Seq<u8>, n: usize)
    requires
        n <= a.len(),
        n <= b.len(),
    ensures
        block_equal(a, b, 0, n) <==> prefix_equal(a, b, n),
{
    let len = n as int;
    if prefix_equal(a, b, n) {
        assert forall|j: int| 0 <= j < len implies #[trigger] a[0 + j] == b[0 + j] by {
            assert(a.take(len)[j] == b.take(len)[j]);
        }
    }
    if block_equal(a, b, 0, n) {
        assert forall|j: int| 0 <= j < len implies a.take(len)[j] == b.take(len)[j] by {
            assert(a[0 + j] == b[0 + j]);
        }
        assert(a.take(len) =~= b.take(len));
    }
}

/// After a copy of `len` bytes, comparing the same `len` bytes of the
/// destination and the source finds them equal.
pub proof fn law_copy_then_compare(old_dst: Seq<u8>, new_dst: Seq<u8>, src: Seq<u8>, len: usize)
    requires
        len <= old_dst.len(),
        len <= src.len(),
        copied_prefix(old_dst, new_dst, src, len as int),
    ensures
        prefix_equal(new_dst, src, len),
{
    assert(new_dst.take(len as int) =~= src.take(len as int));
}

/// Zeroing `len` bytes leaves the rest of the buffer as it was.
pub proof fn law_zero_keeps_suffix(old_buf: Seq<u8>, new_buf: Seq<u8>, len: usize)
    requires
        len <= old_buf.len(),
        zeroed_prefix(old_buf, new_buf, len as int),
    ensures
        new_buf.len() == old_buf.len(),
        new_buf.skip(len as int) == old_buf.skip(len as int),
        forall|i: int| 0 <= i < len ==> #[trigger] new_buf[i] == 0u8,
{
    assert(new_buf.skip(len as int) =~= old_buf.skip(len as int));
}

/// Size-class dispatched memory operations.
pub struct SIMDMemoryOps;

impl SIMDMemoryOps {
    /// Copies the first `len` bytes of `src` into `dst`; the rest of `dst`
    /// is left as it was.
    ///
    /// Lengths up to 8 are copied bytewise, up to 16 as one 16-lane block,
    /// up to 32 as one 32-lane block, up to 64 as two 32-lane blocks, and
    /// longer inputs as a run of 32-lane blocks and a tail block.
    pub fn memcpy_simd_optimized(dst: &mut [u8], src: &[u8], len: usize)
        requires
            len <= old(dst)@.len(),
            len <= src@.len(),
        ensures
            copied_prefix(old(dst)@, final(dst)@, src@, len as int),
    {
        if len == 0 {
        } else if len <= 8 {
            Self::memcpy_small(dst, src, len);
        } else if len <= 16 {
            Self::memcpy_sse(dst, src, 0, len);
        } else if len <= 32 {
            Self::memcpy_avx(dst, src, 0, len);
        } else if len <= 64 {
            Self::memcpy_avx2(dst, src, 0, len);
        } else {
            Self::memcpy_avx512_or_fallback(dst, src, len);
        }
        proof {
            lemma_copied_range_is_prefix(old(dst)@, dst@, src@, len as int);
        }
    }

    /// Copies 1 to 8 bytes, one byte at a time.
    fn memcpy_small(dst: &mut [u8], src: &[u8], len: usize)
        requires
            1 <= len <= 8,
            len <= old(dst)@.len(),
            len <= src@.len(),
        ensures
            copied_range(old(dst)@, final(dst)@, src@, 0, len as int),
    {
        let mut i: usize = 0;
        while i < len
            invariant
                i <= len <= 8,
                len <= dst@.len(),
                len <= src@.len(),
                copied_range(old(dst)@, dst@, src@, 0, i as int),
            decreases len - i,
        {
            dst[i] = src[i];
            i = i + 1;
        }
    }

    /// Copies up to 16 bytes at `off` as a single block.
    fn memcpy_sse(dst: &mut [u8], src: &[u8], off: usize, len: usize)
        requires
            len <= 16,
            off + len <= old(dst)@.len(),
            off + len <= src@.len(),
        ensures
            copied_range(old(dst)@, final(dst)@, src@, off as int, len as int),
    {
        copy_block(dst, src, off, len);
    }

    /// Copies up to 32 bytes at `off` as a single block.
    fn memcpy_avx(dst: &mut [u8], src: &[u8], off: usize, len: usize)
        requires
            len <= 32,
            off + len <= old(dst)@.len(),
            off + len <= src@.len(),
        ensures
            copied_range(old(dst)@, final(dst)@, src@, off as int, len as int),
    {
        copy_block(dst, src, off, len);
    }

    /// Copies up to 64 bytes at `off`: a first block of at most 32 bytes,
    /// then the remaining bytes as a second block.
    fn memcpy_avx2(dst: &mut [u8], src: &[u8], off: usize, len: usize)
        requires
            len <= 64,
            off + len <= old(dst)@.len(),
            off + len <= src@.len(),
        ensures
            copied_range(old(dst)@, final(dst)@, src@, off as int, len as int),
    {
        let dst_len = dst.len();
        let first = if len < 32 { len } else { 32 };
        copy_block(dst, src, off, first);
        if len > 32 {
            assert(off + len <= dst_len);
            let remaining = len - 32;
            copy_block(dst, src, off + 32, remaining);
            assert(copied_range(old(dst)@, dst@, src@, off as int, len as int));
        }
    }

    /// Copies more than 64 bytes as whole 32-byte blocks followed by the
    /// remaining tail.
    fn memcpy_avx512_or_fallback(dst: &mut [u8], src: &[u8], len: usize)
        requires
            len <= old(dst)@.len(),
            len <= src@.len(),
        ensures
            copied_range(old(dst)@, final(dst)@, src@, 0, len as int),
    {
        let dst_len = dst.len();
        let chunks = len / 32;
        let mut offset: usize = 0;
        let mut c: usize = 0;
        while c < chunks
            invariant
                chunks == len / 32,
                c <= chunks,
                offset == c * 32,
                dst_len == dst@.len(),
                len <= dst@.len(),
                len <= src@.len(),
                copied_range(old(dst)@, dst@, src@, 0, offset as int),
            decreases chunks - c,
        {
            Self::memcpy_avx2(dst, src, offset, 32);
            offset = offset + 32;
            c = c + 1;
        }
        let remaining = len % 32;
        if remaining > 0 {
            Self::memcpy_avx(dst, src, offset, remaining);
        }
    }

    /// Whether the first `len` bytes of `a` and `b` agree.
    ///
    /// Lengths up to 8 are compared bytewise, up to 16 through a 16-lane
    /// equality mask, up to 32 through a 32-lane mask, and longer inputs as a
    /// run of 32-lane blocks and a tail block.
    pub fn memcmp_simd_optimized(a: &[u8], b: &[u8], len: usize) -> (r: bool)
        requires
            len <= a@.len(),
            len <= b@.len(),
        ensures
            r == prefix_equal(a@, b@, len),
    {
        let r = if len == 0 {
            true
        } else if len <= 8 {
            Self::memcmp_small(a, b, len)
        } else if len <= 16 {
            Self::memcmp_sse(a, b, 0, len)
        } else if len <= 32 {
            Self::memcmp_avx2(a, b, 0, len)
        } else {
            Self::memcmp_large(a, b, len)
        };
        proof {
            lemma_block_equal_is_prefix(a@, b@, len);
        }
        r
    }

    /// Compares 1 to 8 bytes one at a time.
    fn memcmp_small(a: &[u8], b: &[u8], len: usize) -> (r: bool)
        requires
            1 <= len <= 8,
            len <= a@.len(),
            len <= b@.len(),
        ensures
            r == block_equal(a@, b@, 0, len),
    {
        let mut i: usize = 0;
        while i < len
            invariant
                i <= len <= 8,
                len <= a@.len(),
                len <= b@.len(),
                block_equal(a@, b@, 0, i),
            decreases len - i,
        {
            if a[i] != b[i] {
                assert(a@[0 + i] != b@[0 + i]);
                return false;
            }
            i = i + 1;
        }
        true
    }

    /// Compares up to 16 bytes at `off` through a 16-lane equality mask.
    fn memcmp_sse(a: &[u8], b: &[u8], off: usize, len: usize) -> (r: bool)
        requires
            len <= 16,
            off + len <= a@.len(),
            off + len <= b@.len(),
        ensures
            r == block_equal(a@, b@, off, len),
    {
        lanes_match(a, b, off, len)
    }

    /// Compares up to 32 bytes at `off` through a 32-lane equality mask.
    fn memcmp_avx2(a: &[u8], b: &[u8], off: usize, len: usize) -> (r: bool)
        requires
            len <= 32,
            off + len <= a@.len(),
            off + len <= b@.len(),
        ensures
            r == block_equal(a@, b@, off, len),
    {
        lanes_match(a, b, off, len)
    }

    /// Compares whole 32-byte blocks, stopping at the first difference, then
    /// the remaining tail.
    fn memcmp_large(a: &[u8], b: &[u8], len: usize) -> (r: bool)
        requires
            len <= a@.len(),
            len <= b@.len(),
        ensures
            r == block_equal(a@, b@, 0, len),
    {
        let a_len = a.len();
        let chunks = len / 32;
        let mut i: usize = 0;
        while i < chunks
            invariant
                chunks == len / 32,
                i <= chunks,
                a_len == a@.len(),
                len <= a@.len(),
                len <= b@.len(),
                forall|j: int| 0 <= j < i * 32 ==> #[trigger] a@[j] == b@[j],
            decreases chunks - i,
        {
            let offset = i * 32;
            if !Self::memcmp_avx2(a, b, offset, 32) {
                proof {
                    let j = choose|j: int| 0 <= j < 32 && #[trigger] a@[offset + j] != b@[offset + j];
                    assert(a@[0 + (offset + j)] != b@[0 + (offset + j)]);
                    assert(!block_equal(a@, b@, 0, len));
                }
                return false;
            }
            proof {
                assert forall|j: int| 0 <= j < (i + 1) * 32 implies #[trigger] a@[j] == b@[j] by {
                    if j >= i * 32 {
                        assert(a@[offset + (j - offset)] == b@[offset + (j - offset)]);
                    }
                }
            }
            i = i + 1;
        }
        let remaining = len % 32;
        if remaining > 0 {
            let tail = Self::memcmp_avx2(a, b, chunks * 32, remaining);
            proof {
                let base: int = chunks * 32;
                if tail {
                    assert forall|j: int| 0 <= j < len implies #[trigger] a@[0 + j] == b@[0 + j] by {
                        if j >= base {
                            assert(a@[base + (j - base)] == b@[base + (j - base)]);
                        }
                    }
                } else {
                    let j = choose|j: int| 0 <= j < remaining && #[trigger] a@[base + j] != b@[base + j];
                    assert(a@[0 + (base + j)] != b@[0 + (base + j)]);
                }
            }
            return tail;
        }
        proof {
            assert forall|j: int| 0 <= j < len implies #[trigger] a@[0 + j] == b@[0 + j] by {
                assert(a@[j] == b@[j]);
            }
        }
        true
    }

    /// Sets the first `len` bytes of `buf` to zero, as whole 32-byte blocks
    /// followed by the remaining bytes one at a time.
    pub fn memzero_simd_optimized(buf: &mut [u8], len: usize)
        requires
            len <= old(buf)@.len(),
        ensures
            zeroed_prefix(old(buf)@, final(buf)@, len as int),
    {
        let buf_len = buf.len();
        let chunks = len / 32;
        let mut offset: usize = 0;
        let mut c: usize = 0;
        while c < chunks
            invariant
                chunks == len / 32,
                c <= chunks,
                offset == c * 32,
                buf_len == buf@.len(),
                len <= buf@.len(),
                zeroed_range(old(buf)@, buf@, 0, offset as int),
            decreases chunks - c,
        {
            zero_block(buf, offset, 32);
            offset = offset + 32;
            c = c + 1;
        }
        let remaining = len % 32;
        let mut i: usize = 0;
        while i < remaining
            invariant
                remaining == len % 32,
                offset == chunks * 32,
                chunks == len / 32,
                i <= remaining,
                buf_len == buf@.len(),
                len <= buf@.len(),
                zeroed_range(old(buf)@, buf@, 0, offset + i),
            decreases remaining - i,
        {
            buf[offset + i] = 0;
            i = i + 1;
        }
        proof {
            lemma_zeroed_range_is_prefix(old(buf)@, buf@, len as int);
        }
    }
}

} // verus!
