//! Lane-wise byte comparison masks and block copies over byte slices.
//!
//! A comparison mask has bit `j` set exactly when lane `j` of the two inputs
//! holds equal bytes, the way a vector byte-compare followed by a move-mask
//! reports it.

use vstd::prelude::*;

verus! {

/// Bit `j` of `m` is set.
pub open spec fn bit_set(m: u32, j: u32) -> bool {
    (m >> j) & 1u32 == 1u32
}

/// The mask of the low `n` bits (all 32 bits from `n == 32` on).
pub open spec fn low_mask(n: u32) -> u32 {
    if n >= 32 {
        0xFFFF_FFFFu32
    } else {
        ((1u32 << n) - 1u32) as u32
    }
}

/// Bytes `off .. off + len` of `a` and `b` agree.
pub open spec fn lanes_equal(a: Seq<u8>, b: Seq<u8>, off: int, len: int) -> bool {
    forall|j: int| 0 <= j < len ==> #[trigger] a[off + j] == b[off + j]
}

/// Bytes `off .. off + len` of `a` and `b` agree (machine-word positions).
pub open spec fn block_equal(a: Seq<u8>, b: Seq<u8>, off: usize, len: usize) -> bool {
    lanes_equal(a, b, off as int, len as int)
}

/// `new` is `old` with bytes `off .. off + n` taken from `src`.
pub open spec fn copied_range(old: Seq<u8>, new: Seq<u8>, src: Seq<u8>, off: int, n: int) -> bool {
    &&& new.len() == old.len()
    &&& forall|i: int|
        0 <= i < new.len() ==> #[trigger] new[i] == (if off <= i < off + n {
            src[i]
        } else {
            old[i]
        })
}

/// `new` is `old` with bytes `off .. off + n` set to zero.
pub open spec fn zeroed_range(old: Seq<u8>, new: Seq<u8>, off: int, n: int) -> bool {
    &&& new.len() == old.len()
    &&& forall|i: int|
        0 <= i < new.len() ==> #[trigger] new[i] == (if off <= i < off + n {
            0u8
        } else {
            old[i]
        })
}

proof fn lemma_low_mask_step(m: u32, n: u32)
    by (bit_vector)
    requires
        n < 32,
    ensures
        ((m & low_mask((n + 1) as u32)) == low_mask((n + 1) as u32)) == ((m & low_mask(n)) == low_mask(n)
            && (m >> n) & 1u32 == 1u32),
{
}

proof fn lemma_low_mask_zero(m: u32)
    by (bit_vector)
    ensures
        (m & low_mask(0)) == low_mask(0),
{
}

/// All of the low `n` bits of `m` are set exactly when masking `m` with
/// `low_mask(n)` gives `low_mask(n)` back.
pub proof fn lemma_low_mask_all_set(m: u32, n: u32)
    requires
        n <= 32,
    ensures
        ((m & low_mask(n)) == low_mask(n)) <==> (forall|j: u32| j < n ==> #[trigger] bit_set(m, j)),
    decreases n,
{
    if n == 0 {
        lemma_low_mask_zero(m);
    } else {
        let p = (n - 1) as u32;
        lemma_low_mask_all_set(m, p);
        lemma_low_mask_step(m, p);
        assert((p + 1) as u32 == n);
        assert(low_mask((p + 1) as u32) == low_mask(n));
        if (m & low_mask(n)) == low_mask(n) {
            assert forall|j: u32| j < n implies #[trigger] bit_set(m, j) by {
                if j < p {
                    assert(bit_set(m, j));
                } else {
                    assert(j == p);
                }
            }
        }
        if forall|j: u32| j < n ==> #[trigger] bit_set(m, j) {
            assert(bit_set(m, p));
            assert forall|j: u32| j < p implies #[trigger] bit_set(m, j) by {
                assert(j < n);
            }
        }
    }
}

proof fn lemma_set_bit(m: u32, j: u32, i: u32)
    by (bit_vector)
    requires
        j < 32,
        i < 32,
    ensures
        i != j ==> (((m | (1u32 << j)) >> i) & 1u32 == 1u32) == ((m >> i) & 1u32 == 1u32),
        ((m | (1u32 << j)) >> j) & 1u32 == 1u32,
{
}

proof fn lemma_zero_bits(i: u32)
    by (bit_vector)
    requires
        i < 32,
    ensures
        !((0u32 >> i) & 1u32 == 1u32),
{
}

/// Lane-equality mask of `lanes` lanes starting at `off`: bit `j` is set
/// exactly when `a[off + j] == b[off + j]`; bits from `lanes` on are clear.
pub(crate) fn lane_mask(a: &[u8], b: &[u8], off: usize, lanes: usize) -> (m: u32)
    requires
        lanes <= 32,
        off + lanes <= a@.len(),
        off + lanes <= b@.len(),
    ensures
        forall|j: u32| j < lanes ==> (#[trigger] bit_set(m, j) <==> a@[off + j] == b@[off + j]),
        forall|j: u32| lanes <= j < 32 ==> !#[trigger] bit_set(m, j),
{
    let a_len = a.len();
    let mut m: u32 = 0;
    let mut j: usize = 0;
    proof {
        assert forall|i: u32| i < 32 implies !#[trigger] bit_set(m, i) by {
            lemma_zero_bits(i);
        }
    }
    while j < lanes
        invariant
            j <= lanes <= 32,
            a_len == a@.len(),
            off + lanes <= a@.len(),
            off + lanes <= b@.len(),
            forall|i: u32| i < j ==> (#[trigger] bit_set(m, i) <==> a@[off + i] == b@[off + i]),
            forall|i: u32| j <= i < 32 ==> !#[trigger] bit_set(m, i),
        decreases lanes - j,
    {
        if a[off + j] == b[off + j] {
            let ghost old_m = m;
            let jj = j as u32;
            m = m | (1u32 << jj);
            proof {
                assert forall|i: u32| i < 32 implies #[trigger] bit_set(m, i) == (bit_set(old_m, i) || i == jj) by {
                    lemma_set_bit(old_m, jj, i);
                }
            }
        }
        j = j + 1;
    }
    m
}

/// Whether bytes `off .. off + len` of `a` and `b` agree, decided from a
/// lane mask over at most 32 lanes checked against the low `len` bits.
pub(crate) fn lanes_match(a: &[u8], b: &[u8], off: usize, len: usize) -> (r: bool)
    requires
        len <= 32,
        off + len <= a@.len(),
        off + len <= b@.len(),
    ensures
        r == block_equal(a@, b@, off, len),
{
    let mask = lane_mask(a, b, off, len);
    proof {
        if len < 32 {
            let n = len as u32;
            assert(n < 32 ==> 1u32 << n >= 1u32) by (bit_vector);
        }
    }
    let valid_mask: u32 = if len >= 32 {
        0xFFFF_FFFF
    } else {
        (1u32 << (len as u32)) - 1
    };
    proof {
        let n = len as u32;
        assert(valid_mask == low_mask(n));
        lemma_low_mask_all_set(mask, n);
        if (mask & valid_mask) == valid_mask {
            assert forall|j: int| 0 <= j < len implies #[trigger] a@[off + j] == b@[off + j] by {
                assert(bit_set(mask, j as u32));
            }
        }
        if lanes_equal(a@, b@, off as int, len as int) {
            assert forall|j: u32| j < n implies #[trigger] bit_set(mask, j) by {
                assert(a@[off + j as int] == b@[off + j as int]);
            }
        }
    }
    (mask & valid_mask) == valid_mask
}

/// Copies bytes `off .. off + n` of `src` into `dst`.
pub(crate) fn copy_block(dst: &mut [u8], src: &[u8], off: usize, n: usize)
    requires
        off + n <= old(dst)@.len(),
        off + n <= src@.len(),
    ensures
        copied_range(old(dst)@, final(dst)@, src@, off as int, n as int),
{
    let dst_len = dst.len();
    let mut i: usize = 0;
    while i < n
        invariant
            i <= n,
            dst_len == dst@.len(),
            off + n <= dst@.len(),
            off + n <= src@.len(),
            copied_range(old(dst)@, dst@, src@, off as int, i as int),
        decreases n - i,
    {
        dst[off + i] = src[off + i];
        i = i + 1;
    }
}

/// Sets bytes `off .. off + n` of `dst` to zero.
pub(crate) fn zero_block(dst: &mut [u8], off: usize, n: usize)
    requires
        off + n <= old(dst)@.len(),
    ensures
        zeroed_range(old(dst)@, final(dst)@, off as int, n as int),
{
    let dst_len = dst.len();
    let mut i: usize = 0;
    while i < n
        invariant
            i <= n,
            dst_len == dst@.len(),
            off + n <= dst@.len(),
            zeroed_range(old(dst)@, dst@, off as int, i as int),
        decreases n - i,
    {
        dst[off + i] = 0;
        i = i + 1;
    }
}

} // verus!
